use rayon::iter::{IntoParallelIterator, ParallelIterator};
use tx_compress::convert::trits;
use tx_compress::convert::tryte_string;
use tx_compress::error::CodecError;
use tx_compress::model::transaction::{hash_from_digest, Transaction, TransactionBuilder};

// The 2673 trytes of a transaction of the main network, in that network's
// field order; `get_example_trytes` reorders them for this schema, moving the
// bundle hash ahead of the address as the extra data digest.
const MAINNET_TRYTES: &str = "SEGQSWYCJHRLJYEGZLRYQAZPLVRAYIWGWJUMFFX99UZUKBQNFYAOQLOFARIKNEBKDRHJJWDJARXTNPHPAODJRSGJBVVYBVJHZALJWDCJHZRSACOVCVVAVHZVTPFTAJWVGFSVLSYXHNNXEGSMJHDBZKGFQNYJJJBAPDHFFGZ9POSOMWTDPGXI9KQRLMUVWNEQDANMXROVORJVALWVGDDJAFOOBXUKVCCIVXSSHZUCZV9XVBASLWX9NXPWGMGYCRD9ILQMKIGPBGGMKAIJKNALBLABATYFVIRBKTXTWNUZAUXRASB9EEIQHWBD9ZYUDBUPBSWXVYXQXECRCHQAYH9ZBUZBASPOIGBSGWJYFKFRITUBVMCYGCMAPTXOIWEVTUXSUOUPTUQOPMMPUTHXMOP9CW9THAZXEPMOMNEOBLUBPOAIOBEBERRZCIKHSTDWUSUPUWNJOCLNZDCEKWWAAJDPJXJEHHSYFN9MH9BGUDQ9CSZBIHRC9PSQJPGKH9ILZDWUWLEKWFKUFFFIMOQKRMKOYXEJHXLCEGCGGKHGJUHOXINSWCKRNMUNAJDCVLZGEBII9ASTYFTDYDZIZSNHIWHSQ9HODQMVNDKMKHCFDXIIGDIVJSBOOE9GRIXCD9ZUTWCUDKFTETSYSRBQABXCXZFOWQMQFXHYZWD9JZXUWHILMRNWXSGUMIIXZYCTWWHCWMSSTCNSQXQXMQPTM9MOQMIVDYNNARDCVNQEDTBKWOIOSKPKPOZHJGJJGNYWQWUWAZMBZJ9XEJMRVRYFQPJ9NOIIXEGIKMMN9DXYQUILRSCSJDIDN9DCTFGQIYWROZQIEQTKMRVLGGDGA9UVZPNRGSVTZYAPMWFUWDEUULSEEGAGITPJQ9DBEYEN9NVJPUWZTOTJHEQIXAPDOICBNNCJVDNM9YRNXMMPCOYHJDUFNCYTZGRCBZKOLHHUK9VOZWHEYQND9WUHDNGFTAS99MRCAU9QOYVUZKTIBDNAAPNEZBQPIRUFUMAWVTCXSXQQIYQPRFDUXCLJNMEIKVAINVCCZROEWEX9XVRM9IHLHQCKC9VLK9ZZWFBJUZKGJCSOPQPFVVAUDLKFJIJKMLZXFBMXLMWRSNDXRMMDLE9VBPUZB9SVLTMHA9DDDANOKIPY9ULDWAKOUDFEDHZDKMU9VMHUSFG9HRGZAZULEJJTEH9SLQDOMZTLVMBCXVNQPNKXRLBOUCCSBZRJCZIUFTFBKFVLKRBPDKLRLZSMMIQNMOZYFBGQFKUJYIJULGMVNFYJWPKPTSMYUHSUEXIPPPPPJTMDQLFFSFJFEPNUBDEDDBPGAOEJGQTHIWISLRDAABO9H9CSIAXPPJYCRFRCIH9TVBZKTCK9SPQZUYMUOKMZYOMPRHRGF9UAKZTZZG9VVVTIHMSNDREUOUOSLKUHTNFXTNSJVPVWCQXUDIMJIAMBPXUGBNDTBYPKYQYJJCDJSCTTWHOJKORLHGKRJMDCMRHSXHHMQBFJWZWHNUHZLYOAFQTRZFXDBYASYKWEVHKYDTJIAUKNCCEPSW9RITZXBOFKBAQOWHKTALQSCHARLUUGXISDMBVEUKOVXTKTEVKLGYVYHPNYWKNLCVETWIHHVTBWT9UPMTQWBZPRPRSISUBIBECVDNIZQULAGLONGVFLVZPBMHJND9CEVIXSYGFZAGGN9MQYOAKMENSEOGCUNKEJTDLEDCD9LGKYANHMZFSSDDZJKTKUJSFL9GYFDICTPJEPDSBXDQTARJQEWUVWDWSQPKIHPJONKHESSQH9FNQEO9WUCFDWPPPTIQPWCVDYTTWPLCJJVYNKE9ZEJNQBEJBMDBLNJKQDOQOHVS9VY9UPSU9KZVDFOESHNRRWBK9EZCYALAUYFGPCEWJQDXFENSNQEAUWDXJGOMCLQUQWMCPHOBZZ9SZJ9KZXSHDLPHPNYMVUJQSQETTN9SG9SIANJHWUYQXZXAJLYHCZYRGITZYQLAAYDVQVNKCDIYWAYBAFBMAYEAEAGMTJGJRSNHBHCEVIQRXEFVWJWOPU9FPDOWIFL9EWGHICRBNRITJDZNYACOGTUDBZYIYZZWAOCDBQFFNTTSTGKECWTVWZSPHX9HNRUYEAEWXENEIDLVVFMZFVPUNHMQPAIOKVIBDIHQIHFGRJOHHONPLGBSJUD9HHDTQQUZN9NVJYOAUMXMMOCNUFLZ9BAJSZMDMPQHPWSFVWOJQDPHV9DYSQPIBL9LYZHQKKOVF9TFVTTXQEUWFQSLGLVTGK99VSUEDXIBIWCQHDQQSQLDHZ9999999999999999999TRINITY99999999999999999999TNXSQ9D99A99999999B99999999MXKZAGDGKVADXOVCAXEQYZGOGQKDLKIUPYXIL9PXYBQXGYDEGNXTFURSWQYLJDFKEV9VVBBQLTLHIBTFYOGBHPUUHS9CKWSAPIMDIRNSUJ9CFPGKTUFAGQYVMFKOZSVAHIFJXWCFBZLICUWF9GNDZWCOWDUIIZ9999OXNRVXLBKJXEZMVABR9UQBVSTBDFSAJVRRNFEJRL9UFTOFPJHQMQKAJHDBIQAETS9OUVTQ9DSPAOZ9999TRINITY99999999999999999999LPZYMWQME999999999MMMMMMMMMDTIZE9999999999999999999999";

const EXAMPLE_ADDR: &str =
    "BAJSZMDMPQHPWSFVWOJQDPHV9DYSQPIBL9LYZHQKKOVF9TFVTTXQEUWFQSLGLVTGK99VSUEDXIBIWCQHD";

fn get_example_trytes() -> String {
    let sig_msg_frag = MAINNET_TRYTES.get(0..2187).unwrap();
    let extra_data_digest = MAINNET_TRYTES.get((2187 + 162)..(2187 + 162 + 81)).unwrap();
    let addr_value_tag_timestamps = MAINNET_TRYTES.get(2187..(2187 + 162)).unwrap();
    let rest = MAINNET_TRYTES.get((2187 + 162 + 81)..).unwrap();

    format!(
        "{}{}{}{}",
        sig_msg_frag, extra_data_digest, addr_value_tag_timestamps, rest
    )
}

// A stand-in for the transaction digest: the first 243 trits, each negated
// on odd rounds.
fn first_trits(trits: Vec<i8>, rounds: usize) -> Vec<i8> {
    trits[0..243]
        .iter()
        .map(|t| if rounds % 2 == 1 { -*t } else { *t })
        .collect()
}

#[test]
fn test_transaction_decoding() {
    let example_trytes = get_example_trytes();
    let tx = Transaction::from_tryte_string(&example_trytes).unwrap();

    assert_eq!(EXAMPLE_ADDR, tx.address);
    assert_eq!(-7_297_419_313, tx.value);
    assert_eq!(1_544_207_541_879, tx.attachment_timestamp);
}

#[test]
fn test_transaction_encoding_decoding() {
    let orig = Transaction::from_tryte_string(&get_example_trytes()).unwrap();
    let copy = Transaction::from_tryte_string(&orig.as_tryte_string().unwrap()).unwrap();

    assert_eq!(orig.address, copy.address);
    assert_eq!(orig.tag, copy.tag);
    assert_eq!(orig.value, copy.value);
    assert_eq!(orig.as_tryte_string(), copy.as_tryte_string());

    let trits = trits::from_tx_trytes(&orig.as_trytes().unwrap());
    assert_eq!(trits, orig.as_trits().unwrap());

    let orig_hash = orig.get_hash(first_trits).unwrap();
    let copy_hash = copy.get_hash(first_trits).unwrap();

    assert_eq!(orig_hash, copy_hash);
}

#[test]
fn example_transaction_encodes_to_its_tryte_string() {
    let example = get_example_trytes();
    let tx = Transaction::from_tryte_string(&example).unwrap();
    assert_eq!(example, tx.as_tryte_string().unwrap());
    assert_eq!(1782, tx.as_bytes().unwrap().len());
    assert_eq!(8019, tx.as_trits().unwrap().len());
}

#[test]
fn built_transaction_survives_bytes() {
    let tx = TransactionBuilder::default()
        .value(-123_456_789)
        .trunk(&"T".repeat(81))
        .branch(&"B".repeat(81))
        .message("Hello")
        .tag("TRINITY")
        .build();
    let bytes = tx.as_bytes().unwrap();
    let back = Transaction::from_tx_bytes(&bytes).unwrap();
    assert_eq!(tx.signature_fragments, back.signature_fragments);
    assert_eq!(tx.extra_data_digest, back.extra_data_digest);
    assert_eq!(tx.address, back.address);
    assert_eq!(-123_456_789, back.value);
    assert_eq!(tx.issuance_timestamp, back.issuance_timestamp);
    assert_eq!(tx.timelock_lower_bound, back.timelock_lower_bound);
    assert_eq!(tx.timelock_upper_bound, back.timelock_upper_bound);
    assert_eq!(tx.bundle_nonce, back.bundle_nonce);
    assert_eq!("T".repeat(81), back.trunk);
    assert_eq!("B".repeat(81), back.branch);
    assert_eq!("TRINITY99999999999999999999", back.tag);
    assert_eq!(tx.attachment_timestamp, back.attachment_timestamp);
    assert_eq!(tx.attachment_timestamp_lower_bound, back.attachment_timestamp_lower_bound);
    assert_eq!(tx.attachment_timestamp_upper_bound, back.attachment_timestamp_upper_bound);
    assert_eq!(tx.nonce, back.nonce);
    assert_eq!(
        "Hello",
        tx_compress::convert::ascii::from_tryte_string(&back.signature_fragments).unwrap()
    );
}

#[test]
fn message_and_tag_are_padded() {
    let tx = Transaction::with_timestamp(5).message("Hello").tag("ABC");
    let mut fragment = String::from("YEZNMEQWF");
    fragment.push_str(&"9".repeat(2187 - 9));
    assert_eq!(fragment, tx.signature_fragments);
    assert_eq!("ABC999999999999999999999999", tx.tag);
    assert_eq!(5, tx.issuance_timestamp);
    assert_eq!(5, tx.attachment_timestamp);
    assert_eq!(0, tx.value);
}

#[test]
fn short_text_fields_are_padded_when_encoded() {
    let tx = TransactionBuilder::default().trunk("ABC").build();
    let back = Transaction::from_tx_bytes(&tx.as_bytes().unwrap()).unwrap();
    assert_eq!(format!("ABC{}", "9".repeat(78)), back.trunk);
}

#[test]
fn encoding_reports_the_first_bad_field() {
    let mut tx = Transaction::with_timestamp(0);
    tx.address = "abc".to_string();
    assert_eq!(Err(CodecError::InvalidAlphabet), tx.as_bytes());
    tx.value = i64::MAX;
    assert_eq!(Err(CodecError::InvalidAlphabet), tx.as_trytes());
    tx.address = "A".repeat(82);
    assert_eq!(Err(CodecError::NumericOverflow), tx.as_tryte_string());
    tx.address = "A".repeat(81);
    assert_eq!(Err(CodecError::NumericOverflow), tx.as_trits());
    tx.value = 0;
    tx.attachment_timestamp = (3i64.pow(27) - 1) / 2 + 1;
    assert_eq!(Err(CodecError::NumericOverflow), tx.as_bytes());
    assert_eq!(Err(CodecError::NumericOverflow), tx.get_hash(first_trits));
}

#[test]
fn decoding_validates_its_input() {
    assert_eq!(
        CodecError::InvalidAlphabet,
        Transaction::from_tryte_string("abc").unwrap_err()
    );
    assert_eq!(
        CodecError::LengthMismatch,
        Transaction::from_tryte_string("ABC").unwrap_err()
    );
    assert_eq!(
        CodecError::LengthMismatch,
        Transaction::from_tx_bytes(&[0u8; 100]).unwrap_err()
    );
    let mut bytes = vec![0u8; 1782];
    bytes[7] = 0xFF;
    assert_eq!(
        CodecError::InvalidAlphabet,
        Transaction::from_tx_bytes(&bytes).unwrap_err()
    );
}

#[test]
fn hash_is_the_digest_as_trytes() {
    let tx = Transaction::from_tryte_string(&get_example_trytes()).unwrap();
    let hash = tx.get_hash(first_trits).unwrap();
    let trits = tx.as_trits().unwrap();
    let expected: Vec<i8> = trits[0..243].iter().map(|t| -*t).collect();
    assert_eq!(tryte_string::from_trits(&expected).unwrap().into_bytes(), hash);
    assert_eq!(81, hash.len());
    assert_eq!(Err(CodecError::LengthMismatch), hash_from_digest(&[0; 242]));
    assert_eq!(Err(CodecError::InvalidAlphabet), hash_from_digest(&[2; 243]));
    assert_eq!(Ok(vec![57u8; 81]), hash_from_digest(&[0; 243]));
}

/// Creates 1000 different transactions and hashes them one after the other.
#[test]
fn bench_create_1000_transactions_with_hash() {
    let start = std::time::Instant::now();
    for i in 0..1000 {
        let _hash = Transaction::default()
            .message(&i.to_string())
            .get_hash(first_trits)
            .unwrap();
    }
    let stop = start.elapsed();

    println!(
        "{} ms",
        stop.as_secs() * 1000 + u64::from(stop.subsec_millis())
    );
}

/// Same as the test before, but in parallel with rayon.
#[test]
fn bench_create_1000_transactions_with_hash_par() {
    let start = std::time::Instant::now();
    (0..1000_u32).into_par_iter().for_each(|i: u32| {
        let _hash = Transaction::default()
            .message(&i.to_string())
            .get_hash(first_trits)
            .unwrap();
    });
    let stop = start.elapsed();

    println!(
        "{} ms",
        stop.as_secs() * 1000 + u64::from(stop.subsec_millis())
    );
}
