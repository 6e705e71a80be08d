use tx_compress::constants::TRANSACTION_SIZE_TRYTES;
use tx_compress::convert::bytes::{
    from_243_trits_2enc9, from_81_trytes_2enc9, from_trytes_2enc9, from_tx_trits_2enc9,
    from_tx_trytes_2enc9,
};
use tx_compress::convert::{trits, trytes};

// The 2673 trytes of a transaction of the main network, in that network's
// field order; `get_example_trytes` reorders them for this schema, moving the
// bundle hash ahead of the address as the extra data digest.
const MAINNET_TRYTES: &str = "SEGQSWYCJHRLJYEGZLRYQAZPLVRAYIWGWJUMFFX99UZUKBQNFYAOQLOFARIKNEBKDRHJJWDJARXTNPHPAODJRSGJBVVYBVJHZALJWDCJHZRSACOVCVVAVHZVTPFTAJWVGFSVLSYXHNNXEGSMJHDBZKGFQNYJJJBAPDHFFGZ9POSOMWTDPGXI9KQRLMUVWNEQDANMXROVORJVALWVGDDJAFOOBXUKVCCIVXSSHZUCZV9XVBASLWX9NXPWGMGYCRD9ILQMKIGPBGGMKAIJKNALBLABATYFVIRBKTXTWNUZAUXRASB9EEIQHWBD9ZYUDBUPBSWXVYXQXECRCHQAYH9ZBUZBASPOIGBSGWJYFKFRITUBVMCYGCMAPTXOIWEVTUXSUOUPTUQOPMMPUTHXMOP9CW9THAZXEPMOMNEOBLUBPOAIOBEBERRZCIKHSTDWUSUPUWNJOCLNZDCEKWWAAJDPJXJEHHSYFN9MH9BGUDQ9CSZBIHRC9PSQJPGKH9ILZDWUWLEKWFKUFFFIMOQKRMKOYXEJHXLCEGCGGKHGJUHOXINSWCKRNMUNAJDCVLZGEBII9ASTYFTDYDZIZSNHIWHSQ9HODQMVNDKMKHCFDXIIGDIVJSBOOE9GRIXCD9ZUTWCUDKFTETSYSRBQABXCXZFOWQMQFXHYZWD9JZXUWHILMRNWXSGUMIIXZYCTWWHCWMSSTCNSQXQXMQPTM9MOQMIVDYNNARDCVNQEDTBKWOIOSKPKPOZHJGJJGNYWQWUWAZMBZJ9XEJMRVRYFQPJ9NOIIXEGIKMMN9DXYQUILRSCSJDIDN9DCTFGQIYWROZQIEQTKMRVLGGDGA9UVZPNRGSVTZYAPMWFUWDEUULSEEGAGITPJQ9DBEYEN9NVJPUWZTOTJHEQIXAPDOICBNNCJVDNM9YRNXMMPCOYHJDUFNCYTZGRCBZKOLHHUK9VOZWHEYQND9WUHDNGFTAS99MRCAU9QOYVUZKTIBDNAAPNEZBQPIRUFUMAWVTCXSXQQIYQPRFDUXCLJNMEIKVAINVCCZROEWEX9XVRM9IHLHQCKC9VLK9ZZWFBJUZKGJCSOPQPFVVAUDLKFJIJKMLZXFBMXLMWRSNDXRMMDLE9VBPUZB9SVLTMHA9DDDANOKIPY9ULDWAKOUDFEDHZDKMU9VMHUSFG9HRGZAZULEJJTEH9SLQDOMZTLVMBCXVNQPNKXRLBOUCCSBZRJCZIUFTFBKFVLKRBPDKLRLZSMMIQNMOZYFBGQFKUJYIJULGMVNFYJWPKPTSMYUHSUEXIPPPPPJTMDQLFFSFJFEPNUBDEDDBPGAOEJGQTHIWISLRDAABO9H9CSIAXPPJYCRFRCIH9TVBZKTCK9SPQZUYMUOKMZYOMPRHRGF9UAKZTZZG9VVVTIHMSNDREUOUOSLKUHTNFXTNSJVPVWCQXUDIMJIAMBPXUGBNDTBYPKYQYJJCDJSCTTWHOJKORLHGKRJMDCMRHSXHHMQBFJWZWHNUHZLYOAFQTRZFXDBYASYKWEVHKYDTJIAUKNCCEPSW9RITZXBOFKBAQOWHKTALQSCHARLUUGXISDMBVEUKOVXTKTEVKLGYVYHPNYWKNLCVETWIHHVTBWT9UPMTQWBZPRPRSISUBIBECVDNIZQULAGLONGVFLVZPBMHJND9CEVIXSYGFZAGGN9MQYOAKMENSEOGCUNKEJTDLEDCD9LGKYANHMZFSSDDZJKTKUJSFL9GYFDICTPJEPDSBXDQTARJQEWUVWDWSQPKIHPJONKHESSQH9FNQEO9WUCFDWPPPTIQPWCVDYTTWPLCJJVYNKE9ZEJNQBEJBMDBLNJKQDOQOHVS9VY9UPSU9KZVDFOESHNRRWBK9EZCYALAUYFGPCEWJQDXFENSNQEAUWDXJGOMCLQUQWMCPHOBZZ9SZJ9KZXSHDLPHPNYMVUJQSQETTN9SG9SIANJHWUYQXZXAJLYHCZYRGITZYQLAAYDVQVNKCDIYWAYBAFBMAYEAEAGMTJGJRSNHBHCEVIQRXEFVWJWOPU9FPDOWIFL9EWGHICRBNRITJDZNYACOGTUDBZYIYZZWAOCDBQFFNTTSTGKECWTVWZSPHX9HNRUYEAEWXENEIDLVVFMZFVPUNHMQPAIOKVIBDIHQIHFGRJOHHONPLGBSJUD9HHDTQQUZN9NVJYOAUMXMMOCNUFLZ9BAJSZMDMPQHPWSFVWOJQDPHV9DYSQPIBL9LYZHQKKOVF9TFVTTXQEUWFQSLGLVTGK99VSUEDXIBIWCQHDQQSQLDHZ9999999999999999999TRINITY99999999999999999999TNXSQ9D99A99999999B99999999MXKZAGDGKVADXOVCAXEQYZGOGQKDLKIUPYXIL9PXYBQXGYDEGNXTFURSWQYLJDFKEV9VVBBQLTLHIBTFYOGBHPUUHS9CKWSAPIMDIRNSUJ9CFPGKTUFAGQYVMFKOZSVAHIFJXWCFBZLICUWF9GNDZWCOWDUIIZ9999OXNRVXLBKJXEZMVABR9UQBVSTBDFSAJVRRNFEJRL9UFTOFPJHQMQKAJHDBIQAETS9OUVTQ9DSPAOZ9999TRINITY99999999999999999999LPZYMWQME999999999MMMMMMMMMDTIZE9999999999999999999999";

fn get_example_trytes() -> String {
    let sig_msg_frag = MAINNET_TRYTES.get(0..2187).unwrap();
    let extra_data_digest = MAINNET_TRYTES.get((2187 + 162)..(2187 + 162 + 81)).unwrap();
    let addr_value_tag_timestamps = MAINNET_TRYTES.get(2187..(2187 + 162)).unwrap();
    let rest = MAINNET_TRYTES.get((2187 + 162 + 81)..).unwrap();

    format!(
        "{}{}{}{}",
        sig_msg_frag, extra_data_digest, addr_value_tag_timestamps, rest
    )
}

#[test]
fn test_from_to_tx_bytes() {
    let example_tryte_string = get_example_trytes();
    let example_trytes = example_tryte_string.as_bytes();
    let mut tx_trytes = [0; TRANSACTION_SIZE_TRYTES];
    tx_trytes[..].copy_from_slice(&example_trytes[..]);

    assert_eq!(TRANSACTION_SIZE_TRYTES, example_trytes.len());
    assert_eq!(
        example_tryte_string,
        String::from_utf8(
            trytes::from_tx_bytes_2enc9(&from_tx_trytes_2enc9(&tx_trytes)).to_vec()
        )
        .unwrap()
    );
}

#[test]
fn packing_splits_the_third_tryte() {
    // 'A' = 1, 'B' = 2, 'Z' = 26: bytes 1 * 8 + 26 % 8 and 2 * 8 + 26 / 8.
    assert_eq!(vec![10u8, 19], from_trytes_2enc9(b"ABZ"));
    assert_eq!(vec![0u8, 0], from_trytes_2enc9(b"999"));
    assert_eq!(vec![210u8, 211], from_trytes_2enc9(b"ZZZ"));
    assert_eq!(b"ABZ".to_vec(), trytes::from_bytes_2enc9(&[10, 19], 0, 2));
}

#[test]
fn packing_from_trits_matches_packing_from_trytes() {
    let tx_trytes = get_example_trytes();
    let tx_trits = trits::from_tx_trytes(tx_trytes.as_bytes());
    assert_eq!(
        from_tx_trytes_2enc9(tx_trytes.as_bytes()),
        from_tx_trits_2enc9(&tx_trits)
    );
    let address = &tx_trytes.as_bytes()[2268..2349];
    let address_trits = trits::from_trytes(address);
    assert_eq!(from_81_trytes_2enc9(address), from_243_trits_2enc9(&address_trits));
    assert_eq!(54, from_81_trytes_2enc9(address).len());
    assert_eq!(address.to_vec(), trytes::from_54_bytes_2enc9(&from_81_trytes_2enc9(address)));
}

#[test]
fn validity_of_packed_bytes() {
    assert!(trytes::is_valid_2enc9(&[210, 211]));
    assert!(!trytes::is_valid_2enc9(&[216, 0]));
    assert!(!trytes::is_valid_2enc9(&[0, 0xFF]));
    assert!(!trytes::is_valid_2enc9(&[7, 3]));
    assert!(!trytes::is_valid_2enc9(&[0]));
    let packed = from_trytes_2enc9(b"9AB999999999999999999999999");
    assert_eq!(b"9AB999999".to_vec(), trytes::from_18_bytes_2enc9(&packed)[0..9].to_vec());
}
