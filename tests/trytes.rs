use tx_compress::convert::trytes::{
    from_ascii, from_ascii_to_trytes_27, from_trits, from_trits_fixed81,
    from_tryte_string_to_fragment_trytes, from_tryte_string_trytes_81,
};
use tx_compress::error::CodecError;

#[test]
fn test_from_ascii_with_empty_str() {
    let trytes = from_ascii("");

    assert_eq!(0, trytes.len());
}

#[test]
fn test_from_tryte_string_to_fragment_trytes_with_empty_str() {
    let trytes = from_tryte_string_to_fragment_trytes("").unwrap();

    assert_eq!(2187, trytes.len());
    assert!(trytes.iter().any(|t| *t == 57));
}

#[test]
fn test_from_tryte_string_to_fragment_trytes() {
    let trytes = from_tryte_string_to_fragment_trytes("ABC").unwrap();

    assert_eq!(2187, trytes.len());
    assert_eq!(65, trytes[0]);
    assert_eq!(66, trytes[1]);
    assert_eq!(67, trytes[2]);
    assert!(trytes.iter().skip(3).any(|t| *t == 57));
}

#[test]
fn fragment_trytes_are_cut_and_validated() {
    let long = "A".repeat(3000);
    let trytes = from_tryte_string_to_fragment_trytes(&long).unwrap();
    assert_eq!(vec![65u8; 2187], trytes);
    assert_eq!(
        Err(CodecError::InvalidAlphabet),
        from_tryte_string_to_fragment_trytes("abc")
    );
}

#[test]
fn trytes_81_are_validated() {
    let address = "A".repeat(81);
    assert_eq!(address.as_bytes().to_vec(), from_tryte_string_trytes_81(&address).unwrap());
    assert_eq!(Err(CodecError::LengthMismatch), from_tryte_string_trytes_81("ABC"));
    assert_eq!(Err(CodecError::InvalidAlphabet), from_tryte_string_trytes_81("a"));
}

#[test]
fn tag_trytes_from_ascii() {
    assert_eq!(b"YEZNMEQWF999999999999999999".to_vec(), from_ascii_to_trytes_27("Hello"));
    let long = "Hello, this text is longer than a tag";
    assert_eq!(from_ascii(&long[0..18]), from_ascii_to_trytes_27(long));
    assert_eq!(vec![57u8; 27], from_ascii_to_trytes_27(""));
}

#[test]
fn trytes_from_trits() {
    assert_eq!(b"M9Z".to_vec(), from_trits(&[1, 1, 1, 0, 0, 0, -1, 0, 0]).unwrap());
    assert_eq!(Err(CodecError::LengthMismatch), from_trits(&[0; 4]));
    assert_eq!(Err(CodecError::InvalidAlphabet), from_trits(&[0, -2, 0]));
    assert_eq!(vec![57u8; 81], from_trits_fixed81(&[0; 243]));
}
