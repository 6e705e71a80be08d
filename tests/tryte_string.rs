use tx_compress::error::CodecError;
use tx_compress::convert::tryte_string::{
    from_ascii, from_trits, from_trits_243, from_trytes, pad_right, unpad_right,
};

#[test]
fn test_from_ascii() {
    let ascii_text = "Hello";
    let tryte_string = from_ascii(ascii_text);

    assert_eq!("YEZNMEQWF", tryte_string);
}

#[test]
fn test_pad_right() {
    let text = "HELLO9WORLD";
    let padded30 = pad_right(&text, 30);
    assert_eq!("HELLO9WORLD9999999999999999999", padded30);

    let padded3 = pad_right(&text, 3);
    assert_eq!("HELLO9WORLD", padded3);
}

#[test]
fn test_unpad_right() {
    let text = "HELLO9WORLD99999999999999999999";
    assert_eq!("HELLO9WORLD", unpad_right(text));

    let nines = "99999999";
    assert_eq!("", unpad_right(nines));
}

#[test]
fn test_pad_unpad_right() {
    assert_eq!("HELLO9WORLD", unpad_right(&pad_right("HELLO9WORLD", 100)));
}

#[test]
fn test_from_trits() {
    let tryte = from_trits(&[1, 1, 1]).unwrap();

    assert_eq!(tryte, "M".to_string());
}

#[test]
fn tryte_strings_from_trits_and_trytes() {
    assert_eq!("9AZN", from_trits(&[0, 0, 0, 1, 0, 0, -1, 0, 0, -1, -1, -1]).unwrap());
    assert_eq!("9".repeat(81), from_trits_243(&[0; 243]));
    assert_eq!("ABC", from_trytes(b"ABC"));
    assert_eq!("", unpad_right(""));
    assert_eq!("9A", unpad_right("9A99"));
}

#[test]
fn tryte_strings_from_trits_validate() {
    assert_eq!(Err(CodecError::LengthMismatch), from_trits(&[1, 1]));
    assert_eq!(Err(CodecError::InvalidAlphabet), from_trits(&[1, 2, 1]));
    assert_eq!(Ok(String::new()), from_trits(&[]));
}
