use tx_compress::convert::ascii::from_tryte_string;
use tx_compress::convert::tryte_string;
use tx_compress::error::CodecError;

#[test]
fn test_from_tryte_string() {
    let tryte_string = "YEZNMEQWF";
    let ascii_text = from_tryte_string(tryte_string).unwrap();

    assert_eq!("Hello", ascii_text);
}

#[test]
fn test_encode_decode_ascii() {
    assert_eq!(
        "Hello",
        from_tryte_string(&tryte_string::from_ascii("Hello")).unwrap()
    );
}

#[test]
fn ascii_round_trip_of_even_and_padded_texts() {
    for text in ["", "Hi", "Hello, World!", "0123456789", "~~~~", "A"] {
        let encoded = tryte_string::from_ascii(text);
        assert_eq!(text, from_tryte_string(&encoded).unwrap());
        let padded = tryte_string::pad_right(&encoded, 2187);
        assert_eq!(text, from_tryte_string(&padded).unwrap());
    }
}

#[test]
fn ascii_decoding_keeps_a_group_cut_by_trailing_filler() {
    // "M?" is written as the group "A99", which loses its filler when the
    // trailing filler of the string is dropped.
    let encoded = tryte_string::from_ascii("M?");
    assert_eq!("A99", encoded);
    assert_eq!("M?", from_tryte_string(&encoded).unwrap());
}

#[test]
fn ascii_decoding_of_filler_is_empty() {
    assert_eq!("", from_tryte_string("999999").unwrap());
    assert_eq!("", from_tryte_string("").unwrap());
}

#[test]
fn ascii_decoding_rejects_bad_input() {
    assert_eq!(Err(CodecError::InvalidAlphabet), from_tryte_string("hello"));
    // "MMM" is the group number 9841 + 9841 = 19682, whose first code 154 is
    // not ASCII.
    assert_eq!(Err(CodecError::InvalidAlphabet), from_tryte_string("MMM"));
}
