use tx_compress::constants::{
    ADDRESS, ATTACHMENT_TIMESTAMP, ATTACHMENT_TIMESTAMP_LOWER_BOUND,
    ATTACHMENT_TIMESTAMP_UPPER_BOUND, BRANCH_HASH, BUNDLE_NONCE, EXTRA_DATA_DIGEST,
    ISSUANCE_TIMESTAMP, MAX_TOKEN_SUPPLY, NONCE, SIGNATURE_FRAGMENTS, TAG, TIMELOCK_LOWER_BOUND,
    TIMELOCK_UPPER_BOUND, TRANSACTION_SIZE_BYTES, TRANSACTION_SIZE_TRITS, TRANSACTION_SIZE_TRYTES,
    TRUNK_HASH, VALUE,
};
use tx_compress::constants::is_trytes;

#[test]
fn test_transaction_trit_length_constants() {
    let sum = SIGNATURE_FRAGMENTS.1
        + EXTRA_DATA_DIGEST.1
        + ADDRESS.1
        + VALUE.1
        + ISSUANCE_TIMESTAMP.1
        + TIMELOCK_LOWER_BOUND.1
        + TIMELOCK_UPPER_BOUND.1
        + BUNDLE_NONCE.1
        + TRUNK_HASH.1
        + BRANCH_HASH.1
        + TAG.1
        + ATTACHMENT_TIMESTAMP.1
        + ATTACHMENT_TIMESTAMP_LOWER_BOUND.1
        + ATTACHMENT_TIMESTAMP_UPPER_BOUND.1
        + NONCE.1;

    assert_eq!(sum, TRANSACTION_SIZE_TRITS);
}

#[test]
fn test_transaction_trit_offset_constants() {
    assert_eq!(
        EXTRA_DATA_DIGEST.0,
        SIGNATURE_FRAGMENTS.0 + SIGNATURE_FRAGMENTS.1
    );
    assert_eq!(ADDRESS.0, EXTRA_DATA_DIGEST.0 + EXTRA_DATA_DIGEST.1);
    assert_eq!(VALUE.0, ADDRESS.0 + ADDRESS.1);
    assert_eq!(ISSUANCE_TIMESTAMP.0, VALUE.0 + VALUE.1);
    assert_eq!(
        TIMELOCK_LOWER_BOUND.0,
        ISSUANCE_TIMESTAMP.0 + ISSUANCE_TIMESTAMP.1
    );
    assert_eq!(
        TIMELOCK_UPPER_BOUND.0,
        TIMELOCK_LOWER_BOUND.0 + TIMELOCK_LOWER_BOUND.1
    );
    assert_eq!(
        BUNDLE_NONCE.0,
        TIMELOCK_UPPER_BOUND.0 + TIMELOCK_UPPER_BOUND.1
    );
    assert_eq!(TRUNK_HASH.0, BUNDLE_NONCE.0 + BUNDLE_NONCE.1);
    assert_eq!(BRANCH_HASH.0, TRUNK_HASH.0 + TRUNK_HASH.1);
    assert_eq!(TAG.0, BRANCH_HASH.0 + BRANCH_HASH.1);
    assert_eq!(ATTACHMENT_TIMESTAMP.0, TAG.0 + TAG.1);
    assert_eq!(
        ATTACHMENT_TIMESTAMP_LOWER_BOUND.0,
        ATTACHMENT_TIMESTAMP.0 + ATTACHMENT_TIMESTAMP.1
    );
    assert_eq!(
        ATTACHMENT_TIMESTAMP_UPPER_BOUND.0,
        ATTACHMENT_TIMESTAMP_LOWER_BOUND.0 + ATTACHMENT_TIMESTAMP_LOWER_BOUND.1
    );
    assert_eq!(
        NONCE.0,
        ATTACHMENT_TIMESTAMP_UPPER_BOUND.0 + ATTACHMENT_TIMESTAMP_UPPER_BOUND.1
    );
    assert_eq!(TRANSACTION_SIZE_TRITS, NONCE.0 + NONCE.1);
}

#[test]
fn test_transaction_tryte_length_constants() {
    let sum = SIGNATURE_FRAGMENTS.3
        + EXTRA_DATA_DIGEST.3
        + ADDRESS.3
        + VALUE.3
        + ISSUANCE_TIMESTAMP.3
        + TIMELOCK_LOWER_BOUND.3
        + TIMELOCK_UPPER_BOUND.3
        + BUNDLE_NONCE.3
        + TRUNK_HASH.3
        + BRANCH_HASH.3
        + TAG.3
        + ATTACHMENT_TIMESTAMP.3
        + ATTACHMENT_TIMESTAMP_LOWER_BOUND.3
        + ATTACHMENT_TIMESTAMP_UPPER_BOUND.3
        + NONCE.3;

    assert_eq!(sum, TRANSACTION_SIZE_TRYTES);
}

#[test]
fn test_transaction_tryte_offset_constants() {
    assert_eq!(SIGNATURE_FRAGMENTS.0 / 3, SIGNATURE_FRAGMENTS.2);
    assert_eq!(EXTRA_DATA_DIGEST.0 / 3, EXTRA_DATA_DIGEST.2);
    assert_eq!(ADDRESS.0 / 3, ADDRESS.2);
    assert_eq!(VALUE.0 / 3, VALUE.2);
    assert_eq!(ISSUANCE_TIMESTAMP.0 / 3, ISSUANCE_TIMESTAMP.2);
    assert_eq!(TIMELOCK_LOWER_BOUND.0 / 3, TIMELOCK_LOWER_BOUND.2);
    assert_eq!(TIMELOCK_UPPER_BOUND.0 / 3, TIMELOCK_UPPER_BOUND.2);
    assert_eq!(BUNDLE_NONCE.0 / 3, BUNDLE_NONCE.2);
    assert_eq!(TRUNK_HASH.0 / 3, TRUNK_HASH.2);
    assert_eq!(BRANCH_HASH.0 / 3, BRANCH_HASH.2);
    assert_eq!(TAG.0 / 3, TAG.2);
    assert_eq!(ATTACHMENT_TIMESTAMP.0 / 3, ATTACHMENT_TIMESTAMP.2);
    assert_eq!(
        ATTACHMENT_TIMESTAMP_LOWER_BOUND.0 / 3,
        ATTACHMENT_TIMESTAMP_LOWER_BOUND.2
    );
    assert_eq!(
        ATTACHMENT_TIMESTAMP_UPPER_BOUND.0 / 3,
        ATTACHMENT_TIMESTAMP_UPPER_BOUND.2
    );
    assert_eq!(NONCE.0 / 3, NONCE.2);
    assert_eq!(TRANSACTION_SIZE_TRITS / 3, TRANSACTION_SIZE_TRYTES);
}

#[test]
fn test_transaction_byte_length_constants() {
    let sum = SIGNATURE_FRAGMENTS.5
        + EXTRA_DATA_DIGEST.5
        + ADDRESS.5
        + VALUE.5
        + ISSUANCE_TIMESTAMP.5
        + TIMELOCK_LOWER_BOUND.5
        + TIMELOCK_UPPER_BOUND.5
        + BUNDLE_NONCE.5
        + TRUNK_HASH.5
        + BRANCH_HASH.5
        + TAG.5
        + ATTACHMENT_TIMESTAMP.5
        + ATTACHMENT_TIMESTAMP_LOWER_BOUND.5
        + ATTACHMENT_TIMESTAMP_UPPER_BOUND.5
        + NONCE.5;

    assert_eq!(sum, TRANSACTION_SIZE_BYTES);
}

#[test]
fn test_transaction_byte_offset_constants() {
    assert_eq!(SIGNATURE_FRAGMENTS.2 / 3 * 2, SIGNATURE_FRAGMENTS.4);
    assert_eq!(EXTRA_DATA_DIGEST.2 / 3 * 2, EXTRA_DATA_DIGEST.4);
    assert_eq!(ADDRESS.2 / 3 * 2, ADDRESS.4);
    assert_eq!(VALUE.2 / 3 * 2, VALUE.4);
    assert_eq!(ISSUANCE_TIMESTAMP.2 / 3 * 2, ISSUANCE_TIMESTAMP.4);
    assert_eq!(TIMELOCK_LOWER_BOUND.2 / 3 * 2, TIMELOCK_LOWER_BOUND.4);
    assert_eq!(TIMELOCK_UPPER_BOUND.2 / 3 * 2, TIMELOCK_UPPER_BOUND.4);
    assert_eq!(BUNDLE_NONCE.2 / 3 * 2, BUNDLE_NONCE.4);
    assert_eq!(TRUNK_HASH.2 / 3 * 2, TRUNK_HASH.4);
    assert_eq!(BRANCH_HASH.2 / 3 * 2, BRANCH_HASH.4);
    assert_eq!(TAG.2 / 3 * 2, TAG.4);
    assert_eq!(ATTACHMENT_TIMESTAMP.2 / 3 * 2, ATTACHMENT_TIMESTAMP.4);
    assert_eq!(
        ATTACHMENT_TIMESTAMP_LOWER_BOUND.2 / 3 * 2,
        ATTACHMENT_TIMESTAMP_LOWER_BOUND.4
    );
    assert_eq!(
        ATTACHMENT_TIMESTAMP_UPPER_BOUND.2 / 3 * 2,
        ATTACHMENT_TIMESTAMP_UPPER_BOUND.4
    );
    assert_eq!(NONCE.2 / 3 * 2, NONCE.4);
    assert_eq!(TRANSACTION_SIZE_TRYTES / 3 * 2, TRANSACTION_SIZE_BYTES);
}

#[test]
fn max_token_supply_is_what_eleven_trytes_hold() {
    assert_eq!((3i64.pow(33) - 1) / 2, MAX_TOKEN_SUPPLY);
}

#[test]
fn tryte_pattern_accepts_only_the_alphabet() {
    assert!(is_trytes("HELLO9WORLD"));
    assert!(is_trytes(""));
    assert!(!is_trytes("Hello"));
    assert!(!is_trytes("HELLO WORLD"));
    assert!(!is_trytes("ABC\n"));
    assert!(!is_trytes("ÄBC"));
}
