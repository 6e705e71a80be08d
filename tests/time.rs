use tx_compress::model::transaction::Transaction;
use tx_compress::time::{get_unix_time_millis, millis_from_parts};

#[test]
fn clock_reads_past_the_epoch() {
    let now = get_unix_time_millis();
    assert!(now > 1_500_000_000_000);
    let tx = Transaction::default();
    assert!(tx.issuance_timestamp >= now);
    assert_eq!(tx.issuance_timestamp, tx.attachment_timestamp);
}

#[test]
fn milliseconds_from_parts() {
    assert_eq!(1_544_207_541_879, millis_from_parts(1_544_207_541, 879));
    assert_eq!(0, millis_from_parts(0, 0));
    assert_eq!(i64::MAX, millis_from_parts(u64::MAX, 999));
    assert_eq!(i64::MAX, millis_from_parts(9_223_372_036_854_775, 808));
    assert_eq!(i64::MAX - 1, millis_from_parts(9_223_372_036_854_775, 806));
}
