use deilephila::util::{
    bytes_to_hex, far_future_ms, hex_to_pubkey, i64_to_text, now_ms, time_after,
    timestamp_from_clock, u64_to_text,
};

#[test]
fn hex_of_bytes() {
    assert_eq!(bytes_to_hex(&[]), "");
    assert_eq!(bytes_to_hex(&[0x00, 0x0f, 0xa0, 0xff]), "000fa0ff");
}

#[test]
fn hex_reads_back() {
    let mut key = [0u8; 32];
    for (i, byte) in key.iter_mut().enumerate() {
        *byte = (i * 8) as u8;
    }
    let text = bytes_to_hex(&key);
    assert_eq!(text.len(), 64);
    assert_eq!(hex_to_pubkey(&text), Some(key));
    assert_eq!(hex_to_pubkey(&text.to_uppercase()), Some(key));
}

#[test]
fn text_that_is_no_key() {
    assert_eq!(hex_to_pubkey(""), None);
    assert_eq!(hex_to_pubkey(&"0".repeat(63)), None);
    assert_eq!(hex_to_pubkey(&"0".repeat(65)), None);
    assert_eq!(hex_to_pubkey(&"g".repeat(64)), None);
    assert_eq!(hex_to_pubkey(&"+0".repeat(32)), None);
    assert_eq!(hex_to_pubkey(&"é".repeat(32)), None);
    assert_eq!(hex_to_pubkey(&"0".repeat(64)), Some([0u8; 32]));
}

#[test]
fn numbers_as_text() {
    assert_eq!(u64_to_text(0), "0");
    assert_eq!(u64_to_text(18_446_744_073_709_551_615), "18446744073709551615");
    assert_eq!(i64_to_text(-1), "-1");
    assert_eq!(i64_to_text(i64::MIN), "-9223372036854775808");
    assert_eq!(i64_to_text(42), "42");
}

#[test]
fn time_goes_by_milliseconds() {
    let now = now_ms().unwrap();
    // After the start of 2020.
    assert!(now > 1_577_836_800_000);
    let later = far_future_ms().unwrap();
    assert!(later >= now + 3_600_000);
    assert!(later < now + 3_600_000 + 60_000);
}

#[test]
fn clock_readings_that_do_not_fit() {
    assert_eq!(timestamp_from_clock(Some(5)), Some(5));
    assert_eq!(timestamp_from_clock(None), None);
    assert_eq!(
        timestamp_from_clock(Some(9_223_372_036_854_775_807)),
        Some(i64::MAX)
    );
    assert_eq!(timestamp_from_clock(Some(9_223_372_036_854_775_808)), None);
    assert_eq!(time_after(Some(1), 2), Some(3));
    assert_eq!(time_after(Some(i64::MAX), 1), None);
    assert_eq!(time_after(None, 1), None);
}
