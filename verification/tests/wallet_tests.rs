use wallet_vault::wallet::{parse_wallet_record, wallet_record, WALLET_ACCOUNT, WALLET_SERVICE};

#[test]
fn record_has_exact_json_frame() {
    // base64 of "abc" is "YWJj".
    let record = wallet_record(&vec![97, 98, 99]);
    assert_eq!(record, "{\"keypair\":\"YWJj\"}");
}

#[test]
fn record_of_empty_keypair() {
    let record = wallet_record(&Vec::new());
    assert_eq!(record, "{\"keypair\":\"\"}");
    assert_eq!(parse_wallet_record(&record).unwrap(), Vec::<u8>::new());
}

#[test]
fn record_round_trips_keypair_bytes() {
    let mut bytes = Vec::new();
    for i in 0..64u16 {
        bytes.push((i * 3 % 251) as u8);
    }
    let record = wallet_record(&bytes);
    assert_eq!(parse_wallet_record(&record).unwrap(), bytes);
}

#[test]
fn parse_rejects_broken_frames() {
    assert!(parse_wallet_record("").is_none());
    assert!(parse_wallet_record("{\"keypair\":\"").is_none());
    assert!(parse_wallet_record("{\"keypare\":\"YWJj\"}").is_none());
    assert!(parse_wallet_record("{\"keypair\":\"YWJj\"]").is_none());
    assert!(parse_wallet_record("[\"keypair\":\"YWJj\"}").is_none());
}

#[test]
fn parse_rejects_invalid_base64() {
    assert!(parse_wallet_record("{\"keypair\":\"!!!!\"}").is_none());
    // Non-canonical padding is not accepted either.
    assert!(parse_wallet_record("{\"keypair\":\"YWJ\"}").is_none());
}

#[test]
fn default_wallet_location() {
    assert_eq!(WALLET_SERVICE, "solana-wallet-app");
    assert_eq!(WALLET_ACCOUNT, "default-wallet");
}
