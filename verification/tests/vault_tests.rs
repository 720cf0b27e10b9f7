use wallet_vault::vault::{
    account_name, wallet_entry, KeyringError, MemoryVault, SaveSession, VaultError, ACCOUNT_BASE,
    SERVICE_NAME,
};

fn valid_secret(fill: u8) -> (String, String) {
    let mut bytes = Vec::new();
    for i in 0..64u16 {
        bytes.push((i as u8).wrapping_add(fill));
    }
    let secret = bs58::encode(&bytes).into_string();
    let expected_pk = bs58::encode(&bytes[32..]).into_string();
    (secret, expected_pk)
}

#[test]
fn save_allocates_increasing_indices_and_load_returns_saved() {
    let mut vault = MemoryVault::new();
    assert_eq!(vault.save_secret("alpha"), 1);
    assert_eq!(vault.save_secret("beta"), 2);
    assert_eq!(vault.save_secret("gamma"), 3);
    assert_eq!(vault.load_secret(1).unwrap(), "alpha");
    assert_eq!(vault.load_secret(2).unwrap(), "beta");
    assert_eq!(vault.load_secret(3).unwrap(), "gamma");
}

#[test]
fn load_missing_slot_is_not_found() {
    let vault = MemoryVault::new();
    assert!(matches!(vault.load_secret(1), Err(VaultError::NotFound)));
    assert!(matches!(vault.load_secret(0), Err(VaultError::NotFound)));
}

#[test]
fn list_returns_every_valid_wallet_in_order() {
    let mut vault = MemoryVault::new();
    let (s1, pk1) = valid_secret(0);
    let (s2, pk2) = valid_secret(100);
    let (s3, pk3) = valid_secret(200);
    vault.save_secret(&s1);
    vault.save_secret(&s2);
    vault.save_secret(&s3);
    let wallets = vault.list_secrets();
    assert_eq!(wallets.len(), 3);
    assert_eq!(wallets[0].account, "wallet-key1");
    assert_eq!(wallets[0].public_key, pk1);
    assert_eq!(wallets[1].account, "wallet-key2");
    assert_eq!(wallets[1].public_key, pk2);
    assert_eq!(wallets[2].account, "wallet-key3");
    assert_eq!(wallets[2].public_key, pk3);
}

#[test]
fn gap_hides_later_entries_from_list_but_not_from_load() {
    let mut vault = MemoryVault::new();
    let (s1, _) = valid_secret(1);
    let (s2, _) = valid_secret(2);
    let (s3, _) = valid_secret(3);
    vault.save_secret(&s1);
    vault.save_secret(&s2);
    vault.save_secret(&s3);
    vault.delete_secret(2).unwrap();
    let wallets = vault.list_secrets();
    assert_eq!(wallets.len(), 1);
    assert_eq!(wallets[0].account, "wallet-key1");
    // The entry past the gap is invisible to the listing, yet a direct
    // load at its index still succeeds.
    assert_eq!(vault.load_secret(3).unwrap(), s3);
}

#[test]
fn invalid_secret_is_skipped_not_fatal() {
    let mut vault = MemoryVault::new();
    let (s1, pk1) = valid_secret(7);
    let (s3, pk3) = valid_secret(9);
    vault.save_secret(&s1);
    // Valid base58, but not 64 bytes once decoded: stored, not listable.
    vault.save_secret("zzz");
    vault.save_secret(&s3);
    let wallets = vault.list_secrets();
    assert_eq!(wallets.len(), 2);
    assert_eq!(wallets[0].account, "wallet-key1");
    assert_eq!(wallets[0].public_key, pk1);
    assert_eq!(wallets[1].account, "wallet-key3");
    assert_eq!(wallets[1].public_key, pk3);
}

#[test]
fn secret_that_is_not_base58_is_skipped() {
    let mut vault = MemoryVault::new();
    vault.save_secret("not base58 0OIl");
    assert_eq!(vault.list_secrets().len(), 0);
    // Still stored verbatim and loadable.
    assert_eq!(vault.load_secret(1).unwrap(), "not base58 0OIl");
}

#[test]
fn save_fills_first_free_slot_after_delete() {
    let mut vault = MemoryVault::new();
    vault.save_secret("a");
    vault.save_secret("b");
    vault.delete_secret(1).unwrap();
    assert_eq!(vault.save_secret("c"), 1);
    assert_eq!(vault.load_secret(1).unwrap(), "c");
    assert_eq!(vault.load_secret(2).unwrap(), "b");
}

#[test]
fn delete_missing_slot_is_not_found() {
    let mut vault = MemoryVault::new();
    vault.save_secret("a");
    assert!(matches!(vault.delete_secret(2), Err(VaultError::NotFound)));
    assert!(vault.delete_secret(1).is_ok());
    assert!(matches!(vault.delete_secret(1), Err(VaultError::NotFound)));
}

#[test]
fn account_names_are_base_plus_decimal_index() {
    assert_eq!(account_name(1), "wallet-key1");
    assert_eq!(account_name(12), "wallet-key12");
    assert_eq!(account_name(305), "wallet-key305");
    assert_eq!(account_name(42), format!("{}{}", ACCOUNT_BASE, 42));
    assert_eq!(SERVICE_NAME, "com.tradingapp.dev");
}

#[test]
fn save_session_probes_indices_in_order() {
    let mut session = SaveSession::begin();
    assert_eq!(session.account(), "wallet-key1");
    session.on_probe(true);
    assert_eq!(session.account(), "wallet-key2");
    session.on_probe(true);
    assert_eq!(session.account(), "wallet-key3");
    session.on_probe(false);
    // A vacant probe keeps the index: the write goes to the same slot.
    assert_eq!(session.account(), "wallet-key3");
    session.on_write(true);
}

#[test]
fn wallet_entry_derives_public_key_from_last_32_bytes() {
    let (secret, pk) = valid_secret(33);
    let entry = wallet_entry("wallet-key9".to_string(), &secret).unwrap();
    assert_eq!(entry.account, "wallet-key9");
    assert_eq!(entry.public_key, pk);
    assert!(wallet_entry("a".to_string(), "zzz").is_none());
}

#[test]
fn keyring_error_carries_its_message() {
    let err = KeyringError::new("permission denied".to_string());
    assert_eq!(err.message(), "permission denied");
}
