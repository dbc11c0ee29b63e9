use seguro::kdf::{bytes_equal, test_password, vault_kdf_params, KdfVariant, Password, PasswordError, HASH_LEN, SALT_LEN};

#[test]
fn kdf_params_are_the_vaults() {
    let p = vault_kdf_params();
    assert_eq!(p.variant, KdfVariant::Argon2id);
    assert_eq!(p.hash_length, 32);
    assert_eq!(p.lanes, 8);
    assert_eq!(p.mem_cost, 16 * 1024);
    assert_eq!(p.time_cost, 8);
    assert_eq!(SALT_LEN, 32);
    assert_eq!(HASH_LEN, 32);
}

#[test]
fn password_with_salt_keeps_salt_and_hashes() {
    let salt = [7u8; 32];
    let p = Password::new_with_salt("hunter2", &salt);
    assert_eq!(p.salt, salt);
    assert_eq!(p.hash.len(), 32);
    assert_ne!(p.hash.as_slice(), b"hunter2".as_slice());
    assert_ne!(p.hash.as_slice(), salt.as_slice());
    let record = p.record();
    assert_eq!(record.len(), 64);
    assert_eq!(&record[..32], &salt[..]);
    assert_eq!(&record[32..], p.hash.as_slice());
    // the record accepts the password it was made from
    assert_eq!(test_password(&record, "hunter2"), Ok(()));
}

#[test]
fn password_hash_is_deterministic_per_salt() {
    let salt = [1u8; 32];
    let a = Password::new_with_salt("secret", &salt);
    let b = Password::new_with_salt("secret", &salt);
    assert_eq!(a.hash, b.hash);
}

#[test]
fn random_salt_record_accepts_password() {
    let p = Password::new("correct horse").unwrap();
    assert_eq!(p.hash.len(), 32);
    assert_eq!(test_password(&p.record(), "correct horse"), Ok(()));
}

#[test]
fn wrong_password_is_refused() {
    let p = Password::new_with_salt("right", &[3u8; 32]);
    assert_eq!(test_password(&p.record(), "wrong"), Err(PasswordError::WrongPassword));
}

#[test]
fn record_trailing_bytes_are_ignored() {
    let p = Password::new_with_salt("pw", &[9u8; 32]);
    let mut record = p.record();
    record.extend_from_slice(b"trailing");
    assert_eq!(test_password(&record, "pw"), Ok(()));
}

#[test]
fn short_records_are_refused() {
    assert_eq!(test_password(&[], "pw"), Err(PasswordError::SaltMissing));
    assert_eq!(test_password(&[0u8; 31], "pw"), Err(PasswordError::SaltMissing));
    assert_eq!(test_password(&[0u8; 32], "pw"), Err(PasswordError::HashMissing));
    assert_eq!(test_password(&[0u8; 63], "pw"), Err(PasswordError::HashMissing));
}

#[test]
fn bytes_equal_compares_contents() {
    assert!(bytes_equal(b"abc", b"abc"));
    assert!(bytes_equal(b"", b""));
    assert!(!bytes_equal(b"abc", b"abd"));
    assert!(!bytes_equal(b"abc", b"ab"));
}
