use seguro::vault_file::{decrypt_bytes, encrypt_bytes, seal_vault, VaultError, CHUNK_LEN, HEADER_LEN, SEALED_CHUNK_LEN};

fn sealed_len(n: usize) -> usize {
    HEADER_LEN + n + 16 * (n / CHUNK_LEN + 1)
}

fn pattern(n: usize) -> Vec<u8> {
    (0..n).map(|i| (i * 31 % 251) as u8).collect()
}

#[test]
fn format_constants() {
    assert_eq!(CHUNK_LEN, 500);
    assert_eq!(SEALED_CHUNK_LEN, 516);
    assert_eq!(HEADER_LEN, 51);
}

#[test]
fn roundtrip_empty() {
    let c = encrypt_bytes(&[], "pw").unwrap();
    assert_eq!(c.len(), 51 + 16);
    assert_eq!(decrypt_bytes(&c, "pw"), (vec![], Ok(())));
}

#[test]
fn roundtrip_short() {
    let p = b"the quick brown fox".to_vec();
    let c = encrypt_bytes(&p, "pw").unwrap();
    assert_eq!(c.len(), sealed_len(p.len()));
    assert_ne!(&c[HEADER_LEN..HEADER_LEN + p.len()], p.as_slice());
    assert_eq!(decrypt_bytes(&c, "pw"), (p, Ok(())));
}

#[test]
fn roundtrip_exact_chunk() {
    let p = pattern(500);
    let c = encrypt_bytes(&p, "pw").unwrap();
    assert_eq!(c.len(), 51 + 516 + 16);
    assert_eq!(decrypt_bytes(&c, "pw"), (p, Ok(())));
}

#[test]
fn roundtrip_several_chunks() {
    let p = pattern(1234);
    let c = encrypt_bytes(&p, "pass phrase").unwrap();
    assert_eq!(c.len(), 51 + 1234 + 16 * 3);
    assert_eq!(decrypt_bytes(&c, "pass phrase"), (p, Ok(())));
}

#[test]
fn seal_is_deterministic_under_salt_and_nonce() {
    let p = pattern(600);
    let salt = [5u8; 32];
    let nonce = [6u8; 19];
    let a = seal_vault(&p, "pw", &salt, &nonce).unwrap();
    let b = seal_vault(&p, "pw", &salt, &nonce).unwrap();
    assert_eq!(a, b);
    assert_eq!(&a[..32], &salt[..]);
    assert_eq!(&a[32..51], &nonce[..]);
    assert_eq!(a.len(), sealed_len(600));
}

#[test]
fn wrong_password_rejects_first_chunk() {
    let c = seal_vault(b"data", "right", &[1u8; 32], &[2u8; 19]).unwrap();
    assert_eq!(decrypt_bytes(&c, "wrong"), (vec![], Err(VaultError::ChunkRejected)));
}

#[test]
fn tampered_byte_is_rejected() {
    let mut c = seal_vault(&pattern(700), "pw", &[1u8; 32], &[2u8; 19]).unwrap();
    let p = pattern(700);
    c[HEADER_LEN + 600] ^= 1;
    // the first chunk still opens; the second is refused
    assert_eq!(decrypt_bytes(&c, "pw"), (p[..500].to_vec(), Err(VaultError::ChunkRejected)));
}

#[test]
fn truncated_at_chunk_boundary_opens_to_prefix() {
    // the stream ends where no bytes are left after a whole chunk
    let p = pattern(1100);
    let c = seal_vault(&p, "pw", &[4u8; 32], &[4u8; 19]).unwrap();
    let cut = &c[..HEADER_LEN + SEALED_CHUNK_LEN];
    assert_eq!(decrypt_bytes(cut, "pw"), (p[..500].to_vec(), Ok(())));
}

#[test]
fn missing_header_is_reported() {
    assert_eq!(decrypt_bytes(&[0u8; 10], "pw"), (vec![], Err(VaultError::SaltMissing)));
    assert_eq!(decrypt_bytes(&[0u8; 31], "pw"), (vec![], Err(VaultError::SaltMissing)));
    assert_eq!(decrypt_bytes(&[0u8; 32], "pw"), (vec![], Err(VaultError::NonceMissing)));
    assert_eq!(decrypt_bytes(&[0u8; 50], "pw"), (vec![], Err(VaultError::NonceMissing)));
}

#[test]
fn header_only_file_opens_empty() {
    let data = [0u8; 51];
    assert_eq!(decrypt_bytes(&data, "pw"), (vec![], Ok(())));
}

#[test]
fn layout_is_chunk_by_chunk() {
    // middle chunks are 516 bytes, the last is the remainder plus a tag
    let p = pattern(1100);
    let c = seal_vault(&p, "pw", &[8u8; 32], &[9u8; 19]).unwrap();
    assert_eq!(c.len() - (HEADER_LEN + 2 * SEALED_CHUNK_LEN), 100 + 16);
    let first = &c[HEADER_LEN..HEADER_LEN + SEALED_CHUNK_LEN];
    let second = &c[HEADER_LEN + SEALED_CHUNK_LEN..HEADER_LEN + 2 * SEALED_CHUNK_LEN];
    assert_ne!(first, second);
    // a file made of the header and the first chunk alone opens to the first plaintext chunk
    let mut one = c[..HEADER_LEN].to_vec();
    one.extend_from_slice(first);
    assert_eq!(decrypt_bytes(&one, "pw"), (p[..500].to_vec(), Ok(())));
}
