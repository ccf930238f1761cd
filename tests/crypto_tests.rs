use password_manager::codec::{decode_payload, encode_payload};
use password_manager::crypto::{derive_key, initialize_cipher, ConfigError, DecryptionError};

fn hex(b: &[u8]) -> String {
    b.iter().map(|x| format!("{:02x}", x)).collect()
}

#[test]
fn derive_key_is_sha256_of_passphrase() {
    let k = derive_key(Some("abc")).unwrap();
    assert_eq!(hex(k.as_bytes()), "ba7816bf8f01cfea414140de5dae2223b00361a396177a9cb410ff61f20015ad");
    let k2 = derive_key(Some("correct-horse")).unwrap();
    assert_eq!(hex(k2.as_bytes()), "9dca666eb54730714630d1519264a7bf1eeaad00b8f2edc90d3ecbfad928d163");
}

#[test]
fn derive_key_hashes_passphrase_untrimmed() {
    let a = derive_key(Some(" abc")).unwrap();
    let b = derive_key(Some("abc")).unwrap();
    assert_ne!(a.as_bytes(), b.as_bytes());
}

#[test]
fn derive_key_twice_gives_same_key() {
    let a = derive_key(Some("correct-horse")).unwrap();
    let b = derive_key(Some("correct-horse")).unwrap();
    assert_eq!(a.as_bytes(), b.as_bytes());
}

#[test]
fn missing_passphrase_is_config_error() {
    assert_eq!(derive_key(None).err(), Some(ConfigError::Missing));
    assert_eq!(initialize_cipher(None).err(), Some(ConfigError::Missing));
}

#[test]
fn blank_passphrase_is_config_error() {
    assert_eq!(initialize_cipher(Some("")).err(), Some(ConfigError::Empty));
    assert_eq!(initialize_cipher(Some("  \t\n")).err(), Some(ConfigError::Empty));
}

#[test]
fn round_trip_returns_plaintext() {
    let e = initialize_cipher(Some("correct-horse")).unwrap();
    for p in ["s3cr3t", "", "pässwörd ✓", "with,comma:and colon"] {
        let s = e.encrypt_password(p).unwrap();
        assert_eq!(e.decrypt_password(&s).unwrap(), p);
    }
}

#[test]
fn seal_with_nonce_matches_known_answer() {
    let e = initialize_cipher(Some("correct-horse")).unwrap();
    let nonce: Vec<u8> = (0u8..12).collect();
    let s = e.seal_with_nonce(&nonce, "s3cr3t").unwrap();
    assert_eq!(s, "AAECAwQFBgcICQoL:YHvqp2rbsS45CUpYAZRAS6lS5t75IQ==");
    assert_eq!(e.decrypt_password(&s).unwrap(), "s3cr3t");
}

#[test]
fn sealed_payload_is_nonce_and_ciphertext_with_tag() {
    let e = initialize_cipher(Some("k")).unwrap();
    let s = e.encrypt_password("s3cr3t").unwrap();
    let (n, c) = decode_payload(&s).unwrap();
    assert_eq!(n.len(), 12);
    assert_eq!(c.len(), 6 + 16);
}

#[test]
fn two_encryptions_use_fresh_nonces() {
    let e = initialize_cipher(Some("correct-horse")).unwrap();
    let a = e.encrypt_password("same").unwrap();
    let b = e.encrypt_password("same").unwrap();
    assert_ne!(a, b);
    let (na, _) = decode_payload(&a).unwrap();
    let (nb, _) = decode_payload(&b).unwrap();
    assert_ne!(na, nb);
}

#[test]
fn flipped_bit_in_ciphertext_fails_authentication() {
    let e = initialize_cipher(Some("correct-horse")).unwrap();
    let s = e.encrypt_password("s3cr3t").unwrap();
    let (n, c) = decode_payload(&s).unwrap();
    for i in 0..c.len() {
        for bit in 0..8 {
            let mut c2 = c.clone();
            c2[i] ^= 1 << bit;
            let t = encode_payload(&n, &c2);
            assert_eq!(e.decrypt_password(&t), Err(DecryptionError::AuthFailed));
        }
    }
}

#[test]
fn flipped_bit_in_nonce_fails_authentication() {
    let e = initialize_cipher(Some("correct-horse")).unwrap();
    let s = e.encrypt_password("s3cr3t").unwrap();
    let (n, c) = decode_payload(&s).unwrap();
    for i in 0..n.len() {
        for bit in 0..8 {
            let mut n2 = n.clone();
            n2[i] ^= 1 << bit;
            let t = encode_payload(&n2, &c);
            assert_eq!(e.decrypt_password(&t), Err(DecryptionError::AuthFailed));
        }
    }
}

#[test]
fn other_passphrase_fails_authentication() {
    let a = initialize_cipher(Some("correct-horse")).unwrap();
    let b = initialize_cipher(Some("battery-staple")).unwrap();
    let s = a.encrypt_password("s3cr3t").unwrap();
    assert_eq!(b.decrypt_password(&s), Err(DecryptionError::AuthFailed));
}

#[test]
fn same_passphrase_engines_open_each_other() {
    let a = initialize_cipher(Some("correct-horse")).unwrap();
    let b = initialize_cipher(Some("correct-horse")).unwrap();
    let s = a.encrypt_password("s3cr3t").unwrap();
    assert_eq!(b.decrypt_password(&s).unwrap(), "s3cr3t");
}

#[test]
fn malformed_payload_is_reported() {
    let e = initialize_cipher(Some("correct-horse")).unwrap();
    assert_eq!(e.decrypt_password("plainpass"), Err(DecryptionError::Malformed));
    assert_eq!(e.decrypt_password("YWJj:ZGVm"), Err(DecryptionError::Malformed));
    assert_eq!(e.decrypt_password("AAECAwQFBgcICQoL:%%%"), Err(DecryptionError::Malformed));
}

#[test]
fn non_utf8_plaintext_is_reported() {
    let e = initialize_cipher(Some("correct-horse")).unwrap();
    assert_eq!(
        e.decrypt_password("AAECAwQFBgcICQoL:7LZSe+A4O1IcPSyszXtxxXob"),
        Err(DecryptionError::NotUtf8)
    );
}
