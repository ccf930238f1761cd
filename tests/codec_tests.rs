use password_manager::codec::{classify, decode_payload, encode_payload, is_encrypted_format, FieldKind, FormatError};

#[test]
fn classify_two_non_empty_halves_as_encrypted() {
    assert_eq!(classify("YWJj:ZGVm"), FieldKind::Encrypted);
}

#[test]
fn classify_text_without_separator_as_plain() {
    assert_eq!(classify("hello"), FieldKind::Plain);
    assert_eq!(classify("justtext"), FieldKind::Plain);
}

#[test]
fn classify_empty_right_half_as_plain() {
    assert_eq!(classify("abc:"), FieldKind::Plain);
}

#[test]
fn classify_empty_left_half_as_plain() {
    assert_eq!(classify(":abc"), FieldKind::Plain);
    assert_eq!(classify(""), FieldKind::Plain);
    assert_eq!(classify(":"), FieldKind::Plain);
}

#[test]
fn classify_looks_at_first_separator_only() {
    assert_eq!(classify("a::b"), FieldKind::Encrypted);
    assert_eq!(classify("::b"), FieldKind::Plain);
    assert_eq!(classify("a:b:"), FieldKind::Encrypted);
    assert!(is_encrypted_format("pass:word"));
    assert!(!is_encrypted_format("password"));
}

#[test]
fn encode_payload_writes_base64_halves() {
    let nonce = [0u8; 12];
    assert_eq!(encode_payload(&nonce, b"abc"), "AAAAAAAAAAAAAAAA:YWJj");
    assert_eq!(encode_payload(b"abc", b"def"), "YWJj:ZGVm");
}

#[test]
fn decode_payload_reads_both_halves() {
    let (n, c) = decode_payload("AAAAAAAAAAAAAAAA:ZGVm").unwrap();
    assert_eq!(n, vec![0u8; 12]);
    assert_eq!(c, b"def".to_vec());
}

#[test]
fn decode_payload_refuses_short_nonce() {
    assert_eq!(decode_payload("YWJj:ZGVm"), Err(FormatError::Invalid));
}

#[test]
fn decode_payload_refuses_missing_separator_and_bad_base64() {
    assert_eq!(decode_payload("AAAAAAAAAAAAAAAA"), Err(FormatError::Invalid));
    assert_eq!(decode_payload("!!!!AAAAAAAAAAAA:ZGVm"), Err(FormatError::Invalid));
    assert_eq!(decode_payload("AAAAAAAAAAAAAAAA:Z*Vm"), Err(FormatError::Invalid));
}
