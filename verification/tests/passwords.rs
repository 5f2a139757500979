//! Password hashing and verification.
use authn::crypto::{encode_password, verify_password, PasswordError};

#[test]
fn encode_then_verify_accepts_the_password() {
    let encoded = encode_password(b"hunter2").unwrap();
    assert_eq!(verify_password(&encoded, b"hunter2").unwrap(), true);
}

#[test]
fn verify_rejects_a_different_password() {
    let encoded = encode_password(b"hunter2").unwrap();
    assert_eq!(verify_password(&encoded, b"hunter3").unwrap(), false);
    assert_eq!(verify_password(&encoded, b"").unwrap(), false);
}

#[test]
fn two_encodings_of_one_password_differ() {
    // A fresh 256-bit salt is drawn per call, so the encoded strings differ.
    let a = encode_password(b"same").unwrap();
    let b = encode_password(b"same").unwrap();
    assert_ne!(a, b);
    // Both still verify.
    assert_eq!(verify_password(&a, b"same").unwrap(), true);
    assert_eq!(verify_password(&b, b"same").unwrap(), true);
}

#[test]
fn malformed_encoded_hash_is_an_error_not_a_mismatch() {
    let r = verify_password("not-an-encoded-hash", b"pw");
    assert!(matches!(r, Err(PasswordError::Malformed)));
}

#[test]
fn empty_password_round_trips() {
    let encoded = encode_password(b"").unwrap();
    assert_eq!(verify_password(&encoded, b"").unwrap(), true);
    assert_eq!(verify_password(&encoded, b"x").unwrap(), false);
}
