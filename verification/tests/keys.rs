use crab_city::keys::{verify, PublicKey, Signature, SigningKey};

#[test]
fn keys_sign_verify_roundtrip() {
    let mut rng = rand::thread_rng();
    let sk = SigningKey::generate(&mut rng);
    let pk = sk.public_key();
    let msg = b"hello crab city";
    let sig = sk.sign(msg);
    assert!(verify(&pk, msg, &sig).is_ok());
}

#[test]
fn verify_wrong_key_fails() {
    let mut rng = rand::thread_rng();
    let sk1 = SigningKey::generate(&mut rng);
    let sk2 = SigningKey::generate(&mut rng);
    let msg = b"hello";
    let sig = sk1.sign(msg);
    assert!(verify(&sk2.public_key(), msg, &sig).is_err());
}

#[test]
fn verify_tampered_message_fails() {
    let mut rng = rand::thread_rng();
    let sk = SigningKey::generate(&mut rng);
    let pk = sk.public_key();
    let sig = sk.sign(b"original");
    assert!(verify(&pk, b"tampered", &sig).is_err());
}

#[test]
fn fingerprint_format() {
    let mut rng = rand::thread_rng();
    let sk = SigningKey::generate(&mut rng);
    let fp = sk.public_key().fingerprint();
    assert!(fp.starts_with("crab_"), "fingerprint should start with crab_: {fp}");
    assert_eq!(fp.len(), 13, "fingerprint should be 13 chars: {fp}");
}

#[test]
fn fingerprint_deterministic() {
    let pk = PublicKey::from_bytes([42u8; 32]);
    let fp1 = pk.fingerprint();
    let fp2 = pk.fingerprint();
    assert_eq!(fp1, fp2);
}

#[test]
fn loopback_fingerprint_stable() {
    let fp = PublicKey::loopback().fingerprint();
    assert!(fp.starts_with("crab_"));
    let fp2 = PublicKey::loopback().fingerprint();
    assert_eq!(fp, fp2);
}

#[test]
fn loopback_detection() {
    assert!(PublicKey::loopback().is_loopback());
    assert!(!PublicKey::from_bytes([1u8; 32]).is_loopback());
}

#[test]
fn signing_key_bytes_roundtrip() {
    let mut rng = rand::thread_rng();
    let sk = SigningKey::generate(&mut rng);
    let bytes = sk.to_bytes();
    let sk2 = SigningKey::from_bytes(bytes);
    assert_eq!(sk.public_key(), sk2.public_key());
    let msg = b"roundtrip test";
    let sig = sk.sign(msg);
    assert!(verify(&sk2.public_key(), msg, &sig).is_ok());
}

#[test]
fn public_key_from_known_seed() {
    // RFC 8032, test 1: the all-known seed and its public key.
    let seed: [u8; 32] = [
        0x9d, 0x61, 0xb1, 0x9d, 0xef, 0xfd, 0x5a, 0x60, 0xba, 0x84, 0x4a, 0xf4, 0x92, 0xec, 0x2c, 0xc4,
        0x44, 0x49, 0xc5, 0x69, 0x7b, 0x32, 0x69, 0x19, 0x70, 0x3b, 0xac, 0x03, 0x1c, 0xae, 0x7f, 0x60,
    ];
    let expected: [u8; 32] = [
        0xd7, 0x5a, 0x98, 0x01, 0x82, 0xb1, 0x0a, 0xb7, 0xd5, 0x4b, 0xfe, 0xd3, 0xc9, 0x64, 0x07, 0x3a,
        0x0e, 0xe1, 0x72, 0xf3, 0xda, 0xa6, 0x23, 0x25, 0xaf, 0x02, 0x1a, 0x68, 0xf7, 0x07, 0x51, 0x1a,
    ];
    let sk = SigningKey::from_bytes(seed);
    assert_eq!(sk.public_key().as_bytes(), &expected);
    let sig = sk.sign(b"");
    assert_eq!(sig.as_bytes()[0], 0xe5);
    assert!(verify(&sk.public_key(), b"", &Signature::from_bytes(*sig.as_bytes())).is_ok());
}

#[test]
fn fingerprints_differ_for_different_keys() {
    let a = PublicKey::from_bytes([1u8; 32]).fingerprint();
    let b = PublicKey::from_bytes([2u8; 32]).fingerprint();
    assert_ne!(a, b);
}

#[test]
fn public_key_text_form_is_urlsafe_base64() {
    let key = PublicKey::from_bytes([0xfbu8; 32]);
    let text = key.to_base64();
    assert_eq!(text, data_encoding::BASE64URL_NOPAD.encode(&[0xfbu8; 32]));
    assert!(!text.contains('=') && !text.contains('+') && !text.contains('/'));
    assert_eq!(PublicKey::from_base64(&text), Ok(key));
}

#[test]
fn public_key_text_errors() {
    let short = data_encoding::BASE64URL_NOPAD.encode(&[1u8; 16]);
    assert_eq!(PublicKey::from_base64(&short), Err("public key must be 32 bytes".to_string()));
    let bad = data_encoding::BASE64URL_NOPAD.decode(b"ab*d").unwrap_err();
    assert_eq!(PublicKey::from_base64("ab*d"), Err(bad.to_string()));
}
