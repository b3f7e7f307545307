use crab_city::handshake::verify_challenge_response;
use crab_city::hex::hex_encode;
use crab_city::keys::SigningKey;

fn key() -> SigningKey {
    SigningKey::from_bytes([7u8; 32])
}

#[test]
fn valid_challenge_response_gives_key() {
    let nonce = [9u8; 32];
    let sk = key();
    let sig = sk.sign(&nonce);
    let pk_hex = hex_encode(sk.public_key().as_bytes());
    let sig_hex = hex_encode(sig.as_bytes());
    let pk = verify_challenge_response(&nonce, &pk_hex, &sig_hex).unwrap();
    assert_eq!(pk, sk.public_key());
}

#[test]
fn signature_of_other_nonce_refused() {
    let sk = key();
    let sig = sk.sign(&[1u8; 32]);
    let res = verify_challenge_response(&[2u8; 32], &hex_encode(sk.public_key().as_bytes()), &hex_encode(sig.as_bytes()));
    assert_eq!(res.unwrap_err().as_deref(), Some("signature verification failed"));
}

#[test]
fn short_key_refused() {
    let res = verify_challenge_response(&[0u8; 32], "abcd", "00");
    assert_eq!(res.unwrap_err().as_deref(), Some("invalid public key length"));
}

#[test]
fn loopback_key_refused() {
    let res = verify_challenge_response(&[0u8; 32], &"00".repeat(32), &"00".repeat(64));
    assert_eq!(res.unwrap_err().as_deref(), Some("loopback key not allowed remotely"));
}

#[test]
fn short_signature_refused() {
    let sk = key();
    let res = verify_challenge_response(&[0u8; 32], &hex_encode(sk.public_key().as_bytes()), "0011");
    assert_eq!(res.unwrap_err().as_deref(), Some("invalid signature length"));
}

#[test]
fn undecodable_hex_dropped_silently() {
    let sk = key();
    assert_eq!(verify_challenge_response(&[0u8; 32], "zz", "00").unwrap_err(), None);
    assert_eq!(verify_challenge_response(&[0u8; 32], &hex_encode(sk.public_key().as_bytes()), "abc").unwrap_err(), None);
}

#[test]
fn loopback_sign_in_only_from_loopback() {
    assert_eq!(crab_city::handshake::loopback_auth_step(true), Ok(crab_city::capability::Capability::Owner));
    assert_eq!(
        crab_city::handshake::loopback_auth_step(false),
        Err("LoopbackAuth only allowed from loopback".to_string())
    );
}
