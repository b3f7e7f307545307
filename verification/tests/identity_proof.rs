use crab_city::identity_proof::IdentityProof;
use crab_city::keys::{PublicKey, SigningKey};

fn test_keypair() -> (SigningKey, PublicKey) {
    let mut rng = rand::thread_rng();
    let sk = SigningKey::generate(&mut rng);
    let pk = sk.public_key();
    (sk, pk)
}

#[test]
fn identity_proof_sign_verify_roundtrip() {
    let (sk, _) = test_keypair();
    let instance = PublicKey::from_bytes([1u8; 32]);
    let related = vec![PublicKey::from_bytes([2u8; 32])];
    let proof = IdentityProof::sign(&sk, &instance, related, Some("alex".to_string()), 1700000000);
    let claims = proof.verify().unwrap();
    assert_eq!(claims.subject, sk.public_key());
    assert_eq!(claims.instance, instance);
    assert_eq!(claims.registry_handle, Some("alex".to_string()));
}

#[test]
fn tamper_detected() {
    let (sk, _) = test_keypair();
    let instance = PublicKey::from_bytes([3u8; 32]);
    let mut proof = IdentityProof::sign(&sk, &instance, vec![], None, 1700000000);
    proof.timestamp += 1;
    assert!(proof.verify().is_err());
}

#[test]
fn wrong_key_detected() {
    let (sk1, _) = test_keypair();
    let (_, pk2) = test_keypair();
    let instance = PublicKey::from_bytes([4u8; 32]);
    let mut proof = IdentityProof::sign(&sk1, &instance, vec![], None, 1700000000);
    proof.subject = pk2;
    assert!(proof.verify().is_err());
}

#[test]
fn bytes_roundtrip() {
    let (sk, _) = test_keypair();
    let instance = PublicKey::from_bytes([5u8; 32]);
    let related = vec![PublicKey::from_bytes([6u8; 32]), PublicKey::from_bytes([7u8; 32])];
    let proof = IdentityProof::sign(&sk, &instance, related, Some("test".to_string()), 1700000000);
    let bytes = proof.to_bytes();
    let parsed = IdentityProof::from_bytes(&bytes).unwrap();
    assert_eq!(proof, parsed);
}

#[test]
fn bytes_roundtrip_no_handle() {
    let (sk, _) = test_keypair();
    let instance = PublicKey::from_bytes([8u8; 32]);
    let proof = IdentityProof::sign(&sk, &instance, vec![], None, 1700000000);
    let bytes = proof.to_bytes();
    let parsed = IdentityProof::from_bytes(&bytes).unwrap();
    assert_eq!(proof, parsed);
}

#[test]
fn excessive_key_count_rejected() {
    let mut buf = Vec::new();
    buf.push(0x01);
    buf.extend_from_slice(&[0u8; 32]);
    buf.extend_from_slice(&[0u8; 32]);
    buf.extend_from_slice(&u32::MAX.to_be_bytes());
    let result = IdentityProof::from_bytes(&buf);
    assert!(result.is_err());
    let msg = result.unwrap_err().message();
    assert!(msg.contains("exceeds maximum"), "got: {msg}");
}

#[test]
fn proof_encoding_size() {
    let (sk, _) = test_keypair();
    let instance = PublicKey::from_bytes([9u8; 32]);
    let proof = IdentityProof::sign(&sk, &instance, vec![], None, 1);
    // version + subject + instance + key count + no-handle flag + timestamp + signature
    assert_eq!(proof.to_bytes().len(), 1 + 32 + 32 + 4 + 1 + 8 + 64);
    let bytes = proof.to_bytes();
    assert!(IdentityProof::from_bytes(&bytes[..bytes.len() - 1]).is_err());
}
