use crab_city::capability::Capability;
use crab_city::invite::{Invite, InviteLink};
use crab_city::keys::{PublicKey, SigningKey};

fn test_keypair() -> (SigningKey, PublicKey) {
    let mut rng = rand::thread_rng();
    let sk = SigningKey::generate(&mut rng);
    let pk = sk.public_key();
    (sk, pk)
}

const GENESIS_PREV_HASH: [u8; 32] = [0u8; 32];

fn root_invite(sk: &SigningKey, instance: PublicKey, capability: Capability, max_depth: u8, max_uses: u32) -> Invite {
    let mut rng = rand::thread_rng();
    let link = InviteLink::sign(sk, &GENESIS_PREV_HASH, &instance, capability, max_depth, max_uses, None, &mut rng);
    Invite { version: 0x01, instance, links: vec![link] }
}

#[test]
fn flat_invite_roundtrip_bytes() {
    let mut rng = rand::thread_rng();
    let (sk, _) = test_keypair();
    let instance = PublicKey::from_bytes([1u8; 32]);
    let invite = Invite::create_flat(&sk, &instance, Capability::Collaborate, 5, None, &mut rng);
    let bytes = invite.to_bytes();
    let parsed = Invite::from_bytes(&bytes).unwrap();
    assert_eq!(invite, parsed);
}

#[test]
fn flat_invite_roundtrip_base32() {
    let mut rng = rand::thread_rng();
    let (sk, _) = test_keypair();
    let instance = PublicKey::from_bytes([2u8; 32]);
    let invite = Invite::create_flat(&sk, &instance, Capability::Admin, 0, None, &mut rng);
    let b32 = invite.to_base32();
    let parsed = Invite::from_base32(&b32).unwrap();
    assert_eq!(invite, parsed);
}

#[test]
fn flat_invite_size() {
    let mut rng = rand::thread_rng();
    let (sk, _) = test_keypair();
    let instance = PublicKey::from_bytes([3u8; 32]);
    let invite = Invite::create_flat(&sk, &instance, Capability::View, 0, None, &mut rng);
    assert_eq!(invite.to_bytes().len(), 160);
}

#[test]
fn flat_invite_verify() {
    let mut rng = rand::thread_rng();
    let (sk, _) = test_keypair();
    let instance = PublicKey::from_bytes([4u8; 32]);
    let invite = Invite::create_flat(&sk, &instance, Capability::Collaborate, 5, None, &mut rng);
    let claims = invite.verify().unwrap();
    assert_eq!(claims.instance, instance);
    assert_eq!(claims.capability, Capability::Collaborate);
    assert_eq!(claims.chain_depth, 1);
}

#[test]
fn delegated_chain_3_hops() {
    let mut rng = rand::thread_rng();
    let (sk1, _) = test_keypair();
    let (sk2, _) = test_keypair();
    let (sk3, _) = test_keypair();
    let instance = PublicKey::from_bytes([5u8; 32]);
    let root = root_invite(&sk1, instance, Capability::Admin, 2, 0);

    let hop2 = Invite::delegate(&root, &sk2, Capability::Collaborate, 0, None, &mut rng).unwrap();
    assert_eq!(hop2.links.len(), 2);
    let hop3 = Invite::delegate(&hop2, &sk3, Capability::View, 0, None, &mut rng).unwrap();
    assert_eq!(hop3.links.len(), 3);

    let claims = hop3.verify().unwrap();
    assert_eq!(claims.capability, Capability::View);
    assert_eq!(claims.chain_depth, 3);
    assert_eq!(claims.root_issuer, sk1.public_key());
    assert_eq!(claims.leaf_issuer, sk3.public_key());
    assert_eq!(hop3.to_bytes().len(), 412);
}

#[test]
fn capability_escalation_rejected() {
    let mut rng = rand::thread_rng();
    let (sk1, _) = test_keypair();
    let (sk2, _) = test_keypair();
    let instance = PublicKey::from_bytes([6u8; 32]);
    let root = root_invite(&sk1, instance, Capability::Collaborate, 1, 0);
    let result = Invite::delegate(&root, &sk2, Capability::Admin, 0, None, &mut rng);
    assert!(result.is_err());
}

#[test]
fn depth_exhausted_rejected() {
    let mut rng = rand::thread_rng();
    let (sk1, _) = test_keypair();
    let (sk2, _) = test_keypair();
    let instance = PublicKey::from_bytes([7u8; 32]);
    let invite = Invite::create_flat(&sk1, &instance, Capability::Admin, 0, None, &mut rng);
    let result = Invite::delegate(&invite, &sk2, Capability::View, 0, None, &mut rng);
    assert!(result.is_err());
}

#[test]
fn forgery_detected() {
    let mut rng = rand::thread_rng();
    let (sk, _) = test_keypair();
    let instance = PublicKey::from_bytes([8u8; 32]);
    let invite = Invite::create_flat(&sk, &instance, Capability::Collaborate, 5, None, &mut rng);
    let mut bytes = invite.to_bytes();
    bytes[80] ^= 0xff;
    let tampered = Invite::from_bytes(&bytes).unwrap();
    assert!(tampered.verify().is_err());
}

#[test]
fn delegated_roundtrip_bytes() {
    let mut rng = rand::thread_rng();
    let (sk1, _) = test_keypair();
    let (sk2, _) = test_keypair();
    let instance = PublicKey::from_bytes([9u8; 32]);
    let root = root_invite(&sk1, instance, Capability::Admin, 1, 0);
    let delegated = Invite::delegate(&root, &sk2, Capability::View, 0, None, &mut rng).unwrap();
    let bytes = delegated.to_bytes();
    let parsed = Invite::from_bytes(&bytes).unwrap();
    assert_eq!(delegated, parsed);
}

#[test]
fn verify_at_expired() {
    let mut rng = rand::thread_rng();
    let (sk, _) = test_keypair();
    let instance = PublicKey::from_bytes([10u8; 32]);
    let invite = Invite::create_flat(&sk, &instance, Capability::View, 1, Some(1000), &mut rng);
    assert!(invite.verify_at(999).is_ok());
    assert!(invite.verify_at(1000).is_ok());
    assert!(invite.verify_at(1001).is_err());
}

#[test]
fn verify_at_no_expiry() {
    let mut rng = rand::thread_rng();
    let (sk, _) = test_keypair();
    let instance = PublicKey::from_bytes([11u8; 32]);
    let invite = Invite::create_flat(&sk, &instance, Capability::View, 1, None, &mut rng);
    assert!(invite.verify_at(u64::MAX).is_ok());
}

#[test]
fn chain_depth_bound_rejects_deep_chain() {
    let mut buf = vec![0x01];
    buf.extend_from_slice(&[0u8; 32]);
    buf.push(255);
    let result = Invite::from_bytes(&buf);
    assert!(result.is_err());
    let msg = result.unwrap_err().message();
    assert!(msg.contains("exceeds maximum"), "got: {msg}");
}

#[test]
fn delegated_capability_never_exceeds_root() {
    let mut rng = rand::thread_rng();
    let sk_root = SigningKey::generate(&mut rng);
    let sk_del = SigningKey::generate(&mut rng);
    let instance = PublicKey::from_bytes([1u8; 32]);
    for root_cap in [Capability::View, Capability::Collaborate, Capability::Admin, Capability::Owner] {
        let invite = root_invite(&sk_root, instance, root_cap, 3, 10);
        let claims = invite.verify().unwrap();
        assert_eq!(claims.capability, root_cap);
        let delegated = Invite::delegate(&invite, &sk_del, root_cap, 5, None, &mut rng).unwrap();
        let del_claims = delegated.verify().unwrap();
        assert_eq!(del_claims.capability, root_cap);
        let root_rights = root_cap.access_rights();
        let del_rights = del_claims.capability.access_rights();
        assert!(root_rights.is_superset_of(&del_rights));
    }
}

#[test]
fn delegation_chain_capabilities_only_narrow() {
    let mut rng = rand::thread_rng();
    let sk1 = SigningKey::generate(&mut rng);
    let sk2 = SigningKey::generate(&mut rng);
    let sk3 = SigningKey::generate(&mut rng);
    let instance = PublicKey::from_bytes([2u8; 32]);
    let inv1 = root_invite(&sk1, instance, Capability::Owner, 3, 10);
    let inv2 = Invite::delegate(&inv1, &sk2, Capability::Admin, 5, None, &mut rng).unwrap();
    let inv3 = Invite::delegate(&inv2, &sk3, Capability::Collaborate, 5, None, &mut rng).unwrap();
    let claims = inv3.verify().unwrap();
    assert_eq!(claims.capability, Capability::Collaborate);
    assert!(Invite::delegate(&inv1, &sk2, Capability::Owner, 5, None, &mut rng).unwrap().verify().is_ok());
    let admin_inv = Invite::delegate(&inv1, &sk2, Capability::Admin, 5, None, &mut rng).unwrap();
    assert!(Invite::delegate(&admin_inv, &sk3, Capability::Owner, 5, None, &mut rng).is_err());
}

#[test]
fn verify_error_messages() {
    let mut rng = rand::thread_rng();
    let (sk, _) = test_keypair();
    let instance = PublicKey::from_bytes([12u8; 32]);
    let mut invite = Invite::create_flat(&sk, &instance, Capability::View, 1, Some(5), &mut rng);
    assert_eq!(invite.verify_at(6).unwrap_err().message(), "invalid invite: link 0 expired");
    invite.version = 2;
    assert_eq!(invite.verify_at(0).unwrap_err().message(), "invalid invite: unsupported version");
    invite.version = 1;
    invite.links.clear();
    assert_eq!(invite.verify_at(0).unwrap_err().message(), "invalid invite: empty chain");
}

#[test]
fn hand_built_escalation_and_depth_errors() {
    let mut rng = rand::thread_rng();
    let (sk1, _) = test_keypair();
    let (sk2, _) = test_keypair();
    let instance = PublicKey::from_bytes([13u8; 32]);
    let root = root_invite(&sk1, instance, Capability::View, 1, 0);
    let prev = root.links[0].hash();
    let up = InviteLink::sign(&sk2, &prev, &instance, Capability::Admin, 0, 0, None, &mut rng);
    let bad = Invite { version: 1, instance, links: vec![root.links[0].clone(), up] };
    assert_eq!(
        bad.verify_at(0).unwrap_err().message(),
        "invalid invite: capability escalation at link 1: admin > view"
    );
    let same_depth = InviteLink::sign(&sk2, &prev, &instance, Capability::View, 1, 0, None, &mut rng);
    let bad = Invite { version: 1, instance, links: vec![root.links[0].clone(), same_depth] };
    assert_eq!(
        bad.verify_at(0).unwrap_err().message(),
        "invalid invite: depth must decrease at link 1: 1 >= 1"
    );
    let flat = root_invite(&sk1, instance, Capability::View, 0, 0);
    let prev = flat.links[0].hash();
    let next = InviteLink::sign(&sk2, &prev, &instance, Capability::View, 0, 0, None, &mut rng);
    let bad = Invite { version: 1, instance, links: vec![flat.links[0].clone(), next] };
    assert_eq!(bad.verify_at(0).unwrap_err().message(), "invalid invite: depth exhausted at link 1");
}

#[test]
fn decode_error_messages() {
    assert_eq!(Invite::from_bytes(&[1u8; 10]).unwrap_err().message(), "invalid invite: too short");
    let mut buf = vec![1u8];
    buf.extend_from_slice(&[0u8; 32]);
    buf.push(0);
    assert_eq!(Invite::from_bytes(&buf).unwrap_err().message(), "invalid invite: empty chain");
    buf[33] = 1;
    assert_eq!(
        Invite::from_bytes(&buf).unwrap_err().message(),
        "invalid invite: wrong size: expected 160, got 34"
    );
    buf.extend_from_slice(&[0u8; 126]);
    buf[34 + 32] = 9;
    assert_eq!(Invite::from_bytes(&buf).unwrap_err().message(), "invalid invite: unknown capability byte: 9");
    assert_eq!(Invite::from_base32("!!").unwrap_err().message(), "invalid invite: invalid base32");
}

#[test]
fn delegate_error_messages() {
    let mut rng = rand::thread_rng();
    let (sk, _) = test_keypair();
    let instance = PublicKey::from_bytes([14u8; 32]);
    let empty = Invite { version: 1, instance, links: vec![] };
    assert_eq!(
        Invite::delegate(&empty, &sk, Capability::View, 0, None, &mut rng).unwrap_err().message(),
        "invalid invite: empty chain"
    );
    let flat = Invite::create_flat(&sk, &instance, Capability::View, 0, None, &mut rng);
    assert_eq!(
        Invite::delegate(&flat, &sk, Capability::View, 0, None, &mut rng).unwrap_err().message(),
        "invalid invite: cannot delegate: max_depth is 0"
    );
    let root = root_invite(&sk, instance, Capability::View, 2, 0);
    assert_eq!(
        Invite::delegate(&root, &sk, Capability::Owner, 0, None, &mut rng).unwrap_err().message(),
        "invalid invite: cannot escalate capability beyond parent"
    );
}

#[test]
fn delegated_link_has_one_less_depth() {
    let mut rng = rand::thread_rng();
    let (sk, _) = test_keypair();
    let instance = PublicKey::from_bytes([15u8; 32]);
    let root = root_invite(&sk, instance, Capability::Admin, 4, 0);
    let child = Invite::delegate(&root, &sk, Capability::View, 2, Some(77), &mut rng).unwrap();
    assert_eq!(child.links[1].max_depth, 3);
    assert_eq!(child.links[1].expires_at, Some(77));
    assert_eq!(child.links[0], root.links[0]);
    assert!(child.verify_at(77).is_ok());
    assert!(child.verify_at(78).is_err());
}

#[test]
fn invite_base32_text_in_either_case() {
    let mut rng = rand::thread_rng();
    let (sk, _) = test_keypair();
    let instance = PublicKey::from_bytes([3u8; 32]);
    let invite = Invite::create_flat(&sk, &instance, Capability::Collaborate, 5, Some(4_000_000_000), &mut rng);
    let b32 = invite.to_base32();
    assert_eq!(Invite::from_base32(&b32.to_lowercase()).unwrap(), invite);
    assert_eq!(Invite::from_base32("0U").unwrap_err().message(), "invalid invite: invalid base32");
}
