use crab_city::event::{verify_chain, ChainError, Event, EventCheckpoint, EventType};
use crab_city::json::{canonicalize_json, JsonValue};
use crab_city::keys::{PublicKey, SigningKey};

fn to_library(value: &serde_json::Value) -> JsonValue {
    match value {
        serde_json::Value::Null => JsonValue::Null,
        serde_json::Value::Bool(b) => JsonValue::Bool(*b),
        serde_json::Value::Number(n) => JsonValue::Number(n.to_string()),
        serde_json::Value::String(s) => JsonValue::String(s.clone()),
        serde_json::Value::Array(a) => JsonValue::Array(a.iter().map(to_library).collect()),
        serde_json::Value::Object(m) => JsonValue::Object(m.iter().map(|(k, v)| (k.clone(), to_library(v))).collect()),
    }
}

fn from_library(value: JsonValue) -> serde_json::Value {
    match value {
        JsonValue::Null => serde_json::Value::Null,
        JsonValue::Bool(b) => serde_json::Value::Bool(b),
        JsonValue::Number(n) => serde_json::Value::Number(n.parse().unwrap()),
        JsonValue::String(s) => serde_json::Value::String(s),
        JsonValue::Array(a) => serde_json::Value::Array(a.into_iter().map(from_library).collect()),
        JsonValue::Object(m) => serde_json::Value::Object(m.into_iter().map(|(k, v)| (k, from_library(v))).collect()),
    }
}

/// The canonical payload bytes of a JSON value.
fn json(v: serde_json::Value) -> Vec<u8> {
    serde_json::to_vec(&from_library(canonicalize_json(&to_library(&v)))).unwrap()
}

fn object(pairs: &[(&str, serde_json::Value)]) -> Vec<u8> {
    let mut map = serde_json::Map::new();
    for (k, v) in pairs {
        map.insert(k.to_string(), v.clone());
    }
    json(serde_json::Value::Object(map))
}

fn test_keypair() -> (SigningKey, PublicKey) {
    let mut rng = rand::thread_rng();
    let sk = SigningKey::generate(&mut rng);
    let pk = sk.public_key();
    (sk, pk)
}

fn make_chain(instance: &PublicKey, n: usize) -> Vec<Event> {
    let (sk, _) = test_keypair();
    let actor = sk.public_key();
    let mut events = Vec::new();
    let mut prev = Event::genesis_prev_hash(instance);
    for i in 0..n {
        let event = Event::new(
            i as u64,
            prev,
            EventType::MemberJoined,
            Some(actor),
            None,
            object(&[("seq", serde_json::Value::from(i))]),
            format!("2025-01-01T00:00:0{i}Z"),
        );
        prev = event.hash;
        events.push(event);
    }
    events
}

#[test]
fn event_hash_deterministic() {
    let instance = PublicKey::from_bytes([1u8; 32]);
    let prev = Event::genesis_prev_hash(&instance);
    let e1 = Event::new(0, prev, EventType::MemberJoined, None, None, object(&[]), "t".to_string());
    let e2 = Event::new(0, prev, EventType::MemberJoined, None, None, object(&[]), "t".to_string());
    assert_eq!(e1.hash, e2.hash);
}

#[test]
fn event_hash_changes_with_payload() {
    let prev = [0u8; 32];
    let e1 = Event::new(0, prev, EventType::MemberJoined, None, None, object(&[("a", 1.into())]), "t".to_string());
    let e2 = Event::new(0, prev, EventType::MemberJoined, None, None, object(&[("a", 2.into())]), "t".to_string());
    assert_ne!(e1.hash, e2.hash);
}

#[test]
fn verify_hash_ok() {
    let event = Event::new(0, [0u8; 32], EventType::InviteCreated, None, None, json(serde_json::Value::Null), "now".to_string());
    assert!(event.verify_hash());
}

#[test]
fn verify_hash_detects_tamper() {
    let mut event =
        Event::new(0, [0u8; 32], EventType::InviteCreated, None, None, json(serde_json::Value::Null), "now".to_string());
    event.payload = json(serde_json::Value::from("tampered"));
    assert!(!event.verify_hash());
}

#[test]
fn valid_chain() {
    let instance = PublicKey::from_bytes([10u8; 32]);
    let events = make_chain(&instance, 5);
    let genesis = Event::genesis_prev_hash(&instance);
    assert!(verify_chain(&events, &genesis).is_ok());
}

#[test]
fn empty_chain_valid() {
    let genesis = [0u8; 32];
    assert!(verify_chain(&[], &genesis).is_ok());
}

#[test]
fn tampered_payload_detected() {
    let instance = PublicKey::from_bytes([11u8; 32]);
    let mut events = make_chain(&instance, 3);
    let genesis = Event::genesis_prev_hash(&instance);
    events[1].payload = json(serde_json::Value::from("tampered"));
    let err = verify_chain(&events, &genesis).unwrap_err();
    assert!(matches!(err, ChainError::HashMismatch { id: 1 }));
}

#[test]
fn deleted_middle_event_detected() {
    let instance = PublicKey::from_bytes([12u8; 32]);
    let mut events = make_chain(&instance, 4);
    let genesis = Event::genesis_prev_hash(&instance);
    events.remove(1);
    let err = verify_chain(&events, &genesis).unwrap_err();
    assert!(matches!(err, ChainError::BrokenLink { .. }));
}

#[test]
fn modified_hash_detected() {
    let instance = PublicKey::from_bytes([13u8; 32]);
    let mut events = make_chain(&instance, 3);
    let genesis = Event::genesis_prev_hash(&instance);
    events[0].hash[0] ^= 0xff;
    let err = verify_chain(&events, &genesis).unwrap_err();
    assert!(matches!(err, ChainError::HashMismatch { .. } | ChainError::BrokenLink { .. }));
}

#[test]
fn wrong_genesis_detected() {
    let instance = PublicKey::from_bytes([14u8; 32]);
    let events = make_chain(&instance, 2);
    let wrong_genesis = [0xffu8; 32];
    let err = verify_chain(&events, &wrong_genesis).unwrap_err();
    assert!(matches!(err, ChainError::BrokenLink { id: 0 }));
}

#[test]
fn event_type_display_fromstr() {
    let types = [
        EventType::MemberJoined,
        EventType::MemberSuspended,
        EventType::MemberReinstated,
        EventType::MemberRemoved,
        EventType::MemberReplaced,
        EventType::GrantCapabilityChanged,
        EventType::GrantAccessChanged,
        EventType::InviteCreated,
        EventType::InviteRedeemed,
        EventType::InviteRevoked,
        EventType::InviteNounCreated,
        EventType::InviteNounResolved,
        EventType::IdentityUpdated,
    ];
    for t in types {
        let s = t.as_str();
        let back = EventType::parse(s).unwrap();
        assert_eq!(t, back, "roundtrip failed for {s}");
    }
}

#[test]
fn event_type_unknown() {
    assert!(EventType::parse("nope").is_err());
}

#[test]
fn checkpoint_sign_verify() {
    let (sk, pk) = test_keypair();
    let cp = EventCheckpoint::sign(&sk, 42, [0xab; 32], "2025-01-01T00:00:00Z".to_string());
    assert!(cp.verify(&pk).is_ok());
}

#[test]
fn checkpoint_wrong_key() {
    let (sk, _) = test_keypair();
    let (_, pk2) = test_keypair();
    let cp = EventCheckpoint::sign(&sk, 42, [0xab; 32], "2025-01-01T00:00:00Z".to_string());
    assert!(cp.verify(&pk2).is_err());
}

#[test]
fn checkpoint_tamper_detected() {
    let (sk, pk) = test_keypair();
    let mut cp = EventCheckpoint::sign(&sk, 42, [0xab; 32], "2025-01-01T00:00:00Z".to_string());
    cp.event_id = 43;
    assert!(cp.verify(&pk).is_err());
}

#[test]
fn genesis_prev_hash_deterministic() {
    let pk = PublicKey::from_bytes([99u8; 32]);
    assert_eq!(Event::genesis_prev_hash(&pk), Event::genesis_prev_hash(&pk));
}

#[test]
fn payload_key_order_is_canonical() {
    let mut map_a = serde_json::Map::new();
    map_a.insert("zzz".to_string(), serde_json::Value::from(1));
    map_a.insert("aaa".to_string(), serde_json::Value::from(2));
    let mut map_b = serde_json::Map::new();
    map_b.insert("aaa".to_string(), serde_json::Value::from(2));
    map_b.insert("zzz".to_string(), serde_json::Value::from(1));
    let prev = [0u8; 32];
    let e1 = Event::new(0, prev, EventType::MemberJoined, None, None, json(serde_json::Value::Object(map_a)), "t".to_string());
    let e2 = Event::new(0, prev, EventType::MemberJoined, None, None, json(serde_json::Value::Object(map_b)), "t".to_string());
    assert_eq!(e1.hash, e2.hash, "key insertion order must not affect hash");
}

#[test]
fn genesis_prev_hash_varies_by_instance() {
    let pk1 = PublicKey::from_bytes([1u8; 32]);
    let pk2 = PublicKey::from_bytes([2u8; 32]);
    assert_ne!(Event::genesis_prev_hash(&pk1), Event::genesis_prev_hash(&pk2));
}

#[test]
fn genesis_prev_hash_is_sha256_of_key() {
    // SHA-256 of 32 zero bytes.
    let h = Event::genesis_prev_hash(&PublicKey::from_bytes([0u8; 32]));
    assert_eq!(h[0], 0x66);
    assert_eq!(h[1], 0x68);
    assert_eq!(h[31], 0x25);
}

#[test]
fn chain_error_messages_and_extension() {
    assert_eq!(ChainError::HashMismatch { id: 7 }.message(), "event 7: hash mismatch (computed != stored)");
    assert_eq!(
        ChainError::BrokenLink { id: 3 }.message(),
        "event 3: prev_hash does not match previous event's hash"
    );
    let instance = PublicKey::from_bytes([20u8; 32]);
    let mut events = make_chain(&instance, 2);
    let next = Event::new(2, events[1].hash, EventType::InviteRevoked, None, Some(instance), json(serde_json::Value::Null), "x".to_string());
    events.push(next);
    assert!(verify_chain(&events, &Event::genesis_prev_hash(&instance)).is_ok());
    assert_eq!(EventType::parse("x").unwrap_err(), "unknown event type: x");
    assert_eq!(EventCheckpoint::signing_message(1, &[0u8; 32], "t").len(), 24 + 8 + 32 + 1);
}
