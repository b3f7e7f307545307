use crab_city::capability::Capability;
use crab_city::coordination::{Presence, TerminalLocks};
use crab_city::dispatch::{input_effects, InputEffect};
use crab_city::locking::{lock_release_step, lock_request_step, LockReply};
use crab_city::password_auth::{grant_capability, password_auth_step, PasswordAuthAction, StoredUser};
use crab_city::protocol::WsUser;

const T0: i64 = 1_700_000_000_000;

fn user(id: &str, name: &str) -> WsUser {
    WsUser { user_id: id.to_string(), display_name: name.to_string() }
}

#[test]
fn input_to_a_gone_instance_is_an_error() {
    assert_eq!(
        input_effects(None, false, true, "ls\n"),
        vec![InputEffect::Error("Instance no longer available".to_string())]
    );
}

#[test]
fn failed_write_is_reported() {
    assert_eq!(
        input_effects(Some(Err("broken pipe".to_string())), false, true, "ls\n"),
        vec![InputEffect::Error("Failed to send input: broken pipe".to_string())]
    );
}

#[test]
fn written_input_before_session_marks_first_input_and_attributes() {
    assert_eq!(
        input_effects(Some(Ok(())), false, true, "  fix the bug\n"),
        vec![
            InputEffect::MarkFirstInput,
            InputEffect::TouchLock,
            InputEffect::Attribute { text: "fix the bug".to_string(), preview: "fix the bug".to_string() },
        ]
    );
}

#[test]
fn written_input_with_session_or_without_text() {
    assert_eq!(input_effects(Some(Ok(())), true, true, "\r"), vec![InputEffect::TouchLock]);
    assert_eq!(input_effects(Some(Ok(())), true, false, "hello"), vec![InputEffect::TouchLock]);
    let long = "x".repeat(150);
    match &input_effects(Some(Ok(())), true, true, &long)[1] {
        InputEffect::Attribute { text, preview } => {
            assert_eq!(text.len(), 150);
            assert_eq!(preview.len(), 100);
        }
        other => panic!("expected attribution, got {:?}", other),
    }
}

#[test]
fn lock_request_takes_free_lock_and_answers_when_held() {
    let mut locks = TerminalLocks::new();
    match lock_request_step(&mut locks, "inst-1", "conn-1", Some(&user("alice", "Alice")), T0) {
        LockReply::Broadcast(u) => {
            assert_eq!(u.instance_id, "inst-1");
            assert_eq!(u.holder.expect("holder").user_id, "alice");
            assert_eq!(u.expires_in_secs, Some(120));
        }
        other => panic!("expected a broadcast, got {:?}", other),
    }
    match lock_request_step(&mut locks, "inst-1", "conn-2", Some(&user("bob", "Bob")), T0 + 1_000) {
        LockReply::Reply(u) => {
            assert_eq!(u.holder.expect("holder").user_id, "alice");
            assert_eq!(u.expires_in_secs, Some(119));
        }
        other => panic!("expected a reply, got {:?}", other),
    }
    assert!(matches!(lock_request_step(&mut locks, "inst-1", "conn-3", None, T0), LockReply::Nothing));
    assert_eq!(locks.get_terminal_lock("inst-1").expect("held").holder_connection_id, "conn-1");
}

#[test]
fn lock_release_reconciles_and_updates() {
    let mut locks = TerminalLocks::new();
    let mut presence = Presence::new();
    presence.add_presence("inst-1", "conn-2", &user("bob", "Bob"));
    assert!(locks.try_acquire_terminal_lock("inst-1", "conn-1", &user("alice", "Alice"), T0));
    assert!(lock_release_step(&mut locks, &presence, "inst-1", "conn-9", T0).is_none());
    let u = lock_release_step(&mut locks, &presence, "inst-1", "conn-1", T0 + 2_000).expect("released");
    assert_eq!(u.holder.expect("passed on").user_id, "bob");
    assert_eq!(locks.get_terminal_lock("inst-1").expect("held").holder_connection_id, "conn-2");
}

fn stored(name: &str, key: Option<Vec<u8>>) -> StoredUser {
    StoredUser { display_name: name.to_string(), public_key: key }
}

#[test]
fn password_sign_in_decisions() {
    assert_eq!(
        password_auth_step(Some(stored("Alice", None)), false, "alice", None, None),
        PasswordAuthAction::Refuse("invalid username or password".to_string())
    );
    assert_eq!(
        password_auth_step(Some(stored("Alice", Some(vec![7u8; 32]))), true, "alice", None, Some("Al")),
        PasswordAuthAction::UseLinkedKey { key: [7u8; 32], display_name: "Alice".to_string(), fallback_name: "Al".to_string() }
    );
    assert_eq!(
        password_auth_step(Some(stored("Alice", Some(vec![7u8; 5]))), true, "alice", None, None),
        PasswordAuthAction::LinkNewKey { display_name: "Alice".to_string(), capability: Capability::Collaborate }
    );
    assert_eq!(
        password_auth_step(None, false, "bob", None, None),
        PasswordAuthAction::Refuse("user not found; invite token required for registration".to_string())
    );
    assert_eq!(
        password_auth_step(None, false, "bob", Some("tok"), None),
        PasswordAuthAction::Register { token: "tok".to_string(), display_name: "bob".to_string() }
    );
}

#[test]
fn corrupted_grant_capability_counts_as_view() {
    assert_eq!(grant_capability("admin"), Capability::Admin);
    assert_eq!(grant_capability("superuser"), Capability::View);
}
