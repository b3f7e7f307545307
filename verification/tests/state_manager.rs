use crab_city::coordination::{Presence, SessionClaims, TerminalLocks};
use crab_city::protocol::WsUser;

fn make_ws_user(user_id: &str, display_name: &str) -> WsUser {
    WsUser { user_id: user_id.to_string(), display_name: display_name.to_string() }
}

const T0: i64 = 1_700_000_000_000;

// Session claiming

#[test]
fn test_try_claim_session_unclaimed() {
    let mut claims = SessionClaims::new();
    assert!(claims.try_claim_session("sess-1", "inst-1"));
}

#[test]
fn test_try_claim_session_already_owned_by_self() {
    let mut claims = SessionClaims::new();
    assert!(claims.try_claim_session("sess-1", "inst-1"));
    assert!(claims.try_claim_session("sess-1", "inst-1"));
}

#[test]
fn test_try_claim_session_owned_by_other() {
    let mut claims = SessionClaims::new();
    assert!(claims.try_claim_session("sess-1", "inst-1"));
    assert!(!claims.try_claim_session("sess-1", "inst-2"));
}

#[test]
fn test_release_session() {
    let mut claims = SessionClaims::new();
    claims.try_claim_session("sess-1", "inst-1");
    claims.try_claim_session("sess-2", "inst-1");
    claims.release_session("inst-1");
    assert!(claims.try_claim_session("sess-1", "inst-2"));
    assert!(claims.try_claim_session("sess-2", "inst-2"));
}

#[test]
fn test_get_claimed_sessions() {
    let mut claims = SessionClaims::new();
    claims.try_claim_session("sess-1", "inst-1");
    claims.try_claim_session("sess-2", "inst-2");
    let claimed = claims.claimed_sessions();
    assert!(claimed.contains(&"sess-1".to_string()));
    assert!(claimed.contains(&"sess-2".to_string()));
    assert_eq!(claimed.len(), 2);
}

#[test]
fn release_keeps_other_instances_claims() {
    let mut claims = SessionClaims::new();
    claims.try_claim_session("sess-a", "inst-a");
    claims.try_claim_session("sess-b", "inst-b");
    claims.release_session("inst-a");
    assert_eq!(claims.claimed_sessions(), vec!["sess-b".to_string()]);
    assert!(!claims.try_claim_session("sess-b", "inst-a"));
}

#[test]
fn test_two_instances_sequential_input_correct_claims() {
    let mut claims = SessionClaims::new();
    assert!(claims.try_claim_session("sess-a", "inst-a"));
    assert!(claims.claimed_sessions().contains(&"sess-a".to_string()));
    assert!(claims.try_claim_session("sess-b", "inst-b"));
    assert!(!claims.try_claim_session("sess-a", "inst-b"));
    assert!(!claims.try_claim_session("sess-b", "inst-a"));
}

// Terminal locks

#[test]
fn test_acquire_terminal_lock_unclaimed() {
    let mut locks = TerminalLocks::new();
    let user = make_ws_user("u-1", "Alice");
    assert!(locks.try_acquire_terminal_lock("inst-1", "conn-1", &user, T0));
    let lock = locks.get_terminal_lock("inst-1").unwrap();
    assert_eq!(lock.holder_user_id, "u-1");
    assert_eq!(lock.holder_display_name, "Alice");
    assert_eq!(lock.last_activity_ms, T0);
}

#[test]
fn test_acquire_terminal_lock_same_user() {
    let mut locks = TerminalLocks::new();
    let user = make_ws_user("u-1", "Alice");
    locks.try_acquire_terminal_lock("inst-1", "conn-1", &user, T0);
    assert!(locks.try_acquire_terminal_lock("inst-1", "conn-2", &user, T0 + 5));
    let lock = locks.get_terminal_lock("inst-1").unwrap();
    assert_eq!(lock.holder_connection_id, "conn-2");
    assert_eq!(lock.last_activity_ms, T0 + 5);
}

#[test]
fn test_acquire_terminal_lock_different_user_denied() {
    let mut locks = TerminalLocks::new();
    let alice = make_ws_user("u-1", "Alice");
    let bob = make_ws_user("u-2", "Bob");
    locks.try_acquire_terminal_lock("inst-1", "conn-1", &alice, T0);
    assert!(!locks.try_acquire_terminal_lock("inst-1", "conn-2", &bob, T0 + 1000));
    assert_eq!(locks.get_terminal_lock("inst-1").unwrap().holder_user_id, "u-1");
}

#[test]
fn acquire_after_timeout_takes_over() {
    let mut locks = TerminalLocks::new();
    let alice = make_ws_user("u-1", "Alice");
    let bob = make_ws_user("u-2", "Bob");
    locks.try_acquire_terminal_lock("inst-1", "conn-1", &alice, T0);
    // Still held at 119.999 s of inactivity.
    assert!(!locks.try_acquire_terminal_lock("inst-1", "conn-2", &bob, T0 + 119_999));
    // Expired at 120 s.
    assert!(locks.try_acquire_terminal_lock("inst-1", "conn-2", &bob, T0 + 120_000));
    let lock = locks.get_terminal_lock("inst-1").unwrap();
    assert_eq!(lock.holder_user_id, "u-2");
    assert_eq!(lock.holder_connection_id, "conn-2");
}

#[test]
fn test_release_terminal_lock() {
    let mut locks = TerminalLocks::new();
    let user = make_ws_user("u-1", "Alice");
    locks.try_acquire_terminal_lock("inst-1", "conn-1", &user, T0);
    assert!(locks.release_terminal_lock("inst-1", "conn-1"));
    assert!(locks.get_terminal_lock("inst-1").is_none());
}

#[test]
fn test_release_terminal_lock_wrong_connection() {
    let mut locks = TerminalLocks::new();
    let user = make_ws_user("u-1", "Alice");
    locks.try_acquire_terminal_lock("inst-1", "conn-1", &user, T0);
    assert!(!locks.release_terminal_lock("inst-1", "conn-other"));
    assert!(locks.get_terminal_lock("inst-1").is_some());
}

#[test]
fn test_touch_terminal_lock_updates_activity() {
    let mut locks = TerminalLocks::new();
    let user = make_ws_user("u-1", "Alice");
    locks.try_acquire_terminal_lock("inst-1", "conn-1", &user, T0);
    let before = locks.get_terminal_lock("inst-1").unwrap().last_activity_ms;
    locks.touch_terminal_lock("inst-1", "conn-1", T0 + 10);
    let after = locks.get_terminal_lock("inst-1").unwrap().last_activity_ms;
    assert!(after >= before);
    assert_eq!(after, T0 + 10);
}

#[test]
fn test_touch_terminal_lock_wrong_connection_ignored() {
    let mut locks = TerminalLocks::new();
    let user = make_ws_user("u-1", "Alice");
    locks.try_acquire_terminal_lock("inst-1", "conn-1", &user, T0);
    let before = locks.get_terminal_lock("inst-1").unwrap().last_activity_ms;
    locks.touch_terminal_lock("inst-1", "conn-other", T0 + 10);
    let after = locks.get_terminal_lock("inst-1").unwrap().last_activity_ms;
    assert_eq!(before, after);
}

#[test]
fn test_touch_terminal_lock_no_lock_noop() {
    let mut locks = TerminalLocks::new();
    locks.touch_terminal_lock("inst-1", "conn-1", T0);
    assert!(locks.get_terminal_lock("inst-1").is_none());
}

// Presence

#[test]
fn test_add_presence() {
    let mut presence = Presence::new();
    let user = make_ws_user("u-1", "Alice");
    let users = presence.add_presence("inst-1", "conn-1", &user);
    assert_eq!(users.len(), 1);
    assert_eq!(users[0].user_id, "u-1");
}

#[test]
fn test_presence_deduplication() {
    let mut presence = Presence::new();
    let user = make_ws_user("u-1", "Alice");
    presence.add_presence("inst-1", "conn-1", &user);
    let users = presence.add_presence("inst-1", "conn-2", &user);
    assert_eq!(users.len(), 1);
    assert_eq!(presence.connection_ids("inst-1").len(), 2);
}

#[test]
fn test_remove_presence() {
    let mut presence = Presence::new();
    let alice = make_ws_user("u-1", "Alice");
    let bob = make_ws_user("u-2", "Bob");
    presence.add_presence("inst-1", "conn-1", &alice);
    presence.add_presence("inst-1", "conn-2", &bob);
    let remaining = presence.remove_presence_from_instance("inst-1", "conn-1");
    assert_eq!(remaining.len(), 1);
    assert_eq!(remaining[0].user_id, "u-2");
}

#[test]
fn remove_presence_from_unknown_instance_is_empty() {
    let mut presence = Presence::new();
    assert!(presence.remove_presence_from_instance("inst-9", "conn-1").is_empty());
}

#[test]
fn test_remove_presence_all() {
    let mut presence = Presence::new();
    let user = make_ws_user("u-1", "Alice");
    presence.add_presence("inst-1", "conn-1", &user);
    presence.add_presence("inst-2", "conn-1", &user);
    let updates = presence.remove_presence_all("conn-1");
    assert_eq!(updates.len(), 2);
    for (_, users) in &updates {
        assert!(users.is_empty());
    }
    let mut ids: Vec<String> = updates.iter().map(|(id, _)| id.clone()).collect();
    ids.sort();
    assert_eq!(ids, vec!["inst-1".to_string(), "inst-2".to_string()]);
}

#[test]
fn remove_presence_all_keeps_other_connections() {
    let mut presence = Presence::new();
    let alice = make_ws_user("u-1", "Alice");
    let bob = make_ws_user("u-2", "Bob");
    presence.add_presence("inst-1", "conn-1", &alice);
    presence.add_presence("inst-1", "conn-2", &bob);
    presence.add_presence("inst-3", "conn-2", &bob);
    let updates = presence.remove_presence_all("conn-1");
    assert_eq!(updates.len(), 1);
    assert_eq!(updates[0].0, "inst-1");
    assert_eq!(updates[0].1.len(), 1);
    assert_eq!(updates[0].1[0].user_id, "u-2");
    assert_eq!(presence.connection_ids("inst-3"), vec!["conn-2".to_string()]);
}

// Reconciling the lock with presence

#[test]
fn test_reconcile_clears_disconnected_holder() {
    let mut presence = Presence::new();
    let mut locks = TerminalLocks::new();
    let alice = make_ws_user("u-1", "Alice");
    presence.add_presence("inst-1", "conn-1", &alice);
    locks.try_acquire_terminal_lock("inst-1", "conn-1", &alice, T0);
    presence.remove_presence_from_instance("inst-1", "conn-1");
    assert!(locks.reconcile_terminal_lock_with_presence("inst-1", &presence, T0 + 1));
    assert!(locks.get_terminal_lock("inst-1").is_none());
}

#[test]
fn test_reconcile_auto_grants_sole_user() {
    let mut presence = Presence::new();
    let mut locks = TerminalLocks::new();
    let alice = make_ws_user("u-1", "Alice");
    presence.add_presence("inst-1", "conn-1", &alice);
    assert!(locks.reconcile_terminal_lock_with_presence("inst-1", &presence, T0));
    let lock = locks.get_terminal_lock("inst-1").unwrap();
    assert_eq!(lock.holder_user_id, "u-1");
    assert_eq!(lock.holder_connection_id, "conn-1");
    assert_eq!(lock.last_activity_ms, T0);
}

#[test]
fn test_reconcile_no_change_when_holder_present() {
    let mut presence = Presence::new();
    let mut locks = TerminalLocks::new();
    let alice = make_ws_user("u-1", "Alice");
    let bob = make_ws_user("u-2", "Bob");
    presence.add_presence("inst-1", "conn-1", &alice);
    presence.add_presence("inst-1", "conn-2", &bob);
    locks.try_acquire_terminal_lock("inst-1", "conn-1", &alice, T0);
    assert!(!locks.reconcile_terminal_lock_with_presence("inst-1", &presence, T0 + 1));
    assert_eq!(locks.get_terminal_lock("inst-1").unwrap().holder_connection_id, "conn-1");
}

#[test]
fn test_reconcile_no_auto_grant_multiple_users() {
    let mut presence = Presence::new();
    let mut locks = TerminalLocks::new();
    let alice = make_ws_user("u-1", "Alice");
    let bob = make_ws_user("u-2", "Bob");
    presence.add_presence("inst-1", "conn-1", &alice);
    presence.add_presence("inst-1", "conn-2", &bob);
    assert!(!locks.reconcile_terminal_lock_with_presence("inst-1", &presence, T0));
    assert!(locks.get_terminal_lock("inst-1").is_none());
}

#[test]
fn test_reconcile_empty_instance_no_change() {
    let presence = Presence::new();
    let mut locks = TerminalLocks::new();
    assert!(!locks.reconcile_terminal_lock_with_presence("inst-1", &presence, T0));
    assert!(locks.get_terminal_lock("inst-1").is_none());
}
