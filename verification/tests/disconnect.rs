use crab_city::coordination::{Presence, TerminalLocks};
use crab_city::disconnect::disconnect_cleanup;
use crab_city::protocol::WsUser;

fn user(id: &str, name: &str) -> WsUser {
    WsUser { user_id: id.to_string(), display_name: name.to_string() }
}

const T0: i64 = 1_700_000_000_000;

#[test]
fn unauthenticated_connection_changes_nothing() {
    let mut presence = Presence::new();
    let mut locks = TerminalLocks::new();
    presence.add_presence("inst-1", "conn-1", &user("alice", "Alice"));
    assert!(locks.try_acquire_terminal_lock("inst-1", "conn-1", &user("alice", "Alice"), T0));
    let u = disconnect_cleanup(&mut presence, &mut locks, "conn-1", false, T0 + 1_000);
    assert!(u.presence.is_empty());
    assert!(u.locks.is_empty());
    assert_eq!(presence.dedupe_presence("inst-1").len(), 1);
    assert!(locks.get_terminal_lock("inst-1").is_some());
}

#[test]
fn closing_releases_lock_and_presence() {
    let mut presence = Presence::new();
    let mut locks = TerminalLocks::new();
    presence.add_presence("inst-1", "conn-1", &user("alice", "Alice"));
    assert!(locks.try_acquire_terminal_lock("inst-1", "conn-1", &user("alice", "Alice"), T0));
    let u = disconnect_cleanup(&mut presence, &mut locks, "conn-1", true, T0 + 1_000);
    assert_eq!(u.presence.len(), 1);
    assert_eq!(u.presence[0].0, "inst-1");
    assert!(u.presence[0].1.is_empty());
    assert_eq!(u.locks.len(), 1);
    assert_eq!(u.locks[0].0, "inst-1");
    assert!(u.locks[0].1.is_none());
    assert!(presence.dedupe_presence("inst-1").is_empty());
    assert!(locks.get_terminal_lock("inst-1").is_none());
}

#[test]
fn lock_passes_to_the_only_user_left() {
    let mut presence = Presence::new();
    let mut locks = TerminalLocks::new();
    presence.add_presence("inst-1", "conn-1", &user("alice", "Alice"));
    presence.add_presence("inst-1", "conn-2", &user("bob", "Bob"));
    assert!(locks.try_acquire_terminal_lock("inst-1", "conn-1", &user("alice", "Alice"), T0));
    let u = disconnect_cleanup(&mut presence, &mut locks, "conn-1", true, T0 + 5_000);
    let lock = locks.get_terminal_lock("inst-1").expect("lock passed on");
    assert_eq!(lock.holder_connection_id, "conn-2");
    assert_eq!(lock.holder_user_id, "bob");
    assert_eq!(lock.holder_display_name, "Bob");
    assert_eq!(lock.last_activity_ms, T0 + 5_000);
    assert_eq!(u.locks[0].1, Some(lock));
    assert_eq!(u.presence[0].1.len(), 1);
    assert_eq!(u.presence[0].1[0].user_id, "bob");
}

#[test]
fn lock_cleared_when_several_users_remain() {
    let mut presence = Presence::new();
    let mut locks = TerminalLocks::new();
    presence.add_presence("inst-1", "conn-1", &user("alice", "Alice"));
    presence.add_presence("inst-1", "conn-2", &user("bob", "Bob"));
    presence.add_presence("inst-1", "conn-3", &user("carol", "Carol"));
    assert!(locks.try_acquire_terminal_lock("inst-1", "conn-1", &user("alice", "Alice"), T0));
    let u = disconnect_cleanup(&mut presence, &mut locks, "conn-1", true, T0 + 5_000);
    assert!(locks.get_terminal_lock("inst-1").is_none());
    assert!(u.locks[0].1.is_none());
    assert_eq!(u.presence[0].1.len(), 2);
}

#[test]
fn other_holders_keep_their_locks() {
    let mut presence = Presence::new();
    let mut locks = TerminalLocks::new();
    presence.add_presence("inst-1", "conn-1", &user("alice", "Alice"));
    presence.add_presence("inst-1", "conn-2", &user("bob", "Bob"));
    presence.add_presence("inst-2", "conn-1", &user("alice", "Alice"));
    assert!(locks.try_acquire_terminal_lock("inst-1", "conn-2", &user("bob", "Bob"), T0));
    assert!(locks.try_acquire_terminal_lock("inst-3", "conn-9", &user("dave", "Dave"), T0));
    let u = disconnect_cleanup(&mut presence, &mut locks, "conn-1", true, T0 + 5_000);
    assert_eq!(u.presence.len(), 2);
    assert_eq!(locks.get_terminal_lock("inst-1").expect("kept").holder_connection_id, "conn-2");
    assert_eq!(locks.get_terminal_lock("inst-3").expect("kept").holder_connection_id, "conn-9");
    assert!(locks.get_terminal_lock("inst-2").is_none());
}
