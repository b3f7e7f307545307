//! What the dispatcher does with a client's terminal lock messages: a
//! request takes the lock when it is free (everyone is told) or answers the
//! requester with who holds it; a release frees the lock, hands it to the
//! only user left present, if there is one, and tells everyone.

use vstd::prelude::*;
use crate::coordination::{
    build_lock_update_message, expires_in, held_by_other, lock_for, reconcile_outcome, rfc3339_of_millis, LockUpdate,
    LockView, Presence, TerminalLocks,
};
use crate::disconnect::{lock_at, lock_opt};
use crate::protocol::WsUser;

verus! {

/// `u` tells clients of the lock `lock` of `instance_id`, as of `now_ms`:
/// its holder, the time of its last activity and the seconds left; all
/// absent when there is no lock.
pub open spec fn is_lock_update(instance_id: Seq<char>, lock: Option<LockView>, now_ms: i64, u: LockUpdate) -> bool {
    &&& u.instance_id@ == instance_id
    &&& match lock {
        None => u.holder is None && u.last_activity is None && u.expires_in_secs is None,
        Some(l) => {
            &&& u.holder matches Some(h) && h.user_id@ == l.1 && h.display_name@ == l.2
            &&& match u.last_activity {
                Some(t) => rfc3339_of_millis(l.3) == Some(t@),
                None => rfc3339_of_millis(l.3) is None,
            }
            &&& u.expires_in_secs == Some(expires_in(l.3, now_ms) as u64)
        },
    }
}

/// The answer to a lock request.
#[derive(Debug)]
pub enum LockReply {
    /// Nothing is sent (an anonymous connection cannot hold a lock).
    Nothing,
    /// The lock was taken: every client is told.
    Broadcast(LockUpdate),
    /// The lock is held by another user: the requester is told by whom.
    Reply(LockUpdate),
}

/// The update for the current lock of `instance_id`.
fn current_update(locks: &TerminalLocks, instance_id: &str, now_ms: i64) -> (res: LockUpdate)
    requires
        locks.wf(),
    ensures
        is_lock_update(instance_id@, lock_at(locks.held(), instance_id@), now_ms, res),
{
    let lock = locks.get_terminal_lock(instance_id);
    assert(lock_opt(lock) == lock_at(locks.held(), instance_id@));
    build_lock_update_message(instance_id, lock, now_ms)
}

/// Handles a lock request for `instance_id` from connection `connection_id`
/// of `user` (none for an anonymous connection), as of `now_ms`.
pub fn lock_request_step(
    locks: &mut TerminalLocks,
    instance_id: &str,
    connection_id: &str,
    user: Option<&WsUser>,
    now_ms: i64,
) -> (res: LockReply)
    requires
        old(locks).wf(),
    ensures
        final(locks).wf(),
        user is None ==> final(locks).held() == old(locks).held() && res is Nothing,
        user matches Some(u) ==> {
            let taken = !held_by_other(old(locks).held(), instance_id@, u.user_id@, now_ms);
            &&& taken ==> final(locks).held() == old(locks).held().insert(
                instance_id@,
                lock_for(connection_id@, *u, now_ms),
            )
            &&& !taken ==> final(locks).held() == old(locks).held()
            &&& taken ==> (res matches LockReply::Broadcast(m) && is_lock_update(
                instance_id@,
                lock_at(final(locks).held(), instance_id@),
                now_ms,
                m,
            ))
            &&& !taken ==> (res matches LockReply::Reply(m) && is_lock_update(
                instance_id@,
                lock_at(final(locks).held(), instance_id@),
                now_ms,
                m,
            ))
        },
{
    match user {
        None => LockReply::Nothing,
        Some(u) => {
            let acquired = locks.try_acquire_terminal_lock(instance_id, connection_id, u, now_ms);
            let update = current_update(locks, instance_id, now_ms);
            if acquired {
                LockReply::Broadcast(update)
            } else {
                LockReply::Reply(update)
            }
        },
    }
}

/// Handles a lock release for `instance_id` from connection
/// `connection_id`, as of `now_ms`, with `presence` who is present. When
/// the connection held the lock it is released and reconciled with
/// presence, and the update for everyone is returned; otherwise nothing
/// changes and nothing is sent.
pub fn lock_release_step(
    locks: &mut TerminalLocks,
    presence: &Presence,
    instance_id: &str,
    connection_id: &str,
    now_ms: i64,
) -> (res: Option<LockUpdate>)
    requires
        old(locks).wf(),
        presence.wf(),
    ensures
        final(locks).wf(),
        ({
            let held = old(locks).held().dom().contains(instance_id@) && old(locks).held()[instance_id@].0
                == connection_id@;
            &&& !held ==> final(locks).held() == old(locks).held() && res is None
            &&& held ==> exists|r: bool|
                reconcile_outcome(
                    old(locks).held().remove(instance_id@),
                    presence.entry_set(),
                    instance_id@,
                    now_ms,
                    final(locks).held(),
                    r,
                )
            &&& held ==> (res matches Some(m) && is_lock_update(
                instance_id@,
                lock_at(final(locks).held(), instance_id@),
                now_ms,
                m,
            ))
        }),
{
    if locks.release_terminal_lock(instance_id, connection_id) {
        let ghost mid = locks.held();
        let r = locks.reconcile_terminal_lock_with_presence(instance_id, presence, now_ms);
        assert(reconcile_outcome(mid, presence.entry_set(), instance_id@, now_ms, locks.held(), r));
        Some(current_update(locks, instance_id, now_ms))
    } else {
        None
    }
}

} // verus!
