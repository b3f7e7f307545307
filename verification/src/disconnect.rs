//! What the server forgets when a WebSocket connection closes: the
//! connection's presence everywhere, and the terminal locks it held on the
//! instances it was on, each passed to the one user left there if there is
//! exactly one.

use vstd::prelude::*;
use crate::coordination::{
    instances_with, is_single, lists_users, present_as, reconcile_outcome, users_of, EntryView, LockView, Presence,
    TerminalLock, TerminalLocks,
};
use crate::protocol::PresenceUser;

verus! {

/// The lock of instance `k` after connection `conn` closed, with `es` the
/// presence left: a lock the connection held passes to the single user
/// still present there (on one of their connections, as of `now_ms`) and is
/// cleared when there is not exactly one; any other lock stays.
pub open spec fn lock_after_close(
    before: Map<Seq<char>, LockView>,
    es: Set<EntryView>,
    conn: Seq<char>,
    now_ms: i64,
    k: Seq<char>,
    after: Map<Seq<char>, LockView>,
) -> bool {
    if before.dom().contains(k) && before[k].0 == conn {
        if is_single(users_of(es, k)) {
            &&& after.dom().contains(k)
            &&& users_of(es, k).contains(after[k].1)
            &&& present_as(es, k, after[k].1, after[k].2)
            &&& (exists|n: Seq<char>| es.contains((k, after[k].0, after[k].1, n)))
            &&& after[k].3 == now_ms
        } else {
            !after.dom().contains(k)
        }
    } else {
        unchanged_at(before, k, after)
    }
}

/// The presence left when connection `conn` closes.
pub open spec fn left_after(es: Set<EntryView>, conn: Seq<char>) -> Set<EntryView> {
    es.filter(|e: EntryView| e.1 != conn)
}

/// The lock of `k` is the same in both maps.
pub open spec fn unchanged_at(before: Map<Seq<char>, LockView>, k: Seq<char>, after: Map<Seq<char>, LockView>) -> bool {
    &&& after.dom().contains(k) == before.dom().contains(k)
    &&& before.dom().contains(k) ==> after[k] == before[k]
}

/// The view of an optional lock.
pub open spec fn lock_opt(l: Option<TerminalLock>) -> Option<LockView> {
    match l {
        Some(x) => Some(x@),
        None => None,
    }
}

/// The lock of `k` in `m`, if any.
pub open spec fn lock_at(m: Map<Seq<char>, LockView>, k: Seq<char>) -> Option<LockView> {
    if m.dom().contains(k) {
        Some(m[k])
    } else {
        None
    }
}

/// What closing a connection changed, for the other connections.
#[derive(Debug)]
pub struct DisconnectUpdates {
    /// For each instance the connection was on, each once: the users still
    /// present there.
    pub presence: Vec<(String, Vec<PresenceUser>)>,
    /// For the same instances, in the same order: the lock each has now.
    pub locks: Vec<(String, Option<TerminalLock>)>,
}

/// Cleans up after connection `connection_id` closed, as of `now_ms`. For
/// a connection that never authenticated nothing changes. Otherwise the
/// connection leaves every instance, and on each instance it was on, a lock
/// it held is released and then reconciled with who is left.
pub fn disconnect_cleanup(
    presence: &mut Presence,
    locks: &mut TerminalLocks,
    connection_id: &str,
    authenticated: bool,
    now_ms: i64,
) -> (res: DisconnectUpdates)
    requires
        old(presence).wf(),
        old(locks).wf(),
    ensures
        final(presence).wf(),
        final(locks).wf(),
        !authenticated ==> {
            &&& final(presence).entry_set() == old(presence).entry_set()
            &&& final(locks).held() == old(locks).held()
            &&& res.presence@.len() == 0
            &&& res.locks@.len() == 0
        },
        authenticated ==> {
            &&& final(presence).entry_set() == old(presence).entry_set().filter(|e: EntryView| e.1 != connection_id@)
            &&& forall|a: int, b: int|
                0 <= a < res.presence@.len() && 0 <= b < res.presence@.len() && a != b ==> (
                #[trigger] res.presence@[a]).0@ != (#[trigger] res.presence@[b]).0@
            &&& forall|x: Seq<char>| instances_with(old(presence).entry_set(), connection_id@).contains(x) <==> exists|i: int|
                0 <= i < res.presence@.len() && (#[trigger] res.presence@[i]).0@ == x
            &&& forall|i: int|
                0 <= i < res.presence@.len() ==> lists_users(
                    final(presence).entry_set(),
                    (#[trigger] res.presence@[i]).0@,
                    res.presence@[i].1@,
                )
            &&& res.locks@.len() == res.presence@.len()
            &&& forall|i: int|
                0 <= i < res.locks@.len() ==> (#[trigger] res.locks@[i]).0@ == res.presence@[i].0@ && lock_opt(
                    res.locks@[i].1,
                ) == lock_at(final(locks).held(), res.presence@[i].0@)
            &&& forall|k: Seq<char>|
                #[trigger] instances_with(old(presence).entry_set(), connection_id@).contains(k) ==> lock_after_close(
                    old(locks).held(),
                    final(presence).entry_set(),
                    connection_id@,
                    now_ms,
                    k,
                    final(locks).held(),
                )
            &&& forall|k: Seq<char>|
                !#[trigger] instances_with(old(presence).entry_set(), connection_id@).contains(k) ==> unchanged_at(
                    old(locks).held(),
                    k,
                    final(locks).held(),
                )
        },
{
    if !authenticated {
        return DisconnectUpdates { presence: Vec::new(), locks: Vec::new() };
    }
    let ghost before = locks.held();
    let ghost conn = connection_id@;
    let ghost affected = instances_with(old(presence).entry_set(), conn);
    let updates = presence.remove_presence_all(connection_id);
    let ghost es = presence.entry_set();
    let mut out: Vec<(String, Option<TerminalLock>)> = Vec::new();
    let mut j: usize = 0;
    while j < updates.len()
        invariant
            0 <= j <= updates@.len(),
            locks.wf(),
            presence.wf(),
            presence.entry_set() == es,
            conn == connection_id@,
            forall|a: int, b: int|
                0 <= a < updates@.len() && 0 <= b < updates@.len() && a != b ==> (#[trigger] updates@[a]).0@ != (
                #[trigger] updates@[b]).0@,
            forall|x: Seq<char>| affected.contains(x) <==> exists|i: int|
                0 <= i < updates@.len() && (#[trigger] updates@[i]).0@ == x,
            out@.len() == j,
            forall|i: int|
                0 <= i < j ==> (#[trigger] out@[i]).0@ == updates@[i].0@ && lock_opt(out@[i].1) == lock_at(
                    locks.held(),
                    updates@[i].0@,
                ),
            forall|i: int|
                0 <= i < j ==> lock_after_close(before, es, conn, now_ms, (#[trigger] updates@[i]).0@, locks.held()),
            forall|k: Seq<char>|
                (forall|i: int| 0 <= i < j ==> (#[trigger] updates@[i]).0@ != k) ==> unchanged_at(
                    before,
                    k,
                    locks.held(),
                ),
        decreases updates.len() - j,
    {
        let x = updates[j].0.as_str();
        let ghost cur = locks.held();
        assert(forall|i: int| 0 <= i < j ==> (#[trigger] updates@[i]).0@ != x@);
        assert(unchanged_at(before, x@, cur));
        let released = locks.release_terminal_lock(x, connection_id);
        if released {
            let r = locks.reconcile_terminal_lock_with_presence(x, presence, now_ms);
            proof {
                assert(reconcile_outcome(cur.remove(x@), es, x@, now_ms, locks.held(), r));
            }
        }
        let ghost next = locks.held();
        proof {
            assert forall|k: Seq<char>| k != x@ implies unchanged_at(cur, k, next) by {
                if released {
                    assert(next.remove(x@).dom().contains(k) == cur.remove(x@).dom().contains(k));
                    if cur.dom().contains(k) {
                        assert(next.remove(x@)[k] == cur.remove(x@)[k]);
                    }
                }
            }
            if released {
                assert(before.dom().contains(x@) && before[x@].0 == conn);
                assert(!cur.remove(x@).dom().contains(x@));
                if is_single(users_of(es, x@)) {
                    assert(next.dom().contains(x@));
                } else {
                    assert(!next.dom().contains(x@));
                }
            } else {
                assert(!(before.dom().contains(x@) && before[x@].0 == conn));
                assert(unchanged_at(before, x@, next));
            }
            assert(lock_after_close(before, es, conn, now_ms, x@, next));
            assert forall|i: int| 0 <= i < j + 1 implies lock_after_close(
                before,
                es,
                conn,
                now_ms,
                (#[trigger] updates@[i]).0@,
                next,
            ) by {
                if i < j {
                    let k = updates@[i].0@;
                    assert(k != x@);
                    assert(unchanged_at(cur, k, next));
                    assert(lock_after_close(before, es, conn, now_ms, k, cur));
                }
            }
            assert forall|k: Seq<char>| (forall|i: int| 0 <= i < j + 1 ==> (#[trigger] updates@[i]).0@ != k) implies unchanged_at(
                before,
                k,
                next,
            ) by {
                assert(updates@[j as int].0@ != k);
                assert(unchanged_at(before, k, cur));
                assert(unchanged_at(cur, k, next));
            }
        }
        let lock = locks.get_terminal_lock(x);
        out.push((updates[j].0.clone(), lock));
        proof {
            assert forall|i: int| 0 <= i < j + 1 implies (#[trigger] out@[i]).0@ == updates@[i].0@ && lock_opt(
                out@[i].1,
            ) == lock_at(locks.held(), updates@[i].0@) by {
                if i < j {
                    assert(updates@[i].0@ != x@);
                    assert(unchanged_at(cur, updates@[i].0@, next));
                }
            }
        }
        j = j + 1;
    }
    proof {
        assert forall|k: Seq<char>| #[trigger] affected.contains(k) implies lock_after_close(
            before,
            es,
            conn,
            now_ms,
            k,
            locks.held(),
        ) by {
            let i = choose|i: int| 0 <= i < updates@.len() && (#[trigger] updates@[i]).0@ == k;
            assert(lock_after_close(before, es, conn, now_ms, updates@[i].0@, locks.held()));
        }
        assert forall|k: Seq<char>| !#[trigger] affected.contains(k) implies unchanged_at(before, k, locks.held()) by {
            assert forall|i: int| 0 <= i < updates@.len() implies (#[trigger] updates@[i]).0@ != k by {
                if updates@[i].0@ == k {
                    assert(affected.contains(k));
                }
            }
        }
    }
    DisconnectUpdates { presence: updates, locks: out }
}

/// A connection that closed is present nowhere, and holds no lock on any
/// instance it was on.
pub proof fn law_closed_connection_holds_nothing(
    es_before: Set<EntryView>,
    before: Map<Seq<char>, LockView>,
    conn: Seq<char>,
    now_ms: i64,
    after: Map<Seq<char>, LockView>,
)
    requires
        forall|k: Seq<char>|
            #[trigger] instances_with(es_before, conn).contains(k) ==> lock_after_close(
                before,
                left_after(es_before, conn),
                conn,
                now_ms,
                k,
                after,
            ),
    ensures
        forall|e: EntryView| #[trigger] left_after(es_before, conn).contains(e) ==> e.1 != conn,
        forall|k: Seq<char>|
            #[trigger] instances_with(es_before, conn).contains(k) && after.dom().contains(k) ==> after[k].0 != conn,
{
    let es = left_after(es_before, conn);
    assert forall|k: Seq<char>| #[trigger] instances_with(es_before, conn).contains(k) && after.dom().contains(k) implies after[k].0
        != conn by {
        assert(lock_after_close(before, es, conn, now_ms, k, after));
        if before.dom().contains(k) && before[k].0 == conn {
            if is_single(users_of(es, k)) {
                let n = choose|n: Seq<char>| es.contains((k, after[k].0, after[k].1, n));
                assert(es.contains((k, after[k].0, after[k].1, n)));
            }
        }
    }
}

} // verus!
