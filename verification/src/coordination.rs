//! Who holds what across WebSocket connections: which instance has claimed
//! each conversation session, which connection holds each instance's
//! terminal lock, and who is present on each instance.

use vstd::prelude::*;
use crate::keyed::{
    find_key, keyed_map, keys_unique, lemma_keyed_entry, lemma_keyed_push, lemma_keyed_remove, lemma_keyed_set,
};
use crate::protocol::{PresenceUser, WsUser};
use crate::text::str_eq;

verus! {

/// Claims of conversation sessions by instances.
pub struct SessionClaims {
    sessions: Vec<String>,
    owners: Vec<String>,
}

/// The owners' names in a keyed map of strings.
pub open spec fn string_values(m: Map<Seq<char>, String>) -> Map<Seq<char>, Seq<char>> {
    m.map_values(|s: String| s@)
}

/// Claiming session `s` for instance `i` in claims `before` answers `res`
/// and leaves `after`: an unclaimed session is claimed; a claimed one is
/// left as it is, and the answer is whether `i` holds it.
pub open spec fn claim_step(
    before: Map<Seq<char>, Seq<char>>,
    s: Seq<char>,
    i: Seq<char>,
    res: bool,
    after: Map<Seq<char>, Seq<char>>,
) -> bool {
    if before.dom().contains(s) {
        res == (before[s] == i) && after == before
    } else {
        res && after == before.insert(s, i)
    }
}

/// The claims left when instance `i` releases its own.
pub open spec fn released(m: Map<Seq<char>, Seq<char>>, i: Seq<char>) -> Map<Seq<char>, Seq<char>> {
    m.filter_keys(|k: Seq<char>| m[k] != i)
}

/// Once an instance has claimed a session, another instance's claim of it
/// is refused and changes nothing.
pub proof fn law_claim_is_exclusive(
    m0: Map<Seq<char>, Seq<char>>,
    s: Seq<char>,
    a: Seq<char>,
    b: Seq<char>,
    r1: bool,
    m1: Map<Seq<char>, Seq<char>>,
    r2: bool,
    m2: Map<Seq<char>, Seq<char>>,
)
    requires
        claim_step(m0, s, a, r1, m1),
        r1,
        claim_step(m1, s, b, r2, m2),
        a != b,
    ensures
        m1.dom().contains(s),
        m1[s] == a,
        !r2,
        m2 == m1,
{
}

/// After an instance releases its claims, any of its sessions can be
/// claimed by another instance, and the claims of other instances stay.
pub proof fn law_release_frees_claims(
    m0: Map<Seq<char>, Seq<char>>,
    a: Seq<char>,
    s: Seq<char>,
    b: Seq<char>,
    r: bool,
    m2: Map<Seq<char>, Seq<char>>,
)
    requires
        m0.dom().contains(s),
        m0[s] == a,
        claim_step(released(m0, a), s, b, r, m2),
    ensures
        r,
        m2[s] == b,
        forall|k: Seq<char>| m0.dom().contains(k) && m0[k] != a ==> #[trigger] m2.dom().contains(k) && m2[k] == m0[k],
{
    assert(!released(m0, a).dom().contains(s));
}

impl SessionClaims {
    /// Each session is claimed at most once.
    pub closed spec fn wf(&self) -> bool {
        self.sessions@.len() == self.owners@.len() && keys_unique(self.sessions@)
    }

    /// Session id to the id of the instance that claimed it.
    pub closed spec fn claims(&self) -> Map<Seq<char>, Seq<char>> {
        string_values(keyed_map(self.sessions@, self.owners@))
    }

    /// No claims.
    pub fn new() -> (res: Self)
        ensures
            res.wf(),
            res.claims() == Map::<Seq<char>, Seq<char>>::empty(),
    {
        let res = SessionClaims { sessions: Vec::new(), owners: Vec::new() };
        assert(res.claims() =~= Map::<Seq<char>, Seq<char>>::empty());
        res
    }

    /// Claims `session_id` for `instance_id`. Succeeds when the session is
    /// unclaimed (and records the claim) or already claimed by this
    /// instance; fails, changing nothing, when another instance holds it.
    pub fn try_claim_session(&mut self, session_id: &str, instance_id: &str) -> (res: bool)
        requires
            old(self).wf(),
        ensures
            final(self).wf(),
            claim_step(old(self).claims(), session_id@, instance_id@, res, final(self).claims()),
    {
        match find_key(&self.sessions, session_id) {
            Some(i) => {
                proof {
                    lemma_keyed_entry(self.sessions@, self.owners@, i as int);
                }
                str_eq(self.owners[i].as_str(), instance_id)
            },
            None => {
                let ghost old_s = self.sessions@;
                let s = session_id.to_owned();
                let ghost sv = s;
                self.sessions.push(s);
                self.owners.push(instance_id.to_owned());
                proof {
                    lemma_keyed_push(old_s, old(self).owners@, sv, self.owners@.last());
                    assert(self.claims() =~= old(self).claims().insert(session_id@, instance_id@));
                }
                true
            },
        }
    }

    /// Drops every claim held by `instance_id`.
    pub fn release_session(&mut self, instance_id: &str)
        requires
            old(self).wf(),
        ensures
            final(self).wf(),
            final(self).claims() == released(old(self).claims(), instance_id@),
    {
        let ghost old_map = keyed_map(self.sessions@, self.owners@);
        let mut kept_s: Vec<String> = Vec::new();
        let mut kept_o: Vec<String> = Vec::new();
        let mut i: usize = 0;
        while i < self.sessions.len()
            invariant
                0 <= i <= self.sessions@.len(),
                self.sessions@.len() == self.owners@.len(),
                keys_unique(self.sessions@),
                old_map == keyed_map(self.sessions@, self.owners@),
                kept_s@.len() == kept_o@.len(),
                keys_unique(kept_s@),
                forall|j: int| 0 <= j < kept_s@.len() ==> exists|t: int| 0 <= t < i && (#[trigger] kept_s@[j])@ == self.sessions@[t]@,
                keyed_map(kept_s@, kept_o@) == old_map.filter_keys(
                    |k: Seq<char>| (exists|t: int| 0 <= t < i && (#[trigger] self.sessions@[t])@ == k) && old_map[k]@ != instance_id@,
                ),
            decreases self.sessions.len() - i,
        {
            proof {
                lemma_keyed_entry(self.sessions@, self.owners@, i as int);
            }
            if !str_eq(self.owners[i].as_str(), instance_id) {
                let s = self.sessions[i].clone();
                let o = self.owners[i].clone();
                let ghost old_ks = kept_s@;
                let ghost old_ko = kept_o@;
                proof {
                    assert forall|j: int| 0 <= j < old_ks.len() implies (#[trigger] old_ks[j])@ != s@ by {
                        let t = choose|t: int| 0 <= t < i && (#[trigger] old_ks[j])@ == self.sessions@[t]@;
                        assert(self.sessions@[t]@ == old_ks[j]@);
                    }
                }
                kept_s.push(s);
                kept_o.push(o);
                proof {
                    lemma_keyed_push(old_ks, old_ko, s, o);
                }
            }
            proof {
                let cur = keyed_map(kept_s@, kept_o@);
                let want = old_map.filter_keys(
                    |k: Seq<char>| (exists|t: int| 0 <= t < i + 1 && (#[trigger] self.sessions@[t])@ == k) && old_map[k]@ != instance_id@,
                );
                assert forall|k: Seq<char>| cur.dom().contains(k) <==> want.dom().contains(k) by {
                    if want.dom().contains(k) && k != self.sessions@[i as int]@ {
                        let t = choose|t: int| 0 <= t < i + 1 && (#[trigger] self.sessions@[t])@ == k;
                        assert(t < i);
                    }
                }
                assert forall|k: Seq<char>| cur.dom().contains(k) implies cur[k] == want[k] by {
                    if k != self.sessions@[i as int]@ {
                        let t = choose|t: int| 0 <= t < i + 1 && (#[trigger] self.sessions@[t])@ == k;
                        assert(t < i);
                    }
                }
                assert(cur =~= want);
                assert forall|j: int| 0 <= j < kept_s@.len() implies exists|t: int| 0 <= t < i + 1 && (#[trigger] kept_s@[j])@ == self.sessions@[t]@ by {
                    if j == kept_s@.len() - 1 && kept_s@[j]@ == self.sessions@[i as int]@ {
                        assert(self.sessions@[i as int]@ == kept_s@[j]@);
                    } else {
                        let t = choose|t: int| 0 <= t < i && (#[trigger] kept_s@[j])@ == self.sessions@[t]@;
                        assert(self.sessions@[t]@ == kept_s@[j]@);
                    }
                }
            }
            i = i + 1;
        }
        proof {
            let want = old_map.filter_keys(
                |k: Seq<char>| (exists|t: int| 0 <= t < i && (#[trigger] self.sessions@[t])@ == k) && old_map[k]@ != instance_id@,
            );
            assert forall|k: Seq<char>| old_map.dom().contains(k) implies exists|t: int| 0 <= t < i && (#[trigger] self.sessions@[t])@ == k by {
                let t = choose|t: int| 0 <= t < self.sessions@.len() && (#[trigger] self.sessions@[t])@ == k;
            }
            assert(string_values(want) =~= old(self).claims().filter_keys(|k: Seq<char>| old(self).claims()[k] != instance_id@));
        }
        self.sessions = kept_s;
        self.owners = kept_o;
    }

    /// The claimed sessions, each once.
    pub fn claimed_sessions(&self) -> (res: Vec<String>)
        requires
            self.wf(),
        ensures
            keys_unique(res@),
            forall|k: Seq<char>| self.claims().dom().contains(k) <==> exists|i: int| 0 <= i < res@.len() && (#[trigger] res@[i])@ == k,
    {
        let mut out: Vec<String> = Vec::new();
        let mut i: usize = 0;
        while i < self.sessions.len()
            invariant
                0 <= i <= self.sessions@.len(),
                out@.len() == i,
                forall|j: int| 0 <= j < i ==> (#[trigger] out@[j])@ == self.sessions@[j]@,
            decreases self.sessions.len() - i,
        {
            out.push(self.sessions[i].clone());
            i = i + 1;
        }
        proof {
            assert forall|a: int, b: int| 0 <= a < out@.len() && 0 <= b < out@.len() && a != b implies (#[trigger] out@[a])@ != (#[trigger] out@[b])@ by {
                assert(out@[a]@ == self.sessions@[a]@ && out@[b]@ == self.sessions@[b]@);
            }
            assert forall|k: Seq<char>| self.claims().dom().contains(k) <==> exists|i: int| 0 <= i < out@.len() && (#[trigger] out@[i])@ == k by {
                if self.claims().dom().contains(k) {
                    let t = choose|t: int| 0 <= t < self.sessions@.len() && (#[trigger] self.sessions@[t])@ == k;
                    assert(out@[t]@ == k);
                }
                if exists|i: int| 0 <= i < out@.len() && (#[trigger] out@[i])@ == k {
                    let t = choose|i: int| 0 <= i < out@.len() && (#[trigger] out@[i])@ == k;
                    assert(self.sessions@[t]@ == k);
                }
            }
        }
        out
    }
}

/// Seconds a terminal lock stays held without activity (two minutes).
pub const TERMINAL_LOCK_TIMEOUT_SECS: i64 = 120;

/// The holder of an instance's terminal lock and when it was last active
/// (milliseconds since the Unix epoch).
#[derive(Debug, Clone, PartialEq, Eq)]
pub struct TerminalLock {
    pub holder_connection_id: String,
    pub holder_user_id: String,
    pub holder_display_name: String,
    pub last_activity_ms: i64,
}

/// The view of a lock: connection, user, display name, last activity.
pub type LockView = (Seq<char>, Seq<char>, Seq<char>, i64);

impl View for TerminalLock {
    type V = LockView;

    open spec fn view(&self) -> LockView {
        (self.holder_connection_id@, self.holder_user_id@, self.holder_display_name@, self.last_activity_ms)
    }
}

/// Whole seconds from `from_ms` to `to_ms`, rounded toward zero.
pub open spec fn elapsed_secs(from_ms: i64, to_ms: i64) -> int {
    if to_ms >= from_ms {
        (to_ms - from_ms) / 1000
    } else {
        -((from_ms - to_ms) / 1000)
    }
}

/// Whole seconds from `from_ms` to `to_ms`, rounded toward zero.
fn elapsed_secs_exec(from_ms: i64, to_ms: i64) -> (res: i128)
    ensures
        res == elapsed_secs(from_ms, to_ms),
{
    let a = from_ms as i128;
    let b = to_ms as i128;
    if b >= a {
        (b - a) / 1000
    } else {
        -((a - b) / 1000)
    }
}

/// The terminal locks, at most one per instance.
pub struct TerminalLocks {
    instances: Vec<String>,
    locks: Vec<TerminalLock>,
}

/// The views of a keyed map of locks.
pub open spec fn lock_views(m: Map<Seq<char>, TerminalLock>) -> Map<Seq<char>, LockView> {
    m.map_values(|l: TerminalLock| l@)
}

/// The lock that `user` takes on `connection_id` at `now_ms`.
pub open spec fn lock_for(connection_id: Seq<char>, user: WsUser, now_ms: i64) -> LockView {
    (connection_id, user.user_id@, user.display_name@, now_ms)
}

/// Someone else holds the lock of `instance_id` and used it less than the
/// timeout ago.
pub open spec fn held_by_other(m: Map<Seq<char>, LockView>, instance_id: Seq<char>, user_id: Seq<char>, now_ms: i64) -> bool {
    &&& m.dom().contains(instance_id)
    &&& m[instance_id].1 != user_id
    &&& elapsed_secs(m[instance_id].3, now_ms) < TERMINAL_LOCK_TIMEOUT_SECS
}

impl TerminalLocks {
    /// One lock per instance.
    pub closed spec fn wf(&self) -> bool {
        self.instances@.len() == self.locks@.len() && keys_unique(self.instances@)
    }

    /// Instance id to its lock.
    pub closed spec fn held(&self) -> Map<Seq<char>, LockView> {
        lock_views(keyed_map(self.instances@, self.locks@))
    }

    /// No locks.
    pub fn new() -> (res: Self)
        ensures
            res.wf(),
            res.held() == Map::<Seq<char>, LockView>::empty(),
    {
        let res = TerminalLocks { instances: Vec::new(), locks: Vec::new() };
        assert(res.held() =~= Map::<Seq<char>, LockView>::empty());
        res
    }

    /// Sets the lock of `instance_id`, adding or replacing it.
    fn put(&mut self, instance_id: &str, lock: TerminalLock)
        requires
            old(self).wf(),
        ensures
            final(self).wf(),
            final(self).held() == old(self).held().insert(instance_id@, lock@),
    {
        match find_key(&self.instances, instance_id) {
            Some(i) => {
                let ghost l = lock;
                self.locks.set(i, lock);
                proof {
                    lemma_keyed_set(self.instances@, old(self).locks@, i as int, l);
                    assert(self.held() =~= old(self).held().insert(instance_id@, l@));
                }
            },
            None => {
                let ghost old_i = self.instances@;
                let ghost l = lock;
                let key = instance_id.to_owned();
                let ghost kv = key;
                self.instances.push(key);
                self.locks.push(lock);
                proof {
                    lemma_keyed_push(old_i, old(self).locks@, kv, l);
                    assert(self.held() =~= old(self).held().insert(instance_id@, l@));
                }
            },
        }
    }

    /// Takes the terminal lock of `instance_id` for `user` on
    /// `connection_id`. Succeeds when the lock is free, already held by the
    /// same user (on any connection, which then becomes the holder), or
    /// idle for at least the timeout; the lock then records this
    /// connection, user and time. Otherwise fails and changes nothing.
    pub fn try_acquire_terminal_lock(&mut self, instance_id: &str, connection_id: &str, user: &WsUser, now_ms: i64) -> (res:
        bool)
        requires
            old(self).wf(),
        ensures
            final(self).wf(),
            res == !held_by_other(old(self).held(), instance_id@, user.user_id@, now_ms),
            res ==> final(self).held() == old(self).held().insert(instance_id@, lock_for(connection_id@, *user, now_ms)),
            !res ==> final(self).held() == old(self).held(),
    {
        match find_key(&self.instances, instance_id) {
            Some(i) => {
                proof {
                    lemma_keyed_entry(self.instances@, self.locks@, i as int);
                }
                let existing = &self.locks[i];
                if !str_eq(existing.holder_user_id.as_str(), user.user_id.as_str()) {
                    let elapsed = elapsed_secs_exec(existing.last_activity_ms, now_ms);
                    if elapsed < TERMINAL_LOCK_TIMEOUT_SECS as i128 {
                        return false;
                    }
                }
            },
            None => {},
        }
        let lock = TerminalLock {
            holder_connection_id: connection_id.to_owned(),
            holder_user_id: user.user_id.clone(),
            holder_display_name: user.display_name.clone(),
            last_activity_ms: now_ms,
        };
        self.put(instance_id, lock);
        true
    }

    /// Records activity on the lock of `instance_id` when `connection_id`
    /// holds it.
    pub fn touch_terminal_lock(&mut self, instance_id: &str, connection_id: &str, now_ms: i64)
        requires
            old(self).wf(),
        ensures
            final(self).wf(),
            final(self).held() == if old(self).held().dom().contains(instance_id@) && old(self).held()[instance_id@].0
                == connection_id@ {
                old(self).held().insert(instance_id@, (
                    connection_id@,
                    old(self).held()[instance_id@].1,
                    old(self).held()[instance_id@].2,
                    now_ms,
                ))
            } else {
                old(self).held()
            },
    {
        match find_key(&self.instances, instance_id) {
            Some(i) => {
                proof {
                    lemma_keyed_entry(self.instances@, self.locks@, i as int);
                }
                if str_eq(self.locks[i].holder_connection_id.as_str(), connection_id) {
                    let lock = TerminalLock {
                        holder_connection_id: self.locks[i].holder_connection_id.clone(),
                        holder_user_id: self.locks[i].holder_user_id.clone(),
                        holder_display_name: self.locks[i].holder_display_name.clone(),
                        last_activity_ms: now_ms,
                    };
                    self.put(instance_id, lock);
                }
            },
            None => {},
        }
    }

    /// Releases the lock of `instance_id` if `connection_id` holds it;
    /// says whether it did.
    pub fn release_terminal_lock(&mut self, instance_id: &str, connection_id: &str) -> (res: bool)
        requires
            old(self).wf(),
        ensures
            final(self).wf(),
            res == (old(self).held().dom().contains(instance_id@) && old(self).held()[instance_id@].0 == connection_id@),
            res ==> final(self).held() == old(self).held().remove(instance_id@),
            !res ==> final(self).held() == old(self).held(),
    {
        match find_key(&self.instances, instance_id) {
            Some(i) => {
                proof {
                    lemma_keyed_entry(self.instances@, self.locks@, i as int);
                }
                if str_eq(self.locks[i].holder_connection_id.as_str(), connection_id) {
                    let ghost old_i = self.instances@;
                    let ghost old_l = self.locks@;
                    self.instances.remove(i);
                    self.locks.remove(i);
                    proof {
                        lemma_keyed_remove(old_i, old_l, i as int);
                        assert(self.held() =~= old(self).held().remove(instance_id@));
                    }
                    return true;
                }
                false
            },
            None => false,
        }
    }

    /// Drops the lock of `instance_id`, whoever holds it.
    pub fn remove_instance(&mut self, instance_id: &str)
        requires
            old(self).wf(),
        ensures
            final(self).wf(),
            final(self).held() == old(self).held().remove(instance_id@),
    {
        match find_key(&self.instances, instance_id) {
            Some(i) => {
                let ghost ids = self.instances@;
                let ghost ls = self.locks@;
                self.instances.remove(i);
                self.locks.remove(i);
                proof {
                    lemma_keyed_remove(ids, ls, i as int);
                    assert(self.held() =~= old(self).held().remove(instance_id@));
                }
            },
            None => {
                proof {
                    assert(self.held() =~= old(self).held().remove(instance_id@));
                }
            },
        }
    }

    /// The lock of `instance_id`, if any.
    pub fn get_terminal_lock(&self, instance_id: &str) -> (res: Option<TerminalLock>)
        requires
            self.wf(),
        ensures
            match res {
                Some(l) => self.held().dom().contains(instance_id@) && l@ == self.held()[instance_id@],
                None => !self.held().dom().contains(instance_id@),
            },
    {
        match find_key(&self.instances, instance_id) {
            Some(i) => {
                proof {
                    lemma_keyed_entry(self.instances@, self.locks@, i as int);
                }
                let l = &self.locks[i];
                Some(
                    TerminalLock {
                        holder_connection_id: l.holder_connection_id.clone(),
                        holder_user_id: l.holder_user_id.clone(),
                        holder_display_name: l.holder_display_name.clone(),
                        last_activity_ms: l.last_activity_ms,
                    },
                )
            },
            None => None,
        }
    }
}

/// The RFC 3339 text (UTC) of the instant `ms` milliseconds after the Unix
/// epoch, when chrono can represent that instant.
pub uninterp spec fn rfc3339_of_millis(ms: i64) -> Option<Seq<char>>;

/// `chrono::DateTime::<Utc>::from_timestamp_millis`, then `to_rfc3339` on
/// the instant it gives. Trusted to be a function of `ms` alone: `None`
/// exactly when chrono cannot represent the instant. What the text is, is
/// left to chrono.
#[verifier::external_body]
fn rfc3339_from_millis(ms: i64) -> (res: Option<String>)
    ensures
        match res {
            Some(t) => rfc3339_of_millis(ms) == Some(t@),
            None => rfc3339_of_millis(ms) is None,
        },
{
    match chrono::DateTime::from_timestamp_millis(ms) {
        Some(d) => Some(d.to_rfc3339()),
        None => None,
    }
}

/// What clients are told of the terminal lock of an instance: its holder,
/// when it was last active, and in how many seconds it expires; all absent
/// when nobody holds it.
#[derive(Debug, Clone)]
pub struct LockUpdate {
    pub instance_id: String,
    pub holder: Option<PresenceUser>,
    pub last_activity: Option<String>,
    pub expires_in_secs: Option<u64>,
}

/// Seconds left before a lock last active at `last_ms` expires, as of
/// `now_ms`: the timeout less the whole seconds elapsed (none when the
/// clock went back), and never below zero.
pub open spec fn expires_in(last_ms: i64, now_ms: i64) -> int {
    let e = if elapsed_secs(last_ms, now_ms) < 0 {
        0
    } else {
        elapsed_secs(last_ms, now_ms)
    };
    if e >= TERMINAL_LOCK_TIMEOUT_SECS {
        0
    } else {
        TERMINAL_LOCK_TIMEOUT_SECS - e
    }
}

/// The lock update for `instance_id` given its lock, as of `now_ms`.
pub fn build_lock_update_message(instance_id: &str, lock: Option<TerminalLock>, now_ms: i64) -> (res: LockUpdate)
    ensures
        res.instance_id@ == instance_id@,
        match lock {
            None => res.holder is None && res.last_activity is None && res.expires_in_secs is None,
            Some(l) => {
                &&& res.holder matches Some(h) && h.user_id@ == l.holder_user_id@ && h.display_name@
                    == l.holder_display_name@
                &&& match res.last_activity {
                    Some(t) => rfc3339_of_millis(l.last_activity_ms) == Some(t@),
                    None => rfc3339_of_millis(l.last_activity_ms) is None,
                }
                &&& res.expires_in_secs == Some(expires_in(l.last_activity_ms, now_ms) as u64)
            },
        },
{
    match lock {
        Some(l) => {
            let e = elapsed_secs_exec(l.last_activity_ms, now_ms);
            let elapsed: i128 = if e < 0 {
                0
            } else {
                e
            };
            let timeout: i128 = TERMINAL_LOCK_TIMEOUT_SECS as i128;
            let left: u64 = if elapsed >= timeout {
                0
            } else {
                (timeout - elapsed) as u64
            };
            LockUpdate {
                instance_id: instance_id.to_owned(),
                holder: Some(PresenceUser { user_id: l.holder_user_id, display_name: l.holder_display_name }),
                last_activity: rfc3339_from_millis(l.last_activity_ms),
                expires_in_secs: Some(left),
            }
        },
        None => LockUpdate {
            instance_id: instance_id.to_owned(),
            holder: None,
            last_activity: None,
            expires_in_secs: None,
        },
    }
}

/// Once a user takes a lock, another user asking for it before the
/// timeout has passed since is refused and leaves it with the first.
pub proof fn law_lock_taken_is_exclusive(
    before: Map<Seq<char>, LockView>,
    instance_id: Seq<char>,
    first_connection: Seq<char>,
    first: WsUser,
    taken_ms: i64,
    taken: Map<Seq<char>, LockView>,
    second_connection: Seq<char>,
    second: WsUser,
    asked_ms: i64,
    res: bool,
    after: Map<Seq<char>, LockView>,
)
    requires
        taken == before.insert(instance_id, lock_for(first_connection, first, taken_ms)),
        res == !held_by_other(taken, instance_id, second.user_id@, asked_ms),
        res ==> after == taken.insert(instance_id, lock_for(second_connection, second, asked_ms)),
        !res ==> after == taken,
        second.user_id@ != first.user_id@,
        taken_ms <= asked_ms < taken_ms + 1000 * TERMINAL_LOCK_TIMEOUT_SECS,
    ensures
        !res,
        after[instance_id] == lock_for(first_connection, first, taken_ms),
{
}

/// One connection's presence on an instance.
#[derive(Debug, Clone, PartialEq, Eq)]
pub struct PresenceEntry {
    pub instance_id: String,
    pub connection_id: String,
    pub user_id: String,
    pub display_name: String,
}

/// The view of a presence entry: instance, connection, user, display name.
pub type EntryView = (Seq<char>, Seq<char>, Seq<char>, Seq<char>);

impl View for PresenceEntry {
    type V = EntryView;

    open spec fn view(&self) -> EntryView {
        (self.instance_id@, self.connection_id@, self.user_id@, self.display_name@)
    }
}

/// Presence across instances: who is connected to each, one entry per
/// instance and connection.
pub struct Presence {
    entries: Vec<PresenceEntry>,
}

/// The users present on `instance_id`.
pub open spec fn users_of(es: Set<EntryView>, instance_id: Seq<char>) -> Set<Seq<char>> {
    Set::new(|u: Seq<char>| exists|c: Seq<char>, n: Seq<char>| es.contains((instance_id, c, u, n)))
}

/// The connections present on `instance_id`.
pub open spec fn conns_of(es: Set<EntryView>, instance_id: Seq<char>) -> Set<Seq<char>> {
    Set::new(|c: Seq<char>| exists|u: Seq<char>, n: Seq<char>| es.contains((instance_id, c, u, n)))
}

/// `users` lists each user present on `instance_id` once, each with the
/// display name of one of its connections.
pub open spec fn lists_users(es: Set<EntryView>, instance_id: Seq<char>, users: Seq<PresenceUser>) -> bool {
    &&& forall|i: int, j: int|
        0 <= i < users.len() && 0 <= j < users.len() && i != j ==> (#[trigger] users[i]).user_id@ != (
        #[trigger] users[j]).user_id@
    &&& forall|u: Seq<char>| users_of(es, instance_id).contains(u) <==> exists|i: int|
        0 <= i < users.len() && (#[trigger] users[i]).user_id@ == u
    &&& forall|i: int|
        0 <= i < users.len() ==> present_as(es, instance_id, (#[trigger] users[i]).user_id@, users[i].display_name@)
}

/// `user_id` is present on `instance_id` under display name `name`, on
/// some connection.
pub open spec fn present_as(es: Set<EntryView>, instance_id: Seq<char>, user_id: Seq<char>, name: Seq<char>) -> bool {
    exists|c: Seq<char>| es.contains((instance_id, c, user_id, name))
}

/// `es` without the entry of `connection_id` on `instance_id`.
pub open spec fn without(es: Set<EntryView>, instance_id: Seq<char>, connection_id: Seq<char>) -> Set<EntryView> {
    es.filter(|e: EntryView| !(e.0 == instance_id && e.1 == connection_id))
}

impl Presence {
    /// One entry per instance and connection.
    pub closed spec fn wf(&self) -> bool {
        forall|i: int, j: int|
            0 <= i < self.entries@.len() && 0 <= j < self.entries@.len() && i != j ==> !((
            #[trigger] self.entries@[i]).instance_id@ == (#[trigger] self.entries@[j]).instance_id@
                && self.entries@[i].connection_id@ == self.entries@[j].connection_id@)
    }

    /// The entries.
    pub closed spec fn entry_set(&self) -> Set<EntryView> {
        Set::new(|v: EntryView| exists|i: int| 0 <= i < self.entries@.len() && (#[trigger] self.entries@[i])@ == v)
    }

    /// Nobody present.
    pub fn new() -> (res: Self)
        ensures
            res.wf(),
            res.entry_set() == Set::<EntryView>::empty(),
    {
        let res = Presence { entries: Vec::new() };
        assert(res.entry_set() =~= Set::<EntryView>::empty());
        res
    }

    /// Each user present on `instance_id` once, with one of their display
    /// names.
    pub fn dedupe_presence(&self, instance_id: &str) -> (res: Vec<PresenceUser>)
        requires
            self.wf(),
        ensures
            lists_users(self.entry_set(), instance_id@, res@),
    {
        let mut out: Vec<PresenceUser> = Vec::new();
        let mut k: usize = 0;
        while k < self.entries.len()
            invariant
                0 <= k <= self.entries@.len(),
                forall|i: int, j: int|
                    0 <= i < out@.len() && 0 <= j < out@.len() && i != j ==> (#[trigger] out@[i]).user_id@ != (
                    #[trigger] out@[j]).user_id@,
                forall|i: int|
                    0 <= i < out@.len() ==> exists|t: int|
                        0 <= t < k && (#[trigger] out@[i]).user_id@ == self.entries@[t].user_id@
                            && out@[i].display_name@ == self.entries@[t].display_name@
                            && self.entries@[t].instance_id@ == instance_id@,
                forall|t: int|
                    0 <= t < k && (#[trigger] self.entries@[t]).instance_id@ == instance_id@ ==> exists|i: int|
                        0 <= i < out@.len() && (#[trigger] out@[i]).user_id@ == self.entries@[t].user_id@,
            decreases self.entries.len() - k,
        {
            let e = &self.entries[k];
            let ghost old_out = out@;
            if str_eq(e.instance_id.as_str(), instance_id) {
                let mut seen = false;
                let mut j: usize = 0;
                while j < out.len()
                    invariant
                        0 <= j <= out@.len(),
                        seen <==> exists|i: int| 0 <= i < j && (#[trigger] out@[i]).user_id@ == e.user_id@,
                    decreases out.len() - j,
                {
                    if str_eq(out[j].user_id.as_str(), e.user_id.as_str()) {
                        seen = true;
                    }
                    j = j + 1;
                }
                if !seen {
                    let u = PresenceUser { user_id: e.user_id.clone(), display_name: e.display_name.clone() };
                    out.push(u);
                    proof {
                        assert(out@[out@.len() - 1] == u);
                        assert forall|i: int| 0 <= i < out@.len() implies exists|t: int|
                            0 <= t < k + 1 && (#[trigger] out@[i]).user_id@ == self.entries@[t].user_id@
                                && out@[i].display_name@ == self.entries@[t].display_name@
                                && self.entries@[t].instance_id@ == instance_id@ by {
                            if i < old_out.len() {
                                assert(out@[i] == old_out[i]);
                            } else {
                                assert(self.entries@[k as int].user_id@ == out@[i].user_id@);
                            }
                        }
                        assert(exists|i: int| 0 <= i < out@.len() && (#[trigger] out@[i]).user_id@ == e.user_id@) by {
                            assert(out@[out@.len() - 1].user_id@ == e.user_id@);
                        }
                    }
                } else {
                    proof {
                        assert(exists|i: int| 0 <= i < out@.len() && (#[trigger] out@[i]).user_id@ == e.user_id@);
                    }
                }
            }
            proof {
                assert forall|i: int| 0 <= i < old_out.len() implies #[trigger] out@[i] == old_out[i] by {
                    if out@.len() > old_out.len() {
                        assert(out@ == old_out.push(out@.last()));
                    }
                }
                assert forall|t: int|
                    0 <= t < k + 1 && (#[trigger] self.entries@[t]).instance_id@ == instance_id@ implies exists|i: int|
                        0 <= i < out@.len() && (#[trigger] out@[i]).user_id@ == self.entries@[t].user_id@ by {
                    if t < k {
                        let i = choose|i: int| 0 <= i < old_out.len() && (#[trigger] old_out[i]).user_id@ == self.entries@[t].user_id@;
                        assert(out@[i] == old_out[i]);
                    }
                }
            }
            k = k + 1;
        }
        proof {
            let es = self.entry_set();
            assert(k == self.entries@.len());
            assert forall|u: Seq<char>| users_of(es, instance_id@).contains(u) implies exists|i: int|
                0 <= i < out@.len() && (#[trigger] out@[i]).user_id@ == u by {
                let (c, n) = choose|c: Seq<char>, n: Seq<char>| es.contains((instance_id@, c, u, n));
                assert(es.contains((instance_id@, c, u, n)));
                let t = choose|t: int| 0 <= t < self.entries@.len() && (#[trigger] self.entries@[t])@ == (instance_id@, c, u, n);
                assert(self.entries@[t].instance_id@ == instance_id@);
                assert(self.entries@[t].user_id@ == u);
            }
            assert forall|u: Seq<char>| (exists|i: int| 0 <= i < out@.len() && (#[trigger] out@[i]).user_id@ == u) implies users_of(es, instance_id@).contains(u) by {
                let i = choose|i: int| 0 <= i < out@.len() && (#[trigger] out@[i]).user_id@ == u;
                let t = choose|t: int|
                    0 <= t < k && (#[trigger] out@[i]).user_id@ == self.entries@[t].user_id@
                        && out@[i].display_name@ == self.entries@[t].display_name@
                        && self.entries@[t].instance_id@ == instance_id@;
                assert(es.contains(self.entries@[t]@));
                assert(self.entries@[t]@ == (instance_id@, self.entries@[t].connection_id@, u, self.entries@[t].display_name@));
            }
            assert forall|i: int| 0 <= i < out@.len() implies present_as(
                self.entry_set(),
                instance_id@,
                (#[trigger] out@[i]).user_id@,
                out@[i].display_name@,
            ) by {
                let t = choose|t: int|
                    0 <= t < k && (#[trigger] out@[i]).user_id@ == self.entries@[t].user_id@
                        && out@[i].display_name@ == self.entries@[t].display_name@
                        && self.entries@[t].instance_id@ == instance_id@;
                assert(self.entry_set().contains(self.entries@[t]@));
                assert(self.entries@[t]@ == (instance_id@, self.entries@[t].connection_id@, out@[i].user_id@, out@[i].display_name@));
            }
        }
        out
    }
}

impl Presence {
    /// The position of the entry of `connection_id` on `instance_id`.
    fn find_entry(&self, instance_id: &str, connection_id: &str) -> (res: Option<usize>)
        requires
            self.wf(),
        ensures
            match res {
                Some(i) => i < self.entries@.len() && self.entries@[i as int].instance_id@ == instance_id@
                    && self.entries@[i as int].connection_id@ == connection_id@,
                None => forall|i: int|
                    0 <= i < self.entries@.len() ==> !((#[trigger] self.entries@[i]).instance_id@ == instance_id@
                        && self.entries@[i].connection_id@ == connection_id@),
            },
    {
        let mut i: usize = 0;
        while i < self.entries.len()
            invariant
                0 <= i <= self.entries@.len(),
                forall|j: int|
                    0 <= j < i ==> !((#[trigger] self.entries@[j]).instance_id@ == instance_id@
                        && self.entries@[j].connection_id@ == connection_id@),
            decreases self.entries.len() - i,
        {
            if str_eq(self.entries[i].instance_id.as_str(), instance_id) && str_eq(
                self.entries[i].connection_id.as_str(),
                connection_id,
            ) {
                return Some(i);
            }
            i = i + 1;
        }
        None
    }

    /// The connections present on `instance_id`, each once.
    pub fn connection_ids(&self, instance_id: &str) -> (res: Vec<String>)
        requires
            self.wf(),
        ensures
            keys_unique(res@),
            forall|c: Seq<char>| conns_of(self.entry_set(), instance_id@).contains(c) <==> exists|i: int|
                0 <= i < res@.len() && (#[trigger] res@[i])@ == c,
    {
        let mut out: Vec<String> = Vec::new();
        let mut k: usize = 0;
        while k < self.entries.len()
            invariant
                0 <= k <= self.entries@.len(),
                self.wf(),
                forall|i: int|
                    0 <= i < out@.len() ==> exists|t: int|
                        0 <= t < k && (#[trigger] out@[i])@ == self.entries@[t].connection_id@
                            && self.entries@[t].instance_id@ == instance_id@,
                forall|t: int|
                    0 <= t < k && (#[trigger] self.entries@[t]).instance_id@ == instance_id@ ==> exists|i: int|
                        0 <= i < out@.len() && (#[trigger] out@[i])@ == self.entries@[t].connection_id@,
                keys_unique(out@),
            decreases self.entries.len() - k,
        {
            let ghost old_out = out@;
            if str_eq(self.entries[k].instance_id.as_str(), instance_id) {
                let c = self.entries[k].connection_id.clone();
                proof {
                    assert forall|i: int| 0 <= i < old_out.len() implies (#[trigger] old_out[i])@ != c@ by {
                        let t = choose|t: int|
                            0 <= t < k && (#[trigger] old_out[i])@ == self.entries@[t].connection_id@
                                && self.entries@[t].instance_id@ == instance_id@;
                        assert(t != k);
                    }
                }
                out.push(c);
                proof {
                    assert forall|a: int, b: int| 0 <= a < out@.len() && 0 <= b < out@.len() && a != b implies (
                    #[trigger] out@[a])@ != (#[trigger] out@[b])@ by {
                        if a < old_out.len() && b < old_out.len() {
                            assert(out@[a] == old_out[a] && out@[b] == old_out[b]);
                        } else if a < old_out.len() {
                            assert(out@[a] == old_out[a]);
                        } else if b < old_out.len() {
                            assert(out@[b] == old_out[b]);
                        }
                    }
                    assert forall|i: int| 0 <= i < out@.len() implies exists|t: int|
                        0 <= t < k + 1 && (#[trigger] out@[i])@ == self.entries@[t].connection_id@
                            && self.entries@[t].instance_id@ == instance_id@ by {
                        if i < old_out.len() {
                            assert(out@[i] == old_out[i]);
                        } else {
                            assert(out@[i]@ == self.entries@[k as int].connection_id@);
                        }
                    }
                }
            }
            proof {
                assert forall|i: int| 0 <= i < old_out.len() implies #[trigger] out@[i] == old_out[i] by {
                    if out@.len() > old_out.len() {
                        assert(out@ == old_out.push(out@.last()));
                    }
                }
                assert forall|t: int|
                    0 <= t < k + 1 && (#[trigger] self.entries@[t]).instance_id@ == instance_id@ implies exists|i: int|
                        0 <= i < out@.len() && (#[trigger] out@[i])@ == self.entries@[t].connection_id@ by {
                    if t < k {
                        let i = choose|i: int| 0 <= i < old_out.len() && (#[trigger] old_out[i])@ == self.entries@[t].connection_id@;
                        assert(out@[i] == old_out[i]);
                    } else {
                        assert(out@[out@.len() - 1]@ == self.entries@[k as int].connection_id@);
                    }
                }
            }
            k = k + 1;
        }
        proof {
            let es = self.entry_set();
            assert forall|c: Seq<char>| conns_of(es, instance_id@).contains(c) <==> exists|i: int|
                0 <= i < out@.len() && (#[trigger] out@[i])@ == c by {
                if conns_of(es, instance_id@).contains(c) {
                    let (u, n) = choose|u: Seq<char>, n: Seq<char>| es.contains((instance_id@, c, u, n));
                    let t = choose|t: int| 0 <= t < self.entries@.len() && (#[trigger] self.entries@[t])@ == (instance_id@, c, u, n);
                    assert(self.entries@[t].instance_id@ == instance_id@);
                }
                if exists|i: int| 0 <= i < out@.len() && (#[trigger] out@[i])@ == c {
                    let i = choose|i: int| 0 <= i < out@.len() && (#[trigger] out@[i])@ == c;
                    let t = choose|t: int|
                        0 <= t < k && (#[trigger] out@[i])@ == self.entries@[t].connection_id@
                            && self.entries@[t].instance_id@ == instance_id@;
                    assert(es.contains(self.entries@[t]@));
                    assert(es.contains((instance_id@, c, self.entries@[t].user_id@, self.entries@[t].display_name@)));
                }
            }
        }
        out
    }

    /// Records `user` on `connection_id` of `instance_id` (replacing what
    /// that connection had), and lists the users present there.
    pub fn add_presence(&mut self, instance_id: &str, connection_id: &str, user: &WsUser) -> (res: Vec<PresenceUser>)
        requires
            old(self).wf(),
        ensures
            final(self).wf(),
            final(self).entry_set() == without(old(self).entry_set(), instance_id@, connection_id@).insert(
                (instance_id@, connection_id@, user.user_id@, user.display_name@),
            ),
            lists_users(final(self).entry_set(), instance_id@, res@),
    {
        let e = PresenceEntry {
            instance_id: instance_id.to_owned(),
            connection_id: connection_id.to_owned(),
            user_id: user.user_id.clone(),
            display_name: user.display_name.clone(),
        };
        let ghost ev = e@;
        let ghost old_es = self.entries@;
        match self.find_entry(instance_id, connection_id) {
            Some(i) => {
                self.entries.set(i, e);
                proof {
                    let want = without(old(self).entry_set(), instance_id@, connection_id@).insert(ev);
                    assert forall|v: EntryView| self.entry_set().contains(v) <==> want.contains(v) by {
                        if self.entry_set().contains(v) && v != ev {
                            let t = choose|t: int| 0 <= t < self.entries@.len() && (#[trigger] self.entries@[t])@ == v;
                            assert(t != i);
                            assert(old_es[t]@ == v);
                            assert(old(self).entry_set().contains(v));
                        }
                        if want.contains(v) && v != ev {
                            let t = choose|t: int| 0 <= t < old_es.len() && (#[trigger] old_es[t])@ == v;
                            assert(t != i);
                            assert(self.entries@[t]@ == v);
                        }
                        if v == ev {
                            assert(self.entries@[i as int]@ == ev);
                        }
                    }
                    assert(self.entry_set() =~= want);
                }
            },
            None => {
                self.entries.push(e);
                proof {
                    let want = without(old(self).entry_set(), instance_id@, connection_id@).insert(ev);
                    assert forall|v: EntryView| self.entry_set().contains(v) <==> want.contains(v) by {
                        if self.entry_set().contains(v) && v != ev {
                            let t = choose|t: int| 0 <= t < self.entries@.len() && (#[trigger] self.entries@[t])@ == v;
                            assert(t < old_es.len());
                            assert(old_es[t]@ == v);
                        }
                        if want.contains(v) && v != ev {
                            let t = choose|t: int| 0 <= t < old_es.len() && (#[trigger] old_es[t])@ == v;
                            assert(self.entries@[t]@ == v);
                        }
                        if v == ev {
                            assert(self.entries@[old_es.len() as int]@ == ev);
                        }
                    }
                    assert(self.entry_set() =~= want);
                }
            },
        }
        self.dedupe_presence(instance_id)
    }

    /// Forgets `connection_id` on `instance_id`, and lists the users still
    /// present there.
    pub fn remove_presence_from_instance(&mut self, instance_id: &str, connection_id: &str) -> (res: Vec<PresenceUser>)
        requires
            old(self).wf(),
        ensures
            final(self).wf(),
            final(self).entry_set() == without(old(self).entry_set(), instance_id@, connection_id@),
            lists_users(final(self).entry_set(), instance_id@, res@),
    {
        let ghost old_es = self.entries@;
        match self.find_entry(instance_id, connection_id) {
            Some(i) => {
                self.entries.remove(i);
                proof {
                    let want = without(old(self).entry_set(), instance_id@, connection_id@);
                    assert forall|a: int, b: int|
                        0 <= a < self.entries@.len() && 0 <= b < self.entries@.len() && a != b implies !((
                        #[trigger] self.entries@[a]).instance_id@ == (#[trigger] self.entries@[b]).instance_id@
                            && self.entries@[a].connection_id@ == self.entries@[b].connection_id@) by {
                        let a0 = if a < i { a } else { a + 1 };
                        let b0 = if b < i { b } else { b + 1 };
                        assert(self.entries@[a] == old_es[a0] && self.entries@[b] == old_es[b0]);
                    }
                    assert forall|v: EntryView| self.entry_set().contains(v) <==> want.contains(v) by {
                        if self.entry_set().contains(v) {
                            let t = choose|t: int| 0 <= t < self.entries@.len() && (#[trigger] self.entries@[t])@ == v;
                            let t0 = if t < i { t } else { t + 1 };
                            assert(self.entries@[t] == old_es[t0]);
                            assert(old_es[t0]@ == v);
                        }
                        if want.contains(v) {
                            let t = choose|t: int| 0 <= t < old_es.len() && (#[trigger] old_es[t])@ == v;
                            assert(t != i);
                            let t2 = if t < i { t } else { t - 1 };
                            assert(self.entries@[t2] == old_es[t]);
                        }
                    }
                    assert(self.entry_set() =~= want);
                }
            },
            None => {
                proof {
                    assert(self.entry_set() =~= without(old(self).entry_set(), instance_id@, connection_id@));
                }
            },
        }
        self.dedupe_presence(instance_id)
    }
}

/// The instances on which `connection_id` is present.
pub open spec fn instances_with(es: Set<EntryView>, connection_id: Seq<char>) -> Set<Seq<char>> {
    Set::new(|x: Seq<char>| exists|u: Seq<char>, n: Seq<char>| es.contains((x, connection_id, u, n)))
}

impl Presence {
    /// Keeps the entries of every connection but `connection_id`.
    fn retain_other_connections(&mut self, connection_id: &str)
        requires
            old(self).wf(),
        ensures
            final(self).wf(),
            final(self).entry_set() == old(self).entry_set().filter(|e: EntryView| e.1 != connection_id@),
    {
        let ghost old_es = self.entries@;
        let mut kept: Vec<PresenceEntry> = Vec::new();
        let ghost mut idx: Seq<int> = Seq::empty();
        let mut k: usize = 0;
        while k < self.entries.len()
            invariant
                0 <= k <= old_es.len(),
                self.entries@ == old_es,
                old(self).wf(),
                old(self).entries@ == old_es,
                idx.len() == kept@.len(),
                forall|i: int|
                    0 <= i < idx.len() ==> 0 <= #[trigger] idx[i] < k && kept@[i]@ == old_es[idx[i]]@
                        && old_es[idx[i]].connection_id@ != connection_id@,
                forall|a: int, b: int| 0 <= a < b < idx.len() ==> #[trigger] idx[a] < #[trigger] idx[b],
                forall|t: int|
                    0 <= t < k && (#[trigger] old_es[t]).connection_id@ != connection_id@ ==> exists|i: int|
                        0 <= i < idx.len() && #[trigger] idx[i] == t,
            decreases old_es.len() - k,
        {
            let e = &self.entries[k];
            if !str_eq(e.connection_id.as_str(), connection_id) {
                let c = PresenceEntry {
                    instance_id: e.instance_id.clone(),
                    connection_id: e.connection_id.clone(),
                    user_id: e.user_id.clone(),
                    display_name: e.display_name.clone(),
                };
                let ghost old_idx = idx;
                kept.push(c);
                proof {
                    idx = idx.push(k as int);
                    assert forall|t: int|
                        0 <= t < k + 1 && (#[trigger] old_es[t]).connection_id@ != connection_id@ implies exists|i: int|
                            0 <= i < idx.len() && #[trigger] idx[i] == t by {
                        if t < k {
                            let i = choose|i: int| 0 <= i < old_idx.len() && #[trigger] old_idx[i] == t;
                            assert(idx[i] == old_idx[i]);
                        } else {
                            assert(idx[idx.len() - 1] == t);
                        }
                    }
                }
            }
            k = k + 1;
        }
        proof {
            assert forall|a: int, b: int|
                0 <= a < kept@.len() && 0 <= b < kept@.len() && a != b implies !((#[trigger] kept@[a]).instance_id@
                    == (#[trigger] kept@[b]).instance_id@ && kept@[a].connection_id@ == kept@[b].connection_id@) by {
                let (x, y) = if a < b { (a, b) } else { (b, a) };
                assert(idx[x] < idx[y]);
                assert(old_es[idx[a]]@ == kept@[a]@);
                assert(old_es[idx[b]]@ == kept@[b]@);
            }
        }
        self.entries = kept;
        proof {
            let want = old(self).entry_set().filter(|e: EntryView| e.1 != connection_id@);
            assert forall|v: EntryView| self.entry_set().contains(v) <==> want.contains(v) by {
                if self.entry_set().contains(v) {
                    let i = choose|i: int| 0 <= i < self.entries@.len() && (#[trigger] self.entries@[i])@ == v;
                    assert(idx[i] < k);
                    assert(old(self).entry_set().contains(old_es[idx[i]]@));
                }
                if want.contains(v) {
                    let t = choose|t: int| 0 <= t < old_es.len() && (#[trigger] old_es[t])@ == v;
                    assert(old_es[t].connection_id@ != connection_id@);
                    let i = choose|i: int| 0 <= i < idx.len() && #[trigger] idx[i] == t;
                    assert(self.entries@[i]@ == v);
                }
            }
            assert(self.entry_set() =~= want);
        }
    }

    /// The instances on which `connection_id` is present, each once.
    fn instances_of_connection(&self, connection_id: &str) -> (res: Vec<String>)
        requires
            self.wf(),
        ensures
            keys_unique(res@),
            forall|x: Seq<char>| instances_with(self.entry_set(), connection_id@).contains(x) <==> exists|i: int|
                0 <= i < res@.len() && (#[trigger] res@[i])@ == x,
    {
        let mut out: Vec<String> = Vec::new();
        let mut k: usize = 0;
        while k < self.entries.len()
            invariant
                0 <= k <= self.entries@.len(),
                self.wf(),
                forall|i: int|
                    0 <= i < out@.len() ==> exists|t: int|
                        0 <= t < k && (#[trigger] out@[i])@ == self.entries@[t].instance_id@
                            && self.entries@[t].connection_id@ == connection_id@,
                forall|t: int|
                    0 <= t < k && (#[trigger] self.entries@[t]).connection_id@ == connection_id@ ==> exists|i: int|
                        0 <= i < out@.len() && (#[trigger] out@[i])@ == self.entries@[t].instance_id@,
                keys_unique(out@),
            decreases self.entries.len() - k,
        {
            let ghost old_out = out@;
            if str_eq(self.entries[k].connection_id.as_str(), connection_id) {
                let x = self.entries[k].instance_id.clone();
                proof {
                    assert forall|i: int| 0 <= i < old_out.len() implies (#[trigger] old_out[i])@ != x@ by {
                        let t = choose|t: int|
                            0 <= t < k && (#[trigger] old_out[i])@ == self.entries@[t].instance_id@
                                && self.entries@[t].connection_id@ == connection_id@;
                        assert(t != k);
                    }
                }
                out.push(x);
                proof {
                    assert forall|a: int, b: int| 0 <= a < out@.len() && 0 <= b < out@.len() && a != b implies (
                    #[trigger] out@[a])@ != (#[trigger] out@[b])@ by {
                        if a < old_out.len() && b < old_out.len() {
                            assert(out@[a] == old_out[a] && out@[b] == old_out[b]);
                        } else if a < old_out.len() {
                            assert(out@[a] == old_out[a]);
                        } else if b < old_out.len() {
                            assert(out@[b] == old_out[b]);
                        }
                    }
                    assert forall|i: int| 0 <= i < out@.len() implies exists|t: int|
                        0 <= t < k + 1 && (#[trigger] out@[i])@ == self.entries@[t].instance_id@
                            && self.entries@[t].connection_id@ == connection_id@ by {
                        if i < old_out.len() {
                            assert(out@[i] == old_out[i]);
                        } else {
                            assert(out@[i]@ == self.entries@[k as int].instance_id@);
                        }
                    }
                }
            }
            proof {
                assert forall|i: int| 0 <= i < old_out.len() implies #[trigger] out@[i] == old_out[i] by {
                    if out@.len() > old_out.len() {
                        assert(out@ == old_out.push(out@.last()));
                    }
                }
                assert forall|t: int|
                    0 <= t < k + 1 && (#[trigger] self.entries@[t]).connection_id@ == connection_id@ implies exists|i: int|
                        0 <= i < out@.len() && (#[trigger] out@[i])@ == self.entries@[t].instance_id@ by {
                    if t < k {
                        let i = choose|i: int|
                            0 <= i < old_out.len() && (#[trigger] old_out[i])@ == self.entries@[t].instance_id@;
                        assert(out@[i] == old_out[i]);
                    } else {
                        assert(out@[out@.len() - 1]@ == self.entries@[k as int].instance_id@);
                    }
                }
            }
            k = k + 1;
        }
        proof {
            let es = self.entry_set();
            assert forall|x: Seq<char>| instances_with(es, connection_id@).contains(x) <==> exists|i: int|
                0 <= i < out@.len() && (#[trigger] out@[i])@ == x by {
                if instances_with(es, connection_id@).contains(x) {
                    let (u, n) = choose|u: Seq<char>, n: Seq<char>| es.contains((x, connection_id@, u, n));
                    let t = choose|t: int|
                        0 <= t < self.entries@.len() && (#[trigger] self.entries@[t])@ == (x, connection_id@, u, n);
                    assert(self.entries@[t].connection_id@ == connection_id@);
                }
                if exists|i: int| 0 <= i < out@.len() && (#[trigger] out@[i])@ == x {
                    let i = choose|i: int| 0 <= i < out@.len() && (#[trigger] out@[i])@ == x;
                    let t = choose|t: int|
                        0 <= t < k && (#[trigger] out@[i])@ == self.entries@[t].instance_id@
                            && self.entries@[t].connection_id@ == connection_id@;
                    assert(es.contains(self.entries@[t]@));
                    assert(es.contains((x, connection_id@, self.entries@[t].user_id@, self.entries@[t].display_name@)));
                }
            }
        }
        out
    }

    /// Forgets `connection_id` everywhere, and for each instance it was on
    /// (each once) lists the users still present there.
    pub fn remove_presence_all(&mut self, connection_id: &str) -> (res: Vec<(String, Vec<PresenceUser>)>)
        requires
            old(self).wf(),
        ensures
            final(self).wf(),
            final(self).entry_set() == old(self).entry_set().filter(|e: EntryView| e.1 != connection_id@),
            forall|a: int, b: int|
                0 <= a < res@.len() && 0 <= b < res@.len() && a != b ==> (#[trigger] res@[a]).0@ != (
                #[trigger] res@[b]).0@,
            forall|x: Seq<char>| instances_with(old(self).entry_set(), connection_id@).contains(x) <==> exists|i: int|
                0 <= i < res@.len() && (#[trigger] res@[i]).0@ == x,
            forall|i: int|
                0 <= i < res@.len() ==> lists_users(final(self).entry_set(), (#[trigger] res@[i]).0@, res@[i].1@),
    {
        let affected = self.instances_of_connection(connection_id);
        self.retain_other_connections(connection_id);
        let mut out: Vec<(String, Vec<PresenceUser>)> = Vec::new();
        let mut j: usize = 0;
        while j < affected.len()
            invariant
                0 <= j <= affected@.len(),
                self.wf(),
                out@.len() == j,
                forall|i: int| 0 <= i < j ==> (#[trigger] out@[i]).0@ == affected@[i]@,
                forall|i: int| 0 <= i < j ==> lists_users(self.entry_set(), (#[trigger] out@[i]).0@, out@[i].1@),
            decreases affected.len() - j,
        {
            let users = self.dedupe_presence(affected[j].as_str());
            out.push((affected[j].clone(), users));
            j = j + 1;
        }
        proof {
            assert forall|a: int, b: int|
                0 <= a < out@.len() && 0 <= b < out@.len() && a != b implies (#[trigger] out@[a]).0@ != (
                #[trigger] out@[b]).0@ by {
                assert(out@[a].0@ == affected@[a]@ && out@[b].0@ == affected@[b]@);
            }
            assert forall|x: Seq<char>| instances_with(old(self).entry_set(), connection_id@).contains(x) <==> exists|i: int|
                0 <= i < out@.len() && (#[trigger] out@[i]).0@ == x by {
                if exists|i: int| 0 <= i < out@.len() && (#[trigger] out@[i]).0@ == x {
                    let i = choose|i: int| 0 <= i < out@.len() && (#[trigger] out@[i]).0@ == x;
                    assert(affected@[i]@ == x);
                }
                if instances_with(old(self).entry_set(), connection_id@).contains(x) {
                    let i = choose|i: int| 0 <= i < affected@.len() && (#[trigger] affected@[i])@ == x;
                    assert(out@[i].0@ == x);
                }
            }
        }
        out
    }
}

/// `s` has exactly one element.
pub open spec fn is_single<A>(s: Set<A>) -> bool {
    exists|a: A| s == Set::<A>::empty().insert(a)
}

/// What reconciling the lock of `instance_id` with presence `es` does: a
/// lock whose holder's connection left is cleared; with no lock and a
/// single user present, that user gets it on one of their connections, as
/// of `now_ms`; otherwise nothing changes.
pub open spec fn reconcile_outcome(
    before: Map<Seq<char>, LockView>,
    es: Set<EntryView>,
    instance_id: Seq<char>,
    now_ms: i64,
    after: Map<Seq<char>, LockView>,
    res: bool,
) -> bool {
    if before.dom().contains(instance_id) && !conns_of(es, instance_id).contains(before[instance_id].0) {
        res && after == before.remove(instance_id)
    } else if !before.dom().contains(instance_id) && is_single(users_of(es, instance_id)) {
        &&& res
        &&& after.dom().contains(instance_id)
        &&& after.remove(instance_id) == before
        &&& users_of(es, instance_id).contains(after[instance_id].1)
        &&& present_as(es, instance_id, after[instance_id].1, after[instance_id].2)
        &&& (exists|n: Seq<char>| es.contains((instance_id, after[instance_id].0, after[instance_id].1, n)))
        &&& after[instance_id].3 == now_ms
    } else {
        !res && after == before
    }
}

impl TerminalLocks {
    /// Reconciles the lock of `instance_id` with who is present: clears it
    /// when its holder's connection is gone, grants it to the only user
    /// present when there is no lock; says whether it changed anything.
    pub fn reconcile_terminal_lock_with_presence(&mut self, instance_id: &str, presence: &Presence, now_ms: i64) -> (res:
        bool)
        requires
            old(self).wf(),
            presence.wf(),
        ensures
            final(self).wf(),
            reconcile_outcome(old(self).held(), presence.entry_set(), instance_id@, now_ms, final(self).held(), res),
    {
        let connection_ids = presence.connection_ids(instance_id);
        let unique_users = presence.dedupe_presence(instance_id);
        let ghost es = presence.entry_set();
        match find_key(&self.instances, instance_id) {
            Some(i) => {
                proof {
                    lemma_keyed_entry(self.instances@, self.locks@, i as int);
                }
                let holder = self.locks[i].holder_connection_id.as_str();
                let mut present = false;
                let mut j: usize = 0;
                while j < connection_ids.len()
                    invariant
                        0 <= j <= connection_ids@.len(),
                        present <==> exists|t: int| 0 <= t < j && (#[trigger] connection_ids@[t])@ == holder@,
                    decreases connection_ids.len() - j,
                {
                    if str_eq(connection_ids[j].as_str(), holder) {
                        present = true;
                    }
                    j = j + 1;
                }
                if !present {
                    let ghost old_i = self.instances@;
                    let ghost old_l = self.locks@;
                    self.instances.remove(i);
                    self.locks.remove(i);
                    proof {
                        lemma_keyed_remove(old_i, old_l, i as int);
                        assert(self.held() =~= old(self).held().remove(instance_id@));
                    }
                    return true;
                }
                false
            },
            None => {
                proof {
                    if unique_users@.len() == 1 {
                        let u = unique_users@[0].user_id@;
                        assert(users_of(es, instance_id@) =~= Set::<Seq<char>>::empty().insert(u));
                    }
                    if is_single(users_of(es, instance_id@)) {
                        let a = choose|a: Seq<char>| users_of(es, instance_id@) == Set::<Seq<char>>::empty().insert(a);
                        assert(users_of(es, instance_id@).contains(a));
                        assert(unique_users@.len() >= 1);
                        if unique_users@.len() >= 2 {
                            let u0 = unique_users@[0];
                            let u1 = unique_users@[1];
                            assert(present_as(es, instance_id@, u0.user_id@, u0.display_name@));
                            assert(present_as(es, instance_id@, u1.user_id@, u1.display_name@));
                            let c0 = choose|c: Seq<char>| es.contains((instance_id@, c, u0.user_id@, u0.display_name@));
                            let c1 = choose|c: Seq<char>| es.contains((instance_id@, c, u1.user_id@, u1.display_name@));
                            assert(es.contains((instance_id@, c0, u0.user_id@, u0.display_name@)));
                            assert(es.contains((instance_id@, c1, u1.user_id@, u1.display_name@)));
                            assert(users_of(es, instance_id@).contains(u0.user_id@));
                            assert(users_of(es, instance_id@).contains(u1.user_id@));
                            assert(u0.user_id@ != u1.user_id@);
                        }
                    }
                }
                if unique_users.len() == 1 && connection_ids.len() > 0 {
                    let sole = &unique_users[0];
                    let conn = connection_ids[0].clone();
                    proof {
                        assert(conns_of(es, instance_id@).contains(conn@));
                        let (u, n) = choose|u: Seq<char>, n: Seq<char>| es.contains((instance_id@, conn@, u, n));
                        assert(users_of(es, instance_id@).contains(u));
                        assert(users_of(es, instance_id@) =~= Set::<Seq<char>>::empty().insert(sole.user_id@));
                        assert(es.contains((instance_id@, conn@, sole.user_id@, n)));
                    }
                    let lock = TerminalLock {
                        holder_connection_id: conn,
                        holder_user_id: sole.user_id.clone(),
                        holder_display_name: sole.display_name.clone(),
                        last_activity_ms: now_ms,
                    };
                    self.put(instance_id, lock);
                    proof {
                        assert(self.held().remove(instance_id@) =~= old(self).held());
                    }
                    return true;
                }
                proof {
                    if is_single(users_of(es, instance_id@)) {
                        let a = choose|a: Seq<char>| users_of(es, instance_id@) == Set::<Seq<char>>::empty().insert(a);
                        assert(users_of(es, instance_id@).contains(a));
                        let (c, n) = choose|c: Seq<char>, n: Seq<char>| es.contains((instance_id@, c, a, n));
                        assert(conns_of(es, instance_id@).contains(c));
                    }
                }
                false
            },
        }
    }
}

/// A connection that joins an instance and then leaves it leaves presence
/// as it was, less any earlier entry of that connection there.
pub proof fn law_presence_join_then_leave(
    es: Set<EntryView>,
    instance_id: Seq<char>,
    connection_id: Seq<char>,
    user_id: Seq<char>,
    name: Seq<char>,
)
    ensures
        without(
            without(es, instance_id, connection_id).insert((instance_id, connection_id, user_id, name)),
            instance_id,
            connection_id,
        ) == without(es, instance_id, connection_id),
{
    assert(without(
        without(es, instance_id, connection_id).insert((instance_id, connection_id, user_id, name)),
        instance_id,
        connection_id,
    ) =~= without(es, instance_id, connection_id));
}

/// After reconciling, the lock of the instance, if any, is held from a
/// connection that is present on it.
pub proof fn law_reconciled_lock_holder_present(
    before: Map<Seq<char>, LockView>,
    es: Set<EntryView>,
    instance_id: Seq<char>,
    now_ms: i64,
    after: Map<Seq<char>, LockView>,
    res: bool,
)
    requires
        reconcile_outcome(before, es, instance_id, now_ms, after, res),
    ensures
        after.dom().contains(instance_id) ==> conns_of(es, instance_id).contains(after[instance_id].0),
{
    if after.dom().contains(instance_id) && !before.dom().contains(instance_id) && is_single(users_of(es, instance_id)) {
        let n = choose|n: Seq<char>| es.contains((instance_id, after[instance_id].0, after[instance_id].1, n));
        assert(es.contains((instance_id, after[instance_id].0, after[instance_id].1, n)));
    }
}

} // verus!
