//! The conversation an instance shows its clients, kept as formatted turns:
//! what a poll of the conversation log does to it, and what the clients
//! are sent afterwards.

use vstd::prelude::*;
use crate::json::JsonValue;
use crate::text::str_eq;

verus! {

/// An event of a poll, formatted for clients.
#[derive(Debug)]
pub enum FormattedEvent {
    /// A new turn.
    Turn(JsonValue),
    /// A turn that tool results were merged into: its id and its new form.
    TurnUpdated { id: String, turn: JsonValue },
    /// A metadata entry of kind `kind`, formatted.
    Progress { kind: String, item: JsonValue },
}

/// What the clients are sent after a poll.
#[derive(Debug, PartialEq, Eq)]
pub enum StoreBroadcast {
    /// Nothing changed.
    Nothing,
    /// This many turns were appended at the end of the conversation: send
    /// them.
    Update(usize),
    /// A stored turn changed: send the whole conversation.
    Full,
}

/// The value of the last entry of `m` with key `k`, if any (a JSON object,
/// as a map, keeps the last).
pub open spec fn last_value(m: Seq<(String, JsonValue)>, k: Seq<char>) -> Option<JsonValue>
    decreases m.len(),
{
    if m.len() == 0 {
        None
    } else if m.last().0@ == k {
        Some(m.last().1)
    } else {
        last_value(m.drop_last(), k)
    }
}

/// The `uuid` string field of a formatted turn, if it has one.
pub open spec fn uuid_of(v: JsonValue) -> Option<Seq<char>> {
    match v {
        JsonValue::Object(m) => match last_value(m@, "uuid"@) {
            Some(JsonValue::String(s)) => Some(s@),
            _ => None,
        },
        _ => None,
    }
}

/// The first position in `store` of a turn with id `id`.
pub open spec fn position_of(store: Seq<JsonValue>, id: Seq<char>) -> Option<int>
    decreases store.len(),
{
    if store.len() == 0 {
        None
    } else if uuid_of(store[0]) == Some(id) {
        Some(0)
    } else {
        match position_of(store.drop_first(), id) {
            Some(p) => Some(p + 1),
            None => None,
        }
    }
}

/// The state of a poll in progress: the stored turns, the new items to
/// append, and whether a stored turn was replaced.
pub type PollState = (Seq<JsonValue>, Seq<JsonValue>, bool);

/// One event of a poll: a new turn or a progress item (but system
/// metadata, which is for state inference only) waits to be appended; an
/// updated turn replaces the first stored turn with its id, or is stored at
/// the end when there is none.
pub open spec fn poll_step(st: PollState, e: FormattedEvent) -> PollState {
    match e {
        FormattedEvent::Turn(t) => (st.0, st.1.push(t), st.2),
        FormattedEvent::TurnUpdated { id, turn } => (
            match position_of(st.0, id@) {
                Some(p) => st.0.update(p, turn),
                None => st.0.push(turn),
            },
            st.1,
            true,
        ),
        FormattedEvent::Progress { kind, item } => if kind@ == "system"@ {
            st
        } else {
            (st.0, st.1.push(item), st.2)
        },
    }
}

/// The events `es` of a poll, one after the other, from `st`.
pub open spec fn poll_run(st: PollState, es: Seq<FormattedEvent>) -> PollState
    decreases es.len(),
{
    if es.len() == 0 {
        st
    } else {
        poll_step(poll_run(st, es.drop_last()), es.last())
    }
}

/// A position found is in range, and the turn there has the id.
proof fn lemma_position_of(store: Seq<JsonValue>, id: Seq<char>)
    ensures
        position_of(store, id) matches Some(p) ==> 0 <= p < store.len() && uuid_of(store[p]) == Some(id),
    decreases store.len(),
{
    if store.len() > 0 && uuid_of(store[0]) != Some(id) {
        lemma_position_of(store.drop_first(), id);
    }
}

/// The `uuid` field of a formatted turn.
fn uuid_field(v: &JsonValue) -> (res: Option<&str>)
    ensures
        match uuid_of(*v) {
            Some(s) => res matches Some(r) && r@ == s,
            None => res is None,
        },
{
    match v {
        JsonValue::Object(m) => {
            let mut k: usize = m.len();
            assert(m@.take(k as int) =~= m@);
            while k > 0
                invariant
                    *v == JsonValue::Object(*m),
                    k <= m@.len(),
                    last_value(m@, "uuid"@) == last_value(m@.take(k as int), "uuid"@),
                decreases k,
            {
                let ghost pre = m@.take(k as int);
                assert(pre.drop_last() =~= m@.take(k - 1));
                assert(pre.last() == m@[k - 1]);
                if str_eq(m[k - 1].0.as_str(), "uuid") {
                    return match &m[k - 1].1 {
                        JsonValue::String(s) => Some(s.as_str()),
                        _ => None,
                    };
                }
                k = k - 1;
            }
            None
        },
        _ => None,
    }
}

/// The first position in `store` of a turn with id `id`.
fn find_turn(store: &Vec<JsonValue>, id: &str) -> (res: Option<usize>)
    ensures
        match position_of(store@, id@) {
            Some(p) => res matches Some(r) && r == p,
            None => res is None,
        },
{
    let mut i: usize = 0;
    assert(store@.skip(0) =~= store@);
    while i < store.len()
        invariant
            0 <= i <= store@.len(),
            position_of(store@, id@) == match position_of(store@.skip(i as int), id@) {
                Some(p) => Some(p + i),
                None => None,
            },
        decreases store.len() - i,
    {
        let ghost rest = store@.skip(i as int);
        assert(rest.drop_first() =~= store@.skip(i + 1));
        assert(rest[0] == store@[i as int]);
        let found = match uuid_field(&store[i]) {
            Some(u) => str_eq(u, id),
            None => false,
        };
        if found {
            return Some(i);
        }
        i = i + 1;
    }
    assert(store@.skip(i as int) =~= Seq::<JsonValue>::empty());
    None
}

/// Applies the events of a poll to the stored turns `store`: updated turns
/// replace stored ones in place (or are appended when not found), then the
/// new turns and progress items are appended after them, in order. Says
/// what to send: the whole conversation when a stored turn changed, else
/// the items appended, if any.
pub fn apply_poll(store: &mut Vec<JsonValue>, events: Vec<FormattedEvent>) -> (res: StoreBroadcast)
    ensures
        ({
            let st = poll_run((old(store)@, Seq::empty(), false), events@);
            &&& final(store)@ == st.0 + st.1
            &&& st.2 ==> res == StoreBroadcast::Full
            &&& !st.2 && st.1.len() > 0 ==> res == StoreBroadcast::Update(st.1.len() as usize)
            &&& !st.2 && st.1.len() == 0 ==> res == StoreBroadcast::Nothing
        }),
{
    let ghost all = events@;
    let ghost start: PollState = (store@, Seq::empty(), false);
    let total: usize = events.len();
    let mut rest = events;
    let mut fresh: Vec<JsonValue> = Vec::new();
    let mut updated = false;
    let mut k: usize = 0;
    while rest.len() > 0
        invariant
            k + rest@.len() == all.len(),
            all.len() == total,
            rest@ == all.skip(k as int),
            (store@, fresh@, updated) == poll_run(start, all.take(k as int)),
        decreases rest.len(),
    {
        let e = rest.remove(0);
        proof {
            assert(all.take(k + 1).drop_last() =~= all.take(k as int));
            assert(all.take(k + 1).last() == e);
            assert(rest@ =~= all.skip(k + 1));
        }
        match e {
            FormattedEvent::Turn(t) => {
                fresh.push(t);
            },
            FormattedEvent::TurnUpdated { id, turn } => {
                updated = true;
                proof {
                    lemma_position_of(store@, id@);
                }
                match find_turn(store, id.as_str()) {
                    Some(p) => {
                        store.set(p, turn);
                    },
                    None => {
                        store.push(turn);
                    },
                }
            },
            FormattedEvent::Progress { kind, item } => {
                if !str_eq(kind.as_str(), "system") {
                    fresh.push(item);
                }
            },
        }
        k = k + 1;
    }
    proof {
        assert(all.take(k as int) =~= all);
    }
    let n = fresh.len();
    store.append(&mut fresh);
    if updated {
        StoreBroadcast::Full
    } else if n > 0 {
        StoreBroadcast::Update(n)
    } else {
        StoreBroadcast::Nothing
    }
}

} // verus!
