//! Which signals a conversation watcher sends after each poll of the log.
//!
//! An assistant entry with only text may be explanation in the middle of a
//! turn, or the end of the turn. Its signal is not sent with the poll that
//! brought it: it is dropped when a turn follows it in the same poll, and
//! otherwise held for one poll. The next poll sends it first when it brings
//! no turn (the text ended the turn) and drops it when it does.

use vstd::prelude::*;
use crate::signal::{
    driver_entry, entry_of, state_entry, watcher_event_to_driver_signal, watcher_event_to_signal,
    DriverSignal, StateSignal, WatcherEvent,
};
use crate::text::str_eq;

verus! {

/// The fields of a conversation-entry signal: entry type, subtype, stop
/// reason and tool names.
pub type EntryFields = (Seq<char>, Option<Seq<char>>, Option<Seq<char>>, Seq<Seq<char>>);

/// An assistant entry with no subtype that used no tool.
pub open spec fn text_only(e: EntryFields) -> bool {
    e.0 == "assistant"@ && e.1 is None && e.3.len() == 0
}

/// The event is a turn, new or merged.
pub open spec fn is_turn(e: WatcherEvent) -> bool {
    e is Turn || e is TurnUpdated
}

/// Some event of the poll is a turn.
pub open spec fn has_turn(events: Seq<WatcherEvent>) -> bool {
    exists|i: int| 0 <= i < events.len() && is_turn(#[trigger] events[i])
}

/// The entries of a poll whose signals are sent with it, in order: all but
/// the text-only assistant entries.
pub open spec fn sent_entries(events: Seq<WatcherEvent>) -> Seq<EntryFields>
    decreases events.len(),
{
    if events.len() == 0 {
        Seq::empty()
    } else {
        let before = sent_entries(events.drop_last());
        let e = entry_of(events.last());
        if text_only(e) {
            before
        } else {
            before.push(e)
        }
    }
}

/// The entry held back after a poll: its last text-only assistant entry,
/// when no turn follows that entry in the poll.
pub open spec fn held_entry(events: Seq<WatcherEvent>) -> Option<EntryFields>
    decreases events.len(),
{
    if events.len() == 0 {
        None
    } else {
        let e = entry_of(events.last());
        if text_only(e) {
            Some(e)
        } else if is_turn(events.last()) {
            None
        } else {
            held_entry(events.drop_last())
        }
    }
}

/// The entries of a list of state signals (none for terminal output).
pub open spec fn state_entries(s: Seq<StateSignal>) -> Seq<Option<EntryFields>> {
    s.map_values(|x: StateSignal| state_entry(x))
}

/// The entries of a list of driver signals (none for a discovered session).
pub open spec fn driver_entries(s: Seq<DriverSignal>) -> Seq<Option<EntryFields>> {
    s.map_values(|x: DriverSignal| driver_entry(x))
}

/// Each entry, as present.
pub open spec fn present(s: Seq<EntryFields>) -> Seq<Option<EntryFields>> {
    s.map_values(|e: EntryFields| Some(e))
}

/// The signals of one poll.
#[derive(Debug)]
pub struct PollSignals<S> {
    /// The signal held back by the previous poll, when it is sent now.
    pub released: Option<S>,
    /// The signals of this poll's entries, in order, sent after it.
    pub now: Vec<S>,
    /// The signal to hold back until the next poll.
    pub hold: Option<S>,
}

/// Whether the entry of `event` is a text-only assistant entry.
fn event_text_only(event: &WatcherEvent) -> (res: bool)
    ensures
        res == text_only(entry_of(*event)),
{
    match watcher_event_to_signal(event) {
        Some(StateSignal::ConversationEntry { entry_type, subtype, tool_names, .. }) => {
            let res = str_eq(entry_type.as_str(), "assistant") && subtype.is_none() && tool_names.len() == 0;
            proof {
                assert(crate::tty::views(tool_names@).len() == tool_names@.len());
            }
            res
        },
        _ => false,
    }
}

/// Whether some event of the poll is a turn.
fn any_turn(events: &Vec<WatcherEvent>) -> (res: bool)
    ensures
        res == has_turn(events@),
{
    let mut i: usize = 0;
    while i < events.len()
        invariant
            0 <= i <= events@.len(),
            forall|j: int| 0 <= j < i ==> !is_turn(#[trigger] events@[j]),
        decreases events.len() - i,
    {
        let t = match &events[i] {
            WatcherEvent::Turn(_) => true,
            WatcherEvent::TurnUpdated(_) => true,
            WatcherEvent::Progress { .. } => false,
        };
        if t {
            assert(is_turn(events@[i as int]));
            return true;
        }
        i = i + 1;
    }
    false
}

/// The position of the event whose entry is held back after the poll.
fn held_position(events: &Vec<WatcherEvent>) -> (res: Option<usize>)
    ensures
        match held_entry(events@) {
            None => res is None,
            Some(e) => res matches Some(p) && p < events@.len() && entry_of(events@[p as int]) == e,
        },
{
    let mut k: usize = events.len();
    assert(events@.take(k as int) =~= events@);
    while k > 0
        invariant
            k <= events@.len(),
            held_entry(events@.take(k as int)) == held_entry(events@),
        decreases k,
    {
        let ghost pre = events@.take(k as int);
        assert(pre.drop_last() =~= events@.take(k - 1));
        assert(pre.last() == events@[k - 1]);
        if event_text_only(&events[k - 1]) {
            return Some(k - 1);
        }
        let t = match &events[k - 1] {
            WatcherEvent::Turn(_) => true,
            WatcherEvent::TurnUpdated(_) => true,
            WatcherEvent::Progress { .. } => false,
        };
        if t {
            return None;
        }
        k = k - 1;
    }
    assert(events@.take(0) =~= Seq::<WatcherEvent>::empty());
    None
}

/// The state signals for a poll that returned `events`, with `held` held
/// back by the previous poll: the held signal is released when no turn came
/// and dropped otherwise; the entries' signals are sent except for
/// text-only assistant entries; the last of those is held when no turn
/// follows it. A poll that failed is not passed here: the held signal stays
/// held.
pub fn poll_state_signals(held: Option<StateSignal>, events: &Vec<WatcherEvent>) -> (res: PollSignals<
    StateSignal,
>)
    ensures
        res.released == (if has_turn(events@) {
            None
        } else {
            held
        }),
        state_entries(res.now@) == present(sent_entries(events@)),
        match held_entry(events@) {
            None => res.hold is None,
            Some(e) => res.hold matches Some(s) && state_entry(s) == Some(e),
        },
{
    let released = if any_turn(events) {
        None
    } else {
        held
    };
    let mut now: Vec<StateSignal> = Vec::new();
    let mut i: usize = 0;
    while i < events.len()
        invariant
            0 <= i <= events@.len(),
            state_entries(now@) == present(sent_entries(events@.take(i as int))),
        decreases events.len() - i,
    {
        let ghost pre = events@.take(i + 1);
        assert(pre.drop_last() =~= events@.take(i as int));
        assert(pre.last() == events@[i as int]);
        if !event_text_only(&events[i]) {
            match watcher_event_to_signal(&events[i]) {
                Some(s) => {
                    let ghost before = now@;
                    now.push(s);
                    assert(state_entries(now@) =~= state_entries(before).push(state_entry(s)));
                    assert(present(sent_entries(pre)) =~= present(sent_entries(events@.take(i as int))).push(
                        Some(entry_of(events@[i as int])),
                    ));
                },
                None => {},
            }
        }
        i = i + 1;
    }
    assert(events@.take(events@.len() as int) =~= events@);
    let hold = match held_position(events) {
        Some(p) => watcher_event_to_signal(&events[p]),
        None => None,
    };
    PollSignals { released, now, hold }
}

/// The driver-signal form of `poll_state_signals`.
pub fn poll_driver_signals(held: Option<DriverSignal>, events: &Vec<WatcherEvent>) -> (res: PollSignals<
    DriverSignal,
>)
    ensures
        res.released == (if has_turn(events@) {
            None
        } else {
            held
        }),
        driver_entries(res.now@) == present(sent_entries(events@)),
        match held_entry(events@) {
            None => res.hold is None,
            Some(e) => res.hold matches Some(s) && driver_entry(s) == Some(e),
        },
{
    let released = if any_turn(events) {
        None
    } else {
        held
    };
    let mut now: Vec<DriverSignal> = Vec::new();
    let mut i: usize = 0;
    while i < events.len()
        invariant
            0 <= i <= events@.len(),
            driver_entries(now@) == present(sent_entries(events@.take(i as int))),
        decreases events.len() - i,
    {
        let ghost pre = events@.take(i + 1);
        assert(pre.drop_last() =~= events@.take(i as int));
        assert(pre.last() == events@[i as int]);
        if !event_text_only(&events[i]) {
            match watcher_event_to_driver_signal(&events[i]) {
                Some(s) => {
                    let ghost before = now@;
                    now.push(s);
                    assert(driver_entries(now@) =~= driver_entries(before).push(driver_entry(s)));
                    assert(present(sent_entries(pre)) =~= present(sent_entries(events@.take(i as int))).push(
                        Some(entry_of(events@[i as int])),
                    ));
                },
                None => {},
            }
        }
        i = i + 1;
    }
    assert(events@.take(events@.len() as int) =~= events@);
    let hold = match held_position(events) {
        Some(p) => watcher_event_to_driver_signal(&events[p]),
        None => None,
    };
    PollSignals { released, now, hold }
}

/// The entry of each event.
pub open spec fn entries(events: Seq<WatcherEvent>) -> Seq<EntryFields> {
    events.map_values(|e: WatcherEvent| entry_of(e))
}

/// Keeps the entries that are not text-only assistant entries.
pub open spec fn not_text_only() -> spec_fn(EntryFields) -> bool {
    |e: EntryFields| !text_only(e)
}

/// A poll's signals sent with it are those of its entries that are not
/// text-only assistant entries, all of them, in the poll's order.
pub proof fn law_sent_are_the_other_entries(events: Seq<WatcherEvent>)
    ensures
        sent_entries(events) == entries(events).filter(not_text_only()),
    decreases events.len(),
{
    reveal(Seq::filter);
    if events.len() == 0 {
        assert(entries(events) =~= Seq::<EntryFields>::empty());
    } else {
        law_sent_are_the_other_entries(events.drop_last());
        assert(entries(events).drop_last() =~= entries(events.drop_last()));
        assert(entries(events).last() == entry_of(events.last()));
    }
}

/// What a poll holds back is a text-only assistant entry of it that no turn
/// follows; it holds nothing only when every text-only assistant entry of
/// the poll is followed by a turn.
pub proof fn law_held_is_trailing_text(events: Seq<WatcherEvent>)
    ensures
        held_entry(events) matches Some(e) ==> text_only(e) && exists|i: int|
            0 <= i < events.len() && #[trigger] entry_of(events[i]) == e && forall|j: int|
                i < j < events.len() ==> !is_turn(#[trigger] events[j]),
        held_entry(events) is None ==> forall|i: int|
            0 <= i < events.len() && text_only(#[trigger] entry_of(events[i])) ==> exists|j: int|
                i < j < events.len() && is_turn(#[trigger] events[j]),
    decreases events.len(),
{
    if events.len() > 0 {
        let n = events.len() - 1;
        let init = events.drop_last();
        law_held_is_trailing_text(init);
        assert forall|k: int| 0 <= k < n implies init[k] == events[k] by {}
        if text_only(entry_of(events.last())) {
            assert(entry_of(events[n]) == entry_of(events.last()));
        } else if is_turn(events.last()) {
            assert forall|i: int| 0 <= i < events.len() && text_only(#[trigger] entry_of(events[i])) implies exists|j: int|
                i < j < events.len() && is_turn(#[trigger] events[j]) by {
                assert(is_turn(events[n]));
            }
        } else {
            if let Some(e) = held_entry(init) {
                let i = choose|i: int|
                    0 <= i < init.len() && #[trigger] entry_of(init[i]) == e && forall|j: int|
                        i < j < init.len() ==> !is_turn(#[trigger] init[j]);
                assert(entry_of(events[i]) == e);
                assert forall|j: int| i < j < events.len() implies !is_turn(#[trigger] events[j]) by {
                    if j < n {
                        assert(!is_turn(init[j]));
                    }
                }
            } else {
                assert forall|i: int| 0 <= i < events.len() && text_only(#[trigger] entry_of(events[i])) implies exists|j: int|
                    i < j < events.len() && is_turn(#[trigger] events[j]) by {
                    assert(i < n);
                    assert(text_only(entry_of(init[i])));
                    let j = choose|j: int| i < j < init.len() && is_turn(#[trigger] init[j]);
                    assert(is_turn(events[j]));
                }
            }
        }
    }
}

} // verus!
