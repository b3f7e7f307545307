//! Merging tool results into the turns that asked for them, across polls
//! of a conversation log. A tool result usually arrives in a later entry
//! than the tool use it answers, sometimes in a later poll: a result in the
//! same poll is written into the turn about to be reported; a later one is
//! written into the stored turn, which is then reported again, once per
//! poll, as updated.

use vstd::prelude::*;
use crate::keyed::{find_key, keyed_map, keys_unique, lemma_keyed_entry, lemma_keyed_push, lemma_keyed_remove, lemma_keyed_set};
use crate::text::{contains_str, str_eq, strs};

verus! {

/// The result of a tool use.
#[derive(Debug, Clone, PartialEq, Eq)]
pub struct ToolResult {
    pub content: String,
    pub is_error: bool,
}

/// A tool use of a turn, with its result once known.
#[derive(Debug, Clone, PartialEq, Eq)]
pub struct ToolUse {
    pub id: String,
    pub name: String,
    pub result: Option<ToolResult>,
}

/// Work a turn delegated to an agent, with the agent's result once known.
#[derive(Debug, Clone, PartialEq, Eq)]
pub struct Delegation {
    pub agent_id: String,
    pub result: Option<String>,
}

/// What merging reads and writes of a turn: its id, tool uses and
/// delegations.
#[derive(Debug, Clone, PartialEq, Eq)]
pub struct TurnRecord {
    pub id: String,
    pub tool_uses: Vec<ToolUse>,
    pub delegations: Vec<Delegation>,
}

/// An entry of the conversation log, as merging sees it.
#[derive(Debug, Clone, PartialEq, Eq)]
pub enum LogEntry {
    /// An entry without a message (metadata).
    Metadata,
    /// A user message holding only tool results: tool use id and result,
    /// in order.
    ToolResults(Vec<(String, ToolResult)>),
    /// An entry that is a turn.
    Turn(TurnRecord),
    /// An entry with a message that does not make a turn.
    Unconvertible,
}

/// What a poll reports.
#[derive(Debug, Clone, PartialEq, Eq)]
pub enum MergeEvent {
    /// The entry at this position of the poll is reported as progress.
    Progress { entry: usize },
    /// A new turn.
    Turn(TurnRecord),
    /// A turn of an earlier poll whose tool results came in.
    TurnUpdated(TurnRecord),
}

/// Content and error flag of a result.
pub type ResultView = (Seq<char>, bool);

/// Id, name and result of a tool use.
pub type UseView = (Seq<char>, Seq<char>, Option<ResultView>);

/// Agent and result of a delegation.
pub type DelegationView = (Seq<char>, Option<Seq<char>>);

/// Id, tool uses and delegations of a turn.
pub type TurnView = (Seq<char>, Seq<UseView>, Seq<DelegationView>);

/// A reported event.
pub enum EventView {
    Progress(nat),
    Turn(TurnView),
    TurnUpdated(TurnView),
}

/// The view of a result.
pub open spec fn result_view(r: ToolResult) -> ResultView {
    (r.content@, r.is_error)
}

/// The view of a tool use.
pub open spec fn use_view(u: ToolUse) -> UseView {
    (
        u.id@,
        u.name@,
        match u.result {
            Some(r) => Some(result_view(r)),
            None => None,
        },
    )
}

/// The views of tool uses.
pub open spec fn uses_view(us: Seq<ToolUse>) -> Seq<UseView> {
    us.map_values(|u: ToolUse| use_view(u))
}

/// The view of a delegation.
pub open spec fn delegation_view(d: Delegation) -> DelegationView {
    (
        d.agent_id@,
        match d.result {
            Some(s) => Some(s@),
            None => None,
        },
    )
}

/// The views of delegations.
pub open spec fn delegations_view(ds: Seq<Delegation>) -> Seq<DelegationView> {
    ds.map_values(|d: Delegation| delegation_view(d))
}

/// The view of a turn.
pub open spec fn turn_view(t: TurnRecord) -> TurnView {
    (t.id@, uses_view(t.tool_uses@), delegations_view(t.delegations@))
}

/// The view of an event.
pub open spec fn event_view(e: MergeEvent) -> EventView {
    match e {
        MergeEvent::Progress { entry } => EventView::Progress(entry as nat),
        MergeEvent::Turn(t) => EventView::Turn(turn_view(t)),
        MergeEvent::TurnUpdated(t) => EventView::TurnUpdated(turn_view(t)),
    }
}

/// The views of events.
pub open spec fn events_view(es: Seq<MergeEvent>) -> Seq<EventView> {
    es.map_values(|e: MergeEvent| event_view(e))
}

/// Tool use `u` has id `id`, and no result yet when `open_only`.
pub open spec fn use_matches(u: UseView, id: Seq<char>, open_only: bool) -> bool {
    u.0 == id && (!open_only || u.2 is None)
}

/// `i` is the first tool use of `us` that matches.
pub open spec fn is_first_use(us: Seq<UseView>, id: Seq<char>, open_only: bool, i: int) -> bool {
    &&& 0 <= i < us.len()
    &&& use_matches(us[i], id, open_only)
    &&& forall|j: int| 0 <= j < i ==> !use_matches(#[trigger] us[j], id, open_only)
}

/// Some tool use of `us` matches.
pub open spec fn has_use(us: Seq<UseView>, id: Seq<char>, open_only: bool) -> bool {
    exists|i: int| 0 <= i < us.len() && use_matches(#[trigger] us[i], id, open_only)
}

/// The first matching tool use of `us` with its result set to `r`; `us`
/// itself when none matches.
pub open spec fn set_use_result(us: Seq<UseView>, id: Seq<char>, open_only: bool, r: ResultView) -> Seq<UseView> {
    if has_use(us, id, open_only) {
        let i = choose|i: int| is_first_use(us, id, open_only, i);
        us.update(i, (us[i].0, us[i].1, Some(r)))
    } else {
        us
    }
}

/// A delegation without a result takes the result content of the first
/// tool use with its agent's id, if any.
pub open spec fn delegation_after(us: Seq<UseView>, d: DelegationView) -> DelegationView {
    if d.1 is None && has_use(us, d.0, false) {
        let i = choose|i: int| is_first_use(us, d.0, false, i);
        (
            d.0,
            match us[i].2 {
                Some(r) => Some(r.0),
                None => None,
            },
        )
    } else {
        d
    }
}

/// Turn `t` with its delegations' results derived again from its tool uses.
pub open spec fn with_delegation_results(t: TurnView) -> TurnView {
    (t.0, t.1, t.2.map_values(|d: DelegationView| delegation_after(t.1, d)))
}

/// The turn an event reports, if any.
pub open spec fn event_turn(e: EventView) -> Option<TurnView> {
    match e {
        EventView::Progress(_) => None,
        EventView::Turn(t) => Some(t),
        EventView::TurnUpdated(t) => Some(t),
    }
}

/// Event `e` reports a turn with a tool use `id` still without result.
pub open spec fn awaits(e: EventView, id: Seq<char>) -> bool {
    event_turn(e) matches Some(t) && has_use(t.1, id, true)
}

/// Event `e` with its reported turn replaced by `t`.
pub open spec fn with_turn(e: EventView, t: TurnView) -> EventView {
    match e {
        EventView::TurnUpdated(_) => EventView::TurnUpdated(t),
        _ => EventView::Turn(t),
    }
}

/// The merge state: reported turns by id, tool uses awaiting a result (tool
/// use id to turn id), the events of this poll so far, and the turns
/// updated from earlier polls in this poll, in order.
pub type MergeView = (Map<Seq<char>, TurnView>, Map<Seq<char>, Seq<char>>, Seq<EventView>, Seq<Seq<char>>);

/// What one tool result does. It goes into the last event of this poll
/// whose turn awaits it (and into that stored turn); otherwise into the
/// stored turn that awaits it, whose delegations are then derived again and
/// which is marked as updated; otherwise it is dropped. Either way, its
/// tool use no longer awaits.
pub open spec fn result_step(s: MergeView, id: Seq<char>, r: ResultView) -> MergeView {
    let (emitted, pending, events, updated) = s;
    if exists|k: int| 0 <= k < events.len() && awaits(#[trigger] events[k], id) {
        let k = choose|k: int|
            0 <= k < events.len() && awaits(events[k], id) && forall|j: int|
                k < j < events.len() ==> !awaits(#[trigger] events[j], id);
        let t = event_turn(events[k])->0;
        let emitted2 = if emitted.dom().contains(t.0) {
            emitted.insert(t.0, stored_after(emitted[t.0], id, r, false))
        } else {
            emitted
        };
        (emitted2, pending.remove(id), events.update(k, event_after_result(events[k], id, r)), updated)
    } else if pending.dom().contains(id) {
        let tid = pending[id];
        if emitted.dom().contains(tid) {
            (
                emitted.insert(tid, stored_after(emitted[tid], id, r, true)),
                pending.remove(id),
                events,
                if updated.contains(tid) {
                    updated
                } else {
                    updated.push(tid)
                },
            )
        } else {
            (emitted, pending.remove(id), events, updated)
        }
    } else {
        s
    }
}

/// The results `rs`, one after another.
pub open spec fn results_step(s: MergeView, rs: Seq<(Seq<char>, ResultView)>) -> MergeView
    decreases rs.len(),
{
    if rs.len() == 0 {
        s
    } else {
        result_step(results_step(s, rs.drop_last()), rs.last().0, rs.last().1)
    }
}

/// `pending` with each tool use of `us` that has no result awaiting it in
/// turn `tid`.
pub open spec fn await_uses(pending: Map<Seq<char>, Seq<char>>, us: Seq<UseView>, tid: Seq<char>) -> Map<Seq<char>, Seq<char>>
    decreases us.len(),
{
    if us.len() == 0 {
        pending
    } else {
        let p = await_uses(pending, us.drop_last(), tid);
        if us.last().2 is None {
            p.insert(us.last().0, tid)
        } else {
            p
        }
    }
}

/// The view of a log entry: `None` for entries reported as progress, the
/// results of a tool-results entry, or the turn of a turn entry.
pub enum EntryView {
    Progress,
    Results(Seq<(Seq<char>, ResultView)>),
    Turn(TurnView),
}

/// The views of tool results with their ids.
pub open spec fn results_view(rs: Seq<(String, ToolResult)>) -> Seq<(Seq<char>, ResultView)> {
    rs.map_values(|p: (String, ToolResult)| (p.0@, result_view(p.1)))
}

/// The view of an entry.
pub open spec fn entry_view(e: LogEntry) -> EntryView {
    match e {
        LogEntry::Metadata => EntryView::Progress,
        LogEntry::Unconvertible => EntryView::Progress,
        LogEntry::ToolResults(rs) => EntryView::Results(results_view(rs@)),
        LogEntry::Turn(t) => EntryView::Turn(turn_view(t)),
    }
}

/// What entry `idx` of a poll does: progress is reported; tool results are
/// merged; a turn is stored, its open tool uses await results, and it is
/// reported.
pub open spec fn entry_step(s: MergeView, idx: nat, e: EntryView) -> MergeView {
    match e {
        EntryView::Progress => (s.0, s.1, s.2.push(EventView::Progress(idx)), s.3),
        EntryView::Results(rs) => results_step(s, rs),
        EntryView::Turn(t) => (s.0.insert(t.0, t), await_uses(s.1, t.1, t.0), s.2.push(EventView::Turn(t)), s.3),
    }
}

/// The entries `es`, one after another.
pub open spec fn entries_step(s: MergeView, es: Seq<EntryView>) -> MergeView
    decreases es.len(),
{
    if es.len() == 0 {
        s
    } else {
        entry_step(entries_step(s, es.drop_last()), (es.len() - 1) as nat, es.last())
    }
}

/// The events of a poll: those of its entries, then each stored turn
/// updated from an earlier poll, once, in the order first updated.
pub open spec fn poll_events(s: MergeView) -> Seq<EventView> {
    s.2 + s.3.map_values(|tid: Seq<char>| EventView::TurnUpdated(s.0[tid]))
}

/// A matching tool use has one first position.
proof fn lemma_first_use_unique(us: Seq<UseView>, id: Seq<char>, open_only: bool, i: int, j: int)
    requires
        is_first_use(us, id, open_only, i),
        is_first_use(us, id, open_only, j),
    ensures
        i == j,
{
    if i < j {
        assert(!use_matches(us[i], id, open_only));
    } else if j < i {
        assert(!use_matches(us[j], id, open_only));
    }
}

/// A copy of a result.
fn copy_result(r: &ToolResult) -> (res: ToolResult)
    ensures
        result_view(res) == result_view(*r),
{
    ToolResult { content: r.content.clone(), is_error: r.is_error }
}

/// A copy of a tool use.
fn copy_use(u: &ToolUse) -> (res: ToolUse)
    ensures
        use_view(res) == use_view(*u),
{
    ToolUse {
        id: u.id.clone(),
        name: u.name.clone(),
        result: match &u.result {
            Some(r) => Some(copy_result(r)),
            None => None,
        },
    }
}

/// A copy of a delegation.
fn copy_delegation(d: &Delegation) -> (res: Delegation)
    ensures
        delegation_view(res) == delegation_view(*d),
{
    Delegation {
        agent_id: d.agent_id.clone(),
        result: match &d.result {
            Some(s) => Some(s.clone()),
            None => None,
        },
    }
}

/// A copy of a turn.
fn copy_turn(t: &TurnRecord) -> (res: TurnRecord)
    ensures
        turn_view(res) == turn_view(*t),
{
    let mut us: Vec<ToolUse> = Vec::new();
    let mut i: usize = 0;
    while i < t.tool_uses.len()
        invariant
            0 <= i <= t.tool_uses@.len(),
            uses_view(us@) == uses_view(t.tool_uses@).take(i as int),
        decreases t.tool_uses.len() - i,
    {
        let ghost before = uses_view(us@);
        us.push(copy_use(&t.tool_uses[i]));
        assert(uses_view(us@) =~= before.push(use_view(t.tool_uses@[i as int])));
        assert(uses_view(t.tool_uses@).take(i + 1) =~= uses_view(t.tool_uses@).take(i as int).push(
            use_view(t.tool_uses@[i as int]),
        ));
        i = i + 1;
    }
    assert(uses_view(t.tool_uses@).take(t.tool_uses@.len() as int) =~= uses_view(t.tool_uses@));
    let mut ds: Vec<Delegation> = Vec::new();
    let mut k: usize = 0;
    while k < t.delegations.len()
        invariant
            0 <= k <= t.delegations@.len(),
            delegations_view(ds@) == delegations_view(t.delegations@).take(k as int),
        decreases t.delegations.len() - k,
    {
        let ghost before = delegations_view(ds@);
        ds.push(copy_delegation(&t.delegations[k]));
        assert(delegations_view(ds@) =~= before.push(delegation_view(t.delegations@[k as int])));
        assert(delegations_view(t.delegations@).take(k + 1) =~= delegations_view(t.delegations@).take(
            k as int,
        ).push(delegation_view(t.delegations@[k as int])));
        k = k + 1;
    }
    assert(delegations_view(t.delegations@).take(t.delegations@.len() as int) =~= delegations_view(
        t.delegations@,
    ));
    TurnRecord { id: t.id.clone(), tool_uses: us, delegations: ds }
}

/// The position of the first matching tool use of `us`, if any.
fn find_use(us: &Vec<ToolUse>, id: &str, open_only: bool) -> (res: Option<usize>)
    ensures
        match res {
            Some(i) => is_first_use(uses_view(us@), id@, open_only, i as int),
            None => !has_use(uses_view(us@), id@, open_only),
        },
{
    let ghost v = uses_view(us@);
    let mut i: usize = 0;
    while i < us.len()
        invariant
            0 <= i <= us@.len(),
            v == uses_view(us@),
            forall|j: int| 0 <= j < i ==> !use_matches(#[trigger] v[j], id@, open_only),
        decreases us.len() - i,
    {
        let u = &us[i];
        let open = match &u.result {
            Some(_) => false,
            None => true,
        };
        if str_eq(u.id.as_str(), id) && (!open_only || open) {
            assert(use_matches(v[i as int], id@, open_only));
            return Some(i);
        }
        assert(!use_matches(v[i as int], id@, open_only));
        i = i + 1;
    }
    None
}

/// Sets the result of the first matching tool use of `us`; says whether
/// one matched.
fn set_result(us: &mut Vec<ToolUse>, id: &str, open_only: bool, r: &ToolResult) -> (res: bool)
    ensures
        res == has_use(uses_view(old(us)@), id@, open_only),
        uses_view(final(us)@) == set_use_result(uses_view(old(us)@), id@, open_only, result_view(*r)),
{
    let ghost v = uses_view(us@);
    match find_use(us, id, open_only) {
        Some(i) => {
            let u = ToolUse { id: us[i].id.clone(), name: us[i].name.clone(), result: Some(copy_result(r)) };
            us.set(i, u);
            proof {
                let c = choose|c: int| is_first_use(v, id@, open_only, c);
                lemma_first_use_unique(v, id@, open_only, i as int, c);
                assert(uses_view(us@) =~= v.update(i as int, (v[i as int].0, v[i as int].1, Some(result_view(*r)))));
            }
            true
        },
        None => false,
    }
}

/// Derives the results of the turn's delegations again from its tool uses.
fn refresh_delegations(t: &mut TurnRecord)
    ensures
        turn_view(*final(t)) == with_delegation_results(turn_view(*old(t))),
{
    let ghost us = uses_view(t.tool_uses@);
    let ghost ds0 = delegations_view(t.delegations@);
    let mut out: Vec<Delegation> = Vec::new();
    let mut k: usize = 0;
    while k < t.delegations.len()
        invariant
            0 <= k <= t.delegations@.len(),
            us == uses_view(t.tool_uses@),
            ds0 == delegations_view(t.delegations@),
            delegations_view(out@) == ds0.take(k as int).map_values(|d: DelegationView| delegation_after(us, d)),
        decreases t.delegations.len() - k,
    {
        let d = &t.delegations[k];
        let ghost dv = delegation_view(*d);
        let nd = match &d.result {
            Some(_) => copy_delegation(d),
            None => match find_use(&t.tool_uses, d.agent_id.as_str(), false) {
                Some(i) => {
                    proof {
                        let c = choose|c: int| is_first_use(us, dv.0, false, c);
                        lemma_first_use_unique(us, dv.0, false, i as int, c);
                    }
                    Delegation {
                        agent_id: d.agent_id.clone(),
                        result: match &t.tool_uses[i].result {
                            Some(r) => Some(r.content.clone()),
                            None => None,
                        },
                    }
                },
                None => copy_delegation(d),
            },
        };
        let ghost before = delegations_view(out@);
        out.push(nd);
        proof {
            assert(delegation_view(nd) == delegation_after(us, dv));
            assert(delegations_view(out@) =~= before.push(delegation_after(us, dv)));
            assert(ds0.take(k + 1).map_values(|d: DelegationView| delegation_after(us, d)) =~= ds0.take(
                k as int,
            ).map_values(|d: DelegationView| delegation_after(us, d)).push(delegation_after(us, dv)));
        }
        k = k + 1;
    }
    proof {
        assert(ds0.take(ds0.len() as int) =~= ds0);
    }
    t.delegations = out;
}

/// Stored turn `st` with the result `r` of its tool use `id`, and its
/// delegations derived again when `refresh`.
pub open spec fn stored_after(st: TurnView, id: Seq<char>, r: ResultView, refresh: bool) -> TurnView {
    let st2 = (st.0, set_use_result(st.1, id, false, r), st.2);
    if refresh {
        with_delegation_results(st2)
    } else {
        st2
    }
}

/// The views of turns.
pub open spec fn turns_view(ts: Seq<TurnRecord>) -> Seq<TurnView> {
    ts.map_values(|t: TurnRecord| turn_view(t))
}

/// Every turn marked updated is stored.
pub open spec fn updated_stored(emitted: Map<Seq<char>, TurnView>, updated: Seq<Seq<char>>) -> bool {
    forall|k: int| 0 <= k < updated.len() ==> emitted.dom().contains(#[trigger] updated[k])
}

/// What merging keeps between polls: the turns reported so far, by id, and
/// the tool uses still awaiting a result, by tool use id, with the id of
/// their turn.
pub struct MergingState {
    turn_ids: Vec<String>,
    turns: Vec<TurnRecord>,
    pending_ids: Vec<String>,
    pending_turns: Vec<String>,
}

impl MergingState {
    /// Each turn and each awaiting tool use once.
    pub closed spec fn wf(&self) -> bool {
        &&& self.turn_ids@.len() == self.turns@.len()
        &&& keys_unique(self.turn_ids@)
        &&& self.pending_ids@.len() == self.pending_turns@.len()
        &&& keys_unique(self.pending_ids@)
    }

    /// The turns reported so far, by id.
    pub closed spec fn emitted(&self) -> Map<Seq<char>, TurnView> {
        keyed_map(self.turn_ids@, turns_view(self.turns@))
    }

    /// Tool uses awaiting a result: tool use id to turn id.
    pub closed spec fn pending(&self) -> Map<Seq<char>, Seq<char>> {
        keyed_map(self.pending_ids@, strs(self.pending_turns@))
    }

    /// Nothing reported yet.
    pub fn new() -> (res: Self)
        ensures
            res.wf(),
            res.emitted() == Map::<Seq<char>, TurnView>::empty(),
            res.pending() == Map::<Seq<char>, Seq<char>>::empty(),
    {
        let res = MergingState { turn_ids: Vec::new(), turns: Vec::new(), pending_ids: Vec::new(), pending_turns: Vec::new() };
        assert(res.emitted() =~= Map::<Seq<char>, TurnView>::empty());
        assert(res.pending() =~= Map::<Seq<char>, Seq<char>>::empty());
        res
    }

    /// Stores turn `t` under its id.
    fn put_turn(&mut self, t: TurnRecord)
        requires
            old(self).wf(),
        ensures
            final(self).wf(),
            final(self).emitted() == old(self).emitted().insert(t.id@, turn_view(t)),
            final(self).pending() == old(self).pending(),
    {
        let ghost ids = self.turn_ids@;
        let ghost tv = turns_view(self.turns@);
        match find_key(&self.turn_ids, t.id.as_str()) {
            Some(i) => {
                let ghost t2 = turn_view(t);
                self.turns.set(i, t);
                proof {
                    assert(turns_view(self.turns@) =~= tv.update(i as int, t2));
                    lemma_keyed_set(ids, tv, i as int, t2);
                }
            },
            None => {
                let key = t.id.clone();
                let ghost t2 = turn_view(t);
                self.turn_ids.push(key);
                self.turns.push(t);
                proof {
                    assert(turns_view(self.turns@) =~= tv.push(t2));
                    lemma_keyed_push(ids, tv, key, t2);
                }
            },
        }
    }

    /// Records that tool use `id` awaits a result in turn `tid`.
    fn put_pending(&mut self, id: &str, tid: &str)
        requires
            old(self).wf(),
        ensures
            final(self).wf(),
            final(self).pending() == old(self).pending().insert(id@, tid@),
            final(self).emitted() == old(self).emitted(),
    {
        let ghost ids = self.pending_ids@;
        let ghost tv = strs(self.pending_turns@);
        match find_key(&self.pending_ids, id) {
            Some(i) => {
                self.pending_turns.set(i, tid.to_owned());
                proof {
                    assert(strs(self.pending_turns@) =~= tv.update(i as int, tid@));
                    lemma_keyed_set(ids, tv, i as int, tid@);
                }
            },
            None => {
                let key = id.to_owned();
                self.pending_ids.push(key);
                self.pending_turns.push(tid.to_owned());
                proof {
                    assert(strs(self.pending_turns@) =~= tv.push(tid@));
                    lemma_keyed_push(ids, tv, key, tid@);
                }
            },
        }
    }

    /// Takes tool use `id` off the awaiting ones, giving its turn's id.
    fn take_pending(&mut self, id: &str) -> (res: Option<String>)
        requires
            old(self).wf(),
        ensures
            final(self).wf(),
            final(self).pending() == old(self).pending().remove(id@),
            final(self).emitted() == old(self).emitted(),
            match res {
                Some(t) => old(self).pending().dom().contains(id@) && t@ == old(self).pending()[id@],
                None => !old(self).pending().dom().contains(id@),
            },
    {
        let ghost ids = self.pending_ids@;
        let ghost tv = strs(self.pending_turns@);
        match find_key(&self.pending_ids, id) {
            Some(i) => {
                proof {
                    lemma_keyed_entry(ids, tv, i as int);
                }
                self.pending_ids.remove(i);
                let t = self.pending_turns.remove(i);
                proof {
                    assert(strs(self.pending_turns@) =~= tv.remove(i as int));
                    lemma_keyed_remove(ids, tv, i as int);
                }
                Some(t)
            },
            None => {
                proof {
                    assert(self.pending().remove(id@) =~= self.pending());
                }
                None
            },
        }
    }

    /// Sets the result of tool use `id` in stored turn `tid`, deriving its
    /// delegations again when `refresh`; says whether the turn is stored.
    fn set_stored_result(&mut self, tid: &str, id: &str, r: &ToolResult, refresh: bool) -> (res: bool)
        requires
            old(self).wf(),
        ensures
            final(self).wf(),
            final(self).pending() == old(self).pending(),
            res == old(self).emitted().dom().contains(tid@),
            res ==> final(self).emitted() == old(self).emitted().insert(
                tid@,
                stored_after(old(self).emitted()[tid@], id@, result_view(*r), refresh),
            ),
            !res ==> final(self).emitted() == old(self).emitted(),
    {
        let ghost ids = self.turn_ids@;
        let ghost tv = turns_view(self.turns@);
        match find_key(&self.turn_ids, tid) {
            Some(i) => {
                proof {
                    lemma_keyed_entry(ids, tv, i as int);
                }
                let mut t = copy_turn(&self.turns[i]);
                set_result(&mut t.tool_uses, id, false, r);
                if refresh {
                    refresh_delegations(&mut t);
                }
                let ghost t2 = turn_view(t);
                self.turns.set(i, t);
                proof {
                    assert(turns_view(self.turns@) =~= tv.update(i as int, t2));
                    lemma_keyed_set(ids, tv, i as int, t2);
                }
                true
            },
            None => false,
        }
    }
}

/// The last event of `events` whose turn awaits tool use `id`.
pub open spec fn is_last_awaiting(events: Seq<EventView>, id: Seq<char>, k: int) -> bool {
    &&& 0 <= k < events.len()
    &&& awaits(events[k], id)
    &&& forall|j: int| k < j < events.len() ==> !awaits(#[trigger] events[j], id)
}

/// Event `e` with result `r` set on the first open tool use `id` of its
/// turn.
pub open spec fn event_after_result(e: EventView, id: Seq<char>, r: ResultView) -> EventView {
    let t = event_turn(e)->0;
    with_turn(e, (t.0, set_use_result(t.1, id, true, r), t.2))
}

/// Event `e` with the result `r` of the first open tool use `id` of its turn.
fn event_with_result(e: &MergeEvent, id: &str, r: &ToolResult) -> (res: MergeEvent)
    requires
        awaits(event_view(*e), id@),
    ensures
        event_view(res) == event_after_result(event_view(*e), id@, result_view(*r)),
{
    match e {
        MergeEvent::Turn(t) => {
            let mut t2 = copy_turn(t);
            set_result(&mut t2.tool_uses, id, true, r);
            MergeEvent::Turn(t2)
        },
        MergeEvent::TurnUpdated(t) => {
            let mut t2 = copy_turn(t);
            set_result(&mut t2.tool_uses, id, true, r);
            MergeEvent::TurnUpdated(t2)
        },
        MergeEvent::Progress { entry } => MergeEvent::Progress { entry: *entry },
    }
}

/// Whether event `e` reports a turn awaiting tool use `id`.
fn event_awaits(e: &MergeEvent, id: &str) -> (res: bool)
    ensures
        res == awaits(event_view(*e), id@),
{
    match e {
        MergeEvent::Turn(t) => find_use(&t.tool_uses, id, true).is_some(),
        MergeEvent::TurnUpdated(t) => find_use(&t.tool_uses, id, true).is_some(),
        MergeEvent::Progress { .. } => false,
    }
}

impl MergingState {
    /// Applies tool result `r` of tool use `id`, with this poll's events so
    /// far and the turns updated from earlier polls.
    fn apply_result(&mut self, events: &mut Vec<MergeEvent>, updated: &mut Vec<String>, id: &str, r: &ToolResult)
        requires
            old(self).wf(),
            updated_stored(old(self).emitted(), strs(old(updated)@)),
        ensures
            final(self).wf(),
            updated_stored(final(self).emitted(), strs(final(updated)@)),
            (final(self).emitted(), final(self).pending(), events_view(final(events)@), strs(final(updated)@))
                == result_step(
                (old(self).emitted(), old(self).pending(), events_view(old(events)@), strs(old(updated)@)),
                id@,
                result_view(*r),
            ),
    {
        let ghost ev = events_view(events@);
        let mut k: usize = events.len();
        let mut found = false;
        while k > 0
            invariant_except_break
                0 <= k <= events@.len(),
                ev == events_view(events@),
                !found,
                forall|j: int| k <= j < ev.len() ==> !awaits(#[trigger] ev[j], id@),
            ensures
                0 <= k <= events@.len(),
                ev == events_view(events@),
                found ==> is_last_awaiting(ev, id@, k as int),
                !found ==> forall|j: int| 0 <= j < ev.len() ==> !awaits(#[trigger] ev[j], id@),
            decreases k,
        {
            k = k - 1;
            assert(ev[k as int] == event_view(events@[k as int]));
            if event_awaits(&events[k], id) {
                found = true;
                break;
            }
        }
        let ghost s0 = (self.emitted(), self.pending(), ev, strs(updated@));
        if found {
            proof {
                let c = choose|c: int|
                    0 <= c < ev.len() && awaits(ev[c], id@) && forall|j: int|
                        c < j < ev.len() ==> !awaits(#[trigger] ev[j], id@);
                if c < k {
                    assert(!awaits(ev[k as int], id@));
                } else if c > k {
                    assert(!awaits(ev[c], id@));
                }
            }
            let ne = event_with_result(&events[k], id, r);
            let tid = match &events[k] {
                MergeEvent::Turn(t) => t.id.clone(),
                MergeEvent::TurnUpdated(t) => t.id.clone(),
                MergeEvent::Progress { .. } => String::new(),
            };
            events.set(k, ne);
            proof {
                assert(events_view(events@) =~= ev.update(k as int, event_view(ne)));
            }
            self.set_stored_result(tid.as_str(), id, r, false);
            let _ = self.take_pending(id);
            return;
        }
        proof {
            assert(!(exists|c: int| 0 <= c < ev.len() && awaits(#[trigger] ev[c], id@)));
        }
        match self.take_pending(id) {
            Some(tid) => {
                if self.set_stored_result(tid.as_str(), id, r, true) {
                    if !contains_str(updated, tid.as_str()) {
                        let ghost before = strs(updated@);
                        updated.push(tid);
                        proof {
                            assert(strs(updated@) =~= before.push(s0.1[id@]));
                        }
                    }
                }
            },
            None => {},
        }
    }
}

/// The views of log entries.
pub open spec fn entries_view(es: Seq<LogEntry>) -> Seq<EntryView> {
    es.map_values(|e: LogEntry| entry_view(e))
}

/// The merge state at the start of a poll.
pub open spec fn poll_start(emitted: Map<Seq<char>, TurnView>, pending: Map<Seq<char>, Seq<char>>) -> MergeView {
    (emitted, pending, Seq::empty(), Seq::empty())
}

impl MergingState {
    /// Stores and reports turn `t`; its tool uses without result await one.
    fn add_turn(&mut self, events: &mut Vec<MergeEvent>, t: &TurnRecord)
        requires
            old(self).wf(),
        ensures
            final(self).wf(),
            final(self).emitted() == old(self).emitted().insert(t.id@, turn_view(*t)),
            final(self).pending() == await_uses(old(self).pending(), uses_view(t.tool_uses@), t.id@),
            events_view(final(events)@) == events_view(old(events)@).push(EventView::Turn(turn_view(*t))),
    {
        let ghost uv = uses_view(t.tool_uses@);
        let ghost p0 = self.pending();
        let mut i: usize = 0;
        while i < t.tool_uses.len()
            invariant
                0 <= i <= t.tool_uses@.len(),
                self.wf(),
                uv == uses_view(t.tool_uses@),
                self.emitted() == old(self).emitted(),
                self.pending() == await_uses(p0, uv.take(i as int), t.id@),
            decreases t.tool_uses.len() - i,
        {
            proof {
                assert(uv.take(i + 1).drop_last() =~= uv.take(i as int));
                assert(uv.take(i + 1).last() == uv[i as int]);
            }
            let u = &t.tool_uses[i];
            match &u.result {
                None => self.put_pending(u.id.as_str(), t.id.as_str()),
                Some(_) => {},
            }
            i = i + 1;
        }
        proof {
            assert(uv.take(uv.len() as int) =~= uv);
        }
        self.put_turn(copy_turn(t));
        let ghost before = events_view(events@);
        events.push(MergeEvent::Turn(copy_turn(t)));
        proof {
            assert(events_view(events@) =~= before.push(EventView::Turn(turn_view(*t))));
        }
    }

    /// Merges the entries of one poll; gives the events to report.
    pub fn poll(&mut self, entries: &Vec<LogEntry>) -> (res: Vec<MergeEvent>)
        requires
            old(self).wf(),
        ensures
            final(self).wf(),
            ({
                let s = entries_step(poll_start(old(self).emitted(), old(self).pending()), entries_view(entries@));
                &&& final(self).emitted() == s.0
                &&& final(self).pending() == s.1
                &&& events_view(res@) == poll_events(s)
            }),
    {
        let ghost ev = entries_view(entries@);
        let ghost s0 = poll_start(self.emitted(), self.pending());
        let mut events: Vec<MergeEvent> = Vec::new();
        let mut updated: Vec<String> = Vec::new();
        proof {
            assert(events_view(events@) =~= Seq::<EventView>::empty());
            assert(strs(updated@) =~= Seq::<Seq<char>>::empty());
            assert(ev.take(0) =~= Seq::<EntryView>::empty());
        }
        let mut i: usize = 0;
        while i < entries.len()
            invariant
                0 <= i <= entries@.len(),
                self.wf(),
                ev == entries_view(entries@),
                updated_stored(self.emitted(), strs(updated@)),
                (self.emitted(), self.pending(), events_view(events@), strs(updated@)) == entries_step(s0, ev.take(i as int)),
            decreases entries.len() - i,
        {
            proof {
                assert(ev.take(i + 1).drop_last() =~= ev.take(i as int));
                assert(ev.take(i + 1).last() == entry_view(entries@[i as int]));
                assert(ev.take(i + 1).len() - 1 == i);
            }
            let ghost st = (self.emitted(), self.pending(), events_view(events@), strs(updated@));
            match &entries[i] {
                LogEntry::Metadata => {
                    let ghost before = events_view(events@);
                    events.push(MergeEvent::Progress { entry: i });
                    assert(events_view(events@) =~= before.push(EventView::Progress(i as nat)));
                },
                LogEntry::Unconvertible => {
                    let ghost before = events_view(events@);
                    events.push(MergeEvent::Progress { entry: i });
                    assert(events_view(events@) =~= before.push(EventView::Progress(i as nat)));
                },
                LogEntry::ToolResults(rs) => {
                    let ghost rv = results_view(rs@);
                    proof {
                        assert(rv.take(0) =~= Seq::<(Seq<char>, ResultView)>::empty());
                    }
                    let mut j: usize = 0;
                    while j < rs.len()
                        invariant
                            0 <= j <= rs@.len(),
                            self.wf(),
                            rv == results_view(rs@),
                            updated_stored(self.emitted(), strs(updated@)),
                            (self.emitted(), self.pending(), events_view(events@), strs(updated@)) == results_step(st, rv.take(j as int)),
                        decreases rs.len() - j,
                    {
                        proof {
                            assert(rv.take(j + 1).drop_last() =~= rv.take(j as int));
                            assert(rv.take(j + 1).last() == (rs@[j as int].0@, result_view(rs@[j as int].1)));
                        }
                        self.apply_result(&mut events, &mut updated, rs[j].0.as_str(), &rs[j].1);
                        j = j + 1;
                    }
                    proof {
                        assert(rv.take(rv.len() as int) =~= rv);
                    }
                },
                LogEntry::Turn(t) => {
                    self.add_turn(&mut events, t);
                },
            }
            i = i + 1;
        }
        proof {
            assert(ev.take(ev.len() as int) =~= ev);
        }
        let ghost s = (self.emitted(), self.pending(), events_view(events@), strs(updated@));
        let ghost base = events_view(events@);
        let mut k: usize = 0;
        while k < updated.len()
            invariant
                0 <= k <= updated@.len(),
                self.wf(),
                s == (self.emitted(), self.pending(), base, strs(updated@)),
                updated_stored(self.emitted(), strs(updated@)),
                events_view(events@) == base + strs(updated@).take(k as int).map_values(
                    |tid: Seq<char>| EventView::TurnUpdated(s.0[tid]),
                ),
            decreases updated.len() - k,
        {
            let ghost before = events_view(events@);
            let ghost tid = strs(updated@)[k as int];
            proof {
                assert(strs(updated@).take(k + 1).map_values(|tid: Seq<char>| EventView::TurnUpdated(s.0[tid]))
                    =~= strs(updated@).take(k as int).map_values(|tid: Seq<char>| EventView::TurnUpdated(s.0[tid])).push(
                    EventView::TurnUpdated(s.0[tid]),
                ));
            }
            match find_key(&self.turn_ids, updated[k].as_str()) {
                Some(p) => {
                    proof {
                        lemma_keyed_entry(self.turn_ids@, turns_view(self.turns@), p as int);
                    }
                    let t = copy_turn(&self.turns[p]);
                    events.push(MergeEvent::TurnUpdated(t));
                    proof {
                        assert(events_view(events@) =~= before.push(EventView::TurnUpdated(s.0[tid])));
                    }
                },
                None => {
                    proof {
                        assert(self.emitted().dom().contains(tid));
                        let c = choose|c: int| 0 <= c < self.turn_ids@.len() && (#[trigger] self.turn_ids@[c])@ == tid;
                        assert(false);
                    }
                },
            }
            k = k + 1;
        }
        proof {
            assert(strs(updated@).take(strs(updated@).len() as int) =~= strs(updated@));
        }
        events
    }
}

/// A result for a tool use awaited from an earlier poll is reported as one
/// update of the stored turn, with the result in it and its delegations
/// derived again; the tool use no longer awaits.
pub proof fn law_late_result_updates_turn(
    emitted: Map<Seq<char>, TurnView>,
    pending: Map<Seq<char>, Seq<char>>,
    id: Seq<char>,
    r: ResultView,
)
    requires
        pending.dom().contains(id),
        emitted.dom().contains(pending[id]),
    ensures
        ({
            let s = entries_step(poll_start(emitted, pending), seq![EntryView::Results(seq![(id, r)])]);
            &&& poll_events(s) == seq![EventView::TurnUpdated(stored_after(emitted[pending[id]], id, r, true))]
            &&& !s.1.dom().contains(id)
        }),
{
    let s0 = poll_start(emitted, pending);
    let rs = seq![(id, r)];
    assert(rs.drop_last() =~= Seq::<(Seq<char>, ResultView)>::empty());
    assert(results_step(s0, rs.drop_last()) == s0);
    let es = seq![EntryView::Results(rs)];
    assert(es.drop_last() =~= Seq::<EntryView>::empty());
    assert(entries_step(s0, es.drop_last()) == s0);
    assert(es.last() == EntryView::Results(rs));
    let s = entries_step(s0, es);
    assert(s == entry_step(s0, 0, EntryView::Results(rs)));
    assert(s == results_step(s0, rs));
    assert(!(exists|k: int| 0 <= k < s0.2.len() && awaits(#[trigger] s0.2[k], id)));
    let tid = pending[id];
    assert(s.3 =~= seq![tid]);
    assert(poll_events(s) =~= seq![EventView::TurnUpdated(stored_after(emitted[tid], id, r, true))]);
}

/// Two results for tool uses of the same stored turn, arriving together in
/// a later poll, are reported as a single update of that turn.
pub proof fn law_late_results_one_update_per_turn(
    emitted: Map<Seq<char>, TurnView>,
    pending: Map<Seq<char>, Seq<char>>,
    id1: Seq<char>,
    r1: ResultView,
    id2: Seq<char>,
    r2: ResultView,
)
    requires
        pending.dom().contains(id1),
        pending.dom().contains(id2),
        id1 != id2,
        pending[id1] == pending[id2],
        emitted.dom().contains(pending[id1]),
    ensures
        ({
            let s = entries_step(
                poll_start(emitted, pending),
                seq![EntryView::Results(seq![(id1, r1), (id2, r2)])],
            );
            let tid = pending[id1];
            poll_events(s) == seq![
                EventView::TurnUpdated(stored_after(stored_after(emitted[tid], id1, r1, true), id2, r2, true)),
            ]
        }),
{
    let s0 = poll_start(emitted, pending);
    let tid = pending[id1];
    let rs = seq![(id1, r1), (id2, r2)];
    let rs1 = seq![(id1, r1)];
    assert(rs.drop_last() =~= rs1);
    assert(rs1.drop_last() =~= Seq::<(Seq<char>, ResultView)>::empty());
    assert(results_step(s0, rs1.drop_last()) == s0);
    assert(!(exists|k: int| 0 <= k < s0.2.len() && awaits(#[trigger] s0.2[k], id1)));
    let s1 = results_step(s0, rs1);
    assert(s1.3 =~= seq![tid]);
    assert(s1.2 =~= Seq::<EventView>::empty());
    assert(s1.1 == pending.remove(id1));
    assert(s1.1.dom().contains(id2));
    assert(s1.1[id2] == tid);
    assert(!(exists|k: int| 0 <= k < s1.2.len() && awaits(#[trigger] s1.2[k], id2)));
    let s2 = results_step(s0, rs);
    assert(s2 == result_step(s1, id2, r2));
    assert(s1.3[0] == tid);
    assert(s1.3.contains(tid));
    assert(s2.3 == s1.3);
    let es = seq![EntryView::Results(rs)];
    assert(es.drop_last() =~= Seq::<EntryView>::empty());
    assert(entries_step(s0, es.drop_last()) == s0);
    assert(es.last() == EntryView::Results(rs));
    let s = entries_step(s0, es);
    assert(s == entry_step(s0, 0, EntryView::Results(rs)));
    assert(s == s2);
    assert(poll_events(s) =~= seq![
        EventView::TurnUpdated(stored_after(stored_after(emitted[tid], id1, r1, true), id2, r2, true)),
    ]);
}

/// A result arriving in the same poll as the turn that asked for it is
/// written into that turn's report, and no update is reported.
pub proof fn law_same_poll_result_in_turn(
    emitted: Map<Seq<char>, TurnView>,
    pending: Map<Seq<char>, Seq<char>>,
    t: TurnView,
    id: Seq<char>,
    r: ResultView,
)
    requires
        has_use(t.1, id, true),
    ensures
        ({
            let s = entries_step(
                poll_start(emitted, pending),
                seq![EntryView::Turn(t), EntryView::Results(seq![(id, r)])],
            );
            poll_events(s) == seq![EventView::Turn((t.0, set_use_result(t.1, id, true, r), t.2))]
        }),
{
    let s0 = poll_start(emitted, pending);
    let es = seq![EntryView::Turn(t), EntryView::Results(seq![(id, r)])];
    let es1 = seq![EntryView::Turn(t)];
    assert(es.drop_last() =~= es1);
    assert(es1.drop_last() =~= Seq::<EntryView>::empty());
    assert(entries_step(s0, es1.drop_last()) == s0);
    assert(es1.last() == EntryView::Turn(t));
    let s1 = entries_step(s0, es1);
    assert(s1 == entry_step(s0, 0, EntryView::Turn(t)));
    assert(s1.2 =~= seq![EventView::Turn(t)]);
    let rs = seq![(id, r)];
    assert(rs.drop_last() =~= Seq::<(Seq<char>, ResultView)>::empty());
    assert(results_step(s1, rs.drop_last()) == s1);
    assert(awaits(s1.2[0], id));
    assert(entries_step(s0, es.drop_last()) == s1);
    assert(es.last() == EntryView::Results(rs));
    let s = entries_step(s0, es);
    assert(s == entry_step(s1, 1, EntryView::Results(rs)));
    assert(s == results_step(s1, rs));
    let k = choose|k: int|
        0 <= k < s1.2.len() && awaits(s1.2[k], id) && forall|j: int| k < j < s1.2.len() ==> !awaits(#[trigger] s1.2[j], id);
    assert(k == 0);
    assert(s.3 =~= Seq::<Seq<char>>::empty());
    assert(poll_events(s) =~= seq![EventView::Turn((t.0, set_use_result(t.1, id, true, r), t.2))]);
}

} // verus!
