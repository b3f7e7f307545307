//! What the state tracker of an instance does when inference reports a new
//! agent state: whether the time the state was entered is recorded, and
//! which inbox items of the instance are written or cleared.

use vstd::prelude::*;

verus! {

/// The agent's state as inference reports it.
#[derive(Debug, Clone, PartialEq, Eq)]
pub enum ClaudeState {
    Idle,
    Thinking,
    Responding,
    ToolExecuting { tool: String },
    WaitingForInput { prompt: Option<String> },
}

/// The variant of a state, as a number: two states of one variant (with
/// any fields) are one kind of state.
pub open spec fn kind_index(s: ClaudeState) -> int {
    match s {
        ClaudeState::Idle => 0,
        ClaudeState::Thinking => 1,
        ClaudeState::Responding => 2,
        ClaudeState::ToolExecuting { .. } => 3,
        ClaudeState::WaitingForInput { .. } => 4,
    }
}

/// The agent is at work: thinking, responding or running a tool.
pub open spec fn is_active(s: ClaudeState) -> bool {
    s is Thinking || s is Responding || s is ToolExecuting
}

/// The kinds of inbox item an instance can have.
#[derive(Debug, Clone, Copy, PartialEq, Eq)]
pub enum InboxKind {
    /// The agent finished a turn.
    CompletedTurn,
    /// The agent waits for the user.
    NeedsInput,
}

impl InboxKind {
    /// The item type as stored: `completed_turn` or `needs_input`.
    pub fn as_str(&self) -> (res: &'static str)
        ensures
            res@ == match *self {
                InboxKind::CompletedTurn => "completed_turn"@,
                InboxKind::NeedsInput => "needs_input"@,
            },
    {
        match self {
            InboxKind::CompletedTurn => "completed_turn",
            InboxKind::NeedsInput => "needs_input",
        }
    }
}

/// A change to the inbox of an instance.
#[derive(Debug, Clone, PartialEq, Eq)]
pub enum InboxAction {
    /// Write the item of this kind (replacing one that is there), with the
    /// prompt the agent is waiting on, if it gave one.
    Upsert { kind: InboxKind, prompt: Option<String> },
    /// Remove the item of this kind, if there is one.
    Clear { kind: InboxKind },
}

/// `s` when `on` holds, else nothing.
pub open spec fn only_if(on: bool, s: Seq<InboxAction>) -> Seq<InboxAction> {
    if on {
        s
    } else {
        Seq::empty()
    }
}

/// The inbox changes for a move from `prev` to `next`, in order: a turn was
/// completed (active to idle); the agent began to wait for input; the user
/// answered (waiting ended); new work began (active after not active).
pub open spec fn inbox_actions(prev: ClaudeState, next: ClaudeState) -> Seq<InboxAction> {
    only_if(
        is_active(prev) && next is Idle,
        seq![InboxAction::Upsert { kind: InboxKind::CompletedTurn, prompt: None }],
    ) + only_if(
        next is WaitingForInput && !(prev is WaitingForInput),
        seq![InboxAction::Upsert { kind: InboxKind::NeedsInput, prompt: next->prompt }],
    ) + only_if(
        prev is WaitingForInput && !(next is WaitingForInput),
        seq![InboxAction::Clear { kind: InboxKind::NeedsInput }],
    ) + only_if(
        !is_active(prev) && is_active(next),
        seq![InboxAction::Clear { kind: InboxKind::CompletedTurn }],
    )
}

/// What the tracker does with a new state.
#[derive(Debug)]
pub struct StateForward {
    /// The time the state was entered is to be recorded as now.
    pub state_entered: bool,
    /// The inbox changes to make, in order.
    pub inbox: Vec<InboxAction>,
}

/// The kind number of a state.
fn kind_of(s: &ClaudeState) -> (k: u8)
    ensures
        k == kind_index(*s),
{
    match s {
        ClaudeState::Idle => 0,
        ClaudeState::Thinking => 1,
        ClaudeState::Responding => 2,
        ClaudeState::ToolExecuting { .. } => 3,
        ClaudeState::WaitingForInput { .. } => 4,
    }
}

/// The prompt of a waiting state; none for the other states.
fn waiting_prompt(s: &ClaudeState) -> (res: Option<String>)
    ensures
        s is WaitingForInput ==> res == s->prompt,
        !(s is WaitingForInput) ==> res is None,
{
    match s {
        ClaudeState::WaitingForInput { prompt } => match prompt {
            Some(p) => Some(p.clone()),
            None => None,
        },
        _ => None,
    }
}

/// Decides what to do with the state `next` reported after `prev` (none
/// for the first report): the entry time is recorded when the kind of state
/// changes, or on the first report; the inbox changes follow the move from
/// `prev` to `next`, and there are none on the first report.
pub fn forward_state(prev: &Option<ClaudeState>, next: &ClaudeState) -> (res: StateForward)
    ensures
        res.state_entered == match *prev {
            None => true,
            Some(p) => kind_index(p) != kind_index(*next),
        },
        res.inbox@ == match *prev {
            None => Seq::<InboxAction>::empty(),
            Some(p) => inbox_actions(p, *next),
        },
{
    let next_kind = kind_of(next);
    match prev {
        None => StateForward { state_entered: true, inbox: Vec::new() },
        Some(p) => {
            let prev_kind = kind_of(p);
            let prev_active = 1 <= prev_kind && prev_kind <= 3;
            let now_active = 1 <= next_kind && next_kind <= 3;
            let prev_waiting = prev_kind == 4;
            let now_waiting = next_kind == 4;
            let now_idle = next_kind == 0;
            let mut inbox: Vec<InboxAction> = Vec::new();
            if prev_active && now_idle {
                inbox.push(InboxAction::Upsert { kind: InboxKind::CompletedTurn, prompt: None });
            }
            let ghost first = inbox@;
            if now_waiting && !prev_waiting {
                let prompt = waiting_prompt(next);
                inbox.push(InboxAction::Upsert { kind: InboxKind::NeedsInput, prompt });
            }
            let ghost second = inbox@;
            if prev_waiting && !now_waiting {
                inbox.push(InboxAction::Clear { kind: InboxKind::NeedsInput });
            }
            let ghost third = inbox@;
            if !prev_active && now_active {
                inbox.push(InboxAction::Clear { kind: InboxKind::CompletedTurn });
            }
            proof {
                let acts = inbox_actions(*p, *next);
                assert(first =~= only_if(
                    is_active(*p) && *next is Idle,
                    seq![InboxAction::Upsert { kind: InboxKind::CompletedTurn, prompt: None }],
                ));
                assert(second =~= first + only_if(
                    *next is WaitingForInput && !(*p is WaitingForInput),
                    seq![InboxAction::Upsert { kind: InboxKind::NeedsInput, prompt: next->prompt }],
                ));
                assert(third =~= second + only_if(
                    *p is WaitingForInput && !(*next is WaitingForInput),
                    seq![InboxAction::Clear { kind: InboxKind::NeedsInput }],
                ));
                assert(inbox@ =~= third + only_if(
                    !is_active(*p) && is_active(*next),
                    seq![InboxAction::Clear { kind: InboxKind::CompletedTurn }],
                ));
                assert(inbox@ =~= acts);
            }
            StateForward { state_entered: prev_kind != next_kind, inbox }
        },
    }
}

/// The inbox item kinds present after `a`.
pub open spec fn apply_action(items: Set<InboxKind>, a: InboxAction) -> Set<InboxKind> {
    match a {
        InboxAction::Upsert { kind, .. } => items.insert(kind),
        InboxAction::Clear { kind } => items.remove(kind),
    }
}

/// The inbox item kinds present after the changes `actions`, made in order.
pub open spec fn apply_actions(items: Set<InboxKind>, actions: Seq<InboxAction>) -> Set<InboxKind>
    decreases actions.len(),
{
    if actions.len() == 0 {
        items
    } else {
        apply_actions(apply_action(items, actions[0]), actions.drop_first())
    }
}

proof fn lemma_apply_concat(items: Set<InboxKind>, a: Seq<InboxAction>, b: Seq<InboxAction>)
    ensures
        apply_actions(items, a + b) == apply_actions(apply_actions(items, a), b),
    decreases a.len(),
{
    if a.len() == 0 {
        assert(a + b =~= b);
    } else {
        assert((a + b).drop_first() =~= a.drop_first() + b);
        lemma_apply_concat(apply_action(items, a[0]), a.drop_first(), b);
    }
}

proof fn lemma_apply_only_if(items: Set<InboxKind>, on: bool, a: InboxAction)
    ensures
        apply_actions(items, only_if(on, seq![a])) == if on {
            apply_action(items, a)
        } else {
            items
        },
{
    if on {
        let rest = seq![a].drop_first();
        assert(rest =~= Seq::<InboxAction>::empty());
        assert(apply_actions(apply_action(items, a), rest) == apply_action(items, a));
    }
}

/// The inbox after the changes for a move from `prev` to `next`, one step
/// at a time.
proof fn lemma_apply_inbox_actions(items: Set<InboxKind>, prev: ClaudeState, next: ClaudeState)
    ensures
        apply_actions(items, inbox_actions(prev, next)) == {
            let s1 = if is_active(prev) && next is Idle {
                items.insert(InboxKind::CompletedTurn)
            } else {
                items
            };
            let s2 = if next is WaitingForInput && !(prev is WaitingForInput) {
                s1.insert(InboxKind::NeedsInput)
            } else {
                s1
            };
            let s3 = if prev is WaitingForInput && !(next is WaitingForInput) {
                s2.remove(InboxKind::NeedsInput)
            } else {
                s2
            };
            if !is_active(prev) && is_active(next) {
                s3.remove(InboxKind::CompletedTurn)
            } else {
                s3
            }
        },
{
    let w1 = only_if(
        is_active(prev) && next is Idle,
        seq![InboxAction::Upsert { kind: InboxKind::CompletedTurn, prompt: None }],
    );
    let w2 = only_if(
        next is WaitingForInput && !(prev is WaitingForInput),
        seq![InboxAction::Upsert { kind: InboxKind::NeedsInput, prompt: next->prompt }],
    );
    let w3 = only_if(
        prev is WaitingForInput && !(next is WaitingForInput),
        seq![InboxAction::Clear { kind: InboxKind::NeedsInput }],
    );
    let w4 = only_if(
        !is_active(prev) && is_active(next),
        seq![InboxAction::Clear { kind: InboxKind::CompletedTurn }],
    );
    lemma_apply_concat(items, w1 + w2 + w3, w4);
    lemma_apply_concat(items, w1 + w2, w3);
    lemma_apply_concat(items, w1, w2);
    lemma_apply_only_if(items, is_active(prev) && next is Idle, InboxAction::Upsert { kind: InboxKind::CompletedTurn, prompt: None });
    let s1 = apply_actions(items, w1);
    lemma_apply_only_if(
        s1,
        next is WaitingForInput && !(prev is WaitingForInput),
        InboxAction::Upsert { kind: InboxKind::NeedsInput, prompt: next->prompt },
    );
    let s2 = apply_actions(s1, w2);
    lemma_apply_only_if(
        s2,
        prev is WaitingForInput && !(next is WaitingForInput),
        InboxAction::Clear { kind: InboxKind::NeedsInput },
    );
    let s3 = apply_actions(s2, w3);
    lemma_apply_only_if(
        s3,
        !is_active(prev) && is_active(next),
        InboxAction::Clear { kind: InboxKind::CompletedTurn },
    );
}

/// The inbox holds a needs-input item exactly while the agent waits for
/// input: if that held before a reported move from `prev` to `next`, it
/// holds after the move's inbox changes.
pub proof fn law_needs_input_tracks_waiting(items: Set<InboxKind>, prev: ClaudeState, next: ClaudeState)
    requires
        items.contains(InboxKind::NeedsInput) == (prev is WaitingForInput),
    ensures
        apply_actions(items, inbox_actions(prev, next)).contains(InboxKind::NeedsInput) == (next is WaitingForInput),
{
    lemma_apply_inbox_actions(items, prev, next);
}

/// No completed-turn item stands while the agent is at work: if the inbox
/// held one only when `prev` was not active, then after the move's inbox
/// changes it holds one only when `next` is not active.
pub proof fn law_no_completed_turn_while_active(items: Set<InboxKind>, prev: ClaudeState, next: ClaudeState)
    requires
        items.contains(InboxKind::CompletedTurn) ==> !is_active(prev),
    ensures
        apply_actions(items, inbox_actions(prev, next)).contains(InboxKind::CompletedTurn) ==> !is_active(next),
{
    lemma_apply_inbox_actions(items, prev, next);
}

/// A turn that ends (an active state followed by idle) leaves a
/// completed-turn item in the inbox.
pub proof fn law_finished_turn_is_in_inbox(items: Set<InboxKind>, prev: ClaudeState, next: ClaudeState)
    requires
        is_active(prev),
        next is Idle,
    ensures
        apply_actions(items, inbox_actions(prev, next)).contains(InboxKind::CompletedTurn),
{
    lemma_apply_inbox_actions(items, prev, next);
}

} // verus!
