//! Membership state machine: states, transitions, and suspension tracking.

use vstd::prelude::*;
use crate::keys::{fingerprint_of, PublicKey};
use crate::text::{push_str, str_eq};

verus! {

/// The state of a member's grant.
#[derive(Debug, Clone, Copy, PartialEq, Eq, Structural, Hash)]
pub enum MembershipState {
    Invited,
    Active,
    Suspended,
    Removed,
}

/// The lowercase name of a state.
pub open spec fn state_name(s: MembershipState) -> Seq<char> {
    match s {
        MembershipState::Invited => "invited"@,
        MembershipState::Active => "active"@,
        MembershipState::Suspended => "suspended"@,
        MembershipState::Removed => "removed"@,
    }
}

impl MembershipState {
    /// The lowercase name of the state (its display text).
    pub fn as_str(&self) -> (res: &str)
        ensures
            res@ == state_name(*self),
    {
        match self {
            MembershipState::Invited => "invited",
            MembershipState::Active => "active",
            MembershipState::Suspended => "suspended",
            MembershipState::Removed => "removed",
        }
    }

    /// Parses a lowercase state name.
    pub fn parse(s: &str) -> (res: Result<MembershipState, String>)
        ensures
            res matches Ok(st) ==> state_name(st) == s@,
            res is Err ==> forall|st: MembershipState| state_name(st) != s@,
    {
        if str_eq(s, "invited") {
            Ok(MembershipState::Invited)
        } else if str_eq(s, "active") {
            Ok(MembershipState::Active)
        } else if str_eq(s, "suspended") {
            Ok(MembershipState::Suspended)
        } else if str_eq(s, "removed") {
            Ok(MembershipState::Removed)
        } else {
            let mut m = String::new();
            push_str(&mut m, "unknown membership state: ");
            push_str(&mut m, s);
            proof {
                assert forall|st: MembershipState| state_name(st) != s@ by {
                    match st {
                        MembershipState::Invited => {},
                        MembershipState::Active => {},
                        MembershipState::Suspended => {},
                        MembershipState::Removed => {},
                    }
                }
            }
            Err(m)
        }
    }
}

/// Who suspended a member.
#[derive(Debug, Clone, PartialEq, Eq)]
pub enum SuspensionSource {
    Admin,
    Blocklist { scope: String },
}

/// A requested change of membership state.
#[derive(Debug, Clone)]
pub enum MembershipTransition {
    /// invited → active (first successful auth)
    Activate,
    /// active → suspended
    Suspend { reason: String, source: SuspensionSource },
    /// suspended → active
    Reinstate,
    /// active|suspended → removed
    Remove,
    /// invited → removed (invite expired before first auth)
    Expire,
    /// active → suspended (blocklist hit)
    BlocklistHit { scope: String },
    /// suspended → active (only if blocklist-sourced)
    BlocklistLift,
    /// any non-removed → removed (key loss recovery, creates new grant)
    Replace { new_pubkey: PublicKey },
}

/// Why a transition was refused.
#[derive(Debug, Clone)]
pub enum TransitionError {
    InvalidTransition { from: MembershipState, reason: String },
    TerminalState,
}

/// A state together with the source of a suspension.
#[derive(Debug, Clone)]
pub struct StateWithContext {
    pub state: MembershipState,
    pub suspension_source: Option<SuspensionSource>,
}

/// The state `state` with no suspension source.
pub open spec fn plain(state: MembershipState) -> StateWithContext {
    StateWithContext { state, suspension_source: None }
}

/// The result of a transition, or `None` when it is not allowed.
pub open spec fn spec_step(s: StateWithContext, t: MembershipTransition) -> Option<StateWithContext> {
    match (s.state, t) {
        (MembershipState::Removed, _) => None,
        (MembershipState::Invited, MembershipTransition::Activate) => Some(plain(MembershipState::Active)),
        (MembershipState::Invited, MembershipTransition::Expire) => Some(plain(MembershipState::Removed)),
        (MembershipState::Invited, MembershipTransition::Replace { .. }) => Some(plain(MembershipState::Removed)),
        (MembershipState::Active, MembershipTransition::Suspend { source, .. }) => Some(
            StateWithContext { state: MembershipState::Suspended, suspension_source: Some(source) },
        ),
        (MembershipState::Active, MembershipTransition::BlocklistHit { scope }) => Some(
            StateWithContext {
                state: MembershipState::Suspended,
                suspension_source: Some(SuspensionSource::Blocklist { scope }),
            },
        ),
        (MembershipState::Active, MembershipTransition::Remove) => Some(plain(MembershipState::Removed)),
        (MembershipState::Active, MembershipTransition::Replace { .. }) => Some(plain(MembershipState::Removed)),
        (MembershipState::Suspended, MembershipTransition::Reinstate) => Some(plain(MembershipState::Active)),
        (MembershipState::Suspended, MembershipTransition::BlocklistLift) => match s.suspension_source {
            Some(SuspensionSource::Blocklist { .. }) => Some(plain(MembershipState::Active)),
            _ => None,
        },
        (MembershipState::Suspended, MembershipTransition::Remove) => Some(plain(MembershipState::Removed)),
        (MembershipState::Suspended, MembershipTransition::Replace { .. }) => Some(plain(MembershipState::Removed)),
        _ => None,
    }
}

/// The debug text of a string slice: quoted, with escapes.
pub uninterp spec fn spec_debug_str(s: Seq<char>) -> Seq<char>;

/// `<str as Debug>::fmt` (as `format!("{:?}")` writes it): the text in
/// double quotes, with quotes, backslashes and unprintable characters
/// escaped. Trusted to be a function of the text alone; the escaping is
/// left to std.
#[verifier::external_body]
fn debug_str(s: &str) -> (res: String)
    ensures
        res@ == spec_debug_str(s@),
{
    format!("{s:?}")
}

/// The debug text of a suspension source, as the derived `Debug` writes it.
pub open spec fn source_text(s: SuspensionSource) -> Seq<char> {
    match s {
        SuspensionSource::Admin => "Admin"@,
        SuspensionSource::Blocklist { scope } => "Blocklist { scope: "@ + spec_debug_str(scope@) + " }"@,
    }
}

/// The debug text of a transition, as the derived `Debug` writes it (a key
/// shows as `PublicKey(` and its fingerprint `)`).
pub open spec fn transition_text(t: MembershipTransition) -> Seq<char> {
    match t {
        MembershipTransition::Activate => "Activate"@,
        MembershipTransition::Suspend { reason, source } => "Suspend { reason: "@ + spec_debug_str(reason@)
            + ", source: "@ + source_text(source) + " }"@,
        MembershipTransition::Reinstate => "Reinstate"@,
        MembershipTransition::Remove => "Remove"@,
        MembershipTransition::Expire => "Expire"@,
        MembershipTransition::BlocklistHit { scope } => "BlocklistHit { scope: "@ + spec_debug_str(scope@) + " }"@,
        MembershipTransition::BlocklistLift => "BlocklistLift"@,
        MembershipTransition::Replace { new_pubkey } => "Replace { new_pubkey: PublicKey("@ + fingerprint_of(
            new_pubkey@,
        ) + ") }"@,
    }
}

/// Appends the debug text of a suspension source.
fn push_source_text(out: &mut String, s: &SuspensionSource)
    ensures
        final(out)@ == old(out)@ + source_text(*s),
{
    match s {
        SuspensionSource::Admin => push_str(out, "Admin"),
        SuspensionSource::Blocklist { scope } => {
            push_str(out, "Blocklist { scope: ");
            push_str(out, debug_str(scope.as_str()).as_str());
            push_str(out, " }");
        },
    }
}

/// The debug text of a transition.
fn transition_debug_text(t: &MembershipTransition) -> (res: String)
    ensures
        res@ == transition_text(*t),
{
    let mut out = String::new();
    match t {
        MembershipTransition::Activate => push_str(&mut out, "Activate"),
        MembershipTransition::Suspend { reason, source } => {
            push_str(&mut out, "Suspend { reason: ");
            push_str(&mut out, debug_str(reason.as_str()).as_str());
            push_str(&mut out, ", source: ");
            push_source_text(&mut out, source);
            push_str(&mut out, " }");
        },
        MembershipTransition::Reinstate => push_str(&mut out, "Reinstate"),
        MembershipTransition::Remove => push_str(&mut out, "Remove"),
        MembershipTransition::Expire => push_str(&mut out, "Expire"),
        MembershipTransition::BlocklistHit { scope } => {
            push_str(&mut out, "BlocklistHit { scope: ");
            push_str(&mut out, debug_str(scope.as_str()).as_str());
            push_str(&mut out, " }");
        },
        MembershipTransition::BlocklistLift => push_str(&mut out, "BlocklistLift"),
        MembershipTransition::Replace { new_pubkey } => {
            push_str(&mut out, "Replace { new_pubkey: PublicKey(");
            push_str(&mut out, new_pubkey.fingerprint().as_str());
            push_str(&mut out, ") }");
        },
    }
    out
}

/// Why `t` is refused from `s` (when it is): a blocklist lift of a
/// suspension that a blocklist did not cause, or the transition's debug
/// text, ` not valid from `, and the state's name.
pub open spec fn refusal_text(s: StateWithContext, t: MembershipTransition) -> Seq<char> {
    if s.state == MembershipState::Suspended && t is BlocklistLift {
        "blocklist lift only applies to blocklist-sourced suspensions"@
    } else {
        transition_text(t) + " not valid from "@ + state_name(s.state)
    }
}

impl StateWithContext {
    pub fn new(state: MembershipState) -> (res: Self)
        ensures
            res == plain(state),
    {
        StateWithContext { state, suspension_source: None }
    }

    pub fn suspended(source: SuspensionSource) -> (res: Self)
        ensures
            res == (StateWithContext { state: MembershipState::Suspended, suspension_source: Some(source) }),
    {
        StateWithContext { state: MembershipState::Suspended, suspension_source: Some(source) }
    }

    /// Applies a transition: the next state, or why the transition is refused.
    pub fn apply(&self, transition: MembershipTransition) -> (res: Result<Self, TransitionError>)
        ensures
            match res {
                Ok(n) => spec_step(*self, transition) == Some(n),
                Err(e) => {
                    &&& spec_step(*self, transition) is None
                    &&& (self.state == MembershipState::Removed <==> e is TerminalState)
                    &&& e matches TransitionError::InvalidTransition { from, .. } ==> from == self.state
                    &&& e matches TransitionError::InvalidTransition { reason, .. } ==> reason@ == refusal_text(
                        *self,
                        transition,
                    )
                },
            },
    {
        if self.state == MembershipState::Removed {
            return Err(TransitionError::TerminalState);
        }
        let ghost t0 = transition;
        match (&self.state, transition) {
            (MembershipState::Invited, MembershipTransition::Activate) => Ok(Self::new(MembershipState::Active)),
            (MembershipState::Invited, MembershipTransition::Expire) => Ok(Self::new(MembershipState::Removed)),
            (MembershipState::Invited, MembershipTransition::Replace { .. }) => Ok(
                Self::new(MembershipState::Removed),
            ),
            (MembershipState::Active, MembershipTransition::Suspend { reason: _, source }) => Ok(
                Self::suspended(source),
            ),
            (MembershipState::Active, MembershipTransition::BlocklistHit { scope }) => {
                Ok(Self::suspended(SuspensionSource::Blocklist { scope }))
            },
            (MembershipState::Active, MembershipTransition::Remove) => Ok(Self::new(MembershipState::Removed)),
            (MembershipState::Active, MembershipTransition::Replace { .. }) => Ok(
                Self::new(MembershipState::Removed),
            ),
            (MembershipState::Suspended, MembershipTransition::Reinstate) => Ok(
                Self::new(MembershipState::Active),
            ),
            (MembershipState::Suspended, MembershipTransition::BlocklistLift) => match &self.suspension_source {
                Some(SuspensionSource::Blocklist { .. }) => Ok(Self::new(MembershipState::Active)),
                _ => {
                    let mut reason = String::new();
                    push_str(&mut reason, "blocklist lift only applies to blocklist-sourced suspensions");
                    Err(TransitionError::InvalidTransition { from: MembershipState::Suspended, reason })
                },
            },
            (MembershipState::Suspended, MembershipTransition::Remove) => Ok(Self::new(MembershipState::Removed)),
            (MembershipState::Suspended, MembershipTransition::Replace { .. }) => Ok(
                Self::new(MembershipState::Removed),
            ),
            (from, other) => {
                let mut reason = transition_debug_text(&other);
                push_str(&mut reason, " not valid from ");
                push_str(&mut reason, from.as_str());
                Err(TransitionError::InvalidTransition { from: *from, reason })
            },
        }
    }
}

// --- Laws ---

/// A state is well formed when it carries a suspension source exactly when
/// it is `Suspended`.
pub open spec fn well_formed(s: StateWithContext) -> bool {
    (s.state == MembershipState::Suspended) == (s.suspension_source is Some)
}

/// `Removed` is terminal: no transition leaves it.
pub proof fn law_removed_is_terminal(s: StateWithContext, t: MembershipTransition)
    requires
        s.state == MembershipState::Removed,
    ensures
        spec_step(s, t) is None,
{
}

/// Every successful transition yields a well-formed state; in particular a
/// suspended result always records who suspended it.
pub proof fn law_step_well_formed(s: StateWithContext, t: MembershipTransition)
    ensures
        spec_step(s, t) matches Some(n) ==> well_formed(n),
{
}

/// Suspensions and their lifting: suspending an active member records the
/// source given (a blocklist hit records the blocklist and its scope); a
/// suspended member is reinstated by `Reinstate` whatever the source, while
/// `BlocklistLift` reinstates exactly the members a blocklist suspended. In
/// particular, suspending and then lifting the blocklist reinstates the
/// member exactly when the suspension came from a blocklist.
pub proof fn law_suspension_records_source(
    s: StateWithContext,
    reason: String,
    source: SuspensionSource,
    scope: String,
    u: StateWithContext,
)
    ensures
        s.state == MembershipState::Active ==> spec_step(s, MembershipTransition::Suspend { reason, source })
            == Some(StateWithContext { state: MembershipState::Suspended, suspension_source: Some(source) }),
        s.state == MembershipState::Active ==> spec_step(s, MembershipTransition::BlocklistHit { scope }) == Some(
            StateWithContext {
                state: MembershipState::Suspended,
                suspension_source: Some(SuspensionSource::Blocklist { scope }),
            },
        ),
        u.state == MembershipState::Suspended ==> spec_step(u, MembershipTransition::Reinstate) == Some(
            plain(MembershipState::Active),
        ),
        u.state == MembershipState::Suspended ==> spec_step(u, MembershipTransition::BlocklistLift) == (
        if u.suspension_source matches Some(SuspensionSource::Blocklist { .. }) {
            Some(plain(MembershipState::Active))
        } else {
            None
        }),
        s.state == MembershipState::Active ==> (spec_step(s, MembershipTransition::Suspend { reason, source })
            matches Some(v) && spec_step(v, MembershipTransition::BlocklistLift) == (if source is Blocklist {
            Some(plain(MembershipState::Active))
        } else {
            None
        })),
{
}

/// Which moves each state allows: `Activate` and `Expire` only from
/// `Invited` (to `Active` and `Removed`); `Suspend` and `BlocklistHit` only
/// from `Active`; `Reinstate` and `BlocklistLift` only from `Suspended`;
/// `Remove` from `Active` or `Suspended`, and `Replace` from any state but
/// `Removed`, both to `Removed` with no suspension source.
pub proof fn law_allowed_moves(s: StateWithContext, t: MembershipTransition)
    ensures
        t is Activate ==> (spec_step(s, t) is Some <==> s.state == MembershipState::Invited),
        t is Activate && s.state == MembershipState::Invited ==> spec_step(s, t) == Some(
            plain(MembershipState::Active),
        ),
        t is Expire ==> (spec_step(s, t) is Some <==> s.state == MembershipState::Invited),
        t is Expire && s.state == MembershipState::Invited ==> spec_step(s, t) == Some(
            plain(MembershipState::Removed),
        ),
        (t is Suspend || t is BlocklistHit) ==> (spec_step(s, t) is Some <==> s.state == MembershipState::Active),
        t is Reinstate ==> (spec_step(s, t) is Some <==> s.state == MembershipState::Suspended),
        t is BlocklistLift && spec_step(s, t) is Some ==> s.state == MembershipState::Suspended,
        t is Remove ==> (spec_step(s, t) is Some <==> (s.state == MembershipState::Active || s.state
            == MembershipState::Suspended)),
        t is Replace ==> (spec_step(s, t) is Some <==> s.state != MembershipState::Removed),
        (t is Remove || t is Replace) && spec_step(s, t) is Some ==> spec_step(s, t) == Some(
            plain(MembershipState::Removed),
        ),
{
}

/// Runs the transitions in order; a refused transition leaves the state as it is.
pub open spec fn run(s: StateWithContext, ts: Seq<MembershipTransition>) -> StateWithContext
    decreases ts.len(),
{
    if ts.len() == 0 {
        s
    } else {
        let prev = run(s, ts.drop_last());
        match spec_step(prev, ts.last()) {
            Some(n) => n,
            None => prev,
        }
    }
}

/// Over any sequence of transitions: once `Removed` is reached it stays, and
/// a well-formed start stays well formed.
pub proof fn law_run_invariants(s: StateWithContext, ts: Seq<MembershipTransition>, k: int)
    requires
        0 <= k <= ts.len(),
    ensures
        run(s, ts.take(k)).state == MembershipState::Removed ==> run(s, ts).state == MembershipState::Removed,
        well_formed(s) ==> well_formed(run(s, ts)),
    decreases ts.len(),
{
    if ts.len() > 0 {
        let init = ts.drop_last();
        if k == ts.len() {
            assert(ts.take(k) =~= ts);
            law_run_invariants(s, init, 0);
        } else {
            assert(ts.take(k) =~= init.take(k));
            law_run_invariants(s, init, k);
        }
    } else {
        assert(ts.take(k) =~= ts);
    }
}

} // verus!
