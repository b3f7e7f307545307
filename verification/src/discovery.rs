//! One round of finding the conversation session of an instance: the
//! watcher waits for the instance's first input, lists the sessions that
//! started after the instance and are claimed by no other instance, claims
//! a single one when its content matches, and leaves a choice among several
//! to the user.

use vstd::prelude::*;
use crate::coordination::SessionClaims;
use crate::signal::{answered, should_auto_claim, ConversationMeta};
use crate::text::str_eq;

verus! {

/// What a round of session discovery does.
#[derive(Debug, Clone, PartialEq, Eq)]
pub enum DiscoveryStep {
    /// The instance already has this session: use it.
    Claimed(String),
    /// No input was sent to the instance yet, so it cannot have a session:
    /// wait.
    AwaitInput,
    /// No session is free to take: wait.
    NoCandidate,
    /// One free session: check its content, then claim it.
    Single(ConversationMeta),
    /// Several free sessions: the user chooses among them.
    Ambiguous(Vec<ConversationMeta>),
}

/// Whether the session `m` is claimed by some instance: its id is one of
/// `claimed`.
pub open spec fn is_claimed(claimed: Seq<String>, m: ConversationMeta) -> bool {
    exists|i: int| 0 <= i < claimed.len() && (#[trigger] claimed[i])@ == m.id@
}

/// The filter of sessions claimed by no instance.
pub open spec fn unclaimed(claimed: Seq<String>) -> spec_fn(ConversationMeta) -> bool {
    |m: ConversationMeta| !is_claimed(claimed, m)
}

/// A copy of a session's listing.
fn copy_meta(m: &ConversationMeta) -> (res: ConversationMeta)
    ensures
        res == *m,
{
    ConversationMeta {
        id: m.id.clone(),
        started_at_ms: m.started_at_ms,
        last_activity_ms: m.last_activity_ms,
        message_count: m.message_count,
        file_path: match &m.file_path {
            Some(f) => Some(f.clone()),
            None => None,
        },
    }
}

/// Whether the id `id` is one of `claimed`.
fn claimed_contains(claimed: &Vec<String>, id: &str) -> (res: bool)
    ensures
        res == exists|i: int| 0 <= i < claimed@.len() && (#[trigger] claimed@[i])@ == id@,
{
    let mut i: usize = 0;
    while i < claimed.len()
        invariant
            0 <= i <= claimed@.len(),
            forall|j: int| 0 <= j < i ==> (#[trigger] claimed@[j])@ != id@,
        decreases claimed.len() - i,
    {
        if str_eq(claimed[i].as_str(), id) {
            return true;
        }
        i = i + 1;
    }
    false
}

/// The candidates that no instance has claimed, in order.
pub fn unclaimed_candidates(candidates: &Vec<ConversationMeta>, claimed: &Vec<String>) -> (res: Vec<ConversationMeta>)
    ensures
        res@ == candidates@.filter(unclaimed(claimed@)),
{
    let mut out: Vec<ConversationMeta> = Vec::new();
    let mut i: usize = 0;
    while i < candidates.len()
        invariant
            0 <= i <= candidates@.len(),
            out@ == candidates@.take(i as int).filter(unclaimed(claimed@)),
        decreases candidates.len() - i,
    {
        proof {
            reveal(Seq::filter);
            assert(candidates@.take(i + 1).drop_last() =~= candidates@.take(i as int));
            assert(candidates@.take(i + 1).last() == candidates@[i as int]);
        }
        let m = &candidates[i];
        if !claimed_contains(claimed, m.id.as_str()) {
            out.push(copy_meta(m));
        }
        i = i + 1;
    }
    assert(candidates@.take(candidates@.len() as int) =~= candidates@);
    out
}

/// Decides a round of discovery for an instance: its own session if it has
/// one (`own_session`), whether input was sent to it, the candidate
/// sessions found for it and the sessions claimed by any instance.
pub fn discovery_step(
    own_session: Option<String>,
    has_first_input: bool,
    candidates: &Vec<ConversationMeta>,
    claimed: &Vec<String>,
) -> (res: DiscoveryStep)
    ensures
        own_session matches Some(s) ==> res == DiscoveryStep::Claimed(s),
        own_session is None && !has_first_input ==> res == DiscoveryStep::AwaitInput,
        own_session is None && has_first_input ==> {
            let free = candidates@.filter(unclaimed(claimed@));
            &&& free.len() == 0 ==> res == DiscoveryStep::NoCandidate
            &&& free.len() == 1 ==> res == DiscoveryStep::Single(free[0])
            &&& free.len() > 1 ==> (res matches DiscoveryStep::Ambiguous(v) && v@ == free)
        },
{
    match own_session {
        Some(s) => DiscoveryStep::Claimed(s),
        None => {
            if !has_first_input {
                return DiscoveryStep::AwaitInput;
            }
            let mut free = unclaimed_candidates(candidates, claimed);
            if free.len() == 0 {
                DiscoveryStep::NoCandidate
            } else if free.len() == 1 {
                match free.pop() {
                    Some(m) => {
                        assert(m == candidates@.filter(unclaimed(claimed@))[0]);
                        DiscoveryStep::Single(m)
                    },
                    None => DiscoveryStep::NoCandidate,
                }
            } else {
                DiscoveryStep::Ambiguous(free)
            }
        },
    }
}

/// Whether the single free session may be claimed on its content: yes when
/// no input prefix is stored for the instance (the session is not even
/// read); otherwise no when its conversation could not be read (`None`),
/// and else as `should_auto_claim` decides on its user texts.
pub fn content_gate<F: Fn(&str, &str) -> bool>(
    content_prefixes: &[String],
    user_texts: Option<&[&str]>,
    content_matches: F,
) -> (res: bool)
    requires
        forall|p: &str, t: &str| #[trigger] call_requires(content_matches, (p, t)),
    ensures
        content_prefixes@.len() == 0 ==> res,
        content_prefixes@.len() > 0 && user_texts is None ==> !res,
        content_prefixes@.len() > 0 ==> (user_texts matches Some(texts) ==> {
            &&& texts@.len() == 0 ==> res
            &&& texts@.len() > 0 && res ==> exists|i: int, j: int|
                0 <= i < texts@.len() && 0 <= j < content_prefixes@.len() && #[trigger] answered(
                    content_matches,
                    content_prefixes@[j]@,
                    texts@[i],
                    true,
                )
            &&& texts@.len() > 0 && !res ==> forall|i: int, j: int|
                0 <= i < texts@.len() && 0 <= j < content_prefixes@.len() ==> #[trigger] answered(
                    content_matches,
                    content_prefixes@[j]@,
                    texts@[i],
                    false,
                )
        }),
{
    if content_prefixes.len() == 0 {
        return true;
    }
    match user_texts {
        None => false,
        Some(texts) => {
            should_auto_claim(content_prefixes, texts, content_matches)
        },
    }
}

/// The new sessions of rotations `(from, to)`, in order.
pub open spec fn rotated_to(rotations: Seq<(String, String)>) -> Seq<Seq<char>> {
    rotations.map_values(|r: (String, String)| r.1@)
}

/// The claims after instance `i` claims each session of `to` in order, each
/// as `try_claim_session` claims it: an unclaimed session becomes the
/// instance's, a claimed one stays with its holder.
pub open spec fn claim_all(m: Map<Seq<char>, Seq<char>>, to: Seq<Seq<char>>, i: Seq<char>) -> Map<Seq<char>, Seq<char>>
    decreases to.len(),
{
    if to.len() == 0 {
        m
    } else {
        let before = claim_all(m, to.drop_last(), i);
        if before.dom().contains(to.last()) {
            before
        } else {
            before.insert(to.last(), i)
        }
    }
}

/// Handles the session rotations `(from, to)` a poll reported for an
/// instance: claims each new session for it, in order, and gives the
/// session the instance now follows (the new session of the last rotation;
/// none when there was no rotation). The clients are told of each rotation.
pub fn rotate_sessions(claims: &mut SessionClaims, instance_id: &str, rotations: &Vec<(String, String)>) -> (res:
    Option<String>)
    requires
        old(claims).wf(),
    ensures
        final(claims).wf(),
        final(claims).claims() == claim_all(old(claims).claims(), rotated_to(rotations@), instance_id@),
        rotations@.len() == 0 ==> res is None,
        rotations@.len() > 0 ==> (res matches Some(s) && s@ == rotations@.last().1@),
{
    let mut current: Option<String> = None;
    let mut i: usize = 0;
    while i < rotations.len()
        invariant
            0 <= i <= rotations@.len(),
            claims.wf(),
            claims.claims() == claim_all(old(claims).claims(), rotated_to(rotations@).take(i as int), instance_id@),
            i == 0 ==> current is None,
            i > 0 ==> (current matches Some(s) && s@ == rotations@[i - 1].1@),
        decreases rotations.len() - i,
    {
        let to = rotations[i].1.as_str();
        let ghost before = claims.claims();
        let _ = claims.try_claim_session(to, instance_id);
        proof {
            let ts = rotated_to(rotations@);
            assert(ts.take(i + 1).drop_last() =~= ts.take(i as int));
            assert(ts.take(i + 1).last() == to@);
        }
        current = Some(rotations[i].1.clone());
        i = i + 1;
    }
    assert(rotated_to(rotations@).take(rotations@.len() as int) =~= rotated_to(rotations@));
    current
}

} // verus!
