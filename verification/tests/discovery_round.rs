use crab_city::coordination::SessionClaims;
use crab_city::discovery::{content_gate, discovery_step, rotate_sessions, unclaimed_candidates, DiscoveryStep};
use crab_city::signal::ConversationMeta;

fn meta(id: &str) -> ConversationMeta {
    ConversationMeta { id: id.to_string(), started_at_ms: Some(1_000), last_activity_ms: None, message_count: 3, file_path: None }
}

fn starts_with(prefix: &str, text: &str) -> bool {
    text.starts_with(prefix)
}

#[test]
fn own_session_is_used() {
    let step = discovery_step(Some("sess-1".to_string()), false, &vec![meta("a")], &vec![]);
    assert_eq!(step, DiscoveryStep::Claimed("sess-1".to_string()));
}

#[test]
fn no_input_means_waiting() {
    let step = discovery_step(None, false, &vec![meta("a")], &vec![]);
    assert_eq!(step, DiscoveryStep::AwaitInput);
}

#[test]
fn claimed_candidates_are_skipped() {
    let step = discovery_step(None, true, &vec![meta("a"), meta("b")], &vec!["a".to_string(), "b".to_string()]);
    assert_eq!(step, DiscoveryStep::NoCandidate);
    let step = discovery_step(None, true, &vec![], &vec![]);
    assert_eq!(step, DiscoveryStep::NoCandidate);
}

#[test]
fn single_free_candidate_is_examined() {
    let step = discovery_step(None, true, &vec![meta("a"), meta("b")], &vec!["a".to_string()]);
    assert_eq!(step, DiscoveryStep::Single(meta("b")));
}

#[test]
fn several_free_candidates_are_left_to_the_user() {
    let step = discovery_step(None, true, &vec![meta("a"), meta("b"), meta("c")], &vec!["b".to_string()]);
    assert_eq!(step, DiscoveryStep::Ambiguous(vec![meta("a"), meta("c")]));
}

#[test]
fn unclaimed_candidates_keep_order() {
    let free = unclaimed_candidates(&vec![meta("x"), meta("y"), meta("z")], &vec!["y".to_string(), "q".to_string()]);
    assert_eq!(free, vec![meta("x"), meta("z")]);
}

#[test]
fn content_gate_without_prefixes_claims_unread() {
    assert!(content_gate(&[], None, starts_with));
}

#[test]
fn content_gate_refuses_unreadable_session() {
    assert!(!content_gate(&["fix the bug".to_string()], None, starts_with));
}

#[test]
fn content_gate_trusts_session_without_user_turns() {
    assert!(content_gate(&["fix the bug".to_string()], Some(&[]), starts_with));
}

#[test]
fn content_gate_matches_user_text() {
    let prefixes = vec!["fix the".to_string()];
    assert!(content_gate(&prefixes, Some(&["fix the bug please"]), starts_with));
    assert!(!content_gate(&prefixes, Some(&["write docs"]), starts_with));
}

#[test]
fn rotation_claims_new_sessions_and_follows_the_last() {
    let mut claims = SessionClaims::new();
    assert!(claims.try_claim_session("s1", "inst-1"));
    assert!(claims.try_claim_session("taken", "inst-2"));
    let rotations = vec![("s1".to_string(), "s2".to_string()), ("s2".to_string(), "s3".to_string())];
    assert_eq!(rotate_sessions(&mut claims, "inst-1", &rotations), Some("s3".to_string()));
    assert!(!claims.try_claim_session("s2", "inst-9"));
    assert!(!claims.try_claim_session("s3", "inst-9"));
    assert!(claims.try_claim_session("s3", "inst-1"));
    // A session already held by another instance stays with it.
    assert_eq!(rotate_sessions(&mut claims, "inst-1", &vec![("s3".to_string(), "taken".to_string())]), Some("taken".to_string()));
    assert!(claims.try_claim_session("taken", "inst-2"));
    assert_eq!(rotate_sessions(&mut claims, "inst-1", &vec![]), None);
}
