use crab_city::deferral::{poll_driver_signals, poll_state_signals};
use crab_city::signal::{DriverSignal, Role, StateSignal, TurnSummary, WatcherEvent};

fn turn(role: Role, tools: &[&str]) -> WatcherEvent {
    WatcherEvent::Turn(TurnSummary {
        role,
        subtype: None,
        stop_reason: None,
        tool_names: tools.iter().map(|t| t.to_string()).collect(),
    })
}

fn progress(kind: &str, subtype: Option<&str>) -> WatcherEvent {
    WatcherEvent::Progress { kind: kind.to_string(), subtype: subtype.map(|s| s.to_string()) }
}

fn entry_type(s: &StateSignal) -> String {
    match s {
        StateSignal::ConversationEntry { entry_type, .. } => entry_type.clone(),
        StateSignal::TerminalOutput { .. } => panic!("not an entry"),
    }
}

fn types(v: &[StateSignal]) -> Vec<String> {
    v.iter().map(entry_type).collect()
}

#[test]
fn trailing_text_is_held_then_released_by_empty_poll() {
    let events = vec![turn(Role::User, &[]), turn(Role::Assistant, &[])];
    let p = poll_state_signals(None, &events);
    assert!(p.released.is_none());
    assert_eq!(types(&p.now), vec!["user".to_string()]);
    let held = p.hold.expect("text-only entry held");
    assert_eq!(entry_type(&held), "assistant");

    let next = poll_state_signals(Some(held.clone()), &vec![]);
    assert_eq!(next.released, Some(held));
    assert!(next.now.is_empty());
    assert!(next.hold.is_none());
}

#[test]
fn text_followed_by_turn_in_same_poll_is_dropped() {
    let events = vec![turn(Role::Assistant, &[]), turn(Role::Assistant, &["Read"])];
    let p = poll_state_signals(None, &events);
    assert_eq!(types(&p.now), vec!["assistant".to_string()]);
    match &p.now[0] {
        StateSignal::ConversationEntry { tool_names, .. } => assert_eq!(tool_names, &vec!["Read".to_string()]),
        _ => panic!("not an entry"),
    }
    assert!(p.hold.is_none());
}

#[test]
fn held_text_dropped_when_next_poll_brings_a_turn() {
    let first = poll_state_signals(None, &vec![turn(Role::Assistant, &[])]);
    let held = first.hold.expect("held");
    let p = poll_state_signals(Some(held), &vec![turn(Role::Assistant, &["Bash"])]);
    assert!(p.released.is_none());
    assert_eq!(types(&p.now), vec!["assistant".to_string()]);
    assert!(p.hold.is_none());
}

#[test]
fn held_text_released_when_next_poll_has_only_progress() {
    let first = poll_state_signals(None, &vec![turn(Role::Assistant, &[])]);
    let held = first.hold.expect("held");
    let p = poll_state_signals(Some(held.clone()), &vec![progress("system", Some("turn_duration"))]);
    assert_eq!(p.released, Some(held));
    assert_eq!(types(&p.now), vec!["system".to_string()]);
    assert!(p.hold.is_none());
}

#[test]
fn text_stays_held_past_trailing_progress() {
    let events = vec![turn(Role::Assistant, &[]), progress("system", Some("turn_duration"))];
    let p = poll_state_signals(None, &events);
    assert_eq!(types(&p.now), vec!["system".to_string()]);
    assert_eq!(entry_type(&p.hold.expect("held")), "assistant");
}

#[test]
fn merged_result_is_sent_at_once() {
    let events = vec![WatcherEvent::TurnUpdated(TurnSummary {
        role: Role::Assistant,
        subtype: None,
        stop_reason: None,
        tool_names: vec!["Read".to_string()],
    })];
    let p = poll_state_signals(None, &events);
    assert_eq!(types(&p.now), vec!["tool_result".to_string()]);
    assert!(p.hold.is_none());
}

#[test]
fn driver_signals_follow_the_same_rule() {
    let events = vec![turn(Role::User, &[]), turn(Role::Assistant, &[])];
    let p = poll_driver_signals(Some(DriverSignal::SessionDiscovered("s".to_string())), &events);
    assert!(p.released.is_none());
    assert_eq!(p.now.len(), 1);
    match &p.now[0] {
        DriverSignal::ConversationEntry { entry_type, .. } => assert_eq!(entry_type, "user"),
        _ => panic!("not an entry"),
    }
    match p.hold {
        Some(DriverSignal::ConversationEntry { entry_type, .. }) => assert_eq!(entry_type, "assistant"),
        _ => panic!("nothing held"),
    }
}
