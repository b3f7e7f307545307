use crab_city::signal::{is_text_only_assistant, is_text_only_driver_signal, should_auto_claim, DriverSignal, StateSignal};

/// Content matching as the attribution gate does it for these cases: the
/// user text starts with the recorded prefix.
fn starts_with(prefix: &str, text: &str) -> bool {
    text.starts_with(prefix)
}

#[test]
fn text_only_assistant_detected() {
    let signal = StateSignal::ConversationEntry {
        entry_type: "assistant".to_string(),
        subtype: None,
        stop_reason: Some("end_turn".to_string()),
        tool_names: vec![],
    };
    assert!(is_text_only_assistant(&signal));
}

#[test]
fn assistant_with_tools_not_text_only() {
    let signal = StateSignal::ConversationEntry {
        entry_type: "assistant".to_string(),
        subtype: None,
        stop_reason: Some("end_turn".to_string()),
        tool_names: vec!["Read".to_string()],
    };
    assert!(!is_text_only_assistant(&signal));
}

#[test]
fn user_signal_not_text_only_assistant() {
    let signal = StateSignal::ConversationEntry {
        entry_type: "user".to_string(),
        subtype: None,
        stop_reason: None,
        tool_names: vec![],
    };
    assert!(!is_text_only_assistant(&signal));
}

#[test]
fn system_signal_not_text_only_assistant() {
    let signal = StateSignal::ConversationEntry {
        entry_type: "system".to_string(),
        subtype: Some("turn_duration".to_string()),
        stop_reason: None,
        tool_names: vec![],
    };
    assert!(!is_text_only_assistant(&signal));
}

#[test]
fn terminal_output_not_text_only_assistant() {
    let signal = StateSignal::TerminalOutput { data: "hello".to_string() };
    assert!(!is_text_only_assistant(&signal));
}

#[test]
fn empty_prefixes_auto_claims() {
    assert!(should_auto_claim(&[], &["anything"], starts_with));
}

#[test]
fn matching_prefix_claims() {
    let prefixes = vec!["hello".to_string()];
    assert!(should_auto_claim(&prefixes, &["hello world"], starts_with));
}

#[test]
fn no_matching_prefix_defers() {
    let prefixes = vec!["hello".to_string()];
    assert!(!should_auto_claim(&prefixes, &["goodbye"], starts_with));
}

#[test]
fn no_user_turns_trusts_timestamp_gate() {
    let prefixes = vec!["hello".to_string()];
    assert!(should_auto_claim(&prefixes, &[], starts_with));
}

#[test]
fn single_char_prefix_matches() {
    let prefixes = vec!["h".to_string()];
    assert!(should_auto_claim(&prefixes, &["hello"], starts_with));
}

#[test]
fn multiple_prefixes_any_match() {
    let prefixes = vec!["x".to_string(), "hello".to_string()];
    assert!(should_auto_claim(&prefixes, &["hello world"], starts_with));
}

#[test]
fn assistant_with_subtype_not_text_only() {
    let signal = StateSignal::ConversationEntry {
        entry_type: "assistant".to_string(),
        subtype: Some("x".to_string()),
        stop_reason: None,
        tool_names: vec![],
    };
    assert!(!is_text_only_assistant(&signal));
}

#[test]
fn driver_signal_text_only() {
    let signal = DriverSignal::ConversationEntry {
        entry_type: "assistant".to_string(),
        subtype: None,
        stop_reason: None,
        tool_names: vec![],
    };
    assert!(is_text_only_driver_signal(&signal));
    assert!(!is_text_only_driver_signal(&DriverSignal::SessionDiscovered("s".to_string())));
}

#[test]
fn auto_claim_checks_every_text() {
    let prefixes = vec!["fix".to_string()];
    assert!(should_auto_claim(&prefixes, &["nothing", "fix the bug"], starts_with));
    assert!(!should_auto_claim(&prefixes, &["nothing", "else"], |_p: &str, _t: &str| false));
}

use crab_city::signal::{
    is_substantive_event, watcher_event_to_driver_signal, watcher_event_to_signal, Role, TurnSummary, WatcherEvent,
};

fn make_turn(role: Role) -> TurnSummary {
    TurnSummary { role, subtype: None, stop_reason: None, tool_names: vec![] }
}

fn entry(signal: StateSignal) -> (String, Option<String>, Option<String>, Vec<String>) {
    match signal {
        StateSignal::ConversationEntry { entry_type, subtype, stop_reason, tool_names } => {
            (entry_type, subtype, stop_reason, tool_names)
        }
        _ => panic!("Expected ConversationEntry"),
    }
}

#[test]
fn signal_from_user_turn() {
    let event = WatcherEvent::Turn(make_turn(Role::User));
    let (entry_type, subtype, stop_reason, _) = entry(watcher_event_to_signal(&event).unwrap());
    assert_eq!(entry_type, "user", "Role::User must map to 'user' for the state manager");
    assert!(subtype.is_none());
    assert!(stop_reason.is_none());
}

#[test]
fn signal_from_assistant_turn_with_end_turn() {
    let mut turn = make_turn(Role::Assistant);
    turn.stop_reason = Some("end_turn".to_string());
    let (entry_type, _, stop_reason, _) = entry(watcher_event_to_signal(&WatcherEvent::Turn(turn)).unwrap());
    assert_eq!(entry_type, "assistant");
    assert_eq!(stop_reason.as_deref(), Some("end_turn"));
}

#[test]
fn signal_from_system_turn_with_subtype() {
    let mut turn = make_turn(Role::System);
    turn.subtype = Some("turn_duration".to_string());
    let (entry_type, subtype, _, _) = entry(watcher_event_to_signal(&WatcherEvent::Turn(turn)).unwrap());
    assert_eq!(entry_type, "system");
    assert_eq!(subtype.as_deref(), Some("turn_duration"));
}

#[test]
fn signal_from_system_progress_turn_duration() {
    let event = WatcherEvent::Progress { kind: "system".to_string(), subtype: Some("turn_duration".to_string()) };
    let (entry_type, subtype, stop_reason, _) = entry(watcher_event_to_signal(&event).unwrap());
    assert_eq!(entry_type, "system");
    assert_eq!(subtype.as_deref(), Some("turn_duration"), "turn_duration subtype must be extracted from Progress data");
    assert!(stop_reason.is_none());
}

#[test]
fn signal_from_system_progress_init() {
    let event = WatcherEvent::Progress { kind: "system".to_string(), subtype: Some("init".to_string()) };
    let (entry_type, subtype, _, _) = entry(watcher_event_to_signal(&event).unwrap());
    assert_eq!(entry_type, "system");
    assert_eq!(subtype.as_deref(), Some("init"));
}

#[test]
fn signal_from_agent_progress_has_no_subtype() {
    let event = WatcherEvent::Progress { kind: "agent_progress".to_string(), subtype: None };
    let (entry_type, subtype, _, _) = entry(watcher_event_to_signal(&event).unwrap());
    assert_eq!(entry_type, "agent_progress");
    assert!(subtype.is_none(), "agent_progress has no top-level subtype");
}

#[test]
fn signal_from_assistant_null_stop_reason_no_tools_infers_end_turn() {
    let turn = make_turn(Role::Assistant);
    assert!(turn.stop_reason.is_none());
    assert!(turn.tool_names.is_empty());
    let (entry_type, _, stop_reason, _) = entry(watcher_event_to_signal(&WatcherEvent::Turn(turn)).unwrap());
    assert_eq!(entry_type, "assistant");
    assert_eq!(
        stop_reason.as_deref(),
        Some("end_turn"),
        "Assistant turn with no tool_uses and no stop_reason must infer end_turn"
    );
}

#[test]
fn signal_from_assistant_with_tools_passes_tool_names() {
    let mut turn = make_turn(Role::Assistant);
    turn.tool_names = vec!["Read".to_string()];
    let (entry_type, _, _, tool_names) = entry(watcher_event_to_signal(&WatcherEvent::Turn(turn)).unwrap());
    assert_eq!(entry_type, "assistant");
    assert_eq!(tool_names, vec!["Read".to_string()]);
}

#[test]
fn signal_from_assistant_with_ask_user_question_passes_tool_name() {
    let mut turn = make_turn(Role::Assistant);
    turn.tool_names = vec!["AskUserQuestion".to_string()];
    let (_, _, _, tool_names) = entry(watcher_event_to_signal(&WatcherEvent::Turn(turn)).unwrap());
    assert_eq!(tool_names, vec!["AskUserQuestion".to_string()]);
}

#[test]
fn signal_from_user_turn_does_not_infer_stop_reason() {
    let (_, _, stop_reason, _) = entry(watcher_event_to_signal(&WatcherEvent::Turn(make_turn(Role::User))).unwrap());
    assert!(stop_reason.is_none());
}

#[test]
fn explicit_stop_reason_takes_precedence_over_inference() {
    let mut turn = make_turn(Role::Assistant);
    turn.stop_reason = Some("max_tokens".to_string());
    let (_, _, stop_reason, _) = entry(watcher_event_to_signal(&WatcherEvent::Turn(turn)).unwrap());
    assert_eq!(stop_reason.as_deref(), Some("max_tokens"));
}

#[test]
fn turn_updated_interactive_produces_user_signal() {
    let mut turn = make_turn(Role::Assistant);
    turn.tool_names = vec!["AskUserQuestion".to_string()];
    let (entry_type, _, _, _) = entry(watcher_event_to_signal(&WatcherEvent::TurnUpdated(turn)).unwrap());
    assert_eq!(entry_type, "user", "TurnUpdated with interactive tool must produce 'user' signal");
}

#[test]
fn turn_updated_non_interactive_produces_tool_result_signal() {
    let mut turn = make_turn(Role::Assistant);
    turn.tool_names = vec!["Read".to_string()];
    let (entry_type, _, _, _) = entry(watcher_event_to_signal(&WatcherEvent::TurnUpdated(turn)).unwrap());
    assert_eq!(entry_type, "tool_result", "Non-interactive TurnUpdated must produce 'tool_result' signal");
}

#[test]
fn turn_is_substantive() {
    assert!(is_substantive_event(&WatcherEvent::Turn(make_turn(Role::User))));
}

#[test]
fn turn_updated_is_substantive() {
    assert!(is_substantive_event(&WatcherEvent::TurnUpdated(make_turn(Role::Assistant))));
}

#[test]
fn progress_is_not_substantive() {
    assert!(!is_substantive_event(&WatcherEvent::Progress { kind: "progress".to_string(), subtype: None }));
}

#[test]
fn system_progress_is_not_substantive() {
    let event = WatcherEvent::Progress { kind: "system".to_string(), subtype: Some("turn_duration".to_string()) };
    assert!(!is_substantive_event(&event));
}

#[test]
fn driver_signal_from_other_role_turn() {
    let turn = make_turn(Role::Other("summary".to_string()));
    match watcher_event_to_driver_signal(&WatcherEvent::Turn(turn)).unwrap() {
        DriverSignal::ConversationEntry { entry_type, stop_reason, tool_names, .. } => {
            assert_eq!(entry_type, "summary");
            assert!(stop_reason.is_none());
            assert!(tool_names.is_empty());
        }
        _ => panic!("Expected ConversationEntry"),
    }
}

#[test]
fn user_turn_tools_are_not_reported() {
    let mut turn = make_turn(Role::User);
    turn.tool_names = vec!["Read".to_string()];
    let (_, _, _, tool_names) = entry(watcher_event_to_signal(&WatcherEvent::Turn(turn)).unwrap());
    assert!(tool_names.is_empty());
}

#[test]
fn assistant_with_tool_uses_gets_no_inferred_stop_reason() {
    let mut turn = make_turn(Role::Assistant);
    turn.tool_names = vec!["Read".to_string()];
    let (_, _, stop_reason, tool_names) = entry(watcher_event_to_signal(&WatcherEvent::Turn(turn)).unwrap());
    assert!(stop_reason.is_none());
    assert_eq!(tool_names, vec!["Read".to_string()]);
}
