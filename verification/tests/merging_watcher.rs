use crab_city::merging::{Delegation, LogEntry, MergeEvent, MergingState, ToolResult, ToolUse, TurnRecord};

fn turn(id: &str, tool_ids: &[&str]) -> TurnRecord {
    TurnRecord {
        id: id.to_string(),
        tool_uses: tool_ids
            .iter()
            .map(|t| ToolUse { id: t.to_string(), name: "Read".to_string(), result: None })
            .collect(),
        delegations: vec![],
    }
}

fn results(rs: &[(&str, &str, bool)]) -> LogEntry {
    LogEntry::ToolResults(
        rs.iter()
            .map(|(id, content, is_error)| {
                (id.to_string(), ToolResult { content: content.to_string(), is_error: *is_error })
            })
            .collect(),
    )
}

#[test]
fn same_batch_tool_results_merged_into_turn() {
    let mut w = MergingState::new();
    let events = w.poll(&vec![
        LogEntry::Turn(turn("u1", &[])),
        LogEntry::Turn(turn("u2", &["t1"])),
        results(&[("t1", "fn main() {}", false)]),
    ]);
    assert_eq!(events.len(), 2);
    assert!(matches!(&events[0], MergeEvent::Turn(t) if t.id == "u1"));
    match &events[1] {
        MergeEvent::Turn(t) => {
            assert_eq!(t.tool_uses.len(), 1);
            let result = t.tool_uses[0].result.as_ref().expect("result should be merged");
            assert_eq!(result.content, "fn main() {}");
            assert!(!result.is_error);
        }
        other => panic!("Expected Turn, got {:?}", other),
    }
}

#[test]
fn cross_poll_tool_results_emit_turn_updated() {
    let mut w = MergingState::new();
    let events1 = w.poll(&vec![LogEntry::Turn(turn("u1", &[])), LogEntry::Turn(turn("u2", &["t1"]))]);
    assert_eq!(events1.len(), 2);
    match &events1[1] {
        MergeEvent::Turn(t) => assert!(t.tool_uses[0].result.is_none(), "result should be None initially"),
        _ => panic!("Expected Turn"),
    }
    let events2 = w.poll(&vec![results(&[("t1", "fn main() {}", false)])]);
    assert_eq!(events2.len(), 1, "Expected exactly one TurnUpdated event");
    match &events2[0] {
        MergeEvent::TurnUpdated(t) => {
            assert_eq!(t.id, "u2");
            assert_eq!(t.tool_uses.len(), 1);
            let result = t.tool_uses[0].result.as_ref().expect("result should be merged cross-poll");
            assert_eq!(result.content, "fn main() {}");
            assert!(!result.is_error);
        }
        other => panic!("Expected TurnUpdated, got {:?}", other),
    }
}

#[test]
fn cross_poll_multiple_results_single_turn_updated() {
    let mut w = MergingState::new();
    let events1 = w.poll(&vec![LogEntry::Turn(turn("u1", &[])), LogEntry::Turn(turn("u2", &["t1", "t2"]))]);
    assert_eq!(events1.len(), 2);
    let events2 = w.poll(&vec![results(&[("t1", "file a", false), ("t2", "file b", false)])]);
    assert_eq!(events2.len(), 1);
    match &events2[0] {
        MergeEvent::TurnUpdated(t) => {
            assert_eq!(t.id, "u2");
            assert_eq!(t.tool_uses[0].result.as_ref().unwrap().content, "file a");
            assert_eq!(t.tool_uses[1].result.as_ref().unwrap().content, "file b");
        }
        _ => panic!("Expected TurnUpdated"),
    }
}

#[test]
fn progress_entries_emitted_as_progress() {
    let mut w = MergingState::new();
    let events = w.poll(&vec![LogEntry::Turn(turn("u1", &[])), LogEntry::Metadata]);
    assert_eq!(events.len(), 2);
    assert!(matches!(&events[0], MergeEvent::Turn(_)));
    assert!(matches!(&events[1], MergeEvent::Progress { entry: 1 }));
}

#[test]
fn error_result_preserved_cross_poll() {
    let mut w = MergingState::new();
    let _ = w.poll(&vec![LogEntry::Turn(turn("u1", &[])), LogEntry::Turn(turn("u2", &["t1"]))]);
    let events2 = w.poll(&vec![results(&[("t1", "File not found", true)])]);
    assert_eq!(events2.len(), 1);
    match &events2[0] {
        MergeEvent::TurnUpdated(t) => {
            let result = t.tool_uses[0].result.as_ref().unwrap();
            assert!(result.is_error);
            assert_eq!(result.content, "File not found");
        }
        _ => panic!("Expected TurnUpdated"),
    }
}

#[test]
fn unknown_result_dropped_and_unconvertible_reported() {
    let mut w = MergingState::new();
    let events = w.poll(&vec![results(&[("nope", "x", false)]), LogEntry::Unconvertible]);
    assert_eq!(events.len(), 1);
    assert!(matches!(&events[0], MergeEvent::Progress { entry: 1 }));
}

#[test]
fn result_merged_once_only() {
    let mut w = MergingState::new();
    let _ = w.poll(&vec![LogEntry::Turn(turn("u2", &["t1"]))]);
    assert_eq!(w.poll(&vec![results(&[("t1", "first", false)])]).len(), 1);
    // The tool use no longer awaits: a second result for it is dropped.
    assert!(w.poll(&vec![results(&[("t1", "second", false)])]).is_empty());
}

#[test]
fn cross_poll_result_fills_delegation() {
    let mut w = MergingState::new();
    let mut t = turn("u2", &["agent-1"]);
    t.delegations = vec![Delegation { agent_id: "agent-1".to_string(), result: None }];
    let _ = w.poll(&vec![LogEntry::Turn(t)]);
    let events = w.poll(&vec![results(&[("agent-1", "done", false)])]);
    match &events[0] {
        MergeEvent::TurnUpdated(t) => assert_eq!(t.delegations[0].result.as_deref(), Some("done")),
        _ => panic!("Expected TurnUpdated"),
    }
}
