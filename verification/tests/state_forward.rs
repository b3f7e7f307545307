use crab_city::inbox::{forward_state, ClaudeState, InboxAction, InboxKind};

fn waiting(prompt: Option<&str>) -> ClaudeState {
    ClaudeState::WaitingForInput { prompt: prompt.map(|p| p.to_string()) }
}

fn tool(name: &str) -> ClaudeState {
    ClaudeState::ToolExecuting { tool: name.to_string() }
}

fn apply(items: &mut Vec<InboxKind>, actions: &[InboxAction]) {
    for a in actions {
        match a {
            InboxAction::Upsert { kind, .. } => {
                if !items.contains(kind) {
                    items.push(*kind);
                }
            }
            InboxAction::Clear { kind } => items.retain(|k| k != kind),
        }
    }
}

#[test]
fn first_report_records_entry_without_inbox_changes() {
    let f = forward_state(&None, &ClaudeState::Thinking);
    assert!(f.state_entered);
    assert!(f.inbox.is_empty());
    let f = forward_state(&None, &waiting(Some("Continue?")));
    assert!(f.state_entered);
    assert!(f.inbox.is_empty());
}

#[test]
fn finished_turn_upserts_completed_turn() {
    let f = forward_state(&Some(ClaudeState::Responding), &ClaudeState::Idle);
    assert!(f.state_entered);
    assert_eq!(f.inbox, vec![InboxAction::Upsert { kind: InboxKind::CompletedTurn, prompt: None }]);
}

#[test]
fn waiting_upserts_needs_input_with_prompt() {
    let f = forward_state(&Some(ClaudeState::Idle), &waiting(Some("Continue?")));
    assert_eq!(
        f.inbox,
        vec![InboxAction::Upsert { kind: InboxKind::NeedsInput, prompt: Some("Continue?".to_string()) }]
    );
    let f = forward_state(&Some(ClaudeState::Responding), &waiting(None));
    assert_eq!(f.inbox, vec![InboxAction::Upsert { kind: InboxKind::NeedsInput, prompt: None }]);
}

#[test]
fn answering_clears_needs_input_and_completed_turn() {
    let f = forward_state(&Some(waiting(Some("Continue?"))), &ClaudeState::Thinking);
    assert!(f.state_entered);
    assert_eq!(
        f.inbox,
        vec![
            InboxAction::Clear { kind: InboxKind::NeedsInput },
            InboxAction::Clear { kind: InboxKind::CompletedTurn },
        ]
    );
    let f = forward_state(&Some(waiting(None)), &ClaudeState::Idle);
    assert_eq!(f.inbox, vec![InboxAction::Clear { kind: InboxKind::NeedsInput }]);
}

#[test]
fn work_within_a_turn_changes_no_inbox() {
    let f = forward_state(&Some(ClaudeState::Thinking), &ClaudeState::Responding);
    assert!(f.state_entered);
    assert!(f.inbox.is_empty());
    let f = forward_state(&Some(tool("Read")), &tool("Write"));
    assert!(!f.state_entered);
    assert!(f.inbox.is_empty());
    let f = forward_state(&Some(waiting(Some("a"))), &waiting(Some("b")));
    assert!(!f.state_entered);
    assert!(f.inbox.is_empty());
    let f = forward_state(&Some(ClaudeState::Idle), &ClaudeState::Idle);
    assert!(!f.state_entered);
    assert!(f.inbox.is_empty());
}

#[test]
fn new_work_after_idle_clears_completed_turn() {
    let f = forward_state(&Some(ClaudeState::Idle), &tool("Bash"));
    assert_eq!(f.inbox, vec![InboxAction::Clear { kind: InboxKind::CompletedTurn }]);
}

#[test]
fn inbox_kind_names() {
    assert_eq!(InboxKind::CompletedTurn.as_str(), "completed_turn");
    assert_eq!(InboxKind::NeedsInput.as_str(), "needs_input");
}

#[test]
fn inbox_follows_a_session() {
    let states = vec![
        ClaudeState::Idle,
        ClaudeState::Thinking,
        tool("Read"),
        ClaudeState::Responding,
        ClaudeState::Idle,
        waiting(Some("Allow?")),
        ClaudeState::Thinking,
        ClaudeState::Idle,
    ];
    let mut items: Vec<InboxKind> = Vec::new();
    let mut prev: Option<ClaudeState> = None;
    for s in states {
        let f = forward_state(&prev, &s);
        apply(&mut items, &f.inbox);
        let is_waiting = matches!(s, ClaudeState::WaitingForInput { .. });
        let is_active = matches!(s, ClaudeState::Thinking | ClaudeState::Responding | ClaudeState::ToolExecuting { .. });
        assert_eq!(items.contains(&InboxKind::NeedsInput), is_waiting);
        if is_active {
            assert!(!items.contains(&InboxKind::CompletedTurn));
        }
        prev = Some(s);
    }
    assert_eq!(items, vec![InboxKind::CompletedTurn]);
}
