use crab_city::json::JsonValue;
use crab_city::transcript::{apply_poll, FormattedEvent, StoreBroadcast};

fn turn(uuid: &str, text: &str) -> JsonValue {
    JsonValue::Object(vec![
        ("uuid".to_string(), JsonValue::String(uuid.to_string())),
        ("content".to_string(), JsonValue::String(text.to_string())),
    ])
}

fn progress(kind: &str) -> FormattedEvent {
    FormattedEvent::Progress {
        kind: kind.to_string(),
        item: JsonValue::Object(vec![("type".to_string(), JsonValue::String(kind.to_string()))]),
    }
}

#[test]
fn new_turns_are_appended_and_sent() {
    let mut store = vec![turn("u1", "hello")];
    let b = apply_poll(&mut store, vec![FormattedEvent::Turn(turn("u2", "hi")), FormattedEvent::Turn(turn("u3", "more"))]);
    assert_eq!(b, StoreBroadcast::Update(2));
    assert_eq!(store, vec![turn("u1", "hello"), turn("u2", "hi"), turn("u3", "more")]);
}

#[test]
fn updated_turn_replaces_stored_one() {
    let mut store = vec![turn("u1", "hello"), turn("u2", "running tool")];
    let b = apply_poll(&mut store, vec![FormattedEvent::TurnUpdated { id: "u2".to_string(), turn: turn("u2", "tool done") }]);
    assert_eq!(b, StoreBroadcast::Full);
    assert_eq!(store, vec![turn("u1", "hello"), turn("u2", "tool done")]);
}

#[test]
fn updated_turn_not_stored_is_appended() {
    let mut store = vec![turn("u1", "hello")];
    let b = apply_poll(&mut store, vec![FormattedEvent::TurnUpdated { id: "u7".to_string(), turn: turn("u7", "late") }]);
    assert_eq!(b, StoreBroadcast::Full);
    assert_eq!(store, vec![turn("u1", "hello"), turn("u7", "late")]);
}

#[test]
fn system_progress_is_not_shown() {
    let mut store = Vec::new();
    let b = apply_poll(&mut store, vec![progress("system")]);
    assert_eq!(b, StoreBroadcast::Nothing);
    assert!(store.is_empty());
    let b = apply_poll(&mut store, vec![progress("system"), progress("agent_progress")]);
    assert_eq!(b, StoreBroadcast::Update(1));
    assert_eq!(store.len(), 1);
}

#[test]
fn empty_poll_sends_nothing() {
    let mut store = vec![turn("u1", "hello")];
    assert_eq!(apply_poll(&mut store, vec![]), StoreBroadcast::Nothing);
    assert_eq!(store, vec![turn("u1", "hello")]);
}

#[test]
fn updates_apply_before_new_turns_of_the_same_poll() {
    let mut store = vec![turn("u1", "hello")];
    let b = apply_poll(
        &mut store,
        vec![FormattedEvent::Turn(turn("u2", "new")), FormattedEvent::TurnUpdated { id: "u2".to_string(), turn: turn("u2", "merged") }],
    );
    assert_eq!(b, StoreBroadcast::Full);
    assert_eq!(store, vec![turn("u1", "hello"), turn("u2", "merged"), turn("u2", "new")]);
}
