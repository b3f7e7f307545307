use chrono::{TimeZone, Utc};
use crab_city::signal::{find_candidate_sessions, ConversationMeta};

fn meta(id: &str, started_at_ms: Option<i64>) -> ConversationMeta {
    ConversationMeta { id: id.to_string(), started_at_ms, last_activity_ms: None, message_count: 1, file_path: None }
}

fn at(h: u32, m: u32, s: u32) -> i64 {
    Utc.with_ymd_and_hms(2024, 6, 15, h, m, s).unwrap().timestamp_millis()
}

#[test]
fn filters_by_created_at() {
    let (t1, t2, t3) = (at(10, 0, 0), at(10, 0, 5), at(10, 0, 10));
    let listed: Result<Vec<ConversationMeta>, String> = Ok(vec![meta("old-session", Some(t1)), meta("new-session", Some(t3))]);
    let results = find_candidate_sessions(listed, t2);
    assert_eq!(results.len(), 1);
    assert_eq!(results[0].id, "new-session");
}

#[test]
fn exact_timestamp_match_included() {
    let t = at(10, 0, 0);
    let results = find_candidate_sessions(Ok::<_, String>(vec![meta("exact", Some(t))]), t);
    assert_eq!(results.len(), 1);
    assert_eq!(results[0].id, "exact");
}

#[test]
fn none_started_at_excluded() {
    let t = at(10, 0, 0);
    let results = find_candidate_sessions(Ok::<_, String>(vec![meta("no-timestamp", None)]), t);
    assert!(results.is_empty());
}

#[test]
fn provider_error_returns_empty() {
    let t = at(10, 0, 0);
    let results = find_candidate_sessions(Err::<Vec<ConversationMeta>, String>("boom".into()), t);
    assert!(results.is_empty());
}

#[test]
fn empty_metadata_returns_empty() {
    let t = at(10, 0, 0);
    let results = find_candidate_sessions(Ok::<_, String>(vec![]), t);
    assert!(results.is_empty());
}

#[test]
fn returns_convo_meta_id_field() {
    let t = at(10, 0, 0);
    let results = find_candidate_sessions(Ok::<_, String>(vec![meta("abc-123-def", Some(t))]), t);
    assert_eq!(results[0].id, "abc-123-def");
}

#[test]
fn test_timestamp_narrowing_logic() {
    let t1_created = Utc.with_ymd_and_hms(2024, 6, 15, 10, 0, 1).unwrap();
    let t4_first_input = Utc.with_ymd_and_hms(2024, 6, 15, 10, 0, 6).unwrap();
    let t3_other_session = Utc.with_ymd_and_hms(2024, 6, 15, 10, 0, 4).unwrap();
    let t5_own_session = Utc.with_ymd_and_hms(2024, 6, 15, 10, 0, 7).unwrap();

    // With the creation time, both sessions are candidates (too broad).
    assert!(t3_other_session >= t1_created);
    assert!(t5_own_session >= t1_created);

    // With the first input time, only the instance's own session is.
    assert!(t3_other_session < t4_first_input);
    assert!(t5_own_session >= t4_first_input);

    let listed = vec![
        meta("other", Some(t3_other_session.timestamp_millis())),
        meta("own", Some(t5_own_session.timestamp_millis())),
    ];
    assert_eq!(find_candidate_sessions(Ok::<_, String>(listed.clone()), t1_created.timestamp_millis()).len(), 2);
    let narrowed = find_candidate_sessions(Ok::<_, String>(listed), t4_first_input.timestamp_millis());
    assert_eq!(narrowed.len(), 1);
    assert_eq!(narrowed[0].id, "own");
}
