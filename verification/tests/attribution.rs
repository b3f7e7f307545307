use crab_city::attribution::{FirstInputs, PendingAttributions, FIRST_INPUT_PREFIX_CAP, PENDING_ATTRIBUTION_CAP};

const T0: i64 = 1_700_000_000_000;

/// Trims, collapses whitespace and keeps the first 200 characters.
fn normalize(s: &str) -> String {
    let collapsed: Vec<&str> = s.split_whitespace().collect();
    collapsed.join(" ").chars().take(200).collect()
}

fn matches(prefix: &str, entry: &str) -> bool {
    normalize(entry).starts_with(prefix)
}

#[test]
fn test_mark_first_input_returns_true_then_false() {
    let mut f = FirstInputs::new();
    assert!(f.mark_first_input("inst-1", "hello\r", T0, &normalize));
    assert!(!f.mark_first_input("inst-1", "world\r", T0 + 1, &normalize));
    assert!(f.mark_first_input("inst-2", "hi\r", T0 + 2, &normalize));
}

#[test]
fn test_mark_first_input_full_messages() {
    let mut f = FirstInputs::new();
    f.mark_first_input("inst-1", "first message\r", T0, &normalize);
    f.mark_first_input("inst-1", "second message\r", T0, &normalize);
    f.mark_first_input("inst-1", "third message\r", T0, &normalize);
    let prefixes = f.get_discovery_content_prefixes("inst-1");
    assert_eq!(prefixes.len(), 3);
    assert!(prefixes[0].starts_with("first"));
    assert!(prefixes[1].starts_with("second"));
    assert!(prefixes[2].starts_with("third"));
}

#[test]
fn test_mark_first_input_keystroke_accumulation() {
    let mut f = FirstInputs::new();
    for k in ["H", "e", "l", "l", "o"] {
        f.mark_first_input("inst-1", k, T0, &normalize);
    }
    assert!(f.get_discovery_content_prefixes("inst-1").is_empty());
    f.mark_first_input("inst-1", "\r", T0, &normalize);
    assert_eq!(f.get_discovery_content_prefixes("inst-1"), vec!["Hello".to_string()]);
}

#[test]
fn test_mark_first_input_skips_control_chars() {
    let mut f = FirstInputs::new();
    for k in ["\x1b[A", "\x7f", "H", "i", "\r"] {
        f.mark_first_input("inst-1", k, T0, &normalize);
    }
    assert_eq!(f.get_discovery_content_prefixes("inst-1"), vec!["Hi".to_string()]);
}

#[test]
fn test_mark_first_input_caps_content_prefixes() {
    let mut f = FirstInputs::new();
    for i in 0..25 {
        f.mark_first_input("inst-1", &format!("message {}\r", i), T0, &normalize);
    }
    let prefixes = f.get_discovery_content_prefixes("inst-1");
    assert_eq!(prefixes.len(), FIRST_INPUT_PREFIX_CAP);
    assert_eq!(prefixes[19], "message 19");
}

#[test]
fn test_mark_first_input_skips_empty_content() {
    let mut f = FirstInputs::new();
    assert!(f.mark_first_input("inst-1", "   \r", T0, &normalize));
    assert!(f.get_discovery_content_prefixes("inst-1").is_empty());
    assert_eq!(f.get_first_input_at("inst-1"), Some(T0));
}

#[test]
fn mark_first_input_splits_multi_line_message() {
    let mut f = FirstInputs::new();
    f.mark_first_input("inst-1", "ab", T0, &normalize);
    f.mark_first_input("inst-1", "c\r\nsecond  line\nthird", T0, &normalize);
    assert_eq!(
        f.get_discovery_content_prefixes("inst-1"),
        vec!["abc".to_string(), "second line".to_string(), "third".to_string()]
    );
}

#[test]
fn test_get_discovery_content_prefixes_no_entry() {
    let f = FirstInputs::new();
    assert!(f.get_discovery_content_prefixes("nonexistent").is_empty());
}

#[test]
fn test_get_first_input_at_lifecycle() {
    let mut f = FirstInputs::new();
    assert!(f.get_first_input_at("inst-1").is_none());
    f.mark_first_input("inst-1", "h", T0, &normalize);
    assert_eq!(f.get_first_input_at("inst-1"), Some(T0));
    f.mark_first_input("inst-1", "i", T0 + 500, &normalize);
    assert_eq!(f.get_first_input_at("inst-1"), Some(T0));
}

#[test]
fn test_first_input_at_cleanup_on_unregister() {
    let mut f = FirstInputs::new();
    f.mark_first_input("inst-1", "hello\r", T0, &normalize);
    assert!(f.get_first_input_at("inst-1").is_some());
    f.remove("inst-1");
    assert!(f.get_first_input_at("inst-1").is_none());
}

#[test]
fn test_push_and_consume_attribution() {
    let mut p = PendingAttributions::new();
    p.push_pending_attribution("inst-1", "u-1".into(), "Alice".into(), "fix the bug", None, T0, &normalize);
    let attr = p.consume_pending_attribution("inst-1", "fix the bug", T0 + 1, &normalize, &matches).unwrap();
    assert_eq!(attr.user_id, "u-1");
    assert_eq!(attr.display_name, "Alice");
    assert_eq!(attr.content_prefix, "fix the bug");
    assert_eq!(attr.timestamp_ms, T0);
}

#[test]
fn test_consume_attribution_no_match() {
    let mut p = PendingAttributions::new();
    p.push_pending_attribution("inst-1", "u-1".into(), "Alice".into(), "fix the bug", None, T0, &normalize);
    assert!(p.consume_pending_attribution("inst-1", "add new feature", T0 + 1, &normalize, &matches).is_none());
    // Still queued: it is younger than a minute.
    assert!(p.consume_pending_attribution("inst-1", "fix the bug", T0 + 2, &normalize, &matches).is_some());
}

#[test]
fn unmatched_consume_prunes_stale_attributions() {
    let mut p = PendingAttributions::new();
    p.push_pending_attribution("inst-1", "u-1".into(), "Alice".into(), "old input", None, T0, &normalize);
    p.push_pending_attribution("inst-1", "u-1".into(), "Alice".into(), "new input", None, T0 + 50_000, &normalize);
    assert!(p.consume_pending_attribution("inst-1", "unrelated", T0 + 60_000, &normalize, &matches).is_none());
    assert!(p.consume_pending_attribution("inst-1", "old input", T0 + 60_001, &normalize, &matches).is_none());
    assert!(p.consume_pending_attribution("inst-1", "new input", T0 + 60_002, &normalize, &matches).is_some());
}

#[test]
fn test_consume_attribution_fifo() {
    let mut p = PendingAttributions::new();
    p.push_pending_attribution("inst-1", "u-1".into(), "Alice".into(), "message one", None, T0, &normalize);
    p.push_pending_attribution("inst-1", "u-2".into(), "Bob".into(), "message two", None, T0, &normalize);
    let a = p.consume_pending_attribution("inst-1", "message one", T0, &normalize, &matches).unwrap();
    assert_eq!(a.user_id, "u-1");
    let b = p.consume_pending_attribution("inst-1", "message two", T0, &normalize, &matches).unwrap();
    assert_eq!(b.user_id, "u-2");
}

#[test]
fn test_push_attribution_empty_content_skipped() {
    let mut p = PendingAttributions::new();
    p.push_pending_attribution("inst-1", "u-1".into(), "Alice".into(), "   ", None, T0, &normalize);
    assert!(p.consume_pending_attribution("inst-1", "anything", T0, &normalize, &|_: &str, _: &str| true).is_none());
}

#[test]
fn test_attribution_with_task_id() {
    let mut p = PendingAttributions::new();
    p.push_pending_attribution("inst-1", "u-1".into(), "Alice".into(), "task content", Some(42), T0, &normalize);
    let a = p.consume_pending_attribution("inst-1", "task content", T0, &normalize, &matches).unwrap();
    assert_eq!(a.task_id, Some(42));
}

#[test]
fn test_attribution_queue_cap() {
    let mut p = PendingAttributions::new();
    for i in 0..60 {
        p.push_pending_attribution("inst-1", "u-1".into(), "Alice".into(), &format!("message {}", i), None, T0, &normalize);
    }
    let exact = |prefix: &str, entry: &str| prefix == normalize(entry);
    assert!(p.consume_pending_attribution("inst-1", "message 0", T0, &normalize, &exact).is_none());
    assert!(p.consume_pending_attribution("inst-1", "message 9", T0, &normalize, &exact).is_none());
    assert!(p.consume_pending_attribution("inst-1", "message 10", T0, &normalize, &exact).is_some());
    assert!(p.consume_pending_attribution("inst-1", "message 59", T0, &normalize, &exact).is_some());
    assert_eq!(PENDING_ATTRIBUTION_CAP, 50);
}

#[test]
fn empty_entry_text_consumes_nothing() {
    let mut p = PendingAttributions::new();
    p.push_pending_attribution("inst-1", "u-1".into(), "Alice".into(), "hello", None, T0, &normalize);
    assert!(p.consume_pending_attribution("inst-1", "  ", T0, &normalize, &|_: &str, _: &str| true).is_none());
    assert!(p.consume_pending_attribution("inst-1", "hello", T0, &normalize, &matches).is_some());
}

#[test]
fn removed_instance_has_no_attributions() {
    let mut p = PendingAttributions::new();
    p.push_pending_attribution("inst-1", "u-1".into(), "Alice".into(), "hello", None, T0, &normalize);
    p.remove("inst-1");
    assert!(p.consume_pending_attribution("inst-1", "hello", T0, &normalize, &matches).is_none());
}
