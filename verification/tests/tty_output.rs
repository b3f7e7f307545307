use crab_city::tty::{lines, OutputLog, OUTPUT_BUFFER_LIMIT};

#[test]
fn lines_match_str_lines() {
    for s in ["", "a", "a\n", "a\nb", "a\r\nb\r\n", "\n", "\n\n", "x\ry\n", "end\r", "one\n\ntwo"] {
        let expected: Vec<String> = s.lines().map(|l| l.to_string()).collect();
        assert_eq!(lines(s), expected, "input {:?}", s);
    }
}

#[test]
fn output_log_records_text_and_lines() {
    let mut log = OutputLog::new();
    log.record("hello\nwor");
    log.record("ld\r\n");
    assert_eq!(log.full_output(), "hello\nworld\r\n");
    assert_eq!(log.line_count(), 3);
    assert_eq!(log.recent(2), vec!["wor".to_string(), "ld".to_string()]);
    assert_eq!(log.recent(10), vec!["hello".to_string(), "wor".to_string(), "ld".to_string()]);
    assert!(log.recent(0).is_empty());
}

#[test]
fn output_log_keeps_last_lines_only() {
    let mut log = OutputLog::new();
    let mut chunk = String::new();
    for i in 0..(OUTPUT_BUFFER_LIMIT + 5) {
        chunk.push_str(&format!("line {}\n", i));
    }
    log.record(&chunk);
    assert_eq!(log.line_count(), OUTPUT_BUFFER_LIMIT);
    assert_eq!(log.recent(1), vec![format!("line {}", OUTPUT_BUFFER_LIMIT + 4)]);
    assert_eq!(log.recent(OUTPUT_BUFFER_LIMIT)[0], "line 5");
}
