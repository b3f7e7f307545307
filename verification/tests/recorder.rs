use crab_city::recorder::{VtEvent, VtRecording, VtRecordingHeader};

fn recording(events: Vec<VtEvent>) -> VtRecording {
    VtRecording { header: VtRecordingHeader { rows: 24, cols: 80, scrollback: 10_000 }, events }
}

#[test]
fn replay_produces_correct_screen() {
    let parsed = recording(vec![VtEvent::Output { timestamp_us: 0, data: b"Line 1\r\nLine 2\r\nLine 3".to_vec() }]);
    let vt = parsed.replay(4096);
    assert_eq!(vt.cursor_position(), (2, 6));
    let screen = vt.screen();
    let text: String = (0..80)
        .map(|c| {
            screen.cell(0, c).map_or(" ".to_string(), |cell| {
                let s = cell.contents();
                if s.is_empty() {
                    " ".to_string()
                } else {
                    s.to_string()
                }
            })
        })
        .collect::<String>();
    assert!(text.starts_with("Line 1"));
}

#[test]
fn replay_applies_resize() {
    let parsed = recording(vec![
        VtEvent::Output { timestamp_us: 0, data: b"Before resize".to_vec() },
        VtEvent::Resize { timestamp_us: 1, rows: 40, cols: 120 },
        VtEvent::Output { timestamp_us: 2, data: b"\r\nAfter resize".to_vec() },
    ]);
    let vt = parsed.replay(4096);
    assert_eq!(vt.screen().size(), (40, 120));
}

#[test]
fn replay_skips_input_and_keeps_output_below_threshold() {
    let parsed = recording(vec![
        VtEvent::Output { timestamp_us: 0, data: b"abc".to_vec() },
        VtEvent::Input { timestamp_us: 1, data: b"\x03".to_vec() },
        VtEvent::Output { timestamp_us: 2, data: b"de".to_vec() },
    ]);
    let vt = parsed.replay(4096);
    assert_eq!(vt.deltas(), &b"abcde".to_vec());
    assert!(vt.keyframe().is_none());
    assert_eq!(vt.effective_dims(), (24, 80));
}

#[test]
fn replay_compacts_past_threshold() {
    let parsed = recording(vec![
        VtEvent::Output { timestamp_us: 0, data: b"0123456789".to_vec() },
        VtEvent::Output { timestamp_us: 1, data: b"x".to_vec() },
    ]);
    let vt = parsed.replay(10);
    assert!(vt.deltas().is_empty());
    assert!(vt.keyframe().is_some());
}
