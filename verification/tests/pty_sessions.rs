use crab_city::pty::{
    kill_action, spawn_environment, KillAction, OutputBuffer, PtyConfig, PtyError, PtyId, PtySessions, PtyState,
    MAX_BUFFER_SIZE,
};

fn pairs(v: &[(String, String)]) -> Vec<(&str, &str)> {
    v.iter().map(|(a, b)| (a.as_str(), b.as_str())).collect()
}

#[test]
fn pty_error_messages() {
    assert_eq!(PtyError::NotFound(42).message(), "PTY not found: 42");
    assert_eq!(PtyError::CreateFailed("no pty".into()).message(), "Failed to create PTY: no pty");
    assert_eq!(PtyError::WriteFailed("eof".into()).message(), "Failed to write to PTY: eof");
    assert_eq!(PtyError::ReadFailed("eof".into()).message(), "Failed to read from PTY: eof");
    assert_eq!(PtyError::ResizeFailed("bad".into()).message(), "Failed to resize PTY: bad");
    assert_eq!(PtyError::KillFailed("perm".into()).message(), "Failed to kill PTY: perm");
    assert_eq!(PtyError::ProcessExited.message(), "PTY process has exited");
    assert_eq!(PtyError::ChannelError("closed".into()).message(), "Channel error: closed");
}

#[test]
fn pty_id_label() {
    assert_eq!(PtyId(7).label(), "pty-7");
    assert_eq!(PtyId(0).label(), "pty-0");
}

#[test]
fn pty_config_default() {
    let c = PtyConfig::default();
    assert_eq!(c.command, "/bin/bash");
    assert!(c.args.is_empty());
    assert!(c.working_dir.is_none());
    assert!(c.env.is_empty());
    assert_eq!((c.rows, c.cols), (24, 80));
}

#[test]
fn pty_state_started_copies_config() {
    let c = PtyConfig { command: "vim".into(), args: vec!["a.txt".into()], rows: 30, cols: 100, ..PtyConfig::default() };
    let s = PtyState::started(&c, Some(99));
    assert!(s.running);
    assert_eq!(s.pid, Some(99));
    assert_eq!(s.command, "vim");
    assert_eq!(s.args, vec!["a.txt".to_string()]);
    assert_eq!((s.rows, s.cols), (30, 100));
}

#[test]
fn spawn_environment_for_shell() {
    let custom = vec![("FOO".to_string(), "bar".to_string())];
    let env = spawn_environment(&custom, "/bin/bash", Some("/usr/bin".into()), Some("/home/a".into()), None);
    assert_eq!(
        pairs(&env),
        vec![
            ("TERM", "xterm-256color"),
            ("COLORTERM", "truecolor"),
            ("PATH", "/usr/bin"),
            ("HOME", "/home/a"),
            ("FOO", "bar"),
            ("PS1", "$ "),
        ]
    );
}

#[test]
fn spawn_environment_for_other_command() {
    let env = spawn_environment(&Vec::new(), "/usr/bin/vim", None, None, Some("alice".into()));
    assert_eq!(pairs(&env), vec![("TERM", "xterm-256color"), ("COLORTERM", "truecolor"), ("USER", "alice")]);
    let zsh = spawn_environment(&Vec::new(), "zsh", None, None, None);
    assert_eq!(zsh.last().unwrap().0, "PS1");
}

#[test]
fn kill_action_by_signal() {
    assert_eq!(kill_action(None), Ok(KillAction::Terminate));
    assert_eq!(kill_action(Some("SIGTERM")), Ok(KillAction::Terminate));
    assert_eq!(kill_action(Some("SIGKILL")), Ok(KillAction::ForceKill));
    assert_eq!(kill_action(Some("SIGINT")), Ok(KillAction::Interrupt));
    assert_eq!(kill_action(Some("SIGHUP")), Err(PtyError::KillFailed("Unsupported signal: SIGHUP".into())));
}

#[test]
fn output_buffer_keeps_order_and_recent_tail() {
    let mut b = OutputBuffer::new();
    b.push(b"hello ");
    b.push(b"world");
    assert_eq!(b.full_output(), b"hello world".to_vec());
    assert_eq!(b.total_size(), 11);
    assert_eq!(b.recent_output(3), b"rld".to_vec());
    assert_eq!(b.recent_output(7), b"o world".to_vec());
    assert_eq!(b.recent_output(100), b"hello world".to_vec());
    assert_eq!(b.recent_output(0), Vec::<u8>::new());
}

#[test]
fn output_buffer_drops_oldest_chunks_over_limit() {
    let mut b = OutputBuffer::new();
    let big = vec![b'a'; MAX_BUFFER_SIZE - 10];
    b.push(&big);
    b.push(b"0123456789");
    assert_eq!(b.total_size(), MAX_BUFFER_SIZE);
    b.push(b"x");
    // The big chunk no longer fits: it is dropped whole.
    assert_eq!(b.full_output(), b"0123456789x".to_vec());
    assert_eq!(b.total_size(), 11);
}

#[test]
fn output_buffer_drops_a_chunk_larger_than_the_limit() {
    let mut b = OutputBuffer::new();
    b.push(b"keep");
    let huge = vec![b'z'; MAX_BUFFER_SIZE + 1];
    b.push(&huge);
    assert_eq!(b.total_size(), 0);
    assert!(b.full_output().is_empty());
}

#[test]
fn sessions_ids_count_up_from_one() {
    let mut s = PtySessions::new();
    assert_eq!(s.allocate_id(), PtyId(1));
    assert_eq!(s.allocate_id(), PtyId(2));
    assert_eq!(s.allocate_id(), PtyId(3));
}

#[test]
fn sessions_lookup_and_remove() {
    let mut s = PtySessions::new();
    let id = s.allocate_id();
    s.insert(id);
    assert!(s.has_session(id));
    assert_eq!(s.lookup(id), Ok(()));
    assert_eq!(s.lookup(PtyId(9)), Err(PtyError::NotFound(9)));
    assert_eq!(s.list(), vec![id]);
    assert!(s.remove(id));
    assert!(!s.remove(id));
    assert!(!s.has_session(id));
    assert!(s.list().is_empty());
}

#[test]
fn sessions_record_output_per_session() {
    let mut s = PtySessions::new();
    let a = s.allocate_id();
    let b = s.allocate_id();
    s.insert(a);
    s.insert(b);
    s.record_output(a, b"abc");
    s.record_output(b, b"xyz");
    s.record_output(a, b"def");
    s.record_output(PtyId(77), b"lost");
    assert_eq!(s.full_output(a), Ok(b"abcdef".to_vec()));
    assert_eq!(s.full_output(b), Ok(b"xyz".to_vec()));
    assert_eq!(s.recent_output(a, 4), Ok(b"cdef".to_vec()));
    assert_eq!(s.recent_output(PtyId(77), 4), Err(PtyError::NotFound(77)));
    assert_eq!(s.full_output(PtyId(77)), Err(PtyError::NotFound(77)));
    // Inserting an id again starts its output over.
    s.insert(a);
    assert_eq!(s.full_output(a), Ok(Vec::new()));
}
