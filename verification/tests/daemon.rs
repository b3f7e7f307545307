use crab_city::desktop::{daemon_from_files, parse_pid, parse_port, CrabCityConfig, DaemonInfo};

fn make_daemon_info(host: &str, port: u16) -> DaemonInfo {
    DaemonInfo { pid: 12345, port, host: host.to_string() }
}

#[test]
fn base_url_formats_correctly() {
    let info = make_daemon_info("127.0.0.1", 9000);
    assert_eq!(info.base_url(), "http://127.0.0.1:9000");
}

#[test]
fn base_url_custom_host() {
    let info = make_daemon_info("0.0.0.0", 8080);
    assert_eq!(info.base_url(), "http://0.0.0.0:8080");
}

#[test]
fn pid_and_port_parsing() {
    assert_eq!(parse_pid("1234\n"), Some(1234));
    assert_eq!(parse_pid("  +42 \t"), Some(42));
    assert_eq!(parse_pid("4294967295"), Some(u32::MAX));
    assert_eq!(parse_pid("4294967296"), None);
    assert_eq!(parse_pid(""), None);
    assert_eq!(parse_pid("+"), None);
    assert_eq!(parse_pid("-1"), None);
    assert_eq!(parse_pid("12a"), None);
    assert_eq!(parse_port("8080"), Some(8080));
    assert_eq!(parse_port("65536"), None);
    assert_eq!(parse_port("\u{3000}80\u{a0}"), Some(80));
    assert_eq!(parse_port("000000000000000443"), Some(443));
}

#[test]
fn daemon_from_file_contents() {
    let info = daemon_from_files("999\n", "8080\n").unwrap();
    assert_eq!(info.pid, 999);
    assert_eq!(info.port, 8080);
    assert_eq!(info.host, "127.0.0.1");
    assert!(daemon_from_files("x", "8080").is_none());
    assert!(daemon_from_files("1", "").is_none());
}

#[test]
fn config_paths() {
    let c = CrabCityConfig::from_data_dir("/home/u/.crabcity".to_string());
    assert_eq!(c.logs_dir, "/home/u/.crabcity/logs");
    assert_eq!(c.state_dir(), "/home/u/.crabcity/state");
    assert_eq!(c.daemon_pid_path(), "/home/u/.crabcity/state/daemon.pid");
    assert_eq!(c.daemon_port_path(), "/home/u/.crabcity/state/daemon.port");
    assert_eq!(c.daemon_log_path(), "/home/u/.crabcity/logs/daemon.log");
    assert_eq!(c.daemon_err_path(), "/home/u/.crabcity/logs/daemon.err");
    let slash = CrabCityConfig::from_data_dir("/tmp/".to_string());
    assert_eq!(slash.state_dir(), "/tmp/state");
}

use crab_city::desktop::{
    ensure_daemon_step, EnsureAction, EnsureEvent, EnsureState, DAEMON_POLL_INTERVAL_MS, DAEMON_START_TIMEOUT_MS,
};

fn info(port: u16) -> DaemonInfo {
    DaemonInfo { pid: 42, port, host: "127.0.0.1".to_string() }
}

/// Runs the steps with the given events; gives the actions taken.
fn run(events: Vec<EnsureEvent>) -> Vec<EnsureAction> {
    let mut state = EnsureState::Begin;
    let mut actions = Vec::new();
    for e in events {
        let (next, action) = ensure_daemon_step(&state, &e, "/logs/daemon.err");
        state = next;
        actions.push(action);
    }
    actions
}

#[test]
fn healthy_running_daemon_is_used() {
    let actions = run(vec![EnsureEvent::Proceed, EnsureEvent::Found(Some(info(3000))), EnsureEvent::Health(true)]);
    assert!(matches!(actions[0], EnsureAction::CheckDaemon));
    assert!(matches!(&actions[1], EnsureAction::HealthCheck(i) if i.port == 3000));
    assert!(matches!(&actions[2], EnsureAction::Finish(i, false) if i.port == 3000));
}

#[test]
fn unhealthy_daemon_is_replaced() {
    let actions = run(vec![
        EnsureEvent::Proceed,
        EnsureEvent::Found(Some(info(3000))),
        EnsureEvent::Health(false),
        EnsureEvent::Proceed,
        EnsureEvent::Started(Ok(())),
        EnsureEvent::Elapsed(0),
        EnsureEvent::Proceed,
        EnsureEvent::Found(Some(info(4000))),
        EnsureEvent::Health(true),
    ]);
    assert!(matches!(actions[2], EnsureAction::RemoveFiles));
    assert!(matches!(actions[3], EnsureAction::StartDaemon));
    assert!(matches!(actions[4], EnsureAction::CheckElapsed));
    assert!(matches!(actions[5], EnsureAction::Sleep(ms) if ms == DAEMON_POLL_INTERVAL_MS));
    assert!(matches!(actions[6], EnsureAction::CheckDaemon));
    assert!(matches!(&actions[8], EnsureAction::Finish(i, true) if i.port == 4000));
}

#[test]
fn port_file_gives_second_look() {
    let actions = run(vec![
        EnsureEvent::Proceed,
        EnsureEvent::Found(None),
        EnsureEvent::Started(Ok(())),
        EnsureEvent::Elapsed(50),
        EnsureEvent::Proceed,
        EnsureEvent::Found(None),
        EnsureEvent::PortFile(true),
        EnsureEvent::Found(None),
    ]);
    assert!(matches!(actions[1], EnsureAction::StartDaemon));
    assert!(matches!(actions[5], EnsureAction::CheckPortFile));
    assert!(matches!(actions[6], EnsureAction::CheckDaemon));
    // After the second look comes the next round.
    assert!(matches!(actions[7], EnsureAction::CheckElapsed));
}

#[test]
fn start_failure_and_timeout_fail() {
    let actions = run(vec![EnsureEvent::Proceed, EnsureEvent::Found(None), EnsureEvent::Started(Err("no crab".into()))]);
    assert!(matches!(&actions[2], EnsureAction::Fail(m) if m == "no crab"));
    let actions = run(vec![
        EnsureEvent::Proceed,
        EnsureEvent::Found(None),
        EnsureEvent::Started(Ok(())),
        EnsureEvent::Elapsed(DAEMON_START_TIMEOUT_MS),
        EnsureEvent::Proceed,
        EnsureEvent::Found(None),
        EnsureEvent::PortFile(false),
        EnsureEvent::Elapsed(DAEMON_START_TIMEOUT_MS + 1),
    ]);
    assert!(matches!(actions[3], EnsureAction::Sleep(_)));
    assert!(matches!(
        &actions[7],
        EnsureAction::Fail(m) if m == "Timed out waiting for daemon to start. Check logs at: /logs/daemon.err"
    ));
}
