use chrono::{TimeZone, Utc};
use crab_city::coordination::{build_lock_update_message, TerminalLock, TERMINAL_LOCK_TIMEOUT_SECS};

fn lock_at(display_name: &str, last_activity_ms: i64) -> TerminalLock {
    TerminalLock {
        holder_connection_id: "conn-1".to_string(),
        holder_user_id: "user-1".to_string(),
        holder_display_name: display_name.to_string(),
        last_activity_ms,
    }
}

#[test]
fn build_lock_update_no_lock() {
    let msg = build_lock_update_message("inst-1", None, Utc::now().timestamp_millis());
    assert_eq!(msg.instance_id, "inst-1");
    assert!(msg.holder.is_none());
    assert!(msg.last_activity.is_none());
    assert!(msg.expires_in_secs.is_none());
}

#[test]
fn build_lock_update_with_recent_lock() {
    let now = Utc::now().timestamp_millis();
    let msg = build_lock_update_message("inst-1", Some(lock_at("Alice", now)), now);
    assert_eq!(msg.instance_id, "inst-1");
    let h = msg.holder.unwrap();
    assert_eq!(h.user_id, "user-1");
    assert_eq!(h.display_name, "Alice");
    assert!(msg.last_activity.is_some());
    let remaining = msg.expires_in_secs.unwrap();
    assert!(remaining > 0);
    assert!(remaining <= TERMINAL_LOCK_TIMEOUT_SECS as u64);
}

#[test]
fn build_lock_update_expired_lock() {
    let past = Utc.with_ymd_and_hms(2020, 1, 1, 0, 0, 0).unwrap().timestamp_millis();
    let msg = build_lock_update_message("inst-1", Some(lock_at("Alice", past)), Utc::now().timestamp_millis());
    assert_eq!(msg.expires_in_secs.unwrap(), 0);
}

#[test]
fn build_lock_update_last_activity_is_rfc3339() {
    let now = Utc::now().timestamp_millis();
    let msg = build_lock_update_message("inst-2", Some(lock_at("Bob", now)), now);
    let ts = msg.last_activity.unwrap();
    chrono::DateTime::parse_from_rfc3339(&ts).unwrap();
}

#[test]
fn lock_update_exact_text_and_countdown() {
    let last = 1_577_836_800_000; // 2020-01-01T00:00:00Z
    let msg = build_lock_update_message("inst-3", Some(lock_at("Carol", last)), last + 45_900);
    assert_eq!(msg.last_activity.as_deref(), Some("2020-01-01T00:00:00+00:00"));
    assert_eq!(msg.expires_in_secs, Some(75));
    // A clock that went back counts as no time elapsed.
    let back = build_lock_update_message("inst-3", Some(lock_at("Carol", last)), last - 5_000);
    assert_eq!(back.expires_in_secs, Some(120));
}

use crab_city::capability::{AccessRights, Capability};
use crab_city::dispatch::{
    attributed_input, chat_history_limit, check_access, content_preview, require_access, required_access, sync_reply,
    ClientRequest, SyncReply, MAX_ACCESS_DENIALS,
};

#[test]
fn access_table() {
    assert_eq!(required_access(ClientRequest::Focus), Some(("terminals", "read")));
    assert_eq!(required_access(ClientRequest::Input), Some(("terminals", "input")));
    assert_eq!(required_access(ClientRequest::TerminalLockRequest), Some(("terminals", "input")));
    assert_eq!(required_access(ClientRequest::ChatSend), Some(("chat", "send")));
    assert_eq!(required_access(ClientRequest::Lobby), Some(("chat", "send")));
    assert_eq!(required_access(ClientRequest::ConversationSync), Some(("content", "read")));
    assert_eq!(required_access(ClientRequest::ChatTopics), Some(("content", "read")));
    assert_eq!(required_access(ClientRequest::Resize), None);
    assert_eq!(required_access(ClientRequest::TerminalLockRelease), None);
    assert_eq!(required_access(ClientRequest::Interconnect), None);
}

#[test]
fn denied_user_told_what_access_is_missing() {
    let mut denials = 0u32;
    let (ok, reply) = check_access(true, false, "terminals", "input", &mut denials);
    assert!(!ok);
    assert_eq!(reply.as_deref(), Some("access denied: requires terminals:input"));
    assert_eq!(denials, 1);
}

#[test]
fn anonymous_user_blocked() {
    let mut denials = 0u32;
    let (ok, reply) = check_access(false, true, "terminals", "read", &mut denials);
    assert!(!ok);
    assert_eq!(reply.as_deref(), Some("authentication required"));
}

#[test]
fn granted_access_leaves_count() {
    let mut denials = 3u32;
    assert_eq!(check_access(true, true, "chat", "send", &mut denials), (true, None));
    assert_eq!(denials, 3);
}

#[test]
fn deny_count_rate_limits_errors() {
    let mut denials = 0u32;
    let mut replies = 0;
    for _ in 0..(MAX_ACCESS_DENIALS + 5) {
        let (ok, reply) = check_access(true, false, "chat", "send", &mut denials);
        assert!(!ok);
        if reply.is_some() {
            replies += 1;
        }
    }
    assert_eq!(replies, MAX_ACCESS_DENIALS);
    assert_eq!(denials, MAX_ACCESS_DENIALS + 5);
}

#[test]
fn attributed_input_trims_and_skips_blank() {
    assert_eq!(attributed_input("  fix the bug \r\n"), Some("fix the bug".to_string()));
    assert_eq!(attributed_input("\r"), None);
    assert_eq!(attributed_input("   "), None);
    assert_eq!(attributed_input("x"), Some("x".to_string()));
}

#[test]
fn content_preview_keeps_first_hundred_chars() {
    let long: String = "é".repeat(150);
    assert_eq!(content_preview(&long).chars().count(), 100);
    assert_eq!(content_preview("short"), "short");
}

#[test]
fn chat_history_limit_bounds() {
    assert_eq!(chat_history_limit(None), 50);
    assert_eq!(chat_history_limit(Some(20)), 20);
    assert_eq!(chat_history_limit(Some(500)), 100);
}

#[test]
fn sync_reply_kinds() {
    assert_eq!(sync_reply(false, 0), Some(SyncReply::Full));
    assert_eq!(sync_reply(false, 3), Some(SyncReply::Full));
    assert_eq!(sync_reply(true, 3), Some(SyncReply::Update));
    assert_eq!(sync_reply(true, 0), None);
}

#[test]
fn rights_gate_requests_by_type_and_action() {
    let view = Capability::View.access_rights();
    let collaborate = Capability::Collaborate.access_rights();
    let chat_only = AccessRights::single("chat", "send");
    let mut denials: u32 = 0;

    let (ok, reply) = require_access(Some(&view), "terminals", "input", &mut denials);
    assert!(!ok);
    let m = reply.unwrap();
    assert!(m.contains("access denied"));
    assert!(m.contains("terminals:input"));
    assert_eq!(denials, 1);

    let (ok, reply) = require_access(Some(&collaborate), "terminals", "input", &mut denials);
    assert!(ok);
    assert!(reply.is_none());
    assert_eq!(denials, 1);

    let (ok, reply) = require_access(Some(&view), "chat", "send", &mut denials);
    assert!(!ok);
    assert!(reply.unwrap().contains("chat:send"));

    let (ok, reply) = require_access(Some(&chat_only), "terminals", "read", &mut denials);
    assert!(!ok);
    assert!(reply.unwrap().contains("terminals:read"));
    let (ok, _) = require_access(Some(&chat_only), "chat", "send", &mut denials);
    assert!(ok);

    let (ok, reply) = require_access(None, "terminals", "read", &mut denials);
    assert!(!ok);
    assert_eq!(reply.unwrap(), "authentication required");
    assert_eq!(denials, 4);
}
