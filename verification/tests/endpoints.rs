//! The endpoint decision cores: hook dedup, the signal pipeline, and the
//! permission gate.

use agent_desk::dedup::DedupCache;
use agent_desk::format::{toast_kind, ToastKind};
use agent_desk::permission::{decision_response, timeout_response, PermissionStore};
use agent_desk::protocol::{
    HookEvent, HookPayload, PermissionDecisionKind, PermissionRequestPayload, SessionStatus,
    SignalPayload,
};
use agent_desk::server_core::{
    apply_respond_decision, build_permission_request, fresh_uuid, handle_hook, handle_signal,
    id_suffix6, HookReply,
};
use agent_desk::session::{SessionInfo, SessionTracker};

fn new_tracker() -> SessionTracker {
    SessionTracker::new("sessions.json".to_string(), Vec::new(), 0)
}

fn find<'a>(t: &'a SessionTracker, id: &str) -> Option<&'a SessionInfo> {
    t.sessions().iter().find(|s| s.session_id == id)
}

fn signal(event: HookEvent) -> SignalPayload {
    SignalPayload {
        event,
        session_id: String::new(),
        cwd: String::new(),
        notification_type: String::new(),
        message: String::new(),
        last_assistant_message: String::new(),
        model: String::new(),
        hook_pid: None,
        parent_session_id: None,
    }
}

fn suffix() -> Vec<char> {
    vec!['a', 'b', 'c', 'd', 'e', 'f']
}

#[test]
fn hook_dedup_within_window() {
    let mut dedup = DedupCache::new();
    let mut tracker = new_tracker();
    let payload = HookPayload { session_id: "S1".to_string(), cwd: "C:/p".to_string() };
    let now: u64 = 1_000_000_000;

    let first: HookReply = handle_hook(
        &mut dedup,
        &mut tracker,
        Some(HookEvent::UserPrompt),
        &payload,
        now,
    );
    assert!(first.ok);
    assert!(!first.dedup);
    assert!(first.broadcast_activity);
    {
        let s = find(&tracker, "S1").unwrap();
        assert_eq!(s.status, SessionStatus::Active);
        assert_eq!(s.cwd, "C:/p");
        assert_eq!(s.notification_type.as_deref(), Some(""));
    }

    // 100 ms later: coalesced, and nothing changes.
    let before = find(&tracker, "S1").unwrap().updated_at;
    let second = handle_hook(
        &mut dedup,
        &mut tracker,
        Some(HookEvent::UserPrompt),
        &payload,
        now + 100_000,
    );
    assert!(second.ok);
    assert!(second.dedup);
    assert!(!second.broadcast_activity);
    assert_eq!(find(&tracker, "S1").unwrap().updated_at, before);

    // 600 ms after the first call the window has passed.
    let third = handle_hook(
        &mut dedup,
        &mut tracker,
        Some(HookEvent::UserPrompt),
        &payload,
        now + 600_000,
    );
    assert!(!third.dedup);
}

#[test]
fn hook_without_session_or_event_changes_nothing() {
    let mut dedup = DedupCache::new();
    let mut tracker = new_tracker();
    let empty = HookPayload { session_id: String::new(), cwd: "C:/p".to_string() };
    let r = handle_hook(&mut dedup, &mut tracker, Some(HookEvent::UserPrompt), &empty, 5);
    assert!(r.ok && !r.dedup && !r.broadcast_activity);
    assert!(tracker.sessions().is_empty());

    let payload = HookPayload { session_id: "S1".to_string(), cwd: String::new() };
    let r2 = handle_hook(&mut dedup, &mut tracker, None, &payload, 5);
    assert!(r2.ok && !r2.dedup && !r2.broadcast_activity);
    assert!(tracker.sessions().is_empty());
}

#[test]
fn stop_signal_logs_and_parks_the_session() {
    let mut tracker = new_tracker();
    let mut p = signal(HookEvent::Stop);
    p.session_id = "S2".to_string();
    p.cwd = "C:/q".to_string();
    p.last_assistant_message = "done.".to_string();
    let now: u64 = 1_700_000_000_000_000;
    let event = handle_signal(&mut tracker, &p, now, &suffix());
    assert_eq!(event.level, 2);
    assert_eq!(event.message, "[Done] S2\nC:/q\ndone.");
    assert_eq!(event.ts, now);
    assert_eq!(event.id, "evt_1700000000_abcdef");
    assert!(!event.cleared);
    let s = find(&tracker, "S2").unwrap();
    assert_eq!(s.status, SessionStatus::Waiting);
    assert_eq!(s.last_message.as_deref(), Some("done."));
}

#[test]
fn session_start_registers_and_links_parent() {
    let mut tracker = new_tracker();
    let mut p = signal(HookEvent::SessionStart);
    p.session_id = "child".to_string();
    p.cwd = "C:/p".to_string();
    p.model = "opus".to_string();
    p.parent_session_id = Some("parent".to_string());
    let event = handle_signal(&mut tracker, &p, 9_000_000, &suffix());
    assert_eq!(event.message, "[Start] child | opus | C:/p");
    let s = find(&tracker, "child").unwrap();
    assert_eq!(s.status, SessionStatus::Idle);
    assert_eq!(s.model.as_deref(), Some("opus"));
    assert_eq!(s.parent_session_id.as_deref(), Some("parent"));
}

#[test]
fn notification_signal_sets_waiting_only_for_permission_prompts() {
    let mut tracker = new_tracker();
    let mut p = signal(HookEvent::Notification);
    p.session_id = "S3".to_string();
    p.notification_type = "permission_prompt".to_string();
    p.message = "may I?".to_string();
    let event = handle_signal(&mut tracker, &p, 10, &suffix());
    assert_eq!(event.level, 3);
    assert_eq!(event.message, "[Confirm] S3\nmay I?");
    assert_eq!(find(&tracker, "S3").unwrap().status, SessionStatus::Waiting);

    let mut p2 = signal(HookEvent::Notification);
    p2.session_id = "S4".to_string();
    p2.notification_type = "idle_prompt".to_string();
    let e2 = handle_signal(&mut tracker, &p2, 11, &suffix());
    assert_eq!(e2.message, "[Idle] S4 waiting for input");
    assert_eq!(find(&tracker, "S4").unwrap().status, SessionStatus::Idle);
}

#[test]
fn long_session_ids_are_shortened_in_messages() {
    let mut tracker = new_tracker();
    let mut p = signal(HookEvent::SessionEnd);
    p.session_id = "0123456789abcdef".to_string();
    let event = handle_signal(&mut tracker, &p, 12, &suffix());
    assert_eq!(event.message, "[End] 01234567");
}

#[test]
fn permission_approval_echoes_suggestions_only_for_always_allow() {
    let suggestions = "[{\"rule\":\"run:ls\"}]";
    let always = decision_response(PermissionDecisionKind::AlwaysAllow, suggestions);
    assert_eq!(always.behavior, "approve");
    assert_eq!(always.updated_permissions, suggestions);
    let allow = decision_response(PermissionDecisionKind::Allow, suggestions);
    assert_eq!(allow.behavior, "approve");
    assert_eq!(allow.updated_permissions, "[]");
    let deny = decision_response(PermissionDecisionKind::Deny, suggestions);
    assert_eq!(deny.behavior, "deny");
    assert_eq!(deny.updated_permissions, "[]");
}

#[test]
fn permission_request_round_trip() {
    let mut store = PermissionStore::new();
    let mut tracker = new_tracker();
    let payload = PermissionRequestPayload {
        session_id: "S1".to_string(),
        cwd: "C:/p".to_string(),
        tool_name: "run".to_string(),
        tool_input: "{\"cmd\":\"ls\"}".to_string(),
        permission_suggestions: "[{\"rule\":\"run:ls\"}]".to_string(),
    };
    let req = build_permission_request(&payload, "id-1", 77, 600);
    assert_eq!(req.timeout_secs, 600);
    store.register(req);
    assert_eq!(store.get_pending().len(), 1);
    assert_eq!(store.find("id-1").unwrap().session_id, "S1");

    let taken = store.respond("id-1").expect("the request was pending");
    assert_eq!(taken.tool_name, "run");
    assert!(store.get_pending().is_empty());
    apply_respond_decision(&mut tracker, "S1", PermissionDecisionKind::AlwaysAllow, 78);
    assert_eq!(find(&tracker, "S1").unwrap().status, SessionStatus::Active);

    assert!(store.respond("id-1").is_none(), "a second response finds nothing");
}

#[test]
fn permission_timeout_denies_and_removes() {
    let mut store = PermissionStore::new();
    let payload = PermissionRequestPayload {
        session_id: "S1".to_string(),
        cwd: "C:/p".to_string(),
        tool_name: "run".to_string(),
        tool_input: "{}".to_string(),
        permission_suggestions: "[]".to_string(),
    };
    store.register(build_permission_request(&payload, "id-9", 1, 1));
    store.remove("id-9");
    assert!(store.get_pending().is_empty());
    let out = timeout_response();
    assert_eq!(out.behavior, "deny");
    assert_eq!(out.updated_permissions, "[]");
}

#[test]
fn session_rules_are_per_session() {
    let mut store = PermissionStore::new();
    store.add_session_rule("S1", "run");
    store.add_session_rule("S1", "run");
    store.add_session_rule("S2", "edit");
    assert!(store.check_session_rule("S1", "run"));
    assert!(!store.check_session_rule("S1", "edit"));
    store.clear_session_rules("S1");
    assert!(!store.check_session_rule("S1", "run"));
    assert!(store.check_session_rule("S2", "edit"));
}

#[test]
fn fresh_uuid_is_long_enough_for_a_suffix() {
    let u = fresh_uuid();
    assert_eq!(u.chars().count(), 36);
    let s = id_suffix6(&u);
    assert_eq!(s.len(), 6);
    for c in &s {
        assert!(c.is_ascii_hexdigit(), "the first six uuid characters are hex");
    }
    let u2 = fresh_uuid();
    assert_ne!(u, u2, "two fresh ids differ");
}

#[test]
fn toast_kinds() {
    assert_eq!(toast_kind(HookEvent::Stop, ""), ToastKind::Done);
    assert_eq!(toast_kind(HookEvent::Notification, "permission_prompt"), ToastKind::Confirm);
    assert_eq!(toast_kind(HookEvent::Notification, "idle_prompt"), ToastKind::Idle);
    assert_eq!(toast_kind(HookEvent::Notification, "other"), ToastKind::Notice);
    assert_eq!(toast_kind(HookEvent::UserPrompt, ""), ToastKind::NoToast);
}
