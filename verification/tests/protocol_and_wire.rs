//! Wire protocol names, levels, decisions, and the hook client's routing.

use agent_desk::hookwire::{
    direct_timeout_secs, echoes_response, parse_args, parse_port, relay_read_timeout_secs,
    route_for_event, upstream_error_reply, Endpoint,
};
use agent_desk::protocol::{
    event_from_name, event_level, event_name, status_name, HookEvent, PermissionDecisionKind,
    SessionStatus,
};

#[test]
fn event_names_round_trip() {
    let all = [
        HookEvent::UserPrompt,
        HookEvent::PreTool,
        HookEvent::Stop,
        HookEvent::Notification,
        HookEvent::SessionStart,
        HookEvent::SessionEnd,
        HookEvent::PermissionRequest,
        HookEvent::Unknown,
    ];
    for e in all {
        assert_eq!(event_from_name(event_name(e)), e);
    }
}

#[test]
fn unrecognized_event_names_decode_to_unknown() {
    assert_eq!(event_from_name("after_agent"), HookEvent::Unknown);
    assert_eq!(event_from_name(""), HookEvent::Unknown);
    assert_eq!(event_from_name("STOP"), HookEvent::Unknown);
}

#[test]
fn event_levels() {
    assert_eq!(event_level(HookEvent::Stop), 2);
    assert_eq!(event_level(HookEvent::Notification), 3);
    assert_eq!(event_level(HookEvent::UserPrompt), 1);
    assert_eq!(event_level(HookEvent::SessionStart), 1);
    assert_eq!(event_level(HookEvent::SessionEnd), 1);
    assert_eq!(event_level(HookEvent::Unknown), 1);
}

#[test]
fn status_names() {
    assert_eq!(status_name(SessionStatus::Idle), "idle");
    assert_eq!(status_name(SessionStatus::Active), "active");
    assert_eq!(status_name(SessionStatus::Waiting), "waiting");
    assert_eq!(status_name(SessionStatus::Ended), "ended");
    assert_eq!(status_name(SessionStatus::Stopped), "stopped");
}

#[test]
fn decision_behaviors() {
    assert_eq!(PermissionDecisionKind::Allow.to_behavior(), "approve");
    assert_eq!(PermissionDecisionKind::AlwaysAllow.to_behavior(), "approve");
    assert_eq!(PermissionDecisionKind::Deny.to_behavior(), "deny");
}

#[test]
fn route_table() {
    assert_eq!(route_for_event("user_prompt"), Endpoint::Hook);
    assert_eq!(route_for_event("pre_tool"), Endpoint::PreToolCheck);
    assert_eq!(route_for_event("permission_request"), Endpoint::PermissionRequest);
    assert_eq!(route_for_event("stop"), Endpoint::Signal);
    assert_eq!(route_for_event("session_start"), Endpoint::Signal);
    assert_eq!(route_for_event("anything_else"), Endpoint::Signal);
}

#[test]
fn timeouts_per_event() {
    assert_eq!(relay_read_timeout_secs("permission_request"), 660);
    assert_eq!(relay_read_timeout_secs("pre_tool"), 660);
    assert_eq!(relay_read_timeout_secs("stop"), 5);
    assert_eq!(direct_timeout_secs("permission_request"), 660);
    assert_eq!(direct_timeout_secs("user_prompt"), 3);
    assert!(echoes_response("permission_request"));
    assert!(echoes_response("pre_tool"));
    assert!(!echoes_response("stop"));
}

#[test]
fn upstream_error_replies() {
    assert_eq!(upstream_error_reply(Endpoint::Hook), "{\"ok\":false}");
    assert_eq!(upstream_error_reply(Endpoint::Signal), "{\"ok\":false}");
    assert_eq!(upstream_error_reply(Endpoint::PreToolCheck), "");
    assert_eq!(upstream_error_reply(Endpoint::PermissionRequest), "");
}

#[test]
fn port_parsing() {
    assert_eq!(parse_port("15930"), 15930);
    assert_eq!(parse_port("0"), 0);
    assert_eq!(parse_port("65535"), 65535);
    assert_eq!(parse_port("65536"), 15924);
    assert_eq!(parse_port("12x"), 15924);
    assert_eq!(parse_port(""), 15924);
}

#[test]
fn cli_args() {
    let args: Vec<String> = vec![
        "hook".to_string(),
        "--event".to_string(),
        "stop".to_string(),
        "--port".to_string(),
        "16000".to_string(),
    ];
    let parsed = parse_args(&args);
    assert_eq!(parsed.event, "stop");
    assert_eq!(parsed.port, 16000);
    assert!(!parsed.daemon);

    let args2: Vec<String> = vec!["hook".to_string(), "--daemon".to_string()];
    let parsed2 = parse_args(&args2);
    assert_eq!(parsed2.event, "");
    assert_eq!(parsed2.port, 15924);
    assert!(parsed2.daemon);

    let args3: Vec<String> = vec!["hook".to_string(), "-e".to_string()];
    let parsed3 = parse_args(&args3);
    assert_eq!(parsed3.event, "");
}
