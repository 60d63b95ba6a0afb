//! Wire protocol types: hook events, session statuses, permission decisions,
//! and the payloads of the HTTP endpoints.
//!
//! Every enum has a canonical snake_case name used on the wire and in the
//! event log; unrecognized names decode to the `Unknown` variant.

use vstd::prelude::*;
use crate::chars::chars_eq_str;

verus! {

/// All hook event types sent by the hook binary.
#[derive(Clone, Copy, Debug, PartialEq, Eq, Structural)]
pub enum HookEvent {
    UserPrompt,
    PreTool,
    Stop,
    Notification,
    SessionStart,
    SessionEnd,
    PermissionRequest,
    Unknown,
}

/// The canonical snake_case name of a hook event.
pub open spec fn spec_event_name(e: HookEvent) -> Seq<char> {
    match e {
        HookEvent::UserPrompt => "user_prompt"@,
        HookEvent::PreTool => "pre_tool"@,
        HookEvent::Stop => "stop"@,
        HookEvent::Notification => "notification"@,
        HookEvent::SessionStart => "session_start"@,
        HookEvent::SessionEnd => "session_end"@,
        HookEvent::PermissionRequest => "permission_request"@,
        HookEvent::Unknown => "unknown"@,
    }
}

pub fn event_name(e: HookEvent) -> (r: &'static str)
    ensures
        r@ == spec_event_name(e),
{
    match e {
        HookEvent::UserPrompt => "user_prompt",
        HookEvent::PreTool => "pre_tool",
        HookEvent::Stop => "stop",
        HookEvent::Notification => "notification",
        HookEvent::SessionStart => "session_start",
        HookEvent::SessionEnd => "session_end",
        HookEvent::PermissionRequest => "permission_request",
        HookEvent::Unknown => "unknown",
    }
}

/// Decoding of an event name; names outside the recognized set give
/// `Unknown`.
pub open spec fn spec_event_from_name(s: Seq<char>) -> HookEvent {
    if s == spec_event_name(HookEvent::UserPrompt) {
        HookEvent::UserPrompt
    } else if s == spec_event_name(HookEvent::PreTool) {
        HookEvent::PreTool
    } else if s == spec_event_name(HookEvent::Stop) {
        HookEvent::Stop
    } else if s == spec_event_name(HookEvent::Notification) {
        HookEvent::Notification
    } else if s == spec_event_name(HookEvent::SessionStart) {
        HookEvent::SessionStart
    } else if s == spec_event_name(HookEvent::SessionEnd) {
        HookEvent::SessionEnd
    } else if s == spec_event_name(HookEvent::PermissionRequest) {
        HookEvent::PermissionRequest
    } else {
        HookEvent::Unknown
    }
}

pub fn event_from_name_chars(name: &Vec<char>) -> (r: HookEvent)
    ensures
        r == spec_event_from_name(name@),
{
    if chars_eq_str(name, "user_prompt") {
        HookEvent::UserPrompt
    } else if chars_eq_str(name, "pre_tool") {
        HookEvent::PreTool
    } else if chars_eq_str(name, "stop") {
        HookEvent::Stop
    } else if chars_eq_str(name, "notification") {
        HookEvent::Notification
    } else if chars_eq_str(name, "session_start") {
        HookEvent::SessionStart
    } else if chars_eq_str(name, "session_end") {
        HookEvent::SessionEnd
    } else if chars_eq_str(name, "permission_request") {
        HookEvent::PermissionRequest
    } else {
        HookEvent::Unknown
    }
}

pub fn event_from_name(name: &str) -> (r: HookEvent)
    ensures
        r == spec_event_from_name(name@),
{
    let v = crate::chars::str_to_chars(name);
    event_from_name_chars(&v)
}

/// Decoding an event name gives back the event it named.
pub broadcast proof fn lemma_event_name_round_trip(e: HookEvent)
    ensures
        spec_event_from_name(#[trigger] spec_event_name(e)) == e,
{
    reveal_strlit("user_prompt");
    reveal_strlit("pre_tool");
    reveal_strlit("stop");
    reveal_strlit("notification");
    reveal_strlit("session_start");
    reveal_strlit("session_end");
    reveal_strlit("permission_request");
    reveal_strlit("unknown");
    assert("user_prompt"@.len() == 11);
    assert("pre_tool"@.len() == 8);
    assert("stop"@.len() == 4);
    assert("notification"@.len() == 12);
    assert("session_start"@.len() == 13);
    assert("session_end"@.len() == 11);
    assert("permission_request"@.len() == 18);
    assert("unknown"@.len() == 7);
    assert("user_prompt"@[0] == 'u');
    assert("session_end"@[0] == 's');
    assert("session_end"@ != "user_prompt"@);
}

/// The severity recorded with each logged event.
pub open spec fn spec_event_level(e: HookEvent) -> u8 {
    match e {
        HookEvent::Stop => 2u8,
        HookEvent::Notification => 3u8,
        _ => 1u8,
    }
}

pub fn event_level(e: HookEvent) -> (r: u8)
    ensures
        r == spec_event_level(e),
{
    match e {
        HookEvent::Stop => 2,
        HookEvent::Notification => 3,
        _ => 1,
    }
}

/// Internal session status.
#[derive(Clone, Copy, Debug, PartialEq, Eq, Structural)]
pub enum SessionStatus {
    Idle,
    Active,
    Waiting,
    Ended,
    Stopped,
    Unknown,
}

impl Default for SessionStatus {
    fn default() -> (r: Self)
        ensures
            r == SessionStatus::Unknown,
    {
        SessionStatus::Unknown
    }
}

/// The canonical snake_case name of a session status.
pub open spec fn spec_status_name(s: SessionStatus) -> Seq<char> {
    match s {
        SessionStatus::Idle => "idle"@,
        SessionStatus::Active => "active"@,
        SessionStatus::Waiting => "waiting"@,
        SessionStatus::Ended => "ended"@,
        SessionStatus::Stopped => "stopped"@,
        SessionStatus::Unknown => "unknown"@,
    }
}

pub fn status_name(s: SessionStatus) -> (r: &'static str)
    ensures
        r@ == spec_status_name(s),
{
    match s {
        SessionStatus::Idle => "idle",
        SessionStatus::Active => "active",
        SessionStatus::Waiting => "waiting",
        SessionStatus::Ended => "ended",
        SessionStatus::Stopped => "stopped",
        SessionStatus::Unknown => "unknown",
    }
}

/// Permission decision sent by the UI.
#[derive(Clone, Copy, Debug, PartialEq, Eq, Structural)]
pub enum PermissionDecisionKind {
    Allow,
    Deny,
    AlwaysAllow,
}

/// The behavior string the agent expects for a decision.
pub open spec fn spec_behavior(d: PermissionDecisionKind) -> Seq<char> {
    match d {
        PermissionDecisionKind::Deny => "deny"@,
        _ => "approve"@,
    }
}

impl PermissionDecisionKind {
    /// Map to the behavior string of the agent's permission-response schema.
    pub fn to_behavior(&self) -> (r: &'static str)
        ensures
            r@ == spec_behavior(*self),
    {
        match self {
            PermissionDecisionKind::Allow | PermissionDecisionKind::AlwaysAllow => "approve",
            PermissionDecisionKind::Deny => "deny",
        }
    }
}

/// Body of `POST /api/signal` — the full event from the hook binary.
/// Fields absent on the wire decode to the empty string or `None`.
#[derive(Clone, Debug)]
pub struct SignalPayload {
    pub event: HookEvent,
    pub session_id: String,
    pub cwd: String,
    pub notification_type: String,
    pub message: String,
    pub last_assistant_message: String,
    pub model: String,
    pub hook_pid: Option<u32>,
    pub parent_session_id: Option<String>,
}

/// Body of `POST /api/hook` — a lightweight status update.
#[derive(Clone, Debug)]
pub struct HookPayload {
    pub session_id: String,
    pub cwd: String,
}

/// Body of `POST /api/permission-request`.  `tool_input` and
/// `permission_suggestions` carry raw JSON text; the core never looks inside
/// them, it only echoes them back.
#[derive(Clone, Debug)]
pub struct PermissionRequestPayload {
    pub session_id: String,
    pub cwd: String,
    pub tool_name: String,
    pub tool_input: String,
    pub permission_suggestions: String,
}

/// Body of `POST /api/permission-respond` — the user decision from the UI.
#[derive(Clone, Debug)]
pub struct PermissionRespondPayload {
    pub id: String,
    pub decision: PermissionDecisionKind,
}

/// Body of `POST /api/chat/send` — send a message to a session.
#[derive(Clone, Debug)]
pub struct ChatSendPayload {
    pub session_id: String,
    pub cwd: String,
    pub message: String,
    pub pid: Option<u32>,
    pub force: bool,
}

} // verus!
