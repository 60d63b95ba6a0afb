//! The decision cores of the HTTP endpoints: what a hook call does to the
//! dedup cache and the tracker, what a signal does to the tracker and which
//! event it logs, and what a permission decision does to the store and the
//! session.
//!
//! The shell decodes the request body, takes the current time, calls one
//! of these, and performs the broadcasts, toasts and writes the results
//! call for.

use vstd::prelude::*;
use vstd::string::StrSliceExecFns;
use crate::dedup::{dedup_key, spec_dedup_key, spec_dedup_keys_unique, spec_dedup_lookup, spec_is_dup, DedupCache};
use crate::events::{make_event_id, spec_event_id, Event};
use crate::format::{format_event_message, short_sid, spec_event_message, spec_short_sid};
use crate::permission::PermissionRequest;
use crate::protocol::{
    event_level, spec_event_level, HookEvent, HookPayload, PermissionDecisionKind,
    PermissionRequestPayload, SessionStatus, SignalPayload,
};
use crate::session::{
    spec_apply_update, spec_blank, spec_ids_unique, spec_lookup, spec_registered, SessionTracker,
    SessionUpdate, SessionUpdateV,
};

verus! {

/// Relies on `uuid::Uuid::new_v4` and its hyphenated lower-case `Display`
/// form: a fresh random identifier of 36 characters whose first eight are
/// hex digits.  Nothing more is assumed of a random value.
#[verifier::external_body]
pub fn fresh_uuid() -> (r: String)
    ensures
        r@.len() == 36,
        forall|i: int|
            0 <= i < 8 ==> (('0' <= #[trigger] r@[i] && r@[i] <= '9') || ('a' <= r@[i] && r@[i]
                <= 'f')),
{
    uuid::Uuid::new_v4().to_string()
}

/// The first six characters of an id, used as an event-id suffix.
pub fn id_suffix6(u: &str) -> (r: Vec<char>)
    requires
        u@.len() >= 6,
    ensures
        r@ == u@.take(6),
        r@.len() == 6,
{
    let v = crate::chars::str_to_chars(u);
    let mut out: Vec<char> = Vec::new();
    let mut i: usize = 0;
    while i < 6
        invariant
            i <= 6,
            6 <= v@.len(),
            v@ == u@,
            out@ == u@.take(i as int),
        decreases 6 - i,
    {
        out.push(v[i]);
        proof {
            assert(u@.take((i + 1) as int) =~= u@.take(i as int).push(u@[i as int]));
        }
        i += 1;
    }
    out
}

/// The reply of the light hook endpoint.
pub struct HookReply {
    pub ok: bool,
    pub dedup: bool,
    /// Whether the shell broadcasts an `activity` frame.
    pub broadcast_activity: bool,
}

/// The session update a light hook applies: active, fresh directory, stale
/// notification cleared.
pub open spec fn spec_hook_update(cwd: Seq<char>) -> SessionUpdateV {
    SessionUpdateV {
        status: Some(SessionStatus::Active),
        cwd: Some(cwd),
        last_message: None,
        notification_type: Some(Seq::empty()),
        notification_message: Some(Seq::empty()),
        agent_pid: None,
        parent_session_id: None,
    }
}

/// The light hook endpoint: within the coalescing window a repeated
/// (session, event) pair is answered as a duplicate and changes nothing;
/// otherwise a prompt or tool event marks the session active.
pub fn handle_hook(
    dedup: &mut DedupCache,
    tracker: &mut SessionTracker,
    event: Option<HookEvent>,
    payload: &HookPayload,
    now: u64,
) -> (r: HookReply)
    requires
        spec_dedup_keys_unique(old(dedup)@),
        spec_ids_unique(old(tracker)@.sessions),
    ensures
        spec_dedup_keys_unique(final(dedup)@),
        spec_ids_unique(final(tracker)@.sessions),
        r.ok,
        r.dedup == (event is Some && payload.session_id@.len() > 0 && spec_is_dup(
            old(dedup)@,
            spec_dedup_key(payload.session_id@, event->0),
            now,
        )),
        r.dedup ==> final(dedup)@ == old(dedup)@ && final(tracker)@ == old(tracker)@,
        !r.dedup && event is Some && payload.session_id@.len() > 0 ==> spec_dedup_lookup(
            final(dedup)@,
            spec_dedup_key(payload.session_id@, event->0),
        ) == Some(now),
        (event is None || payload.session_id@.len() == 0) ==> final(dedup)@ == old(dedup)@,
        r.broadcast_activity == (!r.dedup && payload.session_id@.len() > 0 && (event == Some(
            HookEvent::UserPrompt,
        ) || event == Some(HookEvent::PreTool))),
        r.broadcast_activity ==> spec_lookup(final(tracker)@.sessions, payload.session_id@)
            == Some(
            spec_apply_update(
                match spec_lookup(old(tracker)@.sessions, payload.session_id@) {
                    Some(b) => b,
                    None => spec_blank(payload.session_id@, now),
                },
                spec_hook_update(payload.cwd@),
                now,
            ),
        ) && forall|k: Seq<char>|
            k != payload.session_id@ ==> #[trigger] spec_lookup(final(tracker)@.sessions, k)
                == spec_lookup(old(tracker)@.sessions, k),
        !r.broadcast_activity ==> final(tracker)@ == old(tracker)@,
{
    let sid_nonempty = payload.session_id.as_str().unicode_len() > 0;
    if let Some(ev) = event {
        if sid_nonempty {
            let key = dedup_key(payload.session_id.as_str(), ev);
            if dedup.check_and_record(key.as_str(), now) {
                return HookReply { ok: true, dedup: true, broadcast_activity: false };
            }
        }
    }
    let light = matches!(event, Some(HookEvent::UserPrompt)) || matches!(
        event,
        Some(HookEvent::PreTool),
    );
    if sid_nonempty && light {
        let upd = SessionUpdate {
            status: Some(SessionStatus::Active),
            cwd: Some(payload.cwd.clone()),
            last_message: None,
            notification_type: Some(String::new()),
            notification_message: Some(String::new()),
            agent_pid: None,
            parent_session_id: None,
        };
        tracker.update(payload.session_id.as_str(), upd, now);
        return HookReply { ok: true, dedup: false, broadcast_activity: true };
    }
    HookReply { ok: true, dedup: false, broadcast_activity: false }
}

/// The session update a stop signal applies.
pub open spec fn spec_stop_update(cwd: Seq<char>, last_msg: Seq<char>) -> SessionUpdateV {
    SessionUpdateV {
        status: Some(SessionStatus::Waiting),
        cwd: Some(cwd),
        last_message: if last_msg.len() == 0 {
            None
        } else {
            Some(last_msg)
        },
        notification_type: Some(Seq::empty()),
        notification_message: Some(Seq::empty()),
        agent_pid: None,
        parent_session_id: None,
    }
}

/// The session update a notification signal applies: waiting for a
/// permission prompt, idle for anything else.
pub open spec fn spec_notification_update(
    cwd: Seq<char>,
    ntype: Seq<char>,
    nmsg: Seq<char>,
) -> SessionUpdateV {
    SessionUpdateV {
        status: Some(
            if ntype == "permission_prompt"@ {
                SessionStatus::Waiting
            } else {
                SessionStatus::Idle
            },
        ),
        cwd: Some(cwd),
        last_message: None,
        notification_type: if ntype.len() == 0 {
            None
        } else {
            Some(ntype)
        },
        notification_message: if nmsg.len() == 0 {
            None
        } else {
            Some(nmsg)
        },
        agent_pid: None,
        parent_session_id: None,
    }
}

/// The session update a session-end signal applies.
pub open spec fn spec_end_update(cwd: Seq<char>) -> SessionUpdateV {
    SessionUpdateV {
        status: Some(SessionStatus::Ended),
        cwd: Some(cwd),
        last_message: None,
        notification_type: None,
        notification_message: None,
        agent_pid: None,
        parent_session_id: None,
    }
}

/// The linkage update for a sub-agent's parent session.
pub open spec fn spec_parent_update(parent: Seq<char>) -> SessionUpdateV {
    SessionUpdateV {
        status: None,
        cwd: None,
        last_message: None,
        notification_type: None,
        notification_message: None,
        agent_pid: None,
        parent_session_id: Some(parent),
    }
}

/// What a session-start registers: a fresh idle entry, linked to its
/// parent when one is named.
pub open spec fn spec_session_start_entry(p: SignalPayload, now: u64) -> crate::session::SessionInfoV {
    let registered = spec_registered(
        p.session_id@,
        p.cwd@,
        if p.model@.len() == 0 {
            None
        } else {
            Some(p.model@)
        },
        None,
        now,
    );
    if p.parent_session_id matches Some(par) && par@.len() > 0 {
        spec_apply_update(registered, spec_parent_update(p.parent_session_id->0@), now)
    } else {
        registered
    }
}

/// The full signal pipeline's state step: applies the session transition
/// for the event and builds the event record to append, whose id is minted
/// from the time and the given random suffix.
pub fn handle_signal(
    tracker: &mut SessionTracker,
    payload: &SignalPayload,
    now: u64,
    suffix: &Vec<char>,
) -> (r: Event)
    requires
        spec_ids_unique(old(tracker)@.sessions),
    ensures
        spec_ids_unique(final(tracker)@.sessions),
        r@.id == spec_event_id(now / 1_000_000, suffix@),
        r@.ts == now,
        r@.event == payload.event,
        r@.session_id == payload.session_id@,
        r@.cwd == payload.cwd@,
        r@.message == spec_event_message(
            payload.event,
            spec_short_sid(payload.session_id@),
            payload.cwd@,
            payload.notification_type@,
            payload.message@,
            payload.last_assistant_message@,
            payload.model@,
        ),
        r@.notification_type == payload.notification_type@,
        r@.last_assistant_message == payload.last_assistant_message@,
        r@.level == spec_event_level(payload.event),
        !r@.cleared,
        payload.session_id@.len() == 0 ==> final(tracker)@ == old(tracker)@,
        payload.session_id@.len() > 0 ==> match payload.event {
            HookEvent::SessionStart => spec_lookup(
                final(tracker)@.sessions,
                payload.session_id@,
            ) == Some(spec_session_start_entry(*payload, now)),
            HookEvent::SessionEnd => spec_lookup(final(tracker)@.sessions, payload.session_id@)
                == Some(
                spec_apply_update(
                    spec_signal_base(old(tracker)@.sessions, payload.session_id@, now),
                    spec_end_update(payload.cwd@),
                    now,
                ),
            ),
            HookEvent::Stop => spec_lookup(final(tracker)@.sessions, payload.session_id@)
                == Some(
                spec_apply_update(
                    spec_signal_base(old(tracker)@.sessions, payload.session_id@, now),
                    spec_stop_update(payload.cwd@, payload.last_assistant_message@),
                    now,
                ),
            ),
            HookEvent::Notification => spec_lookup(final(tracker)@.sessions, payload.session_id@)
                == Some(
                spec_apply_update(
                    spec_signal_base(old(tracker)@.sessions, payload.session_id@, now),
                    spec_notification_update(
                        payload.cwd@,
                        payload.notification_type@,
                        payload.message@,
                    ),
                    now,
                ),
            ),
            _ => final(tracker)@ == old(tracker)@,
        },
        payload.session_id@.len() > 0 ==> forall|k: Seq<char>|
            k != payload.session_id@ ==> #[trigger] spec_lookup(final(tracker)@.sessions, k)
                == spec_lookup(old(tracker)@.sessions, k),
{
    let sid_nonempty = payload.session_id.as_str().unicode_len() > 0;
    if sid_nonempty {
        match payload.event {
            HookEvent::SessionStart => {
                let model = if payload.model.as_str().unicode_len() == 0 {
                    None
                } else {
                    Some(payload.model.as_str())
                };
                tracker.register(
                    payload.session_id.as_str(),
                    payload.cwd.as_str(),
                    model,
                    None,
                    now,
                );
                match &payload.parent_session_id {
                    Some(parent) => {
                        if parent.as_str().unicode_len() > 0 {
                            let upd = SessionUpdate {
                                status: None,
                                cwd: None,
                                last_message: None,
                                notification_type: None,
                                notification_message: None,
                                agent_pid: None,
                                parent_session_id: Some(parent.clone()),
                            };
                            tracker.update(payload.session_id.as_str(), upd, now);
                        }
                    },
                    None => {},
                }
            },
            HookEvent::SessionEnd => {
                let upd = SessionUpdate {
                    status: Some(SessionStatus::Ended),
                    cwd: Some(payload.cwd.clone()),
                    last_message: None,
                    notification_type: None,
                    notification_message: None,
                    agent_pid: None,
                    parent_session_id: None,
                };
                tracker.update(payload.session_id.as_str(), upd, now);
            },
            HookEvent::Stop => {
                let last_msg = if payload.last_assistant_message.as_str().unicode_len() == 0 {
                    None
                } else {
                    Some(payload.last_assistant_message.clone())
                };
                let upd = SessionUpdate {
                    status: Some(SessionStatus::Waiting),
                    cwd: Some(payload.cwd.clone()),
                    last_message: last_msg,
                    notification_type: Some(String::new()),
                    notification_message: Some(String::new()),
                    agent_pid: None,
                    parent_session_id: None,
                };
                tracker.update(payload.session_id.as_str(), upd, now);
            },
            HookEvent::Notification => {
                let ntc = crate::chars::str_to_chars(payload.notification_type.as_str());
                let waiting = crate::chars::chars_eq_str(&ntc, "permission_prompt");
                let upd = SessionUpdate {
                    status: Some(
                        if waiting {
                            SessionStatus::Waiting
                        } else {
                            SessionStatus::Idle
                        },
                    ),
                    cwd: Some(payload.cwd.clone()),
                    last_message: None,
                    notification_type: if payload.notification_type.as_str().unicode_len() == 0 {
                        None
                    } else {
                        Some(payload.notification_type.clone())
                    },
                    notification_message: if payload.message.as_str().unicode_len() == 0 {
                        None
                    } else {
                        Some(payload.message.clone())
                    },
                    agent_pid: None,
                    parent_session_id: None,
                };
                tracker.update(payload.session_id.as_str(), upd, now);
            },
            _ => {},
        }
    }
    let sidc = short_sid(payload.session_id.as_str());
    let message = format_event_message(
        payload.event,
        &sidc,
        payload.cwd.as_str(),
        payload.notification_type.as_str(),
        payload.message.as_str(),
        payload.last_assistant_message.as_str(),
        payload.model.as_str(),
    );
    let id = make_event_id(now / 1_000_000, suffix);
    Event {
        id,
        ts: now,
        event: payload.event,
        session_id: payload.session_id.clone(),
        cwd: payload.cwd.clone(),
        message,
        notification_type: payload.notification_type.clone(),
        last_assistant_message: payload.last_assistant_message.clone(),
        level: event_level(payload.event),
        cleared: false,
    }
}

/// The entry a signal's update starts from: the tracked one, or a blank.
pub open spec fn spec_signal_base(
    sessions: Seq<crate::session::SessionInfoV>,
    sid: Seq<char>,
    now: u64,
) -> crate::session::SessionInfoV {
    match spec_lookup(sessions, sid) {
        Some(b) => b,
        None => spec_blank(sid, now),
    }
}

/// Builds the pending request that a permission-request call registers.
pub fn build_permission_request(
    payload: &PermissionRequestPayload,
    id: &str,
    now: u64,
    timeout_secs: u64,
) -> (r: PermissionRequest)
    ensures
        r@.id == id@,
        r@.session_id == payload.session_id@,
        r@.cwd == payload.cwd@,
        r@.tool_name == payload.tool_name@,
        r@.tool_input == payload.tool_input@,
        r@.permission_suggestions == payload.permission_suggestions@,
        r@.timestamp == now,
        r@.timeout_secs == timeout_secs,
{
    PermissionRequest {
        id: id.to_owned(),
        session_id: payload.session_id.clone(),
        cwd: payload.cwd.clone(),
        tool_name: payload.tool_name.clone(),
        tool_input: payload.tool_input.clone(),
        permission_suggestions: payload.permission_suggestions.clone(),
        timestamp: now,
        timeout_secs,
    }
}

/// The session update a delivered permission decision applies: allow and
/// always-allow set the session active, deny sets it back to waiting; the
/// notification is cleared either way.
pub open spec fn spec_respond_update(d: PermissionDecisionKind) -> SessionUpdateV {
    SessionUpdateV {
        status: Some(
            if d == PermissionDecisionKind::Deny {
                SessionStatus::Waiting
            } else {
                SessionStatus::Active
            },
        ),
        cwd: None,
        last_message: None,
        notification_type: Some(Seq::empty()),
        notification_message: Some(Seq::empty()),
        agent_pid: None,
        parent_session_id: None,
    }
}

/// Applies a delivered permission decision to the session, once the shell
/// has signalled the waiting handler.
pub fn apply_respond_decision(
    tracker: &mut SessionTracker,
    session_id: &str,
    d: PermissionDecisionKind,
    now: u64,
)
    requires
        spec_ids_unique(old(tracker)@.sessions),
    ensures
        spec_ids_unique(final(tracker)@.sessions),
        spec_lookup(final(tracker)@.sessions, session_id@) == Some(
            spec_apply_update(
                spec_signal_base(old(tracker)@.sessions, session_id@, now),
                spec_respond_update(d),
                now,
            ),
        ),
        forall|k: Seq<char>|
            k != session_id@ ==> #[trigger] spec_lookup(final(tracker)@.sessions, k)
                == spec_lookup(old(tracker)@.sessions, k),
{
    let upd = SessionUpdate {
        status: Some(
            if matches!(d, PermissionDecisionKind::Deny) {
                SessionStatus::Waiting
            } else {
                SessionStatus::Active
            },
        ),
        cwd: None,
        last_message: None,
        notification_type: Some(String::new()),
        notification_message: Some(String::new()),
        agent_pid: None,
        parent_session_id: None,
    };
    tracker.update(session_id, upd, now);
}

} // verus!
