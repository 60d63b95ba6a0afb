//! Human-readable event messages, as they go to the event log, the tray and
//! the push channels.

use vstd::prelude::*;
use crate::chars::{chars_to_string, push_lit, str_to_chars};
use crate::protocol::{event_name, spec_event_name, HookEvent};

verus! {

/// The first `keep` characters and an ellipsis when the text is longer
/// than `max`; otherwise the text itself.
pub open spec fn spec_truncated(s: Seq<char>, max: int, keep: int) -> Seq<char> {
    if s.len() > max {
        s.take(keep) + "..."@
    } else {
        s
    }
}

/// Truncates to `keep` characters plus an ellipsis when longer than
/// `max`.
pub fn truncated(s: &str, max: usize, keep: usize) -> (r: Vec<char>)
    requires
        keep <= max,
    ensures
        r@ == spec_truncated(s@, max as int, keep as int),
{
    let v = str_to_chars(s);
    if v.len() > max {
        let mut out: Vec<char> = Vec::new();
        let mut i: usize = 0;
        while i < keep
            invariant
                i <= keep,
                keep <= v@.len(),
                v@ == s@,
                out@ == s@.take(i as int),
            decreases keep - i,
        {
            out.push(v[i]);
            proof {
                assert(s@.take((i + 1) as int) =~= s@.take(i as int).push(s@[i as int]));
            }
            i += 1;
        }
        push_lit(&mut out, "...");
        out
    } else {
        v
    }
}

/// The short form of a session id: its first eight characters.
pub open spec fn spec_short_sid(s: Seq<char>) -> Seq<char> {
    if s.len() > 8 {
        s.take(8)
    } else {
        s
    }
}

pub fn short_sid(s: &str) -> (r: Vec<char>)
    ensures
        r@ == spec_short_sid(s@),
{
    let v = str_to_chars(s);
    if v.len() > 8 {
        let mut out: Vec<char> = Vec::new();
        let mut i: usize = 0;
        while i < 8
            invariant
                i <= 8,
                8 <= v@.len(),
                v@ == s@,
                out@ == s@.take(i as int),
            decreases 8 - i,
        {
            out.push(v[i]);
            proof {
                assert(s@.take((i + 1) as int) =~= s@.take(i as int).push(s@[i as int]));
            }
            i += 1;
        }
        out
    } else {
        v
    }
}

/// The logged message of an event, given the short session id and the
/// payload fields.
pub open spec fn spec_event_message(
    e: HookEvent,
    sid: Seq<char>,
    cwd: Seq<char>,
    ntype: Seq<char>,
    nmsg: Seq<char>,
    last_msg: Seq<char>,
    model: Seq<char>,
) -> Seq<char> {
    match e {
        HookEvent::Stop => "[Done] "@ + sid + "\n"@ + cwd + "\n"@ + spec_truncated(
            last_msg,
            300,
            297,
        ),
        HookEvent::Notification => if ntype == "permission_prompt"@ {
            "[Confirm] "@ + sid + "\n"@ + nmsg
        } else if ntype == "idle_prompt"@ {
            "[Idle] "@ + sid + " waiting for input"@
        } else {
            "[Notice] "@ + sid + "\n"@ + nmsg
        },
        HookEvent::SessionStart => "[Start] "@ + sid + " | "@ + (if model.len() == 0 {
            "unknown"@
        } else {
            model
        }) + " | "@ + cwd,
        HookEvent::SessionEnd => "[End] "@ + sid,
        _ => "["@ + spec_event_name(e) + "] "@ + sid,
    }
}

/// Formats the human-readable message of an event.
pub fn format_event_message(
    e: HookEvent,
    short_sid_chars: &Vec<char>,
    cwd: &str,
    ntype: &str,
    nmsg: &str,
    last_msg: &str,
    model: &str,
) -> (r: String)
    ensures
        r@ == spec_event_message(e, short_sid_chars@, cwd@, ntype@, nmsg@, last_msg@, model@),
{
    let mut out: Vec<char> = Vec::new();
    match e {
        HookEvent::Stop => {
            push_lit(&mut out, "[Done] ");
            crate::chars::extend_chars(&mut out, short_sid_chars);
            push_lit(&mut out, "\n");
            push_lit(&mut out, cwd);
            push_lit(&mut out, "\n");
            let t = truncated(last_msg, 300, 297);
            crate::chars::extend_chars(&mut out, &t);
        },
        HookEvent::Notification => {
            let ntc = str_to_chars(ntype);
            if crate::chars::chars_eq_str(&ntc, "permission_prompt") {
                push_lit(&mut out, "[Confirm] ");
                crate::chars::extend_chars(&mut out, short_sid_chars);
                push_lit(&mut out, "\n");
                push_lit(&mut out, nmsg);
            } else if crate::chars::chars_eq_str(&ntc, "idle_prompt") {
                push_lit(&mut out, "[Idle] ");
                crate::chars::extend_chars(&mut out, short_sid_chars);
                push_lit(&mut out, " waiting for input");
            } else {
                push_lit(&mut out, "[Notice] ");
                crate::chars::extend_chars(&mut out, short_sid_chars);
                push_lit(&mut out, "\n");
                push_lit(&mut out, nmsg);
            }
        },
        HookEvent::SessionStart => {
            push_lit(&mut out, "[Start] ");
            crate::chars::extend_chars(&mut out, short_sid_chars);
            push_lit(&mut out, " | ");
            if model.unicode_len() == 0 {
                push_lit(&mut out, "unknown");
            } else {
                push_lit(&mut out, model);
            }
            push_lit(&mut out, " | ");
            push_lit(&mut out, cwd);
        },
        HookEvent::SessionEnd => {
            push_lit(&mut out, "[End] ");
            crate::chars::extend_chars(&mut out, short_sid_chars);
        },
        _ => {
            push_lit(&mut out, "[");
            push_lit(&mut out, event_name(e));
            push_lit(&mut out, "] ");
            crate::chars::extend_chars(&mut out, short_sid_chars);
        },
    }
    proof {
        assert(out@ =~= spec_event_message(
            e,
            short_sid_chars@,
            cwd@,
            ntype@,
            nmsg@,
            last_msg@,
            model@,
        ));
    }
    chars_to_string(&out)
}

/// Which toast an event raises, if any.
#[derive(Clone, Copy, Debug, PartialEq, Eq, Structural)]
pub enum ToastKind {
    Done,
    Confirm,
    Idle,
    Notice,
    NoToast,
}

/// The toast an event raises: stop events announce completion,
/// notifications announce what they carry, everything else stays quiet.
pub open spec fn spec_toast_kind(e: HookEvent, ntype: Seq<char>) -> ToastKind {
    match e {
        HookEvent::Stop => ToastKind::Done,
        HookEvent::Notification => if ntype == "permission_prompt"@ {
            ToastKind::Confirm
        } else if ntype == "idle_prompt"@ {
            ToastKind::Idle
        } else {
            ToastKind::Notice
        },
        _ => ToastKind::NoToast,
    }
}

pub fn toast_kind(e: HookEvent, ntype: &str) -> (r: ToastKind)
    ensures
        r == spec_toast_kind(e, ntype@),
{
    match e {
        HookEvent::Stop => ToastKind::Done,
        HookEvent::Notification => {
            let ntc = str_to_chars(ntype);
            if crate::chars::chars_eq_str(&ntc, "permission_prompt") {
                ToastKind::Confirm
            } else if crate::chars::chars_eq_str(&ntc, "idle_prompt") {
                ToastKind::Idle
            } else {
                ToastKind::Notice
            }
        },
        _ => ToastKind::NoToast,
    }
}

} // verus!
