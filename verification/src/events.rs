//! The logged event record and its line format.
//!
//! The event log is a text file with one event per line.  A line is a JSON
//! object with a fixed field order; string values are escaped as in
//! [`crate::jsontext`], timestamps are integer microseconds since the Unix
//! epoch.  The writer and the reader are both verified, and reading a
//! written line gives the event back.

use vstd::prelude::*;
use crate::chars::{chars_to_string, extend_chars, matches_at, push_lit, str_to_chars};
use crate::jsontext::{push_escaped, scan_string, spec_escape, spec_scan_string};
use crate::numtext::{push_u64_chars, scan_u64, spec_scan_u64, spec_u64_str};
use crate::protocol::{
    event_from_name_chars, event_name, spec_event_from_name, spec_event_name, HookEvent,
};

verus! {

/// One entry of the event log.  Immutable once written, except for the bulk
/// `cleared` flip on clear-all.
#[derive(Clone, Debug)]
pub struct Event {
    /// Unique id, of the form `evt_<unix seconds>_<6 hex chars>`.
    pub id: String,
    /// Microseconds since the Unix epoch.
    pub ts: u64,
    pub event: HookEvent,
    pub session_id: String,
    pub cwd: String,
    pub message: String,
    pub notification_type: String,
    pub last_assistant_message: String,
    /// Severity: 1 for lifecycle, 2 for stop, 3 for notification.
    pub level: u8,
    pub cleared: bool,
}

/// The mathematical value of an [`Event`].
#[verifier::ext_equal]
pub ghost struct EventV {
    pub id: Seq<char>,
    pub ts: u64,
    pub event: HookEvent,
    pub session_id: Seq<char>,
    pub cwd: Seq<char>,
    pub message: Seq<char>,
    pub notification_type: Seq<char>,
    pub last_assistant_message: Seq<char>,
    pub level: u8,
    pub cleared: bool,
}

impl View for Event {
    type V = EventV;

    open spec fn view(&self) -> EventV {
        EventV {
            id: self.id@,
            ts: self.ts,
            event: self.event,
            session_id: self.session_id@,
            cwd: self.cwd@,
            message: self.message@,
            notification_type: self.notification_type@,
            last_assistant_message: self.last_assistant_message@,
            level: self.level,
            cleared: self.cleared,
        }
    }
}

/// The text of the `cleared` field with the closing brace.
pub open spec fn spec_cleared_text(cleared: bool) -> Seq<char> {
    if cleared {
        ",\"cleared\":true}"@
    } else {
        ",\"cleared\":false}"@
    }
}

pub open spec fn spec_tail_level(e: EventV) -> Seq<char> {
    ",\"level\":"@ + (spec_u64_str(e.level as nat) + spec_cleared_text(e.cleared))
}

pub open spec fn spec_tail_lam(e: EventV) -> Seq<char> {
    ",\"last_assistant_message\":\""@ + (spec_escape(e.last_assistant_message) + seq!['"']
        + spec_tail_level(e))
}

pub open spec fn spec_tail_nt(e: EventV) -> Seq<char> {
    ",\"notification_type\":\""@ + (spec_escape(e.notification_type) + seq!['"'] + spec_tail_lam(
        e,
    ))
}

pub open spec fn spec_tail_msg(e: EventV) -> Seq<char> {
    ",\"message\":\""@ + (spec_escape(e.message) + seq!['"'] + spec_tail_nt(e))
}

pub open spec fn spec_tail_cwd(e: EventV) -> Seq<char> {
    ",\"cwd\":\""@ + (spec_escape(e.cwd) + seq!['"'] + spec_tail_msg(e))
}

pub open spec fn spec_tail_sid(e: EventV) -> Seq<char> {
    ",\"session_id\":\""@ + (spec_escape(e.session_id) + seq!['"'] + spec_tail_cwd(e))
}

pub open spec fn spec_tail_event(e: EventV) -> Seq<char> {
    ",\"event\":\""@ + (spec_escape(spec_event_name(e.event)) + seq!['"'] + spec_tail_sid(e))
}

pub open spec fn spec_tail_ts(e: EventV) -> Seq<char> {
    ",\"ts\":"@ + (spec_u64_str(e.ts as nat) + spec_tail_event(e))
}

/// The canonical log line of an event (without the trailing newline).
pub open spec fn spec_event_line(e: EventV) -> Seq<char> {
    "{\"id\":\""@ + (spec_escape(e.id) + seq!['"'] + spec_tail_ts(e))
}

/// Renders an event as its canonical log line.
#[verifier::rlimit(100)]
pub fn event_to_line(e: &Event) -> (r: String)
    ensures
        r@ == spec_event_line(e@),
{
    let mut out: Vec<char> = Vec::new();
    push_lit(&mut out, "{\"id\":\"");
    let idc = str_to_chars(e.id.as_str());
    push_escaped(&mut out, &idc);
    out.push('"');
    push_lit(&mut out, ",\"ts\":");
    push_u64_chars(&mut out, e.ts);
    push_lit(&mut out, ",\"event\":\"");
    let namec = str_to_chars(event_name(e.event));
    push_escaped(&mut out, &namec);
    out.push('"');
    push_lit(&mut out, ",\"session_id\":\"");
    let sidc = str_to_chars(e.session_id.as_str());
    push_escaped(&mut out, &sidc);
    out.push('"');
    push_lit(&mut out, ",\"cwd\":\"");
    let cwdc = str_to_chars(e.cwd.as_str());
    push_escaped(&mut out, &cwdc);
    out.push('"');
    push_lit(&mut out, ",\"message\":\"");
    let msgc = str_to_chars(e.message.as_str());
    push_escaped(&mut out, &msgc);
    out.push('"');
    push_lit(&mut out, ",\"notification_type\":\"");
    let ntc = str_to_chars(e.notification_type.as_str());
    push_escaped(&mut out, &ntc);
    out.push('"');
    push_lit(&mut out, ",\"last_assistant_message\":\"");
    let lamc = str_to_chars(e.last_assistant_message.as_str());
    push_escaped(&mut out, &lamc);
    out.push('"');
    push_lit(&mut out, ",\"level\":");
    push_u64_chars(&mut out, e.level as u64);
    if e.cleared {
        push_lit(&mut out, ",\"cleared\":true}");
    } else {
        push_lit(&mut out, ",\"cleared\":false}");
    }
    proof {
        assert(out@ =~= spec_event_line(e@));
    }
    chars_to_string(&out)
}

/// Consumes the literal `lit` off the front of `s`.
pub open spec fn spec_expect(s: Seq<char>, lit: Seq<char>) -> Option<Seq<char>> {
    if lit.len() <= s.len() && s.take(lit.len() as int) == lit {
        Some(s.skip(lit.len() as int))
    } else {
        None
    }
}

/// Expecting a literal off the front of its own concatenation succeeds.
pub proof fn lemma_expect_concat(lit: Seq<char>, rest: Seq<char>)
    ensures
        spec_expect(lit + rest, lit) == Some(rest),
{
    let s = lit + rest;
    assert(s.take(lit.len() as int) =~= lit);
    assert(s.skip(lit.len() as int) =~= rest);
}

/// Reads an event off a canonical log line.  The steps mirror the pieces of
/// [`spec_event_line`]; any mismatch gives `None`.
pub open spec fn spec_parse_event_line(s: Seq<char>) -> Option<EventV> {
    match spec_expect(s, "{\"id\":\""@) {
        None => None,
        Some(s1) => match spec_scan_string(s1) {
            None => None,
            Some(p_id) => match spec_expect(p_id.1, ",\"ts\":"@) {
                None => None,
                Some(s2) => match spec_scan_u64(s2) {
                    None => None,
                    Some(p_ts) => match spec_expect(p_ts.1, ",\"event\":\""@) {
                        None => None,
                        Some(s3) => match spec_scan_string(s3) {
                            None => None,
                            Some(p_ev) => match spec_expect(p_ev.1, ",\"session_id\":\""@) {
                                None => None,
                                Some(s4) => match spec_scan_string(s4) {
                                    None => None,
                                    Some(p_sid) => spec_parse_tail(p_id.0, p_ts.0, p_ev.0, p_sid.0, p_sid.1),
                                },
                            },
                        },
                    },
                },
            },
        },
    }
}

/// The second half of the line: cwd, message, notification type, last
/// assistant message, level, cleared.
pub open spec fn spec_parse_tail(
    id: Seq<char>,
    ts: u64,
    ev_name: Seq<char>,
    sid: Seq<char>,
    rest: Seq<char>,
) -> Option<EventV> {
    match spec_expect(rest, ",\"cwd\":\""@) {
        None => None,
        Some(s5) => match spec_scan_string(s5) {
            None => None,
            Some(p_cwd) => match spec_expect(p_cwd.1, ",\"message\":\""@) {
                None => None,
                Some(s6) => match spec_scan_string(s6) {
                    None => None,
                    Some(p_msg) => match spec_expect(p_msg.1, ",\"notification_type\":\""@) {
                        None => None,
                        Some(s7) => match spec_scan_string(s7) {
                            None => None,
                            Some(p_nt) => match spec_expect(
                                p_nt.1,
                                ",\"last_assistant_message\":\""@,
                            ) {
                                None => None,
                                Some(s8) => match spec_scan_string(s8) {
                                    None => None,
                                    Some(p_lam) => match spec_expect(p_lam.1, ",\"level\":"@) {
                                        None => None,
                                        Some(s9) => match spec_scan_u64(s9) {
                                            None => None,
                                            Some(p_lv) => if p_lv.0 > 255 {
                                                None
                                            } else {
                                                spec_parse_cleared(
                                                    id,
                                                    ts,
                                                    ev_name,
                                                    sid,
                                                    p_cwd.0,
                                                    p_msg.0,
                                                    p_nt.0,
                                                    p_lam.0,
                                                    p_lv.0 as u8,
                                                    p_lv.1,
                                                )
                                            },
                                        },
                                    },
                                },
                            },
                        },
                    },
                },
            },
        },
    }
}

/// The final `cleared` field and the closing brace.
pub open spec fn spec_parse_cleared(
    id: Seq<char>,
    ts: u64,
    ev_name: Seq<char>,
    sid: Seq<char>,
    cwd: Seq<char>,
    msg: Seq<char>,
    nt: Seq<char>,
    lam: Seq<char>,
    level: u8,
    rest: Seq<char>,
) -> Option<EventV> {
    match spec_expect(rest, ",\"cleared\":true}"@) {
        Some(t) => if t.len() == 0 {
            Some(
                EventV {
                    id,
                    ts,
                    event: spec_event_from_name(ev_name),
                    session_id: sid,
                    cwd,
                    message: msg,
                    notification_type: nt,
                    last_assistant_message: lam,
                    level,
                    cleared: true,
                },
            )
        } else {
            None
        },
        None => match spec_expect(rest, ",\"cleared\":false}"@) {
            Some(t) => if t.len() == 0 {
                Some(
                    EventV {
                        id,
                        ts,
                        event: spec_event_from_name(ev_name),
                        session_id: sid,
                        cwd,
                        message: msg,
                        notification_type: nt,
                        last_assistant_message: lam,
                        level,
                        cleared: false,
                    },
                )
            } else {
                None
            },
            None => None,
        },
    }
}

/// Consumes a literal at position `at`; gives the position after it.
pub fn expect_lit(v: &Vec<char>, at: usize, lit: &str) -> (r: Option<usize>)
    requires
        at <= v@.len(),
    ensures
        match r {
            Some(j) => {
                &&& at <= j <= v@.len()
                &&& spec_expect(v@.skip(at as int), lit@) == Some(v@.skip(j as int))
            },
            None => spec_expect(v@.skip(at as int), lit@) is None,
        },
{
    let l = str_to_chars(lit);
    if l.len() > v.len() - at {
        proof {
            assert(v@.skip(at as int).len() < lit@.len());
        }
        return None;
    }
    if matches_at(v, &l, at) {
        proof {
            assert(v@.skip(at as int).take(lit@.len() as int) =~= v@.subrange(
                at as int,
                at + lit@.len(),
            ));
            assert(v@.skip(at as int).skip(lit@.len() as int) =~= v@.skip(at + lit@.len()));
        }
        Some(at + l.len())
    } else {
        proof {
            assert(v@.skip(at as int).take(lit@.len() as int) =~= v@.subrange(
                at as int,
                at + lit@.len(),
            ));
        }
        None
    }
}

/// Parses one canonical log line.
pub fn parse_event_line(v: &Vec<char>) -> (r: Option<Event>)
    ensures
        match r {
            Some(ev) => spec_parse_event_line(v@) == Some(ev@),
            None => spec_parse_event_line(v@) is None,
        },
{
    proof {
        assert(v@.skip(0) =~= v@);
    }
    let i = match expect_lit(v, 0, "{\"id\":\"") {
        Some(i) => i,
        None => {
            return None;
        },
    };
    let (idc, i) = match scan_string(v, i) {
        Some(p) => p,
        None => {
            return None;
        },
    };
    let i = match expect_lit(v, i, ",\"ts\":") {
        Some(i) => i,
        None => {
            return None;
        },
    };
    let (ts, i) = match scan_u64(v, i) {
        Some(p) => p,
        None => {
            return None;
        },
    };
    let i = match expect_lit(v, i, ",\"event\":\"") {
        Some(i) => i,
        None => {
            return None;
        },
    };
    let (namec, i) = match scan_string(v, i) {
        Some(p) => p,
        None => {
            return None;
        },
    };
    let i = match expect_lit(v, i, ",\"session_id\":\"") {
        Some(i) => i,
        None => {
            return None;
        },
    };
    let (sidc, i) = match scan_string(v, i) {
        Some(p) => p,
        None => {
            return None;
        },
    };
    let i = match expect_lit(v, i, ",\"cwd\":\"") {
        Some(i) => i,
        None => {
            return None;
        },
    };
    let (cwdc, i) = match scan_string(v, i) {
        Some(p) => p,
        None => {
            return None;
        },
    };
    let i = match expect_lit(v, i, ",\"message\":\"") {
        Some(i) => i,
        None => {
            return None;
        },
    };
    let (msgc, i) = match scan_string(v, i) {
        Some(p) => p,
        None => {
            return None;
        },
    };
    let i = match expect_lit(v, i, ",\"notification_type\":\"") {
        Some(i) => i,
        None => {
            return None;
        },
    };
    let (ntc, i) = match scan_string(v, i) {
        Some(p) => p,
        None => {
            return None;
        },
    };
    let i = match expect_lit(v, i, ",\"last_assistant_message\":\"") {
        Some(i) => i,
        None => {
            return None;
        },
    };
    let (lamc, i) = match scan_string(v, i) {
        Some(p) => p,
        None => {
            return None;
        },
    };
    let i = match expect_lit(v, i, ",\"level\":") {
        Some(i) => i,
        None => {
            return None;
        },
    };
    let (lv, i) = match scan_u64(v, i) {
        Some(p) => p,
        None => {
            return None;
        },
    };
    if lv > 255 {
        return None;
    }
    let (cleared, i) = match expect_lit(v, i, ",\"cleared\":true}") {
        Some(j) => (true, j),
        None => match expect_lit(v, i, ",\"cleared\":false}") {
            Some(j) => (false, j),
            None => {
                return None;
            },
        },
    };
    if i != v.len() {
        proof {
            assert(v@.skip(i as int).len() != 0);
        }
        return None;
    }
    proof {
        assert(v@.skip(i as int).len() == 0);
    }
    let ev = Event {
        id: chars_to_string(&idc),
        ts,
        event: event_from_name_chars(&namec),
        session_id: chars_to_string(&sidc),
        cwd: chars_to_string(&cwdc),
        message: chars_to_string(&msgc),
        notification_type: chars_to_string(&ntc),
        last_assistant_message: chars_to_string(&lamc),
        level: lv as u8,
        cleared,
    };
    Some(ev)
}

/// Parsing a written line gives the event back: the line format loses
/// nothing.
/// After the level's digits the next character is a comma, so the digit scan
/// stops there.
proof fn lemma_cleared_boundary(cleared: bool)
    ensures
        spec_cleared_text(cleared).len() > 0,
        !crate::numtext::is_digit(spec_cleared_text(cleared)[0]),
{
    reveal_strlit(",\"cleared\":true}");
    reveal_strlit(",\"cleared\":false}");
    assert(",\"cleared\":true}"@[0] == ',');
    assert(",\"cleared\":false}"@[0] == ',');
}

/// Reading the `cleared` field off its own text gives the flag back.
proof fn lemma_parse_cleared_round_trip(e: EventV)
    ensures
        spec_parse_cleared(
            e.id,
            e.ts,
            spec_event_name(e.event),
            e.session_id,
            e.cwd,
            e.message,
            e.notification_type,
            e.last_assistant_message,
            e.level,
            spec_cleared_text(e.cleared),
        ) == Some(e),
{
    let t = spec_cleared_text(e.cleared);
    crate::protocol::lemma_event_name_round_trip(e.event);
    if e.cleared {
        lemma_expect_concat(",\"cleared\":true}"@, Seq::<char>::empty());
        assert(t =~= ",\"cleared\":true}"@ + Seq::<char>::empty());
    } else {
        reveal_strlit(",\"cleared\":true}");
        reveal_strlit(",\"cleared\":false}");
        assert(",\"cleared\":true}"@.len() == 16);
        assert(",\"cleared\":false}"@.len() == 17);
        assert(",\"cleared\":true}"@[11] == 't');
        assert(",\"cleared\":false}"@[11] == 'f');
        assert(spec_expect(t, ",\"cleared\":true}"@) is None) by {
            if spec_expect(t, ",\"cleared\":true}"@) is Some {
                assert(t.take(16)[11] == t[11]);
            }
        }
        lemma_expect_concat(",\"cleared\":false}"@, Seq::<char>::empty());
        assert(t =~= ",\"cleared\":false}"@ + Seq::<char>::empty());
    }
    assert(spec_parse_cleared(
        e.id,
        e.ts,
        spec_event_name(e.event),
        e.session_id,
        e.cwd,
        e.message,
        e.notification_type,
        e.last_assistant_message,
        e.level,
        t,
    ) matches Some(p) && p =~= e);
}

/// Parsing a written line gives the event back: the line format loses
/// nothing.
#[verifier::rlimit(100)]
pub proof fn lemma_event_line_round_trip(e: EventV)
    ensures
        spec_parse_event_line(spec_event_line(e)) == Some(e),
{
    let line = spec_event_line(e);

    // id
    lemma_expect_concat("{\"id\":\""@, spec_escape(e.id) + seq!['"'] + spec_tail_ts(e));
    crate::jsontext::lemma_scan_escape(e.id, spec_tail_ts(e));

    // ts
    lemma_expect_concat(",\"ts\":"@, spec_u64_str(e.ts as nat) + spec_tail_event(e));
    crate::numtext::lemma_u64_str_digits(e.ts as nat);
    crate::numtext::lemma_u64_str_val(e.ts as nat);
    reveal_strlit(",\"event\":\"");
    assert(spec_tail_event(e)[0] == ',');
    crate::numtext::lemma_split_digits_concat(spec_u64_str(e.ts as nat), spec_tail_event(e));
    assert(spec_scan_u64(spec_u64_str(e.ts as nat) + spec_tail_event(e)) == Some(
        (e.ts, spec_tail_event(e)),
    ));

    // event name
    lemma_expect_concat(
        ",\"event\":\""@,
        spec_escape(spec_event_name(e.event)) + seq!['"'] + spec_tail_sid(e),
    );
    crate::jsontext::lemma_scan_escape(spec_event_name(e.event), spec_tail_sid(e));

    // session id
    lemma_expect_concat(
        ",\"session_id\":\""@,
        spec_escape(e.session_id) + seq!['"'] + spec_tail_cwd(e),
    );
    crate::jsontext::lemma_scan_escape(e.session_id, spec_tail_cwd(e));

    // cwd
    lemma_expect_concat(",\"cwd\":\""@, spec_escape(e.cwd) + seq!['"'] + spec_tail_msg(e));
    crate::jsontext::lemma_scan_escape(e.cwd, spec_tail_msg(e));

    // message
    lemma_expect_concat(",\"message\":\""@, spec_escape(e.message) + seq!['"'] + spec_tail_nt(e));
    crate::jsontext::lemma_scan_escape(e.message, spec_tail_nt(e));

    // notification type
    lemma_expect_concat(
        ",\"notification_type\":\""@,
        spec_escape(e.notification_type) + seq!['"'] + spec_tail_lam(e),
    );
    crate::jsontext::lemma_scan_escape(e.notification_type, spec_tail_lam(e));

    // last assistant message
    lemma_expect_concat(
        ",\"last_assistant_message\":\""@,
        spec_escape(e.last_assistant_message) + seq!['"'] + spec_tail_level(e),
    );
    crate::jsontext::lemma_scan_escape(e.last_assistant_message, spec_tail_level(e));

    // level
    lemma_expect_concat(
        ",\"level\":"@,
        spec_u64_str(e.level as nat) + spec_cleared_text(e.cleared),
    );
    crate::numtext::lemma_u64_str_digits(e.level as nat);
    crate::numtext::lemma_u64_str_val(e.level as nat);
    lemma_cleared_boundary(e.cleared);
    crate::numtext::lemma_split_digits_concat(
        spec_u64_str(e.level as nat),
        spec_cleared_text(e.cleared),
    );
    assert(spec_scan_u64(spec_u64_str(e.level as nat) + spec_cleared_text(e.cleared)) == Some(
        (e.level as u64, spec_cleared_text(e.cleared)),
    ));

    // cleared
    lemma_parse_cleared_round_trip(e);
}


/// An event id: `evt_`, the Unix seconds, `_`, and a six-character random
/// suffix.
pub open spec fn spec_event_id(secs: u64, suffix: Seq<char>) -> Seq<char> {
    "evt_"@ + (crate::numtext::spec_u64_str(secs as nat) + (seq!['_'] + suffix))
}

/// Builds an event id from the Unix seconds and a random suffix.
pub fn make_event_id(secs: u64, suffix: &Vec<char>) -> (r: String)
    ensures
        r@ == spec_event_id(secs, suffix@),
{
    let mut out: Vec<char> = Vec::new();
    crate::chars::push_lit(&mut out, "evt_");
    crate::numtext::push_u64_chars(&mut out, secs);
    out.push('_');
    crate::chars::extend_chars(&mut out, suffix);
    proof {
        assert(out@ =~= spec_event_id(secs, suffix@));
    }
    chars_to_string(&out)
}

/// Two event ids agree only when both the seconds and the suffix agree: the
/// id format loses nothing, so distinct (seconds, suffix) pairs give
/// distinct ids.
pub proof fn lemma_event_id_injective(s1: u64, x1: Seq<char>, s2: u64, x2: Seq<char>)
    requires
        spec_event_id(s1, x1) == spec_event_id(s2, x2),
    ensures
        s1 == s2,
        x1 == x2,
{
    reveal_strlit("evt_");
    let d1 = crate::numtext::spec_u64_str(s1 as nat);
    let d2 = crate::numtext::spec_u64_str(s2 as nat);
    let r1 = seq!['_'] + x1;
    let r2 = seq!['_'] + x2;
    assert(spec_event_id(s1, x1).skip(4) =~= d1 + r1);
    assert(spec_event_id(s2, x2).skip(4) =~= d2 + r2);
    crate::numtext::lemma_u64_str_digits(s1 as nat);
    crate::numtext::lemma_u64_str_digits(s2 as nat);
    assert(!crate::numtext::is_digit(r1[0]));
    assert(!crate::numtext::is_digit(r2[0]));
    crate::numtext::lemma_split_digits_concat(d1, r1);
    crate::numtext::lemma_split_digits_concat(d2, r2);
    assert(d1 + r1 == d2 + r2);
    assert(d1 =~= d2);
    assert(r1 =~= r2);
    crate::numtext::lemma_u64_str_val(s1 as nat);
    crate::numtext::lemma_u64_str_val(s2 as nat);
    assert(x1 =~= r1.drop_first());
    assert(x2 =~= r2.drop_first());
}

} // verus!
