//! The append-only event store: an in-memory cache of the event-log file,
//! with cached file metadata so unchanged files are never re-read.
//!
//! The store itself never touches the filesystem.  The surrounding shell
//! reads the file and hands the text in; mutating operations hand back the
//! text (or the one appended line) that must go to disk, together with the
//! new in-memory state.

use vstd::prelude::*;
use crate::chars::{push_lit, str_to_chars};
use crate::events::{
    event_to_line, parse_event_line, spec_event_line, spec_parse_event_line, Event, EventV,
};

verus! {

/// The views of a sequence of events.
pub open spec fn spec_event_views(s: Seq<Event>) -> Seq<EventV> {
    s.map_values(|e: Event| e@)
}

/// The events that a read returns: uncleared, and — when `after` is not
/// zero — strictly newer than `after`.
pub open spec fn spec_get_events(evs: Seq<EventV>, after: u64) -> Seq<EventV> {
    evs.filter(|e: EventV| !e.cleared && (after == 0 || e.ts > after))
}

/// All events flagged as cleared.
pub open spec fn spec_set_cleared(evs: Seq<EventV>) -> Seq<EventV> {
    evs.map_values(
        |e: EventV|
            EventV {
                id: e.id,
                ts: e.ts,
                event: e.event,
                session_id: e.session_id,
                cwd: e.cwd,
                message: e.message,
                notification_type: e.notification_type,
                last_assistant_message: e.last_assistant_message,
                level: e.level,
                cleared: true,
            },
    )
}

/// The compaction cutoff: `max_age` seconds before `now`, in microseconds,
/// clamped at zero.
pub open spec fn spec_cutoff(now: u64, max_age_secs: u64) -> int {
    let age = (max_age_secs as int) * 1_000_000;
    if now >= age {
        now - age
    } else {
        0
    }
}

/// The events that compaction keeps: those at or after the cutoff, in
/// their original order.
pub open spec fn spec_compacted(evs: Seq<EventV>, now: u64, max_age_secs: u64) -> Seq<EventV> {
    evs.filter(|e: EventV| e.ts >= spec_cutoff(now, max_age_secs))
}

/// The full text of the log file holding `evs`, one line per event.
pub open spec fn spec_events_text(evs: Seq<EventV>) -> Seq<char>
    decreases evs.len(),
{
    if evs.len() == 0 {
        Seq::empty()
    } else {
        spec_event_line(evs[0]) + seq!['\n'] + spec_events_text(evs.drop_first())
    }
}

/// What one parsed line contributes to the parse of a file.
pub open spec fn spec_line_events(line: Seq<char>) -> Seq<EventV> {
    match spec_parse_event_line(line) {
        Some(v) => seq![v],
        None => Seq::empty(),
    }
}

/// Reading a file char by char: `cur` is the line being assembled; a
/// newline ends it.  Lines that do not parse are skipped.
pub open spec fn spec_parse_lines_acc(s: Seq<char>, cur: Seq<char>) -> Seq<EventV>
    decreases s.len(),
{
    if s.len() == 0 {
        spec_line_events(cur)
    } else if s[0] == '\n' {
        spec_line_events(cur) + spec_parse_lines_acc(s.drop_first(), Seq::empty())
    } else {
        spec_parse_lines_acc(s.drop_first(), cur.push(s[0]))
    }
}

/// The events a file's text parses to.
pub open spec fn spec_parse_events_text(s: Seq<char>) -> Seq<EventV> {
    spec_parse_lines_acc(s, Seq::empty())
}

/// The event store.  `last_mtime`/`last_size` mirror the metadata of the
/// backing file as of the last read or write-through.
pub struct EventStore {
    path: String,
    max_age: u64,
    events: Vec<Event>,
    last_mtime: Option<u64>,
    last_size: u64,
}

/// The mathematical value of an [`EventStore`].
#[verifier::ext_equal]
pub ghost struct EventStoreV {
    pub path: Seq<char>,
    pub max_age: u64,
    pub events: Seq<EventV>,
    pub last_mtime: Option<u64>,
    pub last_size: u64,
}

impl View for EventStore {
    type V = EventStoreV;

    closed spec fn view(&self) -> EventStoreV {
        EventStoreV {
            path: self.path@,
            max_age: self.max_age,
            events: spec_event_views(self.events@),
            last_mtime: self.last_mtime,
            last_size: self.last_size,
        }
    }
}

impl Event {
    /// A field-by-field copy with the same value.
    pub fn duplicate(&self) -> (r: Event)
        ensures
            r@ == self@,
    {
        Event {
            id: self.id.clone(),
            ts: self.ts,
            event: self.event,
            session_id: self.session_id.clone(),
            cwd: self.cwd.clone(),
            message: self.message.clone(),
            notification_type: self.notification_type.clone(),
            last_assistant_message: self.last_assistant_message.clone(),
            level: self.level,
            cleared: self.cleared,
        }
    }
}

impl EventStore {
    /// A fresh store over the file at `path`; nothing cached yet.
    pub fn new(path: String, max_age: u64) -> (r: EventStore)
        ensures
            r@.path == path@,
            r@.max_age == max_age,
            r@.events == Seq::<EventV>::empty(),
            r@.last_mtime is None,
            r@.last_size == 0,
    {
        let r = EventStore { path, max_age, events: Vec::new(), last_mtime: None, last_size: 0 };
        proof {
            assert(spec_event_views(r.events@) =~= Seq::<EventV>::empty());
        }
        r
    }

    /// The path of the backing file.
    pub fn path(&self) -> (r: &String)
        ensures
            r@ == self@.path,
    {
        &self.path
    }

    /// Whether the cache must be re-read for a file with this metadata.
    pub fn needs_refresh(&self, mtime: Option<u64>, size: u64) -> (r: bool)
        ensures
            r == !(self@.last_mtime == mtime && self@.last_size == size),
    {
        let same_mtime = match (&self.last_mtime, &mtime) {
            (Some(a), Some(b)) => *a == *b,
            (None, None) => true,
            _ => false,
        };
        !(same_mtime && self.last_size == size)
    }

    /// Replaces the cache with the events parsed out of the file's text,
    /// and records the file metadata they were read under.
    pub fn install_cache(&mut self, text: &str, mtime: Option<u64>, size: u64)
        ensures
            final(self)@.events == spec_parse_events_text(text@),
            final(self)@.last_mtime == mtime,
            final(self)@.last_size == size,
            final(self)@.path == old(self)@.path,
            final(self)@.max_age == old(self)@.max_age,
    {
        self.events = parse_events_file(text);
        self.last_mtime = mtime;
        self.last_size = size;
    }

    /// Records the file metadata after a write-through, so the next read is
    /// a cache hit.
    pub fn note_file_state(&mut self, mtime: Option<u64>, size: u64)
        ensures
            final(self)@.last_mtime == mtime,
            final(self)@.last_size == size,
            final(self)@.events == old(self)@.events,
            final(self)@.path == old(self)@.path,
            final(self)@.max_age == old(self)@.max_age,
    {
        self.last_mtime = mtime;
        self.last_size = size;
    }

    /// The uncleared events, newer than `after` when `after` is not zero.
    /// Pure: reads the cache and changes nothing.
    pub fn get_events(&self, after: u64) -> (r: Vec<Event>)
        ensures
            spec_event_views(r@) == spec_get_events(self@.events, after),
    {
        let mut out: Vec<Event> = Vec::new();
        let mut i: usize = 0;
        proof {
            assert(spec_event_views(self.events@.take(0)) =~= Seq::<EventV>::empty());
            lemma_get_events_empty(after);
            assert(spec_event_views(out@) =~= Seq::<EventV>::empty());
        }
        while i < self.events.len()
            invariant
                i <= self.events@.len(),
                spec_event_views(out@) == spec_get_events(
                    spec_event_views(self.events@.take(i as int)),
                    after,
                ),
            decreases self.events@.len() - i,
        {
            let e = &self.events[i];
            let ghost prefix = spec_event_views(self.events@.take(i as int));
            let ghost x = self.events@[i as int]@;
            proof {
                assert(spec_event_views(self.events@.take((i + 1) as int)) =~= prefix.push(x));
                lemma_get_events_push(prefix, after, x);
            }
            if !e.cleared && (after == 0 || e.ts > after) {
                let ghost old_views = spec_event_views(out@);
                out.push(e.duplicate());
                proof {
                    assert(spec_event_views(out@) =~= old_views.push(x));
                }
            }
            i += 1;
        }
        proof {
            assert(self.events@.take(self.events@.len() as int) =~= self.events@);
        }
        out
    }

    /// Appends an event to the cache and gives back the line (with its
    /// newline) that must be appended to the file.
    pub fn append_event(&mut self, e: Event) -> (line: String)
        ensures
            final(self)@.events == old(self)@.events.push(e@),
            line@ == spec_event_line(e@) + seq!['\n'],
            final(self)@.last_mtime == old(self)@.last_mtime,
            final(self)@.last_size == old(self)@.last_size,
            final(self)@.path == old(self)@.path,
            final(self)@.max_age == old(self)@.max_age,
    {
        let mut out: Vec<char> = Vec::new();
        let text = event_to_line(&e);
        push_lit(&mut out, text.as_str());
        out.push('\n');
        let line = crate::chars::chars_to_string(&out);
        self.events.push(e);
        proof {
            assert(spec_event_views(self.events@) =~= spec_event_views(old(self).events@).push(
                self.events@[self.events@.len() - 1]@,
            ));
            assert(line@ =~= spec_event_line(self.events@[self.events@.len() - 1]@)
                + seq!['\n']);
        }
        line
    }

    /// Flags every cached event as cleared and gives back the full text the
    /// file must be rewritten with.
    pub fn clear_all(&mut self) -> (text: String)
        ensures
            final(self)@.events == spec_set_cleared(old(self)@.events),
            text@ == spec_events_text(final(self)@.events),
            spec_get_events(final(self)@.events, 0) == Seq::<EventV>::empty(),
            final(self)@.path == old(self)@.path,
            final(self)@.max_age == old(self)@.max_age,
    {
        let mut i: usize = 0;
        while i < self.events.len()
            invariant
                i <= self.events@.len(),
                self.events@.len() == old(self).events@.len(),
                forall|j: int|
                    0 <= j < i ==> #[trigger] self.events@[j]@ == spec_set_cleared(
                        spec_event_views(old(self).events@),
                    )[j],
                forall|j: int|
                    i <= j < self.events@.len() ==> #[trigger] self.events@[j]@ == old(
                        self,
                    ).events@[j]@,
                self.path@ == old(self).path@,
                self.max_age == old(self).max_age,
                self.last_mtime == old(self).last_mtime,
                self.last_size == old(self).last_size,
            decreases self.events@.len() - i,
        {
            let mut e = self.events[i].duplicate();
            e.cleared = true;
            self.events.set(i, e);
            i += 1;
        }
        proof {
            assert(spec_event_views(self.events@) =~= spec_set_cleared(
                spec_event_views(old(self).events@),
            ));
            lemma_cleared_filter_empty(spec_event_views(self.events@));
        }
        events_text(&self.events)
    }

    /// Drops every cached event older than the store's age bound and gives
    /// back the text the file must be rewritten with.  Order is preserved.
    pub fn compact(&mut self, now: u64) -> (text: String)
        ensures
            final(self)@.events == spec_compacted(old(self)@.events, now, old(self)@.max_age),
            text@ == spec_events_text(final(self)@.events),
            final(self)@.path == old(self)@.path,
            final(self)@.max_age == old(self)@.max_age,
    {
        let age = match self.max_age.checked_mul(1_000_000) {
            Some(a) => a,
            None => u64::MAX,
        };
        let cutoff = now.saturating_sub(age);
        proof {
            assert(cutoff == spec_cutoff(now, self.max_age));
        }
        let mut out: Vec<Event> = Vec::new();
        let mut i: usize = 0;
        proof {
            assert(spec_event_views(self.events@.take(0)) =~= Seq::<EventV>::empty());
            lemma_compacted_empty(now, self.max_age);
            assert(spec_event_views(out@) =~= Seq::<EventV>::empty());
        }
        while i < self.events.len()
            invariant
                i <= self.events@.len(),
                cutoff == spec_cutoff(now, self.max_age),
                spec_event_views(out@) == spec_compacted(
                    spec_event_views(self.events@.take(i as int)),
                    now,
                    self.max_age,
                ),
            decreases self.events@.len() - i,
        {
            let e = &self.events[i];
            let ghost prefix = spec_event_views(self.events@.take(i as int));
            let ghost x = self.events@[i as int]@;
            proof {
                assert(spec_event_views(self.events@.take((i + 1) as int)) =~= prefix.push(x));
                lemma_compacted_push(prefix, now, self.max_age, x);
            }
            if e.ts >= cutoff {
                let ghost old_views = spec_event_views(out@);
                out.push(e.duplicate());
                proof {
                    assert(spec_event_views(out@) =~= old_views.push(x));
                }
            }
            i += 1;
        }
        proof {
            assert(self.events@.take(self.events@.len() as int) =~= self.events@);
        }
        let text = events_text(&out);
        self.events = out;
        text
    }
}

/// Every event that a read returns is uncleared: cleared entries never come
/// back.
pub proof fn lemma_get_events_uncleared(evs: Seq<EventV>, after: u64, i: int)
    requires
        0 <= i < spec_get_events(evs, after).len(),
    ensures
        !spec_get_events(evs, after)[i].cleared,
        after != 0 ==> spec_get_events(evs, after)[i].ts > after,
{
    broadcast use vstd::seq_lib::group_filter_ensures;
}

/// An empty cache reads back empty.
proof fn lemma_get_events_empty(after: u64)
    ensures
        spec_get_events(Seq::<EventV>::empty(), after) == Seq::<EventV>::empty(),
{
    reveal_with_fuel(Seq::<EventV>::filter, 1);
    assert(spec_get_events(Seq::<EventV>::empty(), after) =~= Seq::<EventV>::empty());
}

/// One event more in the cache: the read grows exactly when the event
/// passes the read's test.
proof fn lemma_get_events_push(evs: Seq<EventV>, after: u64, x: EventV)
    ensures
        spec_get_events(evs.push(x), after) == if !x.cleared && (after == 0 || x.ts > after) {
            spec_get_events(evs, after).push(x)
        } else {
            spec_get_events(evs, after)
        },
{
    reveal_with_fuel(Seq::<EventV>::filter, 2);
    assert(evs.push(x).drop_last() =~= evs);
    assert(evs.push(x).last() == x);
}

proof fn lemma_compacted_empty(now: u64, max_age_secs: u64)
    ensures
        spec_compacted(Seq::<EventV>::empty(), now, max_age_secs) == Seq::<EventV>::empty(),
{
    reveal_with_fuel(Seq::<EventV>::filter, 1);
    assert(spec_compacted(Seq::<EventV>::empty(), now, max_age_secs)
        =~= Seq::<EventV>::empty());
}

proof fn lemma_compacted_push(evs: Seq<EventV>, now: u64, max_age_secs: u64, x: EventV)
    ensures
        spec_compacted(evs.push(x), now, max_age_secs) == if x.ts >= spec_cutoff(
            now,
            max_age_secs,
        ) {
            spec_compacted(evs, now, max_age_secs).push(x)
        } else {
            spec_compacted(evs, now, max_age_secs)
        },
{
    reveal_with_fuel(Seq::<EventV>::filter, 2);
    assert(evs.push(x).drop_last() =~= evs);
    assert(evs.push(x).last() == x);
}

/// Filtering an all-cleared sequence for uncleared events gives nothing.
proof fn lemma_cleared_filter_empty(evs: Seq<EventV>)
    requires
        forall|i: int| 0 <= i < evs.len() ==> (#[trigger] evs[i]).cleared,
    ensures
        spec_get_events(evs, 0) == Seq::<EventV>::empty(),
    decreases evs.len(),
{
    if evs.len() == 0 {
        lemma_get_events_empty(0);
    } else {
        assert(forall|i: int|
            0 <= i < evs.drop_last().len() ==> (#[trigger] evs.drop_last()[i]).cleared);
        lemma_cleared_filter_empty(evs.drop_last());
        assert(evs.last().cleared);
        assert(evs =~= evs.drop_last().push(evs.last()));
        lemma_get_events_push(evs.drop_last(), 0, evs.last());
    }
}

/// Renders the full file text: one line per event, each ending in a
/// newline.
pub fn events_text(events: &Vec<Event>) -> (r: String)
    ensures
        r@ == spec_events_text(spec_event_views(events@)),
{
    let mut out: Vec<char> = Vec::new();
    let mut i: usize = 0;
    proof {
        assert(spec_event_views(events@.take(0)) =~= Seq::<EventV>::empty());
        assert(spec_events_text(Seq::<EventV>::empty()) =~= Seq::<char>::empty());
    }
    while i < events.len()
        invariant
            i <= events@.len(),
            out@ == spec_events_text(spec_event_views(events@.take(i as int))),
        decreases events@.len() - i,
    {
        let line = event_to_line(&events[i]);
        push_lit(&mut out, line.as_str());
        out.push('\n');
        proof {
            assert(spec_event_views(events@.take((i + 1) as int)) =~= spec_event_views(
                events@.take(i as int),
            ).push(events@[i as int]@));
            lemma_events_text_push(spec_event_views(events@.take(i as int)), events@[i as int]@);
            assert(out@ =~= spec_events_text(spec_event_views(events@.take((i + 1) as int))));
        }
        i += 1;
    }
    proof {
        assert(events@.take(events@.len() as int) =~= events@);
    }
    crate::chars::chars_to_string(&out)
}

/// Appending one event to the file appends its line.
proof fn lemma_events_text_push(evs: Seq<EventV>, e: EventV)
    ensures
        spec_events_text(evs.push(e)) =~= spec_events_text(evs) + spec_event_line(e)
            + seq!['\n'],
    decreases evs.len(),
{
    if evs.len() == 0 {
        assert(evs.push(e)[0] == e);
        assert(evs.push(e).drop_first() =~= Seq::<EventV>::empty());
        assert(spec_events_text(Seq::<EventV>::empty()) =~= Seq::<char>::empty());
        assert(spec_events_text(evs) =~= Seq::<char>::empty());
    } else {
        assert(evs.push(e)[0] == evs[0]);
        assert(evs.push(e).drop_first() =~= evs.drop_first().push(e));
        lemma_events_text_push(evs.drop_first(), e);
    }
}

/// Parses a whole file's text; unparsable or empty lines are skipped.
pub fn parse_events_file(text: &str) -> (r: Vec<Event>)
    ensures
        spec_event_views(r@) == spec_parse_events_text(text@),
{
    let v = str_to_chars(text);
    let n = v.len();
    let mut out: Vec<Event> = Vec::new();
    let mut cur: Vec<char> = Vec::new();
    let mut i: usize = 0;
    proof {
        assert(v@.skip(0) =~= v@);
        assert(spec_event_views(out@) =~= Seq::<EventV>::empty());
        assert(Seq::<EventV>::empty() + spec_parse_lines_acc(v@, Seq::<char>::empty())
            =~= spec_parse_lines_acc(v@, Seq::<char>::empty()));
        assert(cur@ =~= Seq::<char>::empty());
    }
    while i < n
        invariant
            i <= n,
            n == v@.len(),
            v@ == text@,
            spec_parse_events_text(text@) == spec_event_views(out@) + spec_parse_lines_acc(
                v@.skip(i as int),
                cur@,
            ),
        decreases n - i,
    {
        let c = v[i];
        proof {
            assert(v@.skip(i as int)[0] == v@[i as int]);
            assert(v@.skip(i as int).drop_first() =~= v@.skip((i + 1) as int));
        }
        if c == '\n' {
            let parsed = parse_event_line(&cur);
            let ghost old_out = spec_event_views(out@);
            match parsed {
                Some(ev) => {
                    proof {
                        assert(spec_line_events(cur@) =~= seq![ev@]);
                    }
                    out.push(ev);
                    proof {
                        assert(spec_event_views(out@) =~= old_out.push(
                            out@[out@.len() - 1]@,
                        ));
                        assert(old_out + (spec_line_events(cur@) + spec_parse_lines_acc(
                            v@.skip((i + 1) as int),
                            Seq::<char>::empty(),
                        )) =~= spec_event_views(out@) + spec_parse_lines_acc(
                            v@.skip((i + 1) as int),
                            Seq::<char>::empty(),
                        ));
                    }
                },
                None => {
                    proof {
                        assert(spec_line_events(cur@) =~= Seq::<EventV>::empty());
                        assert(old_out + (spec_line_events(cur@) + spec_parse_lines_acc(
                            v@.skip((i + 1) as int),
                            Seq::<char>::empty(),
                        )) =~= spec_event_views(out@) + spec_parse_lines_acc(
                            v@.skip((i + 1) as int),
                            Seq::<char>::empty(),
                        ));
                    }
                },
            }
            cur = Vec::new();
            proof {
                assert(cur@ =~= Seq::<char>::empty());
            }
        } else {
            cur.push(c);
        }
        i += 1;
    }
    proof {
        assert(v@.skip(n as int) =~= Seq::<char>::empty());
    }
    let parsed = parse_event_line(&cur);
    let ghost old_out = spec_event_views(out@);
    match parsed {
        Some(ev) => {
            proof {
                assert(spec_line_events(cur@) =~= seq![ev@]);
            }
            out.push(ev);
            proof {
                assert(spec_event_views(out@) =~= old_out.push(out@[out@.len() - 1]@));
                assert(old_out + spec_line_events(cur@) =~= spec_event_views(out@));
            }
        },
        None => {
            proof {
                assert(spec_line_events(cur@) =~= Seq::<EventV>::empty());
                assert(old_out + spec_line_events(cur@) =~= spec_event_views(out@));
            }
        },
    }
    out
}


/// No newline anywhere in `s`.
pub open spec fn no_newline(s: Seq<char>) -> bool {
    forall|i: int| 0 <= i < s.len() ==> s[i] != '\n'
}

proof fn lemma_no_newline_concat(a: Seq<char>, b: Seq<char>)
    requires
        no_newline(a),
        no_newline(b),
    ensures
        no_newline(a + b),
{
    assert forall|i: int| 0 <= i < (a + b).len() implies (a + b)[i] != '\n' by {
        if i < a.len() {
            assert((a + b)[i] == a[i]);
        } else {
            assert((a + b)[i] == b[i - a.len()]);
        }
    }
}

proof fn lemma_escape_no_newline(s: Seq<char>)
    ensures
        no_newline(crate::jsontext::spec_escape(s)),
    decreases s.len(),
{
    if s.len() == 0 {
    } else {
        lemma_escape_no_newline(s.drop_first());
        assert(no_newline(crate::jsontext::esc_char(s[0]))) by {
            let e = crate::jsontext::esc_char(s[0]);
            assert forall|i: int| 0 <= i < e.len() implies e[i] != '\n' by {
                if crate::jsontext::needs_escape(s[0]) {
                    assert(e[0] == '\\');
                    assert(e[1] == crate::jsontext::escape_code(s[0]));
                } else {
                    assert(e[0] == s[0]);
                }
            }
        }
        lemma_no_newline_concat(
            crate::jsontext::esc_char(s[0]),
            crate::jsontext::spec_escape(s.drop_first()),
        );
    }
}

proof fn lemma_digits_no_newline(s: Seq<char>)
    requires
        crate::numtext::all_digits(s),
    ensures
        no_newline(s),
{
    assert forall|i: int| 0 <= i < s.len() implies s[i] != '\n' by {
        assert(crate::numtext::is_digit(s[i]));
    }
}

/// A rendered event line holds no raw newline: newlines inside the fields
/// are escaped, so one event is one line.
pub proof fn lemma_event_line_no_newline(e: EventV)
    ensures
        no_newline(spec_event_line(e)),
{
    reveal_strlit("{\"id\":\"");
    reveal_strlit(",\"ts\":");
    reveal_strlit(",\"event\":\"");
    reveal_strlit(",\"session_id\":\"");
    reveal_strlit(",\"cwd\":\"");
    reveal_strlit(",\"message\":\"");
    reveal_strlit(",\"notification_type\":\"");
    reveal_strlit(",\"last_assistant_message\":\"");
    reveal_strlit(",\"level\":");
    reveal_strlit(",\"cleared\":true}");
    reveal_strlit(",\"cleared\":false}");
    reveal_strlit("user_prompt");
    reveal_strlit("pre_tool");
    reveal_strlit("stop");
    reveal_strlit("notification");
    reveal_strlit("session_start");
    reveal_strlit("session_end");
    reveal_strlit("permission_request");
    reveal_strlit("unknown");
    lemma_escape_no_newline(e.id);
    lemma_escape_no_newline(e.session_id);
    lemma_escape_no_newline(e.cwd);
    lemma_escape_no_newline(e.message);
    lemma_escape_no_newline(e.notification_type);
    lemma_escape_no_newline(e.last_assistant_message);
    lemma_escape_no_newline(crate::protocol::spec_event_name(e.event));
    crate::numtext::lemma_u64_str_digits(e.ts as nat);
    lemma_digits_no_newline(crate::numtext::spec_u64_str(e.ts as nat));
    crate::numtext::lemma_u64_str_digits(e.level as nat);
    lemma_digits_no_newline(crate::numtext::spec_u64_str(e.level as nat));
    let q = seq!['\"'];
    assert(no_newline(q)) by {
        assert(q[0] == '\"');
    }
    assert forall|i: int|
        0 <= i < spec_event_line(e).len() implies spec_event_line(e)[i] != '\n' by {
        lemma_line_parts_no_newline(e);
    }
}

proof fn lemma_line_parts_no_newline(e: EventV)
    requires
        no_newline(crate::jsontext::spec_escape(e.id)),
        no_newline(crate::jsontext::spec_escape(e.session_id)),
        no_newline(crate::jsontext::spec_escape(e.cwd)),
        no_newline(crate::jsontext::spec_escape(e.message)),
        no_newline(crate::jsontext::spec_escape(e.notification_type)),
        no_newline(crate::jsontext::spec_escape(e.last_assistant_message)),
        no_newline(crate::jsontext::spec_escape(crate::protocol::spec_event_name(e.event))),
        no_newline(crate::numtext::spec_u64_str(e.ts as nat)),
        no_newline(crate::numtext::spec_u64_str(e.level as nat)),
        no_newline("{\"id\":\""@),
        no_newline(",\"ts\":"@),
        no_newline(",\"event\":\""@),
        no_newline(",\"session_id\":\""@),
        no_newline(",\"cwd\":\""@),
        no_newline(",\"message\":\""@),
        no_newline(",\"notification_type\":\""@),
        no_newline(",\"last_assistant_message\":\""@),
        no_newline(",\"level\":"@),
        no_newline(crate::events::spec_cleared_text(e.cleared)),
        no_newline(seq!['\"']),
    ensures
        no_newline(spec_event_line(e)),
{
    lemma_no_newline_concat(
        crate::numtext::spec_u64_str(e.level as nat),
        crate::events::spec_cleared_text(e.cleared),
    );
    lemma_no_newline_concat(
        ",\"level\":"@,
        crate::numtext::spec_u64_str(e.level as nat) + crate::events::spec_cleared_text(e.cleared),
    );
    lemma_no_newline_concat(
        crate::jsontext::spec_escape(e.last_assistant_message),
        seq!['\"'],
    );
    lemma_no_newline_concat(
        crate::jsontext::spec_escape(e.last_assistant_message) + seq!['\"'],
        crate::events::spec_tail_level(e),
    );
    lemma_no_newline_concat(
        ",\"last_assistant_message\":\""@,
        crate::jsontext::spec_escape(e.last_assistant_message) + seq!['\"']
            + crate::events::spec_tail_level(e),
    );
    lemma_no_newline_concat(crate::jsontext::spec_escape(e.notification_type), seq!['\"']);
    lemma_no_newline_concat(
        crate::jsontext::spec_escape(e.notification_type) + seq!['\"'],
        crate::events::spec_tail_lam(e),
    );
    lemma_no_newline_concat(
        ",\"notification_type\":\""@,
        crate::jsontext::spec_escape(e.notification_type) + seq!['\"']
            + crate::events::spec_tail_lam(e),
    );
    lemma_no_newline_concat(crate::jsontext::spec_escape(e.message), seq!['\"']);
    lemma_no_newline_concat(
        crate::jsontext::spec_escape(e.message) + seq!['\"'],
        crate::events::spec_tail_nt(e),
    );
    lemma_no_newline_concat(
        ",\"message\":\""@,
        crate::jsontext::spec_escape(e.message) + seq!['\"'] + crate::events::spec_tail_nt(e),
    );
    lemma_no_newline_concat(crate::jsontext::spec_escape(e.cwd), seq!['\"']);
    lemma_no_newline_concat(
        crate::jsontext::spec_escape(e.cwd) + seq!['\"'],
        crate::events::spec_tail_msg(e),
    );
    lemma_no_newline_concat(
        ",\"cwd\":\""@,
        crate::jsontext::spec_escape(e.cwd) + seq!['\"'] + crate::events::spec_tail_msg(e),
    );
    lemma_no_newline_concat(crate::jsontext::spec_escape(e.session_id), seq!['\"']);
    lemma_no_newline_concat(
        crate::jsontext::spec_escape(e.session_id) + seq!['\"'],
        crate::events::spec_tail_cwd(e),
    );
    lemma_no_newline_concat(
        ",\"session_id\":\""@,
        crate::jsontext::spec_escape(e.session_id) + seq!['\"']
            + crate::events::spec_tail_cwd(e),
    );
    lemma_no_newline_concat(
        crate::jsontext::spec_escape(crate::protocol::spec_event_name(e.event)),
        seq!['\"'],
    );
    lemma_no_newline_concat(
        crate::jsontext::spec_escape(crate::protocol::spec_event_name(e.event)) + seq!['\"'],
        crate::events::spec_tail_sid(e),
    );
    lemma_no_newline_concat(
        ",\"event\":\""@,
        crate::jsontext::spec_escape(crate::protocol::spec_event_name(e.event)) + seq!['\"']
            + crate::events::spec_tail_sid(e),
    );
    lemma_no_newline_concat(
        crate::numtext::spec_u64_str(e.ts as nat),
        crate::events::spec_tail_event(e),
    );
    lemma_no_newline_concat(
        ",\"ts\":"@,
        crate::numtext::spec_u64_str(e.ts as nat) + crate::events::spec_tail_event(e),
    );
    lemma_no_newline_concat(crate::jsontext::spec_escape(e.id), seq!['\"']);
    lemma_no_newline_concat(
        crate::jsontext::spec_escape(e.id) + seq!['\"'],
        crate::events::spec_tail_ts(e),
    );
    lemma_no_newline_concat(
        "{\"id\":\""@,
        crate::jsontext::spec_escape(e.id) + seq!['\"'] + crate::events::spec_tail_ts(e),
    );
}

/// Reading a newline-free line followed by a newline closes exactly that
/// line and goes on with the rest.
proof fn lemma_acc_consume_line(line: Seq<char>, rest: Seq<char>, cur: Seq<char>)
    requires
        no_newline(line),
    ensures
        spec_parse_lines_acc(line + (seq!['\n'] + rest), cur) == spec_line_events(cur + line)
            + spec_parse_lines_acc(rest, Seq::empty()),
    decreases line.len(),
{
    let s = line + (seq!['\n'] + rest);
    if line.len() == 0 {
        assert(s =~= seq!['\n'] + rest);
        assert(s[0] == '\n');
        assert(s.drop_first() =~= rest);
        assert(cur + line =~= cur);
    } else {
        assert(s[0] == line[0]);
        assert(line[0] != '\n');
        assert(s.drop_first() =~= line.drop_first() + (seq!['\n'] + rest));
        lemma_acc_consume_line(line.drop_first(), rest, cur.push(line[0]));
        assert(cur.push(line[0]) + line.drop_first() =~= cur + line);
    }
}

/// The file round trip: the text that the store writes parses back to
/// exactly the events it held, in order.
pub proof fn lemma_events_text_round_trip(evs: Seq<EventV>)
    ensures
        spec_parse_events_text(spec_events_text(evs)) == evs,
    decreases evs.len(),
{
    if evs.len() == 0 {
        reveal_strlit("{\"id\":\"");
        assert(spec_events_text(evs) =~= Seq::<char>::empty());
        assert(crate::events::spec_parse_event_line(Seq::<char>::empty()) is None) by {
            assert("{\"id\":\""@.len() == 7);
        }
        assert(spec_parse_events_text(Seq::<char>::empty()) =~= Seq::<EventV>::empty());
    } else {
        let line = spec_event_line(evs[0]);
        let rest_text = spec_events_text(evs.drop_first());
        assert(spec_events_text(evs) =~= line + (seq!['\n'] + rest_text));
        lemma_event_line_no_newline(evs[0]);
        lemma_acc_consume_line(line, rest_text, Seq::<char>::empty());
        assert(Seq::<char>::empty() + line =~= line);
        crate::events::lemma_event_line_round_trip(evs[0]);
        assert(spec_line_events(line) =~= seq![evs[0]]);
        lemma_events_text_round_trip(evs.drop_first());
        assert(seq![evs[0]] + evs.drop_first() =~= evs);
    }
}

/// After clear-all: a read returns nothing, every entry carries
/// `cleared`, and the rewritten file reparses to exactly those cleared
/// entries.
pub proof fn lemma_clear_all_round_trip(evs: Seq<EventV>)
    ensures
        spec_get_events(spec_set_cleared(evs), 0) == Seq::<EventV>::empty(),
        forall|i: int|
            0 <= i < spec_set_cleared(evs).len() ==> (#[trigger] spec_set_cleared(
                evs,
            )[i]).cleared,
        spec_parse_events_text(spec_events_text(spec_set_cleared(evs))) == spec_set_cleared(evs),
{
    assert(forall|i: int|
        0 <= i < spec_set_cleared(evs).len() ==> (#[trigger] spec_set_cleared(
            evs,
        )[i]).cleared);
    lemma_cleared_filter_empty(spec_set_cleared(evs));
    lemma_events_text_round_trip(spec_set_cleared(evs));
}

} // verus!
