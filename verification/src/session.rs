//! The session tracker: an in-memory map from session id to session state,
//! with a dirty flag driving the periodic snapshot write.
//!
//! The tracker never touches the filesystem.  The shell loads the snapshot,
//! hands the entries in, and writes the snapshot that `flush_if_dirty`
//! hands back.

use vstd::prelude::*;
use crate::chars::{spec_starts_with, starts_with_chars, str_to_chars};
use crate::protocol::SessionStatus;

verus! {

/// How long a session may sit untouched before startup demotes it, in
/// microseconds.
pub const STALE_AFTER_US: u64 = 300_000_000;

/// One tracked session.  Timestamps are microseconds since the Unix epoch.
#[derive(Clone, Debug)]
pub struct SessionInfo {
    pub session_id: String,
    pub cwd: String,
    pub model: Option<String>,
    pub status: SessionStatus,
    pub started_at: u64,
    pub updated_at: u64,
    pub last_message: Option<String>,
    pub notification_type: Option<String>,
    pub notification_message: Option<String>,
    pub agent_pid: Option<u32>,
    pub parent_session_id: Option<String>,
}

/// The mathematical value of a [`SessionInfo`].
#[verifier::ext_equal]
pub ghost struct SessionInfoV {
    pub session_id: Seq<char>,
    pub cwd: Seq<char>,
    pub model: Option<Seq<char>>,
    pub status: SessionStatus,
    pub started_at: u64,
    pub updated_at: u64,
    pub last_message: Option<Seq<char>>,
    pub notification_type: Option<Seq<char>>,
    pub notification_message: Option<Seq<char>>,
    pub agent_pid: Option<u32>,
    pub parent_session_id: Option<Seq<char>>,
}

/// The view of an optional string.
pub open spec fn spec_opt_view(o: Option<String>) -> Option<Seq<char>> {
    match o {
        Some(s) => Some(s@),
        None => None,
    }
}

impl View for SessionInfo {
    type V = SessionInfoV;

    open spec fn view(&self) -> SessionInfoV {
        SessionInfoV {
            session_id: self.session_id@,
            cwd: self.cwd@,
            model: spec_opt_view(self.model),
            status: self.status,
            started_at: self.started_at,
            updated_at: self.updated_at,
            last_message: spec_opt_view(self.last_message),
            notification_type: spec_opt_view(self.notification_type),
            notification_message: spec_opt_view(self.notification_message),
            agent_pid: self.agent_pid,
            parent_session_id: spec_opt_view(self.parent_session_id),
        }
    }
}

fn clone_opt_string(o: &Option<String>) -> (r: Option<String>)
    ensures
        spec_opt_view(r) == spec_opt_view(*o),
{
    match o {
        Some(s) => Some(s.clone()),
        None => None,
    }
}

impl SessionInfo {
    /// A field-by-field copy with the same value.
    pub fn duplicate(&self) -> (r: SessionInfo)
        ensures
            r@ == self@,
    {
        SessionInfo {
            session_id: self.session_id.clone(),
            cwd: self.cwd.clone(),
            model: clone_opt_string(&self.model),
            status: self.status,
            started_at: self.started_at,
            updated_at: self.updated_at,
            last_message: clone_opt_string(&self.last_message),
            notification_type: clone_opt_string(&self.notification_type),
            notification_message: clone_opt_string(&self.notification_message),
            agent_pid: self.agent_pid,
            parent_session_id: clone_opt_string(&self.parent_session_id),
        }
    }
}

/// A partial update: only the `Some` fields are applied.
pub struct SessionUpdate {
    pub status: Option<SessionStatus>,
    pub cwd: Option<String>,
    pub last_message: Option<String>,
    pub notification_type: Option<String>,
    pub notification_message: Option<String>,
    pub agent_pid: Option<u32>,
    pub parent_session_id: Option<String>,
}

/// The mathematical value of a [`SessionUpdate`].
#[verifier::ext_equal]
pub ghost struct SessionUpdateV {
    pub status: Option<SessionStatus>,
    pub cwd: Option<Seq<char>>,
    pub last_message: Option<Seq<char>>,
    pub notification_type: Option<Seq<char>>,
    pub notification_message: Option<Seq<char>>,
    pub agent_pid: Option<u32>,
    pub parent_session_id: Option<Seq<char>>,
}

impl View for SessionUpdate {
    type V = SessionUpdateV;

    open spec fn view(&self) -> SessionUpdateV {
        SessionUpdateV {
            status: self.status,
            cwd: spec_opt_view(self.cwd),
            last_message: spec_opt_view(self.last_message),
            notification_type: spec_opt_view(self.notification_type),
            notification_message: spec_opt_view(self.notification_message),
            agent_pid: self.agent_pid,
            parent_session_id: spec_opt_view(self.parent_session_id),
        }
    }
}

impl Default for SessionUpdate {
    /// An update that changes nothing but the update time.
    fn default() -> (r: Self)
        ensures
            r@.status is None,
            r@.cwd is None,
            r@.last_message is None,
            r@.notification_type is None,
            r@.notification_message is None,
            r@.agent_pid is None,
            r@.parent_session_id is None,
    {
        SessionUpdate {
            status: None,
            cwd: None,
            last_message: None,
            notification_type: None,
            notification_message: None,
            agent_pid: None,
            parent_session_id: None,
        }
    }
}

/// The views of a sequence of sessions.
pub open spec fn spec_session_views(s: Seq<SessionInfo>) -> Seq<SessionInfoV> {
    s.map_values(|x: SessionInfo| x@)
}

/// The first entry with this id, if any.
pub open spec fn spec_lookup(s: Seq<SessionInfoV>, id: Seq<char>) -> Option<SessionInfoV>
    decreases s.len(),
{
    if s.len() == 0 {
        None
    } else if s[0].session_id == id {
        Some(s[0])
    } else {
        spec_lookup(s.drop_first(), id)
    }
}

/// No two entries share an id.
pub open spec fn spec_ids_unique(s: Seq<SessionInfoV>) -> bool {
    forall|i: int, j: int|
        0 <= i < j < s.len() ==> (#[trigger] s[i]).session_id != (#[trigger] s[j]).session_id
}

/// Startup demotion of one session: long-untouched active-like sessions go
/// back to idle, with their update time kept, so reconciliation does not
/// take them for fresh.
pub open spec fn spec_demote_one(s: SessionInfoV, now: u64) -> SessionInfoV {
    if now - s.updated_at > STALE_AFTER_US && (s.status == SessionStatus::Active || s.status
        == SessionStatus::Waiting || s.status == SessionStatus::Stopped) {
        SessionInfoV { status: SessionStatus::Idle, ..s }
    } else {
        s
    }
}

/// The fresh entry that `register` writes.
pub open spec fn spec_registered(
    id: Seq<char>,
    cwd: Seq<char>,
    model: Option<Seq<char>>,
    agent_pid: Option<u32>,
    now: u64,
) -> SessionInfoV {
    SessionInfoV {
        session_id: id,
        cwd,
        model,
        status: SessionStatus::Idle,
        started_at: now,
        updated_at: now,
        last_message: None,
        notification_type: None,
        notification_message: None,
        agent_pid,
        parent_session_id: None,
    }
}

/// The entry `update` starts from when the id is not yet tracked.
pub open spec fn spec_blank(id: Seq<char>, now: u64) -> SessionInfoV {
    SessionInfoV {
        session_id: id,
        cwd: Seq::empty(),
        model: None,
        status: SessionStatus::Unknown,
        started_at: now,
        updated_at: now,
        last_message: None,
        notification_type: None,
        notification_message: None,
        agent_pid: None,
        parent_session_id: None,
    }
}

/// A partial update applied to an entry; the update time is always bumped.
pub open spec fn spec_apply_update(base: SessionInfoV, u: SessionUpdateV, now: u64) -> SessionInfoV {
    SessionInfoV {
        session_id: base.session_id,
        cwd: if u.cwd is Some {
            u.cwd->0
        } else {
            base.cwd
        },
        model: base.model,
        status: if u.status is Some {
            u.status->0
        } else {
            base.status
        },
        started_at: base.started_at,
        updated_at: now,
        last_message: if u.last_message is Some {
            Some(u.last_message->0)
        } else {
            base.last_message
        },
        notification_type: if u.notification_type is Some {
            Some(u.notification_type->0)
        } else {
            base.notification_type
        },
        notification_message: if u.notification_message is Some {
            Some(u.notification_message->0)
        } else {
            base.notification_message
        },
        agent_pid: if u.agent_pid is Some {
            u.agent_pid
        } else {
            base.agent_pid
        },
        parent_session_id: if u.parent_session_id is Some {
            Some(u.parent_session_id->0)
        } else {
            base.parent_session_id
        },
    }
}

/// The TTL cutoff: `ttl` seconds before `now`, in microseconds, clamped at
/// zero.
pub open spec fn spec_ttl_cutoff(now: u64, ttl_secs: u64) -> int {
    let age = (ttl_secs as int) * 1_000_000;
    if now >= age {
        now - age
    } else {
        0
    }
}

/// The sessions a TTL read returns: updated at or after the cutoff.
pub open spec fn spec_active_sessions(s: Seq<SessionInfoV>, now: u64, ttl_secs: u64) -> Seq<
    SessionInfoV,
> {
    s.filter(|x: SessionInfoV| x.updated_at >= spec_ttl_cutoff(now, ttl_secs))
}

/// What a stale purge keeps: everything but sessions that ended before the
/// cutoff.
pub open spec fn spec_purged(s: Seq<SessionInfoV>, now: u64, ttl_secs: u64) -> Seq<SessionInfoV> {
    s.filter(
        |x: SessionInfoV|
            !(x.status == SessionStatus::Ended && x.updated_at < spec_ttl_cutoff(now, ttl_secs)),
    )
}

/// The ids that start with `prefix`.
pub open spec fn spec_prefix_matches(s: Seq<SessionInfoV>, prefix: Seq<char>) -> Seq<SessionInfoV> {
    s.filter(|x: SessionInfoV| spec_starts_with(x.session_id, prefix))
}

/// The startup demotion pass over a whole snapshot.
pub open spec fn spec_demote_all(s: Seq<SessionInfoV>, now: u64) -> Seq<SessionInfoV> {
    s.map_values(|x: SessionInfoV| spec_demote_one(x, now))
}

/// What loading a snapshot leaves for one id: the first entry with that id,
/// demoted.
pub open spec fn spec_loaded_lookup(
    s: Seq<SessionInfoV>,
    k: Seq<char>,
    now: u64,
) -> Option<SessionInfoV> {
    match spec_lookup(s, k) {
        Some(b) => Some(spec_demote_one(b, now)),
        None => None,
    }
}

/// The session tracker.
pub struct SessionTracker {
    path: String,
    sessions: Vec<SessionInfo>,
    dirty: bool,
}

/// The mathematical value of a [`SessionTracker`].
#[verifier::ext_equal]
pub ghost struct SessionTrackerV {
    pub path: Seq<char>,
    pub sessions: Seq<SessionInfoV>,
    pub dirty: bool,
}

impl View for SessionTracker {
    type V = SessionTrackerV;

    closed spec fn view(&self) -> SessionTrackerV {
        SessionTrackerV {
            path: self.path@,
            sessions: spec_session_views(self.sessions@),
            dirty: self.dirty,
        }
    }
}

proof fn lemma_lookup_push(s: Seq<SessionInfoV>, x: SessionInfoV, k: Seq<char>)
    ensures
        spec_lookup(s.push(x), k) == match spec_lookup(s, k) {
            Some(f) => Some(f),
            None => if x.session_id == k {
                Some(x)
            } else {
                None
            },
        },
    decreases s.len(),
{
    if s.len() == 0 {
        assert(s.push(x)[0] == x);
        assert(s.push(x).drop_first() =~= Seq::<SessionInfoV>::empty());
    } else {
        assert(s.push(x)[0] == s[0]);
        assert(s.push(x).drop_first() =~= s.drop_first().push(x));
        lemma_lookup_push(s.drop_first(), x, k);
    }
}

proof fn lemma_lookup_update(s: Seq<SessionInfoV>, i: int, x: SessionInfoV, k: Seq<char>)
    requires
        0 <= i < s.len(),
        s[i].session_id == x.session_id,
        forall|j: int| 0 <= j < i ==> (#[trigger] s[j]).session_id != x.session_id,
    ensures
        spec_lookup(s.update(i, x), k) == if k == x.session_id {
            Some(x)
        } else {
            spec_lookup(s, k)
        },
    decreases s.len(),
{
    if i == 0 {
        assert(s.update(0, x)[0] == x);
        assert(s.update(0, x).drop_first() =~= s.drop_first());
    } else {
        assert(s.update(i, x)[0] == s[0]);
        assert(s[0].session_id != x.session_id);
        assert(s.update(i, x).drop_first() =~= s.drop_first().update(i - 1, x));
        assert(forall|j: int|
            0 <= j < i - 1 ==> (#[trigger] s.drop_first()[j]).session_id != x.session_id);
        lemma_lookup_update(s.drop_first(), i - 1, x, k);
    }
}

proof fn lemma_lookup_remove(s: Seq<SessionInfoV>, i: int, k: Seq<char>)
    requires
        0 <= i < s.len(),
        forall|j: int| 0 <= j < i ==> (#[trigger] s[j]).session_id != s[i].session_id,
        spec_ids_unique(s),
    ensures
        spec_lookup(s.remove(i), k) == if k == s[i].session_id {
            None
        } else {
            spec_lookup(s, k)
        },
    decreases s.len(),
{
    if i == 0 {
        assert(s.remove(0) =~= s.drop_first());
        if k == s[0].session_id {
            lemma_lookup_absent(s.drop_first(), k);
        }
    } else {
        assert(s.remove(i)[0] == s[0]);
        assert(s.remove(i).drop_first() =~= s.drop_first().remove(i - 1));
        assert(forall|j: int|
            0 <= j < i - 1 ==> (#[trigger] s.drop_first()[j]).session_id != s.drop_first()[i
                - 1].session_id);
        assert(spec_ids_unique(s.drop_first()));
        lemma_lookup_remove(s.drop_first(), i - 1, k);
    }
}

/// An id that no entry carries looks up to nothing.
proof fn lemma_lookup_absent(s: Seq<SessionInfoV>, k: Seq<char>)
    requires
        forall|j: int| 0 <= j < s.len() ==> (#[trigger] s[j]).session_id != k,
    ensures
        spec_lookup(s, k) is None,
    decreases s.len(),
{
    if s.len() > 0 {
        lemma_lookup_absent(s.drop_first(), k);
    }
}

/// Whether some entry carries this id.
fn has_session_id(sessions: &Vec<SessionInfo>, idc: &Vec<char>) -> (r: bool)
    ensures
        r == (spec_lookup(spec_session_views(sessions@), idc@) is Some),
{
    let mut i: usize = 0;
    while i < sessions.len()
        invariant
            i <= sessions@.len(),
            forall|j: int|
                0 <= j < i ==> (#[trigger] spec_session_views(sessions@)[j]).session_id != idc@,
        decreases sessions@.len() - i,
    {
        let sc = str_to_chars(sessions[i].session_id.as_str());
        if crate::chars::chars_eq(&sc, idc) {
            proof {
                lemma_lookup_some(spec_session_views(sessions@), i as int, idc@);
            }
            return true;
        }
        i += 1;
    }
    proof {
        lemma_lookup_absent(spec_session_views(sessions@), idc@);
    }
    false
}

/// An entry with the id makes the lookup succeed.
proof fn lemma_lookup_some(s: Seq<SessionInfoV>, i: int, k: Seq<char>)
    requires
        0 <= i < s.len(),
        s[i].session_id == k,
    ensures
        spec_lookup(s, k) is Some,
    decreases i,
{
    if s[0].session_id == k {
    } else {
        assert(s.drop_first()[i - 1] == s[i]);
        lemma_lookup_some(s.drop_first(), i - 1, k);
    }
}

/// When nothing looks up, no entry carries the id.
proof fn lemma_lookup_none_absent(s: Seq<SessionInfoV>, k: Seq<char>)
    requires
        spec_lookup(s, k) is None,
    ensures
        forall|j: int| 0 <= j < s.len() ==> (#[trigger] s[j]).session_id != k,
    decreases s.len(),
{
    if s.len() > 0 {
        lemma_lookup_none_absent(s.drop_first(), k);
        assert forall|j: int| 0 <= j < s.len() implies (#[trigger] s[j]).session_id != k by {
            if j > 0 {
                assert(s.drop_first()[j - 1] == s[j]);
            }
        }
    }
}

/// Demotion keeps ids, so it commutes with the lookup.
proof fn lemma_lookup_demoted(s: Seq<SessionInfoV>, now: u64, k: Seq<char>)
    ensures
        spec_lookup(spec_demote_all(s, now), k) == spec_loaded_lookup(s, k, now),
    decreases s.len(),
{
    if s.len() > 0 {
        assert(spec_demote_all(s, now)[0] == spec_demote_one(s[0], now));
        assert(spec_demote_all(s, now).drop_first() =~= spec_demote_all(s.drop_first(), now));
        lemma_lookup_demoted(s.drop_first(), now, k);
    } else {
        assert(spec_demote_all(s, now).len() == 0);
    }
}

/// A found entry stands in the sequence.
proof fn lemma_lookup_present(s: Seq<SessionInfoV>, k: Seq<char>)
    requires
        spec_lookup(s, k) is Some,
    ensures
        exists|j: int|
            0 <= j < s.len() && (#[trigger] s[j]).session_id == k && spec_lookup(s, k) == Some(
                s[j],
            ),
    decreases s.len(),
{
    if s.len() > 0 {
        if s[0].session_id == k {
        } else {
            lemma_lookup_present(s.drop_first(), k);
            let j = choose|j: int|
                0 <= j < s.drop_first().len() && (#[trigger] s.drop_first()[j]).session_id == k
                    && spec_lookup(s.drop_first(), k) == Some(s.drop_first()[j]);
            assert(s[j + 1] == s.drop_first()[j]);
        }
    }
}

impl SessionTracker {
    /// Builds the tracker from the loaded snapshot and runs the startup
    /// demotion pass.  The tracker starts dirty exactly when the pass
    /// changed something.
    pub fn new(path: String, loaded: Vec<SessionInfo>, now: u64) -> (r: SessionTracker)
        ensures
            r@.path == path@,
            spec_ids_unique(r@.sessions),
            forall|k: Seq<char>| #[trigger]
                spec_lookup(r@.sessions, k) == spec_loaded_lookup(
                    spec_session_views(loaded@),
                    k,
                    now,
                ),
            r@.dirty == (r@.sessions != spec_session_views(loaded@)),
    {
        let ghost lv = spec_session_views(loaded@);

        // First pass: keep the first entry of every id, so the tracker's
        // map invariant holds whatever the snapshot file held.
        let mut uniq: Vec<SessionInfo> = Vec::new();
        let mut dropped = false;
        let mut i: usize = 0;
        proof {
            assert(spec_session_views(uniq@) =~= Seq::<SessionInfoV>::empty());
            assert(lv.take(0) =~= Seq::<SessionInfoV>::empty());
        }
        while i < loaded.len()
            invariant
                i <= loaded@.len(),
                lv == spec_session_views(loaded@),
                spec_ids_unique(spec_session_views(uniq@)),
                uniq@.len() <= i,
                dropped == (uniq@.len() < i),
                forall|k: Seq<char>| #[trigger]
                    spec_lookup(spec_session_views(uniq@), k) == spec_lookup(
                        lv.take(i as int),
                        k,
                    ),
                !dropped ==> spec_session_views(uniq@) == lv.take(i as int),
            decreases loaded@.len() - i,
        {
            let ghost uv = spec_session_views(uniq@);
            let ghost x = loaded@[i as int]@;
            proof {
                assert(lv.take((i + 1) as int) =~= lv.take(i as int).push(x));
            }
            let idc = str_to_chars(loaded[i].session_id.as_str());
            if has_session_id(&uniq, &idc) {
                dropped = true;
                proof {
                    assert(spec_lookup(uv, x.session_id) is Some);
                    assert forall|k: Seq<char>| true implies #[trigger] spec_lookup(uv, k)
                        == spec_lookup(lv.take((i + 1) as int), k) by {
                        lemma_lookup_push(lv.take(i as int), x, k);
                        if spec_lookup(lv.take(i as int), k) is None && k == x.session_id {
                            assert(spec_lookup(uv, k) is None);
                            assert(false);
                        }
                    }
                }
            } else {
                proof {
                    assert(spec_lookup(uv, x.session_id) is None);
                    lemma_lookup_none_absent(uv, x.session_id);
                    lemma_lookup_push_all(uv, x);
                    assert forall|k: Seq<char>| true implies #[trigger] spec_lookup(
                        uv.push(x),
                        k,
                    ) == spec_lookup(lv.take((i + 1) as int), k) by {
                        lemma_lookup_push(uv, x, k);
                        lemma_lookup_push(lv.take(i as int), x, k);
                    }
                }
                uniq.push(loaded[i].duplicate());
                proof {
                    assert(spec_session_views(uniq@) =~= uv.push(x));
                }
            }
            i += 1;
        }
        proof {
            assert(lv.take(lv.len() as int) =~= lv);
        }

        // Second pass: the startup demotion.
        let mut sessions = uniq;
        let mut cleaned = false;
        let ghost orig = spec_session_views(sessions@);
        let mut j: usize = 0;
        while j < sessions.len()
            invariant
                j <= sessions@.len(),
                sessions@.len() == orig.len(),
                forall|m: int|
                    0 <= m < j ==> (#[trigger] sessions@[m])@ == spec_demote_one(orig[m], now),
                forall|m: int| j <= m < sessions@.len() ==> (#[trigger] sessions@[m])@ == orig[m],
                cleaned == exists|m: int|
                    0 <= m < j && #[trigger] spec_demote_one(orig[m], now) != orig[m],
            decreases sessions@.len() - j,
        {
            let stale = now.saturating_sub(sessions[j].updated_at) > STALE_AFTER_US;
            let demote = stale && (matches!(sessions[j].status, SessionStatus::Active)
                || matches!(sessions[j].status, SessionStatus::Waiting)
                || matches!(sessions[j].status, SessionStatus::Stopped));
            if demote {
                let mut e = sessions[j].duplicate();
                e.status = SessionStatus::Idle;
                sessions.set(j, e);
                cleaned = true;
                proof {
                    assert(spec_demote_one(orig[j as int], now) != orig[j as int]);
                }
            } else {
                proof {
                    assert(spec_demote_one(orig[j as int], now) == orig[j as int]);
                }
            }
            j += 1;
        }
        let r = SessionTracker { path, sessions, dirty: dropped || cleaned };
        proof {
            assert(r@.sessions =~= spec_demote_all(orig, now));
            assert forall|a: int, b: int| 0 <= a < b < r@.sessions.len() implies (
            #[trigger] r@.sessions[a]).session_id != (#[trigger] r@.sessions[b]).session_id by {
                assert(orig[a].session_id != orig[b].session_id);
            }
            assert forall|k: Seq<char>| true implies #[trigger] spec_lookup(r@.sessions, k)
                == spec_loaded_lookup(lv, k, now) by {
                lemma_lookup_demoted(orig, now, k);
            }
            if dropped {
                assert(r@.sessions.len() < lv.len());
            } else if cleaned {
                let m = choose|m: int|
                    0 <= m < orig.len() && #[trigger] spec_demote_one(orig[m], now) != orig[m];
                assert(orig == lv);
                assert(r@.sessions[m] != lv[m]);
            } else {
                assert(r@.sessions =~= orig);
                assert(orig == lv);
            }
        }
        r
    }

    /// The path of the snapshot file.
    pub fn path(&self) -> (r: &String)
        ensures
            r@ == self@.path,
    {
        &self.path
    }

    /// Whether the state has changed since the last flush.
    pub fn is_dirty(&self) -> (r: bool)
        ensures
            r == self@.dirty,
    {
        self.dirty
    }

    /// The tracked sessions, in insertion order.
    pub fn sessions(&self) -> (r: &Vec<SessionInfo>)
        ensures
            spec_session_views(r@) == self@.sessions,
    {
        &self.sessions
    }

    /// Finds the index of an id in the backing vector.
    fn find_index(&self, session_id: &str) -> (r: Option<usize>)
        ensures
            match r {
                Some(i) => {
                    &&& i < self.sessions@.len()
                    &&& self@.sessions[i as int].session_id == session_id@
                    &&& forall|j: int|
                        0 <= j < i ==> (#[trigger] self@.sessions[j]).session_id != session_id@
                },
                None => forall|j: int|
                    0 <= j < self@.sessions.len() ==> (#[trigger] self@.sessions[j]).session_id
                        != session_id@,
            },
    {
        let idc = str_to_chars(session_id);
        let mut i: usize = 0;
        while i < self.sessions.len()
            invariant
                i <= self.sessions@.len(),
                idc@ == session_id@,
                forall|j: int|
                    0 <= j < i ==> (#[trigger] spec_session_views(self.sessions@)[j]).session_id
                        != session_id@,
            decreases self.sessions@.len() - i,
        {
            let sc = str_to_chars(self.sessions[i].session_id.as_str());
            if crate::chars::chars_eq(&sc, &idc) {
                return Some(i);
            }
            i += 1;
        }
        None
    }

    /// Registers (or re-registers) a session: fresh idle entry, timestamps
    /// set to now.
    pub fn register(
        &mut self,
        session_id: &str,
        cwd: &str,
        model: Option<&str>,
        agent_pid: Option<u32>,
        now: u64,
    )
        requires
            spec_ids_unique(old(self)@.sessions),
        ensures
            spec_ids_unique(final(self)@.sessions),
            spec_lookup(final(self)@.sessions, session_id@) == Some(
                spec_registered(
                    session_id@,
                    cwd@,
                    match model {
                        Some(m) => Some(m@),
                        None => None,
                    },
                    agent_pid,
                    now,
                ),
            ),
            forall|k: Seq<char>|
                k != session_id@ ==> #[trigger] spec_lookup(final(self)@.sessions, k)
                    == spec_lookup(old(self)@.sessions, k),
            final(self)@.dirty,
            final(self)@.path == old(self)@.path,
    {
        let info = SessionInfo {
            session_id: session_id.to_owned(),
            cwd: cwd.to_owned(),
            model: match model {
                Some(m) => Some(m.to_owned()),
                None => None,
            },
            status: SessionStatus::Idle,
            started_at: now,
            updated_at: now,
            last_message: None,
            notification_type: None,
            notification_message: None,
            agent_pid,
            parent_session_id: None,
        };
        self.upsert(info);
    }

    /// Inserts or replaces the entry with `info`'s id.
    fn upsert(&mut self, info: SessionInfo)
        requires
            spec_ids_unique(old(self)@.sessions),
        ensures
            spec_ids_unique(final(self)@.sessions),
            spec_lookup(final(self)@.sessions, info@.session_id) == Some(info@),
            forall|k: Seq<char>|
                k != info@.session_id ==> #[trigger] spec_lookup(final(self)@.sessions, k)
                    == spec_lookup(old(self)@.sessions, k),
            final(self)@.dirty,
            final(self)@.path == old(self)@.path,
    {
        let found = self.find_index(info.session_id.as_str());
        match found {
            Some(i) => {
                proof {
                    lemma_lookup_update_all(
                        spec_session_views(self.sessions@),
                        i as int,
                        info@,
                    );
                }
                self.sessions.set(i, info);
                proof {
                    assert(spec_session_views(self.sessions@) =~= spec_session_views(
                        old(self).sessions@,
                    ).update(found->0 as int, info@));
                }
            },
            None => {
                proof {
                    lemma_lookup_push_all(spec_session_views(self.sessions@), info@);
                    lemma_lookup_absent(spec_session_views(self.sessions@), info@.session_id);
                }
                self.sessions.push(info);
                proof {
                    assert(spec_session_views(self.sessions@) =~= spec_session_views(
                        old(self).sessions@,
                    ).push(self.sessions@[self.sessions@.len() - 1]@));
                }
            },
        }
        self.dirty = true;
    }

    /// Applies a partial update; unknown ids get a blank entry first.  The
    /// entry's update time is bumped to now.
    pub fn update(&mut self, session_id: &str, updates: SessionUpdate, now: u64)
        requires
            spec_ids_unique(old(self)@.sessions),
        ensures
            spec_ids_unique(final(self)@.sessions),
            spec_lookup(final(self)@.sessions, session_id@) == Some(
                spec_apply_update(
                    match spec_lookup(old(self)@.sessions, session_id@) {
                        Some(b) => b,
                        None => spec_blank(session_id@, now),
                    },
                    updates@,
                    now,
                ),
            ),
            forall|k: Seq<char>|
                k != session_id@ ==> #[trigger] spec_lookup(final(self)@.sessions, k)
                    == spec_lookup(old(self)@.sessions, k),
            final(self)@.dirty,
            final(self)@.path == old(self)@.path,
    {
        let found = self.find_index(session_id);
        let base = match found {
            Some(i) => {
                proof {
                    lemma_lookup_index(
                        spec_session_views(self.sessions@),
                        i as int,
                        session_id@,
                    );
                }
                self.sessions[i].duplicate()
            },
            None => {
                proof {
                    lemma_lookup_absent(spec_session_views(self.sessions@), session_id@);
                }
                SessionInfo {
                    session_id: session_id.to_owned(),
                    cwd: String::new(),
                    model: None,
                    status: SessionStatus::Unknown,
                    started_at: now,
                    updated_at: now,
                    last_message: None,
                    notification_type: None,
                    notification_message: None,
                    agent_pid: None,
                    parent_session_id: None,
                }
            },
        };
        let mut e = base;
        if let Some(st) = updates.status {
            e.status = st;
        }
        if let Some(c) = updates.cwd {
            e.cwd = c;
        }
        if let Some(m) = updates.last_message {
            e.last_message = Some(m);
        }
        if let Some(nt) = updates.notification_type {
            e.notification_type = Some(nt);
        }
        if let Some(nm) = updates.notification_message {
            e.notification_message = Some(nm);
        }
        if let Some(p) = updates.agent_pid {
            e.agent_pid = Some(p);
        }
        if let Some(ps) = updates.parent_session_id {
            e.parent_session_id = Some(ps);
        }
        e.updated_at = now;
        self.upsert(e);
    }

    /// The sessions updated within the TTL.
    pub fn get_active(&self, now: u64, ttl_secs: u64) -> (r: Vec<SessionInfo>)
        ensures
            spec_session_views(r@) == spec_active_sessions(self@.sessions, now, ttl_secs),
    {
        let age = match ttl_secs.checked_mul(1_000_000) {
            Some(a) => a,
            None => u64::MAX,
        };
        let cutoff = now.saturating_sub(age);
        proof {
            assert(cutoff == spec_ttl_cutoff(now, ttl_secs));
        }
        let mut out: Vec<SessionInfo> = Vec::new();
        let mut i: usize = 0;
        proof {
            assert(spec_session_views(self.sessions@.take(0)) =~= Seq::<SessionInfoV>::empty());
            lemma_active_empty(now, ttl_secs);
            assert(spec_session_views(out@) =~= Seq::<SessionInfoV>::empty());
        }
        while i < self.sessions.len()
            invariant
                i <= self.sessions@.len(),
                cutoff == spec_ttl_cutoff(now, ttl_secs),
                spec_session_views(out@) == spec_active_sessions(
                    spec_session_views(self.sessions@.take(i as int)),
                    now,
                    ttl_secs,
                ),
            decreases self.sessions@.len() - i,
        {
            let ghost prefix = spec_session_views(self.sessions@.take(i as int));
            let ghost x = self.sessions@[i as int]@;
            proof {
                assert(spec_session_views(self.sessions@.take((i + 1) as int)) =~= prefix.push(x));
                lemma_active_push(prefix, now, ttl_secs, x);
            }
            if self.sessions[i].updated_at >= cutoff {
                let ghost old_views = spec_session_views(out@);
                out.push(self.sessions[i].duplicate());
                proof {
                    assert(spec_session_views(out@) =~= old_views.push(x));
                }
            }
            i += 1;
        }
        proof {
            assert(self.sessions@.take(self.sessions@.len() as int) =~= self.sessions@);
        }
        out
    }

    /// Resolves a short-id prefix: the full id when exactly one tracked id
    /// starts with the prefix, nothing otherwise.
    pub fn resolve_short_id(&self, prefix: &str) -> (r: Option<String>)
        ensures
            match r {
                Some(id) => {
                    &&& spec_prefix_matches(self@.sessions, prefix@).len() == 1
                    &&& id@ == spec_prefix_matches(self@.sessions, prefix@)[0].session_id
                },
                None => spec_prefix_matches(self@.sessions, prefix@).len() != 1,
            },
    {
        let pc = str_to_chars(prefix);
        let mut hit: Option<String> = None;
        let mut count: usize = 0;
        let mut i: usize = 0;
        proof {
            assert(spec_session_views(self.sessions@.take(0)) =~= Seq::<SessionInfoV>::empty());
            lemma_prefix_matches_empty(prefix@);
        }
        while i < self.sessions.len()
            invariant
                i <= self.sessions@.len(),
                pc@ == prefix@,
                count == spec_prefix_matches(
                    spec_session_views(self.sessions@.take(i as int)),
                    prefix@,
                ).len(),
                count > 0 ==> (hit matches Some(id) && id@ == spec_prefix_matches(
                    spec_session_views(self.sessions@.take(i as int)),
                    prefix@,
                )[0].session_id),
                count == 0 ==> hit is None,
                count <= i,
            decreases self.sessions@.len() - i,
        {
            let ghost prefix_seq = spec_session_views(self.sessions@.take(i as int));
            let ghost x = self.sessions@[i as int]@;
            proof {
                assert(spec_session_views(self.sessions@.take((i + 1) as int)) =~= prefix_seq.push(
                    x,
                ));
                lemma_prefix_matches_push(prefix_seq, prefix@, x);
            }
            let sc = str_to_chars(self.sessions[i].session_id.as_str());
            if starts_with_chars(&sc, &pc) {
                if count == 0 {
                    hit = Some(self.sessions[i].session_id.clone());
                }
                count += 1;
            }
            i += 1;
        }
        proof {
            assert(self.sessions@.take(self.sessions@.len() as int) =~= self.sessions@);
        }
        if count == 1 {
            hit
        } else {
            None
        }
    }

    /// Removes a session; the tracker becomes dirty only when something was
    /// removed.
    pub fn remove(&mut self, session_id: &str)
        requires
            spec_ids_unique(old(self)@.sessions),
        ensures
            spec_ids_unique(final(self)@.sessions),
            spec_lookup(final(self)@.sessions, session_id@) is None,
            forall|k: Seq<char>|
                k != session_id@ ==> #[trigger] spec_lookup(final(self)@.sessions, k)
                    == spec_lookup(old(self)@.sessions, k),
            final(self)@.dirty == (old(self)@.dirty || spec_lookup(
                old(self)@.sessions,
                session_id@,
            ) is Some),
            final(self)@.path == old(self)@.path,
    {
        let found = self.find_index(session_id);
        match found {
            Some(i) => {
                proof {
                    lemma_lookup_index(
                        spec_session_views(self.sessions@),
                        i as int,
                        session_id@,
                    );
                    lemma_lookup_remove_all(
                        spec_session_views(self.sessions@),
                        i as int,
                    );
                }
                self.sessions.remove(i);
                self.dirty = true;
                proof {
                    assert(spec_session_views(self.sessions@) =~= spec_session_views(
                        old(self).sessions@,
                    ).remove(found->0 as int));
                }
            },
            None => {
                proof {
                    lemma_lookup_absent(spec_session_views(self.sessions@), session_id@);
                }
            },
        }
    }

    /// Drops sessions that ended before the TTL cutoff; the tracker becomes
    /// dirty only when something was dropped.
    pub fn purge_stale(&mut self, now: u64, ttl_secs: u64)
        requires
            spec_ids_unique(old(self)@.sessions),
        ensures
            spec_ids_unique(final(self)@.sessions),
            final(self)@.sessions == spec_purged(old(self)@.sessions, now, ttl_secs),
            final(self)@.dirty == (old(self)@.dirty || final(self)@.sessions.len() != old(
                self,
            )@.sessions.len()),
            final(self)@.path == old(self)@.path,
    {
        let age = match ttl_secs.checked_mul(1_000_000) {
            Some(a) => a,
            None => u64::MAX,
        };
        let cutoff = now.saturating_sub(age);
        proof {
            assert(cutoff == spec_ttl_cutoff(now, ttl_secs));
        }
        let mut out: Vec<SessionInfo> = Vec::new();
        let mut i: usize = 0;
        proof {
            assert(spec_session_views(self.sessions@.take(0)) =~= Seq::<SessionInfoV>::empty());
            lemma_purged_empty(now, ttl_secs);
            assert(spec_session_views(out@) =~= Seq::<SessionInfoV>::empty());
        }
        while i < self.sessions.len()
            invariant
                i <= self.sessions@.len(),
                cutoff == spec_ttl_cutoff(now, ttl_secs),
                spec_session_views(out@) == spec_purged(
                    spec_session_views(self.sessions@.take(i as int)),
                    now,
                    ttl_secs,
                ),
                out@.len() <= i,
            decreases self.sessions@.len() - i,
        {
            let ghost prefix = spec_session_views(self.sessions@.take(i as int));
            let ghost x = self.sessions@[i as int]@;
            proof {
                assert(spec_session_views(self.sessions@.take((i + 1) as int)) =~= prefix.push(x));
                lemma_purged_push(prefix, now, ttl_secs, x);
            }
            let keep = !(matches!(self.sessions[i].status, SessionStatus::Ended)
                && self.sessions[i].updated_at < cutoff);
            if keep {
                let ghost old_views = spec_session_views(out@);
                out.push(self.sessions[i].duplicate());
                proof {
                    assert(spec_session_views(out@) =~= old_views.push(x));
                }
            }
            i += 1;
        }
        proof {
            assert(self.sessions@.take(self.sessions@.len() as int) =~= self.sessions@);
        }
        if out.len() < self.sessions.len() {
            self.dirty = true;
        }
        proof {
            lemma_purged_unique(spec_session_views(self.sessions@), now, ttl_secs);
            assert(spec_purged(spec_session_views(self.sessions@), now, ttl_secs).len()
                <= self.sessions@.len());
        }
        self.sessions = out;
    }

    /// Takes the snapshot to write when the state has changed since the
    /// last flush: at most one write per dirty transition, and a second
    /// call with no mutation in between hands back nothing.
    pub fn flush_if_dirty(&mut self) -> (r: Option<Vec<SessionInfo>>)
        ensures
            r is Some <==> old(self)@.dirty,
            !final(self)@.dirty,
            final(self)@.sessions == old(self)@.sessions,
            final(self)@.path == old(self)@.path,
            r matches Some(snap) ==> spec_session_views(snap@) == old(self)@.sessions,
    {
        if !self.dirty {
            return None;
        }
        self.dirty = false;
        let mut snap: Vec<SessionInfo> = Vec::new();
        let mut i: usize = 0;
        proof {
            assert(spec_session_views(snap@) =~= Seq::<SessionInfoV>::empty());
            assert(spec_session_views(self.sessions@.take(0)) =~= Seq::<SessionInfoV>::empty());
        }
        while i < self.sessions.len()
            invariant
                i <= self.sessions@.len(),
                spec_session_views(snap@) == spec_session_views(self.sessions@.take(i as int)),
            decreases self.sessions@.len() - i,
        {
            let ghost old_views = spec_session_views(snap@);
            snap.push(self.sessions[i].duplicate());
            proof {
                assert(spec_session_views(snap@) =~= old_views.push(self.sessions@[i as int]@));
                assert(spec_session_views(self.sessions@.take((i + 1) as int))
                    =~= spec_session_views(self.sessions@.take(i as int)).push(
                    self.sessions@[i as int]@,
                ));
            }
            i += 1;
        }
        proof {
            assert(self.sessions@.take(self.sessions@.len() as int) =~= self.sessions@);
        }
        Some(snap)
    }
}

/// Demotion changes the status alone: a stale active-like session comes
/// back idle with its update time untouched.
pub proof fn lemma_startup_demotion(s: SessionInfoV, now: u64)
    requires
        s.status == SessionStatus::Active || s.status == SessionStatus::Waiting || s.status
            == SessionStatus::Stopped,
        now - s.updated_at > STALE_AFTER_US,
    ensures
        spec_demote_one(s, now).status == SessionStatus::Idle,
        spec_demote_one(s, now).updated_at == s.updated_at,
        spec_demote_one(s, now).started_at == s.started_at,
        spec_demote_one(s, now).session_id == s.session_id,
{
}

proof fn lemma_lookup_index(s: Seq<SessionInfoV>, i: int, k: Seq<char>)
    requires
        0 <= i < s.len(),
        s[i].session_id == k,
        forall|j: int| 0 <= j < i ==> (#[trigger] s[j]).session_id != k,
    ensures
        spec_lookup(s, k) == Some(s[i]),
    decreases i,
{
    if i == 0 {
    } else {
        assert(s.drop_first()[i - 1] == s[i]);
        assert(forall|j: int|
            0 <= j < i - 1 ==> (#[trigger] s.drop_first()[j]).session_id != k);
        lemma_lookup_index(s.drop_first(), i - 1, k);
    }
}

proof fn lemma_lookup_update_all(s: Seq<SessionInfoV>, i: int, x: SessionInfoV)
    requires
        0 <= i < s.len(),
        s[i].session_id == x.session_id,
        forall|j: int| 0 <= j < i ==> (#[trigger] s[j]).session_id != x.session_id,
        spec_ids_unique(s),
    ensures
        spec_ids_unique(s.update(i, x)),
        spec_lookup(s.update(i, x), x.session_id) == Some(x),
        forall|k: Seq<char>|
            k != x.session_id ==> #[trigger] spec_lookup(s.update(i, x), k) == spec_lookup(s, k),
{
    assert forall|k: Seq<char>| true implies #[trigger] spec_lookup(s.update(i, x), k) == (if k
        == x.session_id {
        Some(x)
    } else {
        spec_lookup(s, k)
    }) by {
        lemma_lookup_update(s, i, x, k);
    }
    assert forall|a: int, b: int| 0 <= a < b < s.len() implies (#[trigger] s.update(
        i,
        x,
    )[a]).session_id != (#[trigger] s.update(i, x)[b]).session_id by {
        assert(s[a].session_id != s[b].session_id);
    }
}

proof fn lemma_lookup_push_all(s: Seq<SessionInfoV>, x: SessionInfoV)
    requires
        spec_ids_unique(s),
        forall|j: int| 0 <= j < s.len() ==> (#[trigger] s[j]).session_id != x.session_id,
    ensures
        spec_ids_unique(s.push(x)),
        spec_lookup(s.push(x), x.session_id) == Some(x),
        forall|k: Seq<char>|
            k != x.session_id ==> #[trigger] spec_lookup(s.push(x), k) == spec_lookup(s, k),
{
    lemma_lookup_absent(s, x.session_id);
    assert forall|k: Seq<char>| true implies #[trigger] spec_lookup(s.push(x), k) == (if k
        == x.session_id {
        Some(x)
    } else {
        spec_lookup(s, k)
    }) by {
        lemma_lookup_push(s, x, k);
        if k == x.session_id {
            lemma_lookup_absent(s, k);
        }
    }
    assert forall|a: int, b: int| 0 <= a < b < s.push(x).len() implies (#[trigger] s.push(
        x,
    )[a]).session_id != (#[trigger] s.push(x)[b]).session_id by {
        if b < s.len() {
            assert(s[a].session_id != s[b].session_id);
        } else {
            assert(s.push(x)[b] == x);
            assert(s.push(x)[a] == s[a]);
        }
    }
}

proof fn lemma_lookup_remove_all(s: Seq<SessionInfoV>, i: int)
    requires
        0 <= i < s.len(),
        forall|j: int| 0 <= j < i ==> (#[trigger] s[j]).session_id != s[i].session_id,
        spec_ids_unique(s),
    ensures
        spec_ids_unique(s.remove(i)),
        spec_lookup(s.remove(i), s[i].session_id) is None,
        forall|k: Seq<char>|
            k != s[i].session_id ==> #[trigger] spec_lookup(s.remove(i), k) == spec_lookup(s, k),
{
    assert forall|k: Seq<char>| true implies #[trigger] spec_lookup(s.remove(i), k) == (if k
        == s[i].session_id {
        None
    } else {
        spec_lookup(s, k)
    }) by {
        lemma_lookup_remove(s, i, k);
    }
    assert forall|a: int, b: int| 0 <= a < b < s.remove(i).len() implies (#[trigger] s.remove(
        i,
    )[a]).session_id != (#[trigger] s.remove(i)[b]).session_id by {
        let a0 = if a < i {
            a
        } else {
            a + 1
        };
        let b0 = if b < i {
            b
        } else {
            b + 1
        };
        assert(s.remove(i)[a] == s[a0]);
        assert(s.remove(i)[b] == s[b0]);
        assert(s[a0].session_id != s[b0].session_id);
    }
}

proof fn lemma_active_empty(now: u64, ttl_secs: u64)
    ensures
        spec_active_sessions(Seq::<SessionInfoV>::empty(), now, ttl_secs) == Seq::<
            SessionInfoV,
        >::empty(),
{
    reveal_with_fuel(Seq::<SessionInfoV>::filter, 1);
    assert(spec_active_sessions(Seq::<SessionInfoV>::empty(), now, ttl_secs) =~= Seq::<
        SessionInfoV,
    >::empty());
}

proof fn lemma_active_push(s: Seq<SessionInfoV>, now: u64, ttl_secs: u64, x: SessionInfoV)
    ensures
        spec_active_sessions(s.push(x), now, ttl_secs) == if x.updated_at >= spec_ttl_cutoff(
            now,
            ttl_secs,
        ) {
            spec_active_sessions(s, now, ttl_secs).push(x)
        } else {
            spec_active_sessions(s, now, ttl_secs)
        },
{
    reveal_with_fuel(Seq::<SessionInfoV>::filter, 2);
    assert(s.push(x).drop_last() =~= s);
    assert(s.push(x).last() == x);
}

/// A TTL read returns only sessions updated at or after the cutoff: an
/// entry that ended — or did anything at all — more than `ttl` seconds ago
/// is excluded.
pub proof fn lemma_active_sessions_fresh(s: Seq<SessionInfoV>, now: u64, ttl_secs: u64, i: int)
    requires
        0 <= i < spec_active_sessions(s, now, ttl_secs).len(),
    ensures
        spec_active_sessions(s, now, ttl_secs)[i].updated_at >= spec_ttl_cutoff(now, ttl_secs),
{
    broadcast use vstd::seq_lib::group_filter_ensures;

}

proof fn lemma_purged_empty(now: u64, ttl_secs: u64)
    ensures
        spec_purged(Seq::<SessionInfoV>::empty(), now, ttl_secs) == Seq::<SessionInfoV>::empty(),
{
    reveal_with_fuel(Seq::<SessionInfoV>::filter, 1);
    assert(spec_purged(Seq::<SessionInfoV>::empty(), now, ttl_secs) =~= Seq::<
        SessionInfoV,
    >::empty());
}

proof fn lemma_purged_push(s: Seq<SessionInfoV>, now: u64, ttl_secs: u64, x: SessionInfoV)
    ensures
        spec_purged(s.push(x), now, ttl_secs) == if !(x.status == SessionStatus::Ended
            && x.updated_at < spec_ttl_cutoff(now, ttl_secs)) {
            spec_purged(s, now, ttl_secs).push(x)
        } else {
            spec_purged(s, now, ttl_secs)
        },
{
    reveal_with_fuel(Seq::<SessionInfoV>::filter, 2);
    assert(s.push(x).drop_last() =~= s);
    assert(s.push(x).last() == x);
}

proof fn lemma_prefix_matches_empty(p: Seq<char>)
    ensures
        spec_prefix_matches(Seq::<SessionInfoV>::empty(), p) == Seq::<SessionInfoV>::empty(),
{
    reveal_with_fuel(Seq::<SessionInfoV>::filter, 1);
    assert(spec_prefix_matches(Seq::<SessionInfoV>::empty(), p) =~= Seq::<
        SessionInfoV,
    >::empty());
}

proof fn lemma_prefix_matches_push(s: Seq<SessionInfoV>, p: Seq<char>, x: SessionInfoV)
    ensures
        spec_prefix_matches(s.push(x), p) == if spec_starts_with(x.session_id, p) {
            spec_prefix_matches(s, p).push(x)
        } else {
            spec_prefix_matches(s, p)
        },
{
    reveal_with_fuel(Seq::<SessionInfoV>::filter, 2);
    assert(s.push(x).drop_last() =~= s);
    assert(s.push(x).last() == x);
}

/// A purge keeps a subsequence, so ids stay unique.
proof fn lemma_purged_unique(s: Seq<SessionInfoV>, now: u64, ttl_secs: u64)
    requires
        spec_ids_unique(s),
    ensures
        spec_ids_unique(spec_purged(s, now, ttl_secs)),
        spec_purged(s, now, ttl_secs).len() <= s.len(),
    decreases s.len(),
{
    broadcast use vstd::seq_lib::group_filter_ensures;

    let p = spec_purged(s, now, ttl_secs);
    assert forall|a: int, b: int| 0 <= a < b < p.len() implies (#[trigger] p[a]).session_id != (
    #[trigger] p[b]).session_id by {
        lemma_filter_order(
            s,
            |x: SessionInfoV|
                !(x.status == SessionStatus::Ended && x.updated_at < spec_ttl_cutoff(
                    now,
                    ttl_secs,
                )),
            a,
            b,
        );
    }
}

/// Two positions of a filtered sequence come from two distinct positions of
/// the original, in order.
proof fn lemma_filter_order(
    s: Seq<SessionInfoV>,
    pred: spec_fn(SessionInfoV) -> bool,
    a: int,
    b: int,
)
    requires
        0 <= a < b < s.filter(pred).len(),
    ensures
        exists|i: int, j: int|
            0 <= i < j < s.len() && s[i] == #[trigger] s.filter(pred)[a] && s[j]
                == #[trigger] s.filter(pred)[b],
    decreases s.len(),
{
    reveal_with_fuel(Seq::<SessionInfoV>::filter, 2);
    let f = s.filter(pred);
    if s.len() == 0 {
        return ;
    }
    let fd = s.drop_last().filter(pred);
    if pred(s.last()) && b == fd.len() {
        assert(f[b] == s.last());
        lemma_filter_member(s.drop_last(), pred, a);
        let i = choose|i: int|
            0 <= i < s.drop_last().len() && s.drop_last()[i] == #[trigger] s.drop_last().filter(
                pred,
            )[a];
        assert(s[i] == f[a]);
        assert(s[s.len() - 1] == f[b]);
    } else {
        lemma_filter_order(s.drop_last(), pred, a, b);
        let (i, j) = choose|i: int, j: int|
            0 <= i < j < s.drop_last().len() && s.drop_last()[i]
                == #[trigger] s.drop_last().filter(pred)[a] && s.drop_last()[j]
                == s.drop_last().filter(pred)[b];
        assert(s[i] == f[a]);
        assert(s[j] == f[b]);
    }
}

/// Every position of a filtered sequence comes from a position of the
/// original.
proof fn lemma_filter_member(s: Seq<SessionInfoV>, pred: spec_fn(SessionInfoV) -> bool, a: int)
    requires
        0 <= a < s.filter(pred).len(),
    ensures
        exists|i: int| 0 <= i < s.len() && s[i] == #[trigger] s.filter(pred)[a],
    decreases s.len(),
{
    reveal_with_fuel(Seq::<SessionInfoV>::filter, 2);
    if s.len() > 0 {
        let fd = s.drop_last().filter(pred);
        if a < fd.len() {
            lemma_filter_member(s.drop_last(), pred, a);
            let i = choose|i: int| 0 <= i < s.drop_last().len() && s.drop_last()[i] == fd[a];
            assert(s[i] == s.filter(pred)[a]);
        } else {
            assert(s.filter(pred)[a] == s.last());
            assert(s[s.len() - 1] == s.filter(pred)[a]);
        }
    }
}

} // verus!
