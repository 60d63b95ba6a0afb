//! Reconciliation of the OS process snapshot with the tracked sessions, and
//! the overall state computed from the merged list.
//!
//! Matching is two-phase: first by normalized working directory, then —
//! for processes still unmatched — by pairing with the most recently
//! updated unmatched session, since a running process proves the session
//! lives while the scanner's directory is unreliable.  Processes with no
//! session (phantoms) and sessions with no process (stale) are dropped.

use vstd::prelude::*;
use crate::chars::{chars_eq, spec_lower_char, str_to_chars};
use crate::protocol::SessionStatus;
use crate::session::{spec_ids_unique, spec_session_views, SessionInfo, SessionInfoV};

verus! {

/// One scanned agent process.  `create_time` is microseconds since the
/// Unix epoch.
#[derive(Clone, Debug)]
pub struct ProcessInfo {
    pub pid: u32,
    pub name: String,
    pub agent_type: String,
    pub cwd: String,
    pub uptime: u64,
    pub create_time: u64,
}

/// The mathematical value of a [`ProcessInfo`].
#[verifier::ext_equal]
pub ghost struct ProcessInfoV {
    pub pid: u32,
    pub name: Seq<char>,
    pub agent_type: Seq<char>,
    pub cwd: Seq<char>,
    pub uptime: u64,
    pub create_time: u64,
}

impl View for ProcessInfo {
    type V = ProcessInfoV;

    open spec fn view(&self) -> ProcessInfoV {
        ProcessInfoV {
            pid: self.pid,
            name: self.name@,
            agent_type: self.agent_type@,
            cwd: self.cwd@,
            uptime: self.uptime,
            create_time: self.create_time,
        }
    }
}

impl ProcessInfo {
    /// A field-by-field copy with the same value.
    pub fn duplicate(&self) -> (r: ProcessInfo)
        ensures
            r@ == self@,
    {
        ProcessInfo {
            pid: self.pid,
            name: self.name.clone(),
            agent_type: self.agent_type.clone(),
            cwd: self.cwd.clone(),
            uptime: self.uptime,
            create_time: self.create_time,
        }
    }
}

/// The status shown for a merged row.
#[derive(Clone, Copy, Debug, PartialEq, Eq, Structural)]
pub enum MergedStatus {
    Waiting,
    Stopped,
    Active,
}

/// The wire name of a merged status.
pub open spec fn spec_merged_status_name(s: MergedStatus) -> Seq<char> {
    match s {
        MergedStatus::Waiting => "waiting"@,
        MergedStatus::Stopped => "stopped"@,
        MergedStatus::Active => "active"@,
    }
}

pub fn merged_status_name(s: MergedStatus) -> (r: &'static str)
    ensures
        r@ == spec_merged_status_name(s),
{
    match s {
        MergedStatus::Waiting => "waiting",
        MergedStatus::Stopped => "stopped",
        MergedStatus::Active => "active",
    }
}

/// How a session's status shows in the merged list.
pub open spec fn spec_merged_status(s: SessionStatus) -> MergedStatus {
    match s {
        SessionStatus::Waiting => MergedStatus::Waiting,
        SessionStatus::Idle => MergedStatus::Waiting,
        SessionStatus::Stopped => MergedStatus::Stopped,
        SessionStatus::Ended => MergedStatus::Stopped,
        SessionStatus::Active => MergedStatus::Active,
        SessionStatus::Unknown => MergedStatus::Waiting,
    }
}

pub fn merged_status(s: SessionStatus) -> (r: MergedStatus)
    ensures
        r == spec_merged_status(s),
{
    match s {
        SessionStatus::Waiting | SessionStatus::Idle => MergedStatus::Waiting,
        SessionStatus::Stopped | SessionStatus::Ended => MergedStatus::Stopped,
        SessionStatus::Active => MergedStatus::Active,
        SessionStatus::Unknown => MergedStatus::Waiting,
    }
}

/// One row of the merged list: the process joined with its session.
#[derive(Clone, Debug)]
pub struct MergedRow {
    pub pid: u32,
    pub name: String,
    pub agent_type: String,
    pub cwd: String,
    pub uptime: u64,
    pub create_time: u64,
    pub status: MergedStatus,
    pub session_id: String,
    pub notification_type: String,
    pub notification_message: String,
    pub last_message: String,
}

/// The mathematical value of a [`MergedRow`].
#[verifier::ext_equal]
pub ghost struct MergedRowV {
    pub pid: u32,
    pub name: Seq<char>,
    pub agent_type: Seq<char>,
    pub cwd: Seq<char>,
    pub uptime: u64,
    pub create_time: u64,
    pub status: MergedStatus,
    pub session_id: Seq<char>,
    pub notification_type: Seq<char>,
    pub notification_message: Seq<char>,
    pub last_message: Seq<char>,
}

impl View for MergedRow {
    type V = MergedRowV;

    open spec fn view(&self) -> MergedRowV {
        MergedRowV {
            pid: self.pid,
            name: self.name@,
            agent_type: self.agent_type@,
            cwd: self.cwd@,
            uptime: self.uptime,
            create_time: self.create_time,
            status: self.status,
            session_id: self.session_id@,
            notification_type: self.notification_type@,
            notification_message: self.notification_message@,
            last_message: self.last_message@,
        }
    }
}

/// The views of a sequence of rows.
pub open spec fn spec_row_views(s: Seq<MergedRow>) -> Seq<MergedRowV> {
    s.map_values(|r: MergedRow| r@)
}

/// The views of a sequence of processes.
pub open spec fn spec_process_views(s: Seq<ProcessInfo>) -> Seq<ProcessInfoV> {
    s.map_values(|p: ProcessInfo| p@)
}

/// An optional text, or empty.
pub open spec fn spec_opt_or_empty(o: Option<Seq<char>>) -> Seq<char> {
    match o {
        Some(s) => s,
        None => Seq::empty(),
    }
}

/// A path character normalized for matching: forward slashes become
/// backslashes, ASCII letters become lower case.
pub open spec fn spec_norm_char(c: char) -> char {
    if c == '/' {
        '\\'
    } else {
        spec_lower_char(c)
    }
}

/// Trailing backslashes stripped.
pub open spec fn spec_trim_backslashes(s: Seq<char>) -> Seq<char>
    decreases s.len(),
{
    if s.len() > 0 && s.last() == '\\' {
        spec_trim_backslashes(s.drop_last())
    } else {
        s
    }
}

/// The normalized form of a working directory, under which directories are
/// compared.
pub open spec fn spec_norm_cwd(s: Seq<char>) -> Seq<char> {
    spec_trim_backslashes(s.map_values(|c: char| spec_norm_char(c)))
}

/// Normalizes a working directory for matching.
pub fn normalize_cwd(cwd: &str) -> (r: Vec<char>)
    ensures
        r@ == spec_norm_cwd(cwd@),
{
    let raw = str_to_chars(cwd);
    let mut mapped: Vec<char> = Vec::new();
    let mut i: usize = 0;
    while i < raw.len()
        invariant
            i <= raw@.len(),
            mapped@ == raw@.take(i as int).map_values(|c: char| spec_norm_char(c)),
        decreases raw@.len() - i,
    {
        let c = raw[i];
        let nc: char = if c == '/' {
            '\\'
        } else if 'A' <= c && c <= 'Z' {
            ((c as u8) + 32) as char
        } else {
            c
        };
        mapped.push(nc);
        proof {
            assert(raw@.take((i + 1) as int).map_values(|c: char| spec_norm_char(c))
                =~= raw@.take(i as int).map_values(|c: char| spec_norm_char(c)).push(
                spec_norm_char(raw@[i as int]),
            ));
        }
        i += 1;
    }
    proof {
        assert(raw@.take(raw@.len() as int) =~= raw@);
    }
    let mut end = mapped.len();
    proof {
        assert(mapped@.take(mapped@.len() as int) =~= mapped@);
    }
    while end > 0 && mapped[end - 1] == '\\'
        invariant
            end <= mapped@.len(),
            spec_trim_backslashes(mapped@.take(end as int)) == spec_trim_backslashes(mapped@),
        decreases end,
    {
        proof {
            assert(mapped@.take((end - 1) as int) =~= mapped@.take(end as int).drop_last());
        }
        end -= 1;
    }
    let mut out: Vec<char> = Vec::new();
    let mut j: usize = 0;
    while j < end
        invariant
            j <= end <= mapped@.len(),
            out@ == mapped@.take(end as int).take(j as int),
        decreases end - j,
    {
        out.push(mapped[j]);
        proof {
            assert(mapped@.take(end as int).take((j + 1) as int) =~= mapped@.take(
                end as int,
            ).take(j as int).push(mapped@[j as int]));
        }
        j += 1;
    }
    proof {
        assert(out@ =~= mapped@.take(end as int));
        assert(spec_trim_backslashes(mapped@.take(end as int)) =~= mapped@.take(end as int));
    }
    out
}

/// Whether a row joins this process with this session: all process fields
/// carried over, the session's id and mapped status, notifications taken
/// or empty, and the directory from the tracker unless it was empty.
pub open spec fn spec_row_matches(row: MergedRowV, p: ProcessInfoV, s: SessionInfoV) -> bool {
    &&& row.pid == p.pid
    &&& row.name == p.name
    &&& row.agent_type == p.agent_type
    &&& row.uptime == p.uptime
    &&& row.create_time == p.create_time
    &&& row.session_id == s.session_id
    &&& s.status != SessionStatus::Ended
    &&& row.status == spec_merged_status(s.status)
    &&& (row.cwd == s.cwd || (s.cwd.len() == 0 && row.cwd == p.cwd))
    &&& row.notification_type == spec_opt_or_empty(s.notification_type)
    &&& row.notification_message == spec_opt_or_empty(s.notification_message)
    &&& row.last_message == spec_opt_or_empty(s.last_message)
}

/// Whether some process and some non-ended session justify this row.
pub open spec fn spec_row_justified(
    row: MergedRowV,
    processes: Seq<ProcessInfoV>,
    sessions: Seq<SessionInfoV>,
) -> bool {
    exists|px: int, sx: int|
        0 <= px < processes.len() && 0 <= sx < sessions.len() && #[trigger] spec_row_matches(
            row,
            processes[px],
            sessions[sx],
        )
}

fn opt_or_empty(o: &Option<String>) -> (r: String)
    ensures
        r@ == spec_opt_or_empty(crate::session::spec_opt_view(*o)),
{
    match o {
        Some(s) => s.clone(),
        None => String::new(),
    }
}

/// The row that joins one process with one session.  Phase 1 falls back
/// to the scanner's directory when the tracker's is empty; phase 2 always
/// shows the tracker's.
pub open spec fn spec_row_of(
    p: ProcessInfoV,
    s: SessionInfoV,
    scanner_cwd_fallback: bool,
) -> MergedRowV {
    MergedRowV {
        pid: p.pid,
        name: p.name,
        agent_type: p.agent_type,
        cwd: if scanner_cwd_fallback && s.cwd.len() == 0 {
            p.cwd
        } else {
            s.cwd
        },
        uptime: p.uptime,
        create_time: p.create_time,
        status: spec_merged_status(s.status),
        session_id: s.session_id,
        notification_type: spec_opt_or_empty(s.notification_type),
        notification_message: spec_opt_or_empty(s.notification_message),
        last_message: spec_opt_or_empty(s.last_message),
    }
}

/// Joins one process with one session.
fn merged_row(p: &ProcessInfo, s: &SessionInfo, scanner_cwd_fallback: bool) -> (r: MergedRow)
    requires
        s@.status != SessionStatus::Ended,
    ensures
        r@ == spec_row_of(p@, s@, scanner_cwd_fallback),
        spec_row_matches(r@, p@, s@),
{
    let cwd = if scanner_cwd_fallback && s.cwd.as_str().unicode_len() == 0 {
        p.cwd.clone()
    } else {
        s.cwd.clone()
    };
    MergedRow {
        pid: p.pid,
        name: p.name.clone(),
        agent_type: p.agent_type.clone(),
        cwd,
        uptime: p.uptime,
        create_time: p.create_time,
        status: merged_status(s.status),
        session_id: s.session_id.clone(),
        notification_type: opt_or_empty(&s.notification_type),
        notification_message: opt_or_empty(&s.notification_message),
        last_message: opt_or_empty(&s.last_message),
    }
}

spec fn spec_opt_index(o: Option<usize>) -> Option<int> {
    match o {
        Some(b) => Some(b as int),
        None => None,
    }
}

/// The phase-1 candidate scan from session `si` on: a candidate is an
/// unmatched, non-ended session whose nonempty normalized directory is the
/// wanted one; a later candidate updated at least as recently as the
/// winner so far replaces it.
pub open spec fn spec_p1_best(
    sv: Seq<SessionInfoV>,
    matched: Seq<bool>,
    pnorm: Seq<char>,
    si: int,
    best: Option<int>,
) -> Option<int>
    decreases sv.len() - si,
{
    if si < 0 || si >= sv.len() {
        best
    } else {
        let cand = !matched[si] && sv[si].status != SessionStatus::Ended && spec_norm_cwd(
            sv[si].cwd,
        ).len() > 0 && spec_norm_cwd(sv[si].cwd) == pnorm;
        let best2 = if cand {
            match best {
                None => Some(si),
                Some(b) => if sv[si].updated_at >= sv[b].updated_at {
                    Some(si)
                } else {
                    Some(b)
                },
            }
        } else {
            best
        };
        spec_p1_best(sv, matched, pnorm, si + 1, best2)
    }
}

/// The phase-2 candidate scan from session `si` on: any unmatched,
/// non-ended session is a candidate; only a strictly more recently updated
/// one replaces the winner so far, so the first most-recent one wins.
pub open spec fn spec_p2_best(
    sv: Seq<SessionInfoV>,
    matched: Seq<bool>,
    si: int,
    best: Option<int>,
) -> Option<int>
    decreases sv.len() - si,
{
    if si < 0 || si >= sv.len() {
        best
    } else {
        let cand = !matched[si] && sv[si].status != SessionStatus::Ended;
        let best2 = if cand {
            match best {
                None => Some(si),
                Some(b) => if sv[si].updated_at > sv[b].updated_at {
                    Some(si)
                } else {
                    Some(b)
                },
            }
        } else {
            best
        };
        spec_p2_best(sv, matched, si + 1, best2)
    }
}

/// Phase 1 from process `i` on: each process takes its best directory
/// match, marking the session used; processes with no match queue up for
/// phase 2.  The state is (rows, matched sessions, queued processes).
pub open spec fn spec_phase1(
    pv: Seq<ProcessInfoV>,
    sv: Seq<SessionInfoV>,
    i: int,
    matched: Seq<bool>,
    rows: Seq<MergedRowV>,
    un: Seq<int>,
) -> (Seq<MergedRowV>, Seq<bool>, Seq<int>)
    decreases pv.len() - i,
{
    if i < 0 || i >= pv.len() {
        (rows, matched, un)
    } else {
        match spec_p1_best(sv, matched, spec_norm_cwd(pv[i].cwd), 0, None) {
            Some(b) => spec_phase1(
                pv,
                sv,
                i + 1,
                matched.update(b, true),
                rows.push(spec_row_of(pv[i], sv[b], true)),
                un,
            ),
            None => spec_phase1(pv, sv, i + 1, matched, rows, un.push(i)),
        }
    }
}

/// Phase 2 from queued process `u` on: each queued process pairs with the
/// most recently updated unmatched non-ended session, shown under the
/// tracker's directory; a process with no session left is dropped.
pub open spec fn spec_phase2(
    pv: Seq<ProcessInfoV>,
    sv: Seq<SessionInfoV>,
    u: int,
    un: Seq<int>,
    matched: Seq<bool>,
    rows: Seq<MergedRowV>,
) -> Seq<MergedRowV>
    decreases un.len() - u,
{
    if u < 0 || u >= un.len() {
        rows
    } else {
        match spec_p2_best(sv, matched, 0, None) {
            Some(b) => spec_phase2(
                pv,
                sv,
                u + 1,
                un,
                matched.update(b, true),
                rows.push(spec_row_of(pv[un[u]], sv[b], false)),
            ),
            None => spec_phase2(pv, sv, u + 1, un, matched, rows),
        }
    }
}

/// The whole reconciliation: phase 1 over every process, then phase 2 over
/// the leftovers, starting with no session matched.
pub open spec fn spec_scan_and_merge(
    pv: Seq<ProcessInfoV>,
    sv: Seq<SessionInfoV>,
) -> Seq<MergedRowV> {
    let init = spec_phase1(
        pv,
        sv,
        0,
        Seq::new(sv.len(), |x: int| false),
        Seq::empty(),
        Seq::empty(),
    );
    spec_phase2(pv, sv, 0, init.2, init.1, init.0)
}

/// Reconciles the scanned processes with the tracked sessions: exactly the
/// two-phase merge of [`spec_scan_and_merge`].  In consequence every row
/// joins one scanned process with one non-ended session, no session
/// appears twice, a session that ended never appears, and there are never
/// more rows than processes: phantoms and stale sessions are dropped.
#[verifier::rlimit(100)]
pub fn scan_and_merge(processes: &Vec<ProcessInfo>, sessions: &Vec<SessionInfo>) -> (r: Vec<
    MergedRow,
>)
    requires
        spec_ids_unique(spec_session_views(sessions@)),
    ensures
        spec_row_views(r@) == spec_scan_and_merge(
            spec_process_views(processes@),
            spec_session_views(sessions@),
        ),
        r@.len() <= processes@.len(),
        forall|i: int|
            0 <= i < r@.len() ==> #[trigger] spec_row_justified(
                r@[i]@,
                spec_process_views(processes@),
                spec_session_views(sessions@),
            ),
        forall|i: int, j: int|
            0 <= i < j < r@.len() ==> (#[trigger] r@[i]@).session_id != (
            #[trigger] r@[j]@).session_id,
        forall|i: int, sj: int|
            0 <= i < r@.len() && 0 <= sj < sessions@.len() && (#[trigger] sessions@[sj]@).status
                == SessionStatus::Ended ==> (#[trigger] r@[i]@).session_id
                != sessions@[sj]@.session_id,
{
    let pn = processes.len();
    let tn = sessions.len();
    let mut matched: Vec<bool> = Vec::new();
    let mut k: usize = 0;
    while k < tn
        invariant
            k <= tn,
            matched@.len() == k,
            forall|j: int| 0 <= j < k ==> !(#[trigger] matched@[j]),
        decreases tn - k,
    {
        matched.push(false);
        k += 1;
    }
    let mut rows: Vec<MergedRow> = Vec::new();
    let ghost mut row_src: Seq<int> = Seq::empty();
    let ghost mut un_g: Seq<int> = Seq::empty();
    let mut unmatched_procs: Vec<usize> = Vec::new();
    let ghost pv = spec_process_views(processes@);
    let ghost sv = spec_session_views(sessions@);
    let ghost init_matched = Seq::new(sessions@.len(), |x: int| false);
    let ghost phase1_full = spec_phase1(pv, sv, 0, init_matched, Seq::empty(), Seq::empty());
    proof {
        assert(matched@ =~= init_matched);
        assert(spec_row_views(rows@) =~= Seq::<MergedRowV>::empty());
        assert(un_g =~= Seq::<int>::empty());
    }

    // Phase 1: match by normalized working directory; among candidates the
    // most recently updated wins.
    let mut pi: usize = 0;
    while pi < pn
        invariant
            pi <= pn,
            pn == processes@.len(),
            tn == sessions@.len(),
            matched@.len() == tn,
            spec_ids_unique(spec_session_views(sessions@)),
            pv == spec_process_views(processes@),
            sv == spec_session_views(sessions@),
            un_g.len() == unmatched_procs@.len(),
            forall|j: int| 0 <= j < un_g.len() ==> #[trigger] un_g[j] == unmatched_procs@[j] as int,
            spec_phase1(pv, sv, pi as int, matched@, spec_row_views(rows@), un_g) == phase1_full,
            row_src.len() == rows@.len(),
            rows@.len() + unmatched_procs@.len() == pi,
            forall|j: int| 0 <= j < unmatched_procs@.len() ==> (#[trigger] unmatched_procs@[j]) < pn,
            forall|k2: int|
                0 <= k2 < rows@.len() ==> 0 <= #[trigger] row_src[k2] < tn && matched@[row_src[k2]]
                    && (rows@[k2]@).session_id == sessions@[row_src[k2]]@.session_id,
            forall|k1: int, k2: int| 0 <= k1 < k2 < rows@.len() ==> row_src[k1] != row_src[k2],
            forall|i: int|
                0 <= i < rows@.len() ==> #[trigger] spec_row_justified(
                    rows@[i]@,
                    spec_process_views(processes@),
                    spec_session_views(sessions@),
                ),
            forall|i: int|
                0 <= i < rows@.len() ==> (#[trigger] rows@[i]@).session_id
                    == sessions@[row_src[i]]@.session_id && sessions@[row_src[i]]@.status
                    != SessionStatus::Ended,
        decreases pn - pi,
    {
        let pnorm = normalize_cwd(processes[pi].cwd.as_str());
        let ghost pnv = spec_norm_cwd(pv[pi as int].cwd);
        proof {
            assert(pnorm@ == pnv);
        }
        let mut best: Option<usize> = None;
        let mut si: usize = 0;
        while si < tn
            invariant
                si <= tn,
                tn == sessions@.len(),
                matched@.len() == tn,
                sv == spec_session_views(sessions@),
                pnorm@ == pnv,
                spec_p1_best(sv, matched@, pnv, 0, None) == spec_p1_best(
                    sv,
                    matched@,
                    pnv,
                    si as int,
                    spec_opt_index(best),
                ),
                match best {
                    Some(b) => b < tn && !matched@[b as int] && sessions@[b as int]@.status
                        != SessionStatus::Ended,
                    None => true,
                },
            decreases tn - si,
        {
            let ghost best0 = spec_opt_index(best);
            if !matched[si] && !matches!(sessions[si].status, SessionStatus::Ended) {
                let snorm = normalize_cwd(sessions[si].cwd.as_str());
                if snorm.len() > 0 && chars_eq(&snorm, &pnorm) {
                    best = match best {
                        None => Some(si),
                        Some(b) => {
                            if sessions[si].updated_at >= sessions[b].updated_at {
                                Some(si)
                            } else {
                                Some(b)
                            }
                        },
                    };
                    proof {
                        assert(spec_norm_cwd(sv[si as int].cwd) == snorm@);
                        assert(spec_p1_best(sv, matched@, pnv, si as int, best0)
                            == spec_p1_best(sv, matched@, pnv, si + 1, spec_opt_index(best)));
                    }
                } else {
                    proof {
                        assert(spec_norm_cwd(sv[si as int].cwd) == snorm@);
                        assert(spec_p1_best(sv, matched@, pnv, si as int, best0)
                            == spec_p1_best(sv, matched@, pnv, si + 1, spec_opt_index(best)));
                    }
                }
            } else {
                proof {
                    assert(matched@[si as int] || sv[si as int].status == SessionStatus::Ended);
                    assert(spec_p1_best(sv, matched@, pnv, si as int, best0) == spec_p1_best(
                        sv,
                        matched@,
                        pnv,
                        si + 1,
                        spec_opt_index(best),
                    ));
                }
            }
            si += 1;
        }
        proof {
            assert(spec_p1_best(sv, matched@, pnv, tn as int, spec_opt_index(best))
                == spec_opt_index(best));
            assert(spec_p1_best(sv, matched@, pnv, 0, None) == spec_opt_index(best));
        }
        match best {
            Some(b) => {
                let row = merged_row(&processes[pi], &sessions[b], true);
                let ghost old_rows = rows@;
                let ghost old_views = spec_row_views(rows@);
                let ghost old_matched = matched@;
                rows.push(row);
                matched.set(b, true);
                proof {
                    assert forall|k: int| 0 <= k < old_rows.len() implies row_src[k] != b by {
                        assert(old_matched[row_src[k]]);
                        assert(!old_matched[b as int]);
                    }
                    row_src = row_src.push(b as int);
                    assert(rows@[old_rows.len() as int] == row);
                    assert(spec_p1_best(sv, old_matched, spec_norm_cwd(pv[pi as int].cwd), 0, None)
                        == Some(b as int));
                    assert(spec_phase1(pv, sv, pi as int, old_matched, old_views, un_g)
                        == spec_phase1(
                        pv,
                        sv,
                        pi + 1,
                        old_matched.update(b as int, true),
                        old_views.push(spec_row_of(pv[pi as int], sv[b as int], true)),
                        un_g,
                    ));
                    assert(matched@ =~= old_matched.update(b as int, true));
                    assert(row@ == spec_row_of(pv[pi as int], sv[b as int], true));
                    assert(spec_row_views(rows@) =~= old_views.push(
                        spec_row_of(pv[pi as int], sv[b as int], true),
                    ));
                    assert(spec_row_matches(
                        rows@[old_rows.len() as int]@,
                        spec_process_views(processes@)[pi as int],
                        spec_session_views(sessions@)[b as int],
                    ));
                    assert(spec_row_justified(
                        rows@[old_rows.len() as int]@,
                        spec_process_views(processes@),
                        spec_session_views(sessions@),
                    ));
                    assert forall|i: int|
                        0 <= i < rows@.len() implies #[trigger] spec_row_justified(
                        rows@[i]@,
                        spec_process_views(processes@),
                        spec_session_views(sessions@),
                    ) by {
                        if i < old_rows.len() {
                            assert(rows@[i] == old_rows[i]);
                        }
                    }
                }
            },
            None => {
                proof {
                    assert(spec_p1_best(sv, matched@, spec_norm_cwd(pv[pi as int].cwd), 0, None)
                        is None);
                    assert(spec_phase1(pv, sv, pi as int, matched@, spec_row_views(rows@), un_g)
                        == spec_phase1(
                        pv,
                        sv,
                        pi + 1,
                        matched@,
                        spec_row_views(rows@),
                        un_g.push(pi as int),
                    ));
                    un_g = un_g.push(pi as int);
                }
                unmatched_procs.push(pi);
            },
        }
        pi += 1;
    }
    proof {
        assert(spec_phase1(pv, sv, pn as int, matched@, spec_row_views(rows@), un_g)
            == (spec_row_views(rows@), matched@, un_g));
        assert(phase1_full == (spec_row_views(rows@), matched@, un_g));
        assert(spec_scan_and_merge(pv, sv) == spec_phase2(
            pv,
            sv,
            0,
            un_g,
            matched@,
            spec_row_views(rows@),
        ));
    }
    let ghost full = spec_scan_and_merge(pv, sv);

    // Phase 2: pair the remaining processes, in order, with the most
    // recently updated unmatched sessions.
    let mut u: usize = 0;
    while u < unmatched_procs.len()
        invariant
            u <= unmatched_procs@.len(),
            pn == processes@.len(),
            tn == sessions@.len(),
            matched@.len() == tn,
            spec_ids_unique(spec_session_views(sessions@)),
            pv == spec_process_views(processes@),
            sv == spec_session_views(sessions@),
            un_g.len() == unmatched_procs@.len(),
            forall|j: int| 0 <= j < un_g.len() ==> #[trigger] un_g[j] == unmatched_procs@[j] as int,
            spec_phase2(pv, sv, u as int, un_g, matched@, spec_row_views(rows@)) == full,
            full == spec_scan_and_merge(pv, sv),
            row_src.len() == rows@.len(),
            rows@.len() <= pn - unmatched_procs@.len() + u,
            forall|j: int| 0 <= j < unmatched_procs@.len() ==> (#[trigger] unmatched_procs@[j]) < pn,
            forall|k2: int|
                0 <= k2 < rows@.len() ==> 0 <= #[trigger] row_src[k2] < tn && matched@[row_src[k2]]
                    && (rows@[k2]@).session_id == sessions@[row_src[k2]]@.session_id,
            forall|k1: int, k2: int| 0 <= k1 < k2 < rows@.len() ==> row_src[k1] != row_src[k2],
            forall|i: int|
                0 <= i < rows@.len() ==> #[trigger] spec_row_justified(
                    rows@[i]@,
                    spec_process_views(processes@),
                    spec_session_views(sessions@),
                ),
            forall|i: int|
                0 <= i < rows@.len() ==> (#[trigger] rows@[i]@).session_id
                    == sessions@[row_src[i]]@.session_id && sessions@[row_src[i]]@.status
                    != SessionStatus::Ended,
        decreases unmatched_procs@.len() - u,
    {
        let pidx = unmatched_procs[u];
        let mut best: Option<usize> = None;
        let mut si: usize = 0;
        while si < tn
            invariant
                si <= tn,
                tn == sessions@.len(),
                matched@.len() == tn,
                sv == spec_session_views(sessions@),
                spec_p2_best(sv, matched@, 0, None) == spec_p2_best(
                    sv,
                    matched@,
                    si as int,
                    spec_opt_index(best),
                ),
                match best {
                    Some(b) => b < tn && !matched@[b as int] && sessions@[b as int]@.status
                        != SessionStatus::Ended,
                    None => true,
                },
            decreases tn - si,
        {
            let ghost best0 = spec_opt_index(best);
            if !matched[si] && !matches!(sessions[si].status, SessionStatus::Ended) {
                best = match best {
                    None => Some(si),
                    Some(b) => {
                        if sessions[si].updated_at > sessions[b].updated_at {
                            Some(si)
                        } else {
                            Some(b)
                        }
                    },
                };
                proof {
                    assert(spec_p2_best(sv, matched@, si as int, best0) == spec_p2_best(
                        sv,
                        matched@,
                        si + 1,
                        spec_opt_index(best),
                    ));
                }
            } else {
                proof {
                    assert(matched@[si as int] || sv[si as int].status == SessionStatus::Ended);
                    assert(spec_p2_best(sv, matched@, si as int, best0) == spec_p2_best(
                        sv,
                        matched@,
                        si + 1,
                        spec_opt_index(best),
                    ));
                }
            }
            si += 1;
        }
        proof {
            assert(spec_p2_best(sv, matched@, tn as int, spec_opt_index(best))
                == spec_opt_index(best));
            assert(spec_p2_best(sv, matched@, 0, None) == spec_opt_index(best));
        }
        match best {
            Some(b) => {
                let row = merged_row(&processes[pidx], &sessions[b], false);
                let ghost old_rows = rows@;
                let ghost old_views = spec_row_views(rows@);
                let ghost old_matched = matched@;
                rows.push(row);
                matched.set(b, true);
                proof {
                    assert forall|k: int| 0 <= k < old_rows.len() implies row_src[k] != b by {
                        assert(old_matched[row_src[k]]);
                        assert(!old_matched[b as int]);
                    }
                    row_src = row_src.push(b as int);
                    assert(rows@[old_rows.len() as int] == row);
                    assert(un_g[u as int] == pidx as int);
                    assert(spec_p2_best(sv, old_matched, 0, None) == Some(b as int));
                    assert(spec_phase2(pv, sv, u as int, un_g, old_matched, old_views)
                        == spec_phase2(
                        pv,
                        sv,
                        u + 1,
                        un_g,
                        old_matched.update(b as int, true),
                        old_views.push(spec_row_of(pv[pidx as int], sv[b as int], false)),
                    ));
                    assert(matched@ =~= old_matched.update(b as int, true));
                    assert(row@ == spec_row_of(pv[pidx as int], sv[b as int], false));
                    assert(spec_row_views(rows@) =~= old_views.push(
                        spec_row_of(pv[pidx as int], sv[b as int], false),
                    ));
                    assert(spec_row_matches(
                        rows@[old_rows.len() as int]@,
                        spec_process_views(processes@)[pidx as int],
                        spec_session_views(sessions@)[b as int],
                    ));
                    assert(spec_row_justified(
                        rows@[old_rows.len() as int]@,
                        spec_process_views(processes@),
                        spec_session_views(sessions@),
                    ));
                    assert forall|i: int|
                        0 <= i < rows@.len() implies #[trigger] spec_row_justified(
                        rows@[i]@,
                        spec_process_views(processes@),
                        spec_session_views(sessions@),
                    ) by {
                        if i < old_rows.len() {
                            assert(rows@[i] == old_rows[i]);
                        }
                    }
                }
            },
            None => {
                proof {
                    assert(spec_p2_best(sv, matched@, 0, None) is None);
                    assert(spec_phase2(pv, sv, u as int, un_g, matched@, spec_row_views(rows@))
                        == spec_phase2(
                        pv,
                        sv,
                        u + 1,
                        un_g,
                        matched@,
                        spec_row_views(rows@),
                    ));
                }
            },
        }
        u += 1;
    }
    proof {
        assert(spec_phase2(
            pv,
            sv,
            unmatched_procs@.len() as int,
            un_g,
            matched@,
            spec_row_views(rows@),
        ) == spec_row_views(rows@));
        assert(spec_row_views(rows@) == full);
    }
    proof {
        assert forall|i: int, j: int| 0 <= i < j < rows@.len() implies (
        #[trigger] rows@[i]@).session_id != (#[trigger] rows@[j]@).session_id by {
            assert(row_src[i] != row_src[j]);
            assert(spec_session_views(sessions@)[row_src[i]].session_id != spec_session_views(
                sessions@,
            )[row_src[j]].session_id) by {
                if row_src[i] < row_src[j] {
                    assert(spec_ids_unique(spec_session_views(sessions@)));
                } else {
                }
            }
        }
        assert forall|i: int, sj: int|
            0 <= i < rows@.len() && 0 <= sj < sessions@.len() && (
        #[trigger] sessions@[sj]@).status == SessionStatus::Ended implies (
        #[trigger] rows@[i]@).session_id != sessions@[sj]@.session_id by {
            let si = row_src[i];
            assert(sessions@[si]@.status != SessionStatus::Ended);
            assert(si != sj);
            if si < sj {
                assert(spec_session_views(sessions@)[si].session_id != spec_session_views(
                    sessions@,
                )[sj].session_id);
            } else {
                assert(spec_session_views(sessions@)[sj].session_id != spec_session_views(
                    sessions@,
                )[si].session_id);
            }
        }
    }
    rows
}

/// The overall state and counts shown to the UI.
pub struct StateSummary {
    pub state: StateKind,
    pub active_processes: usize,
    pub pending_actions: usize,
}

/// The overall daemon state.
#[derive(Clone, Copy, Debug, PartialEq, Eq, Structural)]
pub enum StateKind {
    Sleeping,
    Attention,
    Thinking,
    Done,
}

/// The wire name of a state.
pub open spec fn spec_state_name(s: StateKind) -> Seq<char> {
    match s {
        StateKind::Sleeping => "sleeping"@,
        StateKind::Attention => "attention"@,
        StateKind::Thinking => "thinking"@,
        StateKind::Done => "done"@,
    }
}

pub fn state_name(s: StateKind) -> (r: &'static str)
    ensures
        r@ == spec_state_name(s),
{
    match s {
        StateKind::Sleeping => "sleeping",
        StateKind::Attention => "attention",
        StateKind::Thinking => "thinking",
        StateKind::Done => "done",
    }
}

/// The state of a merged list: sleeping when empty, attention when any row
/// waits, else thinking when any row is active, else done.
pub open spec fn spec_compute_state(rows: Seq<MergedRowV>) -> StateKind {
    if rows.len() == 0 {
        StateKind::Sleeping
    } else if exists|i: int| 0 <= i < rows.len() && (#[trigger] rows[i]).status == MergedStatus::Waiting {
        StateKind::Attention
    } else if exists|i: int| 0 <= i < rows.len() && (#[trigger] rows[i]).status == MergedStatus::Active {
        StateKind::Thinking
    } else {
        StateKind::Done
    }
}

/// How many rows of the merged list are waiting.
pub open spec fn spec_waiting_count(rows: Seq<MergedRowV>) -> int {
    rows.filter(|r: MergedRowV| r.status == MergedStatus::Waiting).len() as int
}

proof fn lemma_waiting_count_empty()
    ensures
        spec_waiting_count(Seq::<MergedRowV>::empty()) == 0,
{
    reveal_with_fuel(Seq::<MergedRowV>::filter, 1);
    assert(Seq::<MergedRowV>::empty().filter(
        |r: MergedRowV| r.status == MergedStatus::Waiting,
    ) =~= Seq::<MergedRowV>::empty());
}

proof fn lemma_waiting_count_push(s: Seq<MergedRowV>, x: MergedRowV)
    ensures
        spec_waiting_count(s.push(x)) == spec_waiting_count(s) + if x.status
            == MergedStatus::Waiting {
            1int
        } else {
            0int
        },
{
    reveal_with_fuel(Seq::<MergedRowV>::filter, 2);
    assert(s.push(x).drop_last() =~= s);
    assert(s.push(x).last() == x);
}

/// Computes the overall state of the merged list.  Total: every list gets
/// a state, the empty list sleeps, and the pending count is exactly the
/// number of waiting rows.
pub fn compute_state(rows: &Vec<MergedRow>) -> (r: StateSummary)
    ensures
        r.state == spec_compute_state(spec_row_views(rows@)),
        r.active_processes == rows@.len(),
        r.pending_actions == spec_waiting_count(spec_row_views(rows@)),
{
    let mut waiting: usize = 0;
    let mut working: usize = 0;
    let mut i: usize = 0;
    proof {
        lemma_waiting_count_empty();
        assert(spec_row_views(rows@).take(0) =~= Seq::<MergedRowV>::empty());
    }
    while i < rows.len()
        invariant
            i <= rows@.len(),
            waiting <= i,
            working <= i,
            waiting == spec_waiting_count(spec_row_views(rows@).take(i as int)),
            (waiting > 0) == exists|j: int|
                0 <= j < i && (#[trigger] spec_row_views(rows@)[j]).status
                    == MergedStatus::Waiting,
            (working > 0) == exists|j: int|
                0 <= j < i && (#[trigger] spec_row_views(rows@)[j]).status
                    == MergedStatus::Active,
        decreases rows@.len() - i,
    {
        proof {
            assert(spec_row_views(rows@).take((i + 1) as int) =~= spec_row_views(rows@).take(
                i as int,
            ).push(spec_row_views(rows@)[i as int]));
            lemma_waiting_count_push(
                spec_row_views(rows@).take(i as int),
                spec_row_views(rows@)[i as int],
            );
        }
        match rows[i].status {
            MergedStatus::Waiting => {
                waiting += 1;
                proof {
                    assert((spec_row_views(rows@)[i as int]).status == MergedStatus::Waiting);
                }
            },
            MergedStatus::Active => {
                working += 1;
                proof {
                    assert((spec_row_views(rows@)[i as int]).status == MergedStatus::Active);
                }
            },
            MergedStatus::Stopped => {
                proof {
                    assert((spec_row_views(rows@)[i as int]).status == MergedStatus::Stopped);
                }
            },
        }
        i += 1;
    }
    proof {
        assert(spec_row_views(rows@).take(rows@.len() as int) =~= spec_row_views(rows@));
    }
    let state = if rows.len() == 0 {
        StateKind::Sleeping
    } else if waiting > 0 {
        StateKind::Attention
    } else if working > 0 {
        StateKind::Thinking
    } else {
        StateKind::Done
    };
    StateSummary { state, active_processes: rows.len(), pending_actions: waiting }
}

/// An empty merged list always computes to sleeping.
pub proof fn lemma_empty_list_sleeps()
    ensures
        spec_compute_state(Seq::<MergedRowV>::empty()) == StateKind::Sleeping,
{
}


/// The pid of the first row whose directory, under slash and case
/// normalization, equals the wanted one.
pub open spec fn spec_pid_for_cwd(rows: Seq<MergedRowV>, want: Seq<char>) -> Option<u32>
    decreases rows.len(),
{
    if rows.len() == 0 {
        None
    } else if crate::focuswalk::spec_cwd_variant_bs(rows[0].cwd) == want {
        Some(rows[0].pid)
    } else {
        spec_pid_for_cwd(rows.drop_first(), want)
    }
}

proof fn lemma_pid_for_cwd_index(rows: Seq<MergedRowV>, want: Seq<char>, i: int)
    requires
        0 <= i < rows.len(),
        crate::focuswalk::spec_cwd_variant_bs(rows[i].cwd) == want,
        forall|j: int|
            0 <= j < i ==> crate::focuswalk::spec_cwd_variant_bs((#[trigger] rows[j]).cwd)
                != want,
    ensures
        spec_pid_for_cwd(rows, want) == Some(rows[i].pid),
    decreases i,
{
    if i > 0 {
        assert(rows.drop_first()[i - 1] == rows[i]);
        assert(forall|j: int|
            0 <= j < i - 1 ==> crate::focuswalk::spec_cwd_variant_bs(
                (#[trigger] rows.drop_first()[j]).cwd,
            ) != want);
        lemma_pid_for_cwd_index(rows.drop_first(), want, i - 1);
    }
}

proof fn lemma_pid_for_cwd_absent(rows: Seq<MergedRowV>, want: Seq<char>)
    requires
        forall|j: int|
            0 <= j < rows.len() ==> crate::focuswalk::spec_cwd_variant_bs(
                (#[trigger] rows[j]).cwd,
            ) != want,
    ensures
        spec_pid_for_cwd(rows, want) is None,
    decreases rows.len(),
{
    if rows.len() > 0 {
        lemma_pid_for_cwd_absent(rows.drop_first(), want);
    }
}

/// The pid of the first merged row whose directory, under slash and case
/// normalization, equals the requested one; how the focus endpoint turns a
/// directory into a process.
pub fn find_pid_for_cwd(rows: &Vec<MergedRow>, cwd: &str) -> (r: Option<u32>)
    ensures
        r == spec_pid_for_cwd(
            spec_row_views(rows@),
            crate::focuswalk::spec_cwd_variant_bs(cwd@),
        ),
{
    let cc = str_to_chars(cwd);
    let want = crate::focuswalk::map_chars_bs(&cc);
    let mut i: usize = 0;
    while i < rows.len()
        invariant
            i <= rows@.len(),
            want@ == crate::focuswalk::spec_cwd_variant_bs(cwd@),
            forall|j: int|
                0 <= j < i ==> crate::focuswalk::spec_cwd_variant_bs(
                    (#[trigger] spec_row_views(rows@)[j]).cwd,
                ) != crate::focuswalk::spec_cwd_variant_bs(cwd@),
        decreases rows@.len() - i,
    {
        let rc = str_to_chars(rows[i].cwd.as_str());
        let got = crate::focuswalk::map_chars_bs(&rc);
        if chars_eq(&got, &want) {
            proof {
                assert(crate::focuswalk::spec_cwd_variant_bs(
                    (spec_row_views(rows@)[i as int]).cwd,
                ) == crate::focuswalk::spec_cwd_variant_bs(cwd@));
                lemma_pid_for_cwd_index(
                    spec_row_views(rows@),
                    crate::focuswalk::spec_cwd_variant_bs(cwd@),
                    i as int,
                );
            }
            return Some(rows[i].pid);
        }
        i += 1;
    }
    proof {
        lemma_pid_for_cwd_absent(
            spec_row_views(rows@),
            crate::focuswalk::spec_cwd_variant_bs(cwd@),
        );
    }
    None
}

} // verus!
