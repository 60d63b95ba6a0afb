//! The process-tree walk behind terminal focusing, on a plain snapshot of
//! the process table.
//!
//! The snapshot — (pid, parent pid, executable name) triples — is captured
//! by the shell; walking it, recognizing terminal hosts, computing the tab
//! index of a shell inside a multi-tab terminal, and matching window
//! titles against a working directory are all pure and verified here.
//! Window handles and focus calls stay in the shell.

use vstd::prelude::*;
use crate::chars::{
    chars_eq_str, contains_chars, lower_chars, spec_contains, spec_lower, str_to_chars,
};
use crate::merge::spec_norm_char;

verus! {

/// One process-table entry: pid, parent pid, executable name.
#[derive(Clone, Debug)]
pub struct SnapshotEntry {
    pub pid: u32,
    pub ppid: u32,
    pub name: String,
}

/// The mathematical value of a [`SnapshotEntry`].
#[verifier::ext_equal]
pub ghost struct SnapshotEntryV {
    pub pid: u32,
    pub ppid: u32,
    pub name: Seq<char>,
}

impl View for SnapshotEntry {
    type V = SnapshotEntryV;

    open spec fn view(&self) -> SnapshotEntryV {
        SnapshotEntryV { pid: self.pid, ppid: self.ppid, name: self.name@ }
    }
}

/// The views of a snapshot's entries.
pub open spec fn spec_entry_views(s: Seq<SnapshotEntry>) -> Seq<SnapshotEntryV> {
    s.map_values(|e: SnapshotEntry| e@)
}

/// The first entry with this pid, if any.
pub open spec fn spec_entry_for(s: Seq<SnapshotEntryV>, pid: u32) -> Option<SnapshotEntryV>
    decreases s.len(),
{
    if s.len() == 0 {
        None
    } else if s[0].pid == pid {
        Some(s[0])
    } else {
        spec_entry_for(s.drop_first(), pid)
    }
}

/// What one walk step sees: the parent pid and the parent's name (empty
/// when the parent is missing from the table), or nothing when the entry
/// is unknown, parentless, or its own parent.
pub open spec fn spec_parent_of(entries: Seq<SnapshotEntryV>, pid: u32) -> Option<(u32, Seq<char>)> {
    match spec_entry_for(entries, pid) {
        None => None,
        Some(e) => if e.ppid == 0 || e.ppid == pid {
            None
        } else {
            Some(
                (
                    e.ppid,
                    match spec_entry_for(entries, e.ppid) {
                        Some(pe) => pe.name,
                        None => Seq::<char>::empty(),
                    },
                ),
            )
        },
    }
}

/// A captured process-table snapshot.
pub struct ProcessSnapshot {
    pub entries: Vec<SnapshotEntry>,
}

impl ProcessSnapshot {
    /// Wraps the entries the shell captured.
    pub fn new(entries: Vec<SnapshotEntry>) -> (r: ProcessSnapshot)
        ensures
            r.entries@ == entries@,
    {
        ProcessSnapshot { entries }
    }

    fn find_entry(&self, pid: u32) -> (r: Option<&SnapshotEntry>)
        ensures
            match r {
                Some(e) => Some(e@) == spec_entry_for(spec_entry_views(self.entries@), pid),
                None => spec_entry_for(spec_entry_views(self.entries@), pid) is None,
            },
    {
        let mut i: usize = 0;
        while i < self.entries.len()
            invariant
                i <= self.entries@.len(),
                forall|j: int|
                    0 <= j < i ==> (#[trigger] spec_entry_views(self.entries@)[j]).pid != pid,
            decreases self.entries@.len() - i,
        {
            if self.entries[i].pid == pid {
                proof {
                    lemma_entry_for_index(spec_entry_views(self.entries@), i as int, pid);
                }
                return Some(&self.entries[i]);
            }
            i += 1;
        }
        proof {
            lemma_entry_for_absent(spec_entry_views(self.entries@), pid);
        }
        None
    }

    /// The parent pid and the parent's executable name of a process, when
    /// the snapshot knows a real parent (nonzero, not the process itself).
    /// A parent missing from the table gets an empty name.
    pub fn get_parent_info(&self, pid: u32) -> (r: Option<(u32, String)>)
        ensures
            match r {
                Some(p) => spec_parent_of(spec_entry_views(self.entries@), pid) == Some(
                    (p.0, p.1@),
                ),
                None => spec_parent_of(spec_entry_views(self.entries@), pid) is None,
            },
    {
        let ppid = match self.find_entry(pid) {
            Some(e) => e.ppid,
            None => {
                return None;
            },
        };
        if ppid == 0 || ppid == pid {
            return None;
        }
        let name = match self.find_entry(ppid) {
            Some(pe) => pe.name.clone(),
            None => String::new(),
        };
        Some((ppid, name))
    }
}

proof fn lemma_entry_for_index(s: Seq<SnapshotEntryV>, i: int, pid: u32)
    requires
        0 <= i < s.len(),
        s[i].pid == pid,
        forall|j: int| 0 <= j < i ==> (#[trigger] s[j]).pid != pid,
    ensures
        spec_entry_for(s, pid) == Some(s[i]),
    decreases i,
{
    if i > 0 {
        assert(s.drop_first()[i - 1] == s[i]);
        assert(forall|j: int| 0 <= j < i - 1 ==> (#[trigger] s.drop_first()[j]).pid != pid);
        lemma_entry_for_index(s.drop_first(), i - 1, pid);
    }
}

proof fn lemma_entry_for_absent(s: Seq<SnapshotEntryV>, pid: u32)
    requires
        forall|j: int| 0 <= j < s.len() ==> (#[trigger] s[j]).pid != pid,
    ensures
        spec_entry_for(s, pid) is None,
    decreases s.len(),
{
    if s.len() > 0 {
        lemma_entry_for_absent(s.drop_first(), pid);
    }
}

/// Whether a lower-cased executable name is a known terminal host.
pub open spec fn spec_is_terminal_process(name: Seq<char>) -> bool {
    ||| name == "windowsterminal.exe"@
    ||| name == "wt.exe"@
    ||| name == "cmd.exe"@
    ||| name == "powershell.exe"@
    ||| name == "pwsh.exe"@
    ||| name == "mintty.exe"@
    ||| name == "conhost.exe"@
    ||| name == "warp.exe"@
    ||| name == "alacritty.exe"@
    ||| name == "hyper.exe"@
    ||| name == "wezterm-gui.exe"@
    ||| name == "kitty.exe"@
    ||| name == "tabby.exe"@
    ||| name == "code.exe"@
}

pub fn is_terminal_process(name: &Vec<char>) -> (r: bool)
    ensures
        r == spec_is_terminal_process(name@),
{
    chars_eq_str(name, "windowsterminal.exe") || chars_eq_str(name, "wt.exe") || chars_eq_str(
        name,
        "cmd.exe",
    ) || chars_eq_str(name, "powershell.exe") || chars_eq_str(name, "pwsh.exe") || chars_eq_str(
        name,
        "mintty.exe",
    ) || chars_eq_str(name, "conhost.exe") || chars_eq_str(name, "warp.exe") || chars_eq_str(
        name,
        "alacritty.exe",
    ) || chars_eq_str(name, "hyper.exe") || chars_eq_str(name, "wezterm-gui.exe") || chars_eq_str(
        name,
        "kitty.exe",
    ) || chars_eq_str(name, "tabby.exe") || chars_eq_str(name, "code.exe")
}

/// Whether a multi-tab terminal host needs an explicit tab switch.
pub open spec fn spec_is_wt(name: Seq<char>) -> bool {
    name == "windowsterminal.exe"@ || name == "wt.exe"@
}

pub fn is_wt(name: &Vec<char>) -> (r: bool)
    ensures
        r == spec_is_wt(name@),
{
    chars_eq_str(name, "windowsterminal.exe") || chars_eq_str(name, "wt.exe")
}

/// Whether a lower-cased executable name is a shell that owns one tab of a
/// multi-tab terminal.
pub open spec fn spec_is_shell_name(name: Seq<char>) -> bool {
    ||| name == "powershell.exe"@
    ||| name == "pwsh.exe"@
    ||| name == "cmd.exe"@
    ||| name == "bash.exe"@
    ||| name == "wsl.exe"@
    ||| name == "ubuntu.exe"@
    ||| name == "git-bash.exe"@
    ||| name == "nu.exe"@
    ||| name == "fish.exe"@
    ||| name == "zsh.exe"@
}

pub fn is_shell_name(name: &Vec<char>) -> (r: bool)
    ensures
        r == spec_is_shell_name(name@),
{
    chars_eq_str(name, "powershell.exe") || chars_eq_str(name, "pwsh.exe") || chars_eq_str(
        name,
        "cmd.exe",
    ) || chars_eq_str(name, "bash.exe") || chars_eq_str(name, "wsl.exe") || chars_eq_str(
        name,
        "ubuntu.exe",
    ) || chars_eq_str(name, "git-bash.exe") || chars_eq_str(name, "nu.exe") || chars_eq_str(
        name,
        "fish.exe",
    ) || chars_eq_str(name, "zsh.exe")
}

/// Whether the snapshot knows a process with this pid and this
/// lower-cased name.
pub open spec fn spec_candidate_known(
    pid: u32,
    name_lower: Seq<char>,
    entries: Seq<SnapshotEntryV>,
) -> bool {
    exists|j: int|
        0 <= j < entries.len() && (#[trigger] entries[j]).pid == pid && spec_lower(
            entries[j].name,
        ) == name_lower
}

/// Every terminal name is at least one character long.
proof fn lemma_terminal_names_nonempty(name: Seq<char>)
    requires
        spec_is_terminal_process(name),
    ensures
        name.len() > 0,
{
    reveal_strlit("windowsterminal.exe");
    reveal_strlit("wt.exe");
    reveal_strlit("cmd.exe");
    reveal_strlit("powershell.exe");
    reveal_strlit("pwsh.exe");
    reveal_strlit("mintty.exe");
    reveal_strlit("conhost.exe");
    reveal_strlit("warp.exe");
    reveal_strlit("alacritty.exe");
    reveal_strlit("hyper.exe");
    reveal_strlit("wezterm-gui.exe");
    reveal_strlit("kitty.exe");
    reveal_strlit("tabby.exe");
    reveal_strlit("code.exe");
}

/// One candidate found on the walk up from a process: a terminal-named
/// ancestor, with the child through which the walk reached it (the shell
/// that owns the tab, when the terminal hosts tabs).
#[derive(Clone, Debug)]
pub struct TerminalCandidate {
    pub pid: u32,
    /// The ancestor's executable name, lower-cased.
    pub name_lower: String,
    /// The pid the walk came from, one level below the ancestor.
    pub child_pid: u32,
}

/// The mathematical value of a [`TerminalCandidate`].
#[verifier::ext_equal]
pub ghost struct TerminalCandidateV {
    pub pid: u32,
    pub name_lower: Seq<char>,
    pub child_pid: u32,
}

impl View for TerminalCandidate {
    type V = TerminalCandidateV;

    open spec fn view(&self) -> TerminalCandidateV {
        TerminalCandidateV {
            pid: self.pid,
            name_lower: self.name_lower@,
            child_pid: self.child_pid,
        }
    }
}

/// The views of a sequence of candidates.
pub open spec fn spec_candidate_views(s: Seq<TerminalCandidate>) -> Seq<TerminalCandidateV> {
    s.map_values(|c: TerminalCandidate| c@)
}

/// The walk itself: from `current`, follow parent links for at most
/// `6 - level` more steps, collecting every terminal-named ancestor in walk
/// order, and stop where the chain does.
pub open spec fn spec_walk_to_terminal(
    entries: Seq<SnapshotEntryV>,
    current: u32,
    level: int,
) -> Seq<TerminalCandidateV>
    decreases 6 - level,
{
    if level >= 6 {
        Seq::empty()
    } else {
        match spec_parent_of(entries, current) {
            None => Seq::empty(),
            Some(p) => {
                let rest = spec_walk_to_terminal(entries, p.0, level + 1);
                if spec_is_terminal_process(spec_lower(p.1)) {
                    seq![
                        TerminalCandidateV {
                            pid: p.0,
                            name_lower: spec_lower(p.1),
                            child_pid: current,
                        },
                    ] + rest
                } else {
                    rest
                }
            },
        }
    }
}

/// Walks up the parent chain from `pid`, at most six levels, and collects
/// the terminal-named ancestors in walk order.  The shell focuses the
/// first candidate that owns a visible titled window, and switches the tab
/// afterwards when the candidate is a multi-tab host.
pub fn walk_to_terminal(snapshot: &ProcessSnapshot, pid: u32) -> (r: Vec<TerminalCandidate>)
    ensures
        spec_candidate_views(r@) == spec_walk_to_terminal(
            spec_entry_views(snapshot.entries@),
            pid,
            0,
        ),
        r@.len() <= 6,
        forall|i: int|
            #![trigger r@[i]]
            0 <= i < r@.len() ==> spec_is_terminal_process(r@[i].name_lower@)
                && spec_candidate_known(
                r@[i].pid,
                r@[i].name_lower@,
                spec_entry_views(snapshot.entries@),
            ),
{
    let ghost entries = spec_entry_views(snapshot.entries@);
    let mut out: Vec<TerminalCandidate> = Vec::new();
    let mut current: u32 = pid;
    let mut level: usize = 0;
    proof {
        assert(spec_candidate_views(out@) =~= Seq::<TerminalCandidateV>::empty());
        assert(spec_candidate_views(out@) + spec_walk_to_terminal(entries, pid, 0)
            =~= spec_walk_to_terminal(entries, pid, 0));
    }
    while level < 6
        invariant
            out@.len() <= level <= 6,
            entries == spec_entry_views(snapshot.entries@),
            spec_walk_to_terminal(entries, pid, 0) == spec_candidate_views(out@)
                + spec_walk_to_terminal(entries, current, level as int),
            forall|i: int|
                #![trigger out@[i]]
                0 <= i < out@.len() ==> spec_is_terminal_process(out@[i].name_lower@)
                    && spec_candidate_known(out@[i].pid, out@[i].name_lower@, entries),
        decreases 6 - level,
    {
        let (ppid, pname) = match snapshot.get_parent_info(current) {
            Some(p) => p,
            None => {
                proof {
                    assert(spec_walk_to_terminal(entries, current, level as int)
                        =~= Seq::<TerminalCandidateV>::empty());
                    assert(spec_candidate_views(out@) + Seq::<TerminalCandidateV>::empty()
                        =~= spec_candidate_views(out@));
                }
                return out;
            },
        };
        let raw = str_to_chars(pname.as_str());
        let lowered = lower_chars(&raw);
        let ghost rest = spec_walk_to_terminal(entries, ppid, level + 1);
        if is_terminal_process(&lowered) {
            proof {
                lemma_terminal_names_nonempty(lowered@);
                assert(pname@.len() > 0);
                assert(spec_entry_for(entries, ppid) is Some);
                lemma_entry_in_entries(entries, ppid);
                let j = choose|j: int|
                    0 <= j < entries.len() && (#[trigger] entries[j]).pid == ppid && Some(
                        entries[j],
                    ) == spec_entry_for(entries, ppid);
                assert(entries[j].name == pname@);
                assert(spec_candidate_known(ppid, lowered@, entries));
            }
            let name_lower = crate::chars::chars_to_string(&lowered);
            let ghost old_out = out@;
            out.push(TerminalCandidate { pid: ppid, name_lower, child_pid: current });
            proof {
                let cand = TerminalCandidateV {
                    pid: ppid,
                    name_lower: spec_lower(pname@),
                    child_pid: current,
                };
                assert(spec_walk_to_terminal(entries, current, level as int) =~= seq![cand]
                    + rest);
                assert(spec_candidate_views(out@) =~= spec_candidate_views(old_out).push(cand));
                assert(spec_candidate_views(old_out) + (seq![cand] + rest)
                    =~= spec_candidate_views(out@) + rest);
                assert forall|i: int|
                    #![trigger out@[i]]
                    0 <= i < out@.len() implies spec_is_terminal_process(out@[i].name_lower@)
                    && spec_candidate_known(out@[i].pid, out@[i].name_lower@, entries) by {
                    if i < old_out.len() {
                        assert(out@[i] == old_out[i]);
                    }
                }
            }
        } else {
            proof {
                assert(spec_walk_to_terminal(entries, current, level as int) =~= rest);
            }
        }
        current = ppid;
        level += 1;
    }
    proof {
        assert(spec_walk_to_terminal(entries, current, 6) =~= Seq::<TerminalCandidateV>::empty());
        assert(spec_candidate_views(out@) + Seq::<TerminalCandidateV>::empty()
            =~= spec_candidate_views(out@));
    }
    out
}

/// The ancestor walk of the hook process: from `current`, follow parent
/// links for at most `10 - level` more steps; the first ancestor whose
/// lower-cased name is the agent's executable is the answer, and a chain
/// that stops (unknown entry, parent zero, self-loop) or runs out of steps
/// gives nothing.
pub open spec fn spec_find_ancestor(
    entries: Seq<SnapshotEntryV>,
    current: u32,
    level: int,
) -> Option<u32>
    decreases 10 - level,
{
    if level >= 10 {
        None
    } else {
        match spec_parent_of(entries, current) {
            None => None,
            Some(p) => if spec_lower(p.1) == "agent-cli.exe"@ {
                Some(p.0)
            } else {
                spec_find_ancestor(entries, p.0, level + 1)
            },
        }
    }
}

/// Walks up the parent chain from the hook process, at most ten levels,
/// looking for the agent's own executable; gives the first such ancestor's
/// pid, nothing when the chain ends or runs out of steps first.
pub fn find_ancestor_agent_pid(snapshot: &ProcessSnapshot, my_pid: u32) -> (r: Option<u32>)
    ensures
        r == spec_find_ancestor(spec_entry_views(snapshot.entries@), my_pid, 0),
        r matches Some(p) ==> exists|j: int|
            0 <= j < snapshot.entries@.len() && (#[trigger] snapshot.entries@[j])@.pid == p
                && spec_lower(snapshot.entries@[j]@.name) == "agent-cli.exe"@,
{
    let ghost entries = spec_entry_views(snapshot.entries@);
    let mut current: u32 = my_pid;
    let mut level: usize = 0;
    while level < 10
        invariant
            level <= 10,
            entries == spec_entry_views(snapshot.entries@),
            spec_find_ancestor(entries, my_pid, 0) == spec_find_ancestor(
                entries,
                current,
                level as int,
            ),
        decreases 10 - level,
    {
        let (ppid, pname) = match snapshot.get_parent_info(current) {
            Some(p) => p,
            None => {
                return None;
            },
        };
        let raw = str_to_chars(pname.as_str());
        let lowered = lower_chars(&raw);
        if chars_eq_str(&lowered, "agent-cli.exe") {
            proof {
                reveal_strlit("agent-cli.exe");
                assert("agent-cli.exe"@.len() == 13);
                assert(pname@.len() == 13);
                assert(spec_entry_for(entries, ppid) is Some);
                lemma_entry_in_entries(entries, ppid);
                let j = choose|j: int|
                    0 <= j < entries.len() && (#[trigger] entries[j]).pid == ppid && Some(
                        entries[j],
                    ) == spec_entry_for(entries, ppid);
                assert(snapshot.entries@[j]@ == entries[j]);
                assert(spec_lower(snapshot.entries@[j]@.name) == "agent-cli.exe"@);
            }
            return Some(ppid);
        }
        current = ppid;
        level += 1;
    }
    None
}

/// A found entry stands somewhere in the table.
proof fn lemma_entry_in_entries(s: Seq<SnapshotEntryV>, pid: u32)
    requires
        spec_entry_for(s, pid) is Some,
    ensures
        exists|j: int|
            0 <= j < s.len() && (#[trigger] s[j]).pid == pid && Some(s[j]) == spec_entry_for(
                s,
                pid,
            ),
    decreases s.len(),
{
    if s.len() > 0 {
        if s[0].pid == pid {
        } else {
            lemma_entry_in_entries(s.drop_first(), pid);
            let j = choose|j: int|
                0 <= j < s.drop_first().len() && (#[trigger] s.drop_first()[j]).pid == pid && Some(
                    s.drop_first()[j],
                ) == spec_entry_for(s.drop_first(), pid);
            assert(s[j + 1] == s.drop_first()[j]);
        }
    }
}

/// How many of the tab shells come before the target in tab order: those
/// created earlier, and — among those created in the same instant — those
/// listed earlier.  This is the tab index the terminal is asked to focus.
pub open spec fn spec_tab_index(children: Seq<(u32, u64)>, t: int) -> int {
    spec_count_before(children, children[t].1, t, children.len() as int)
}

/// Counts, among the first `upto` children, those sorted before position
/// `t` with creation time `ct`.
pub open spec fn spec_count_before(children: Seq<(u32, u64)>, ct: u64, t: int, upto: int) -> int
    decreases upto,
{
    if upto <= 0 {
        0
    } else {
        spec_count_before(children, ct, t, upto - 1) + if children[upto - 1].1 < ct || (
        children[upto - 1].1 == ct && upto - 1 < t) {
            1int
        } else {
            0int
        }
    }
}

/// The tab index of the target shell among a terminal's tab shells:
/// its position once the shells are ordered by creation time, keeping the
/// listed order among equal times.  Nothing when the target is not a
/// child.
pub fn tab_index_for_shell(children: &Vec<(u32, u64)>, target_pid: u32) -> (r: Option<usize>)
    ensures
        match r {
            Some(idx) => exists|t: int|
                0 <= t < children@.len() && (#[trigger] children@[t]).0 == target_pid && idx
                    == spec_tab_index(children@, t) && forall|k: int|
                    0 <= k < t ==> (#[trigger] children@[k]).0 != target_pid,
            None => forall|j: int|
                0 <= j < children@.len() ==> (#[trigger] children@[j]).0 != target_pid,
        },
{
    let n = children.len();
    let mut t: usize = 0;
    while t < n
        invariant
            t <= n,
            n == children@.len(),
            forall|k: int| 0 <= k < t ==> (#[trigger] children@[k]).0 != target_pid,
        decreases n - t,
    {
        if children[t].0 == target_pid {
            let ct = children[t].1;
            let mut count: usize = 0;
            let mut j: usize = 0;
            while j < n
                invariant
                    j <= n,
                    n == children@.len(),
                    t < n,
                    ct == children@[t as int].1,
                    count == spec_count_before(children@, ct, t as int, j as int),
                    count <= j,
                decreases n - j,
            {
                if children[j].1 < ct || (children[j].1 == ct && j < t) {
                    count += 1;
                }
                j += 1;
            }
            return Some(count);
        }
        t += 1;
    }
    None
}

/// The three lower-cased variants under which a working directory is
/// sought in a window title: the backslash form, the forward-slash form,
/// and the base name.
pub open spec fn spec_cwd_variant_bs(cwd: Seq<char>) -> Seq<char> {
    cwd.map_values(|c: char| spec_norm_char(c))
}

pub open spec fn spec_fwd_char(c: char) -> char {
    if c == '\\' {
        '/'
    } else {
        crate::chars::spec_lower_char(c)
    }
}

pub open spec fn spec_cwd_variant_fwd(cwd: Seq<char>) -> Seq<char> {
    cwd.map_values(|c: char| spec_fwd_char(c))
}

/// Everything after the last path separator, lower-cased.
pub open spec fn spec_basename_lower(cwd: Seq<char>) -> Seq<char>
    decreases cwd.len(),
{
    if cwd.len() == 0 {
        Seq::empty()
    } else if cwd.last() == '/' || cwd.last() == '\\' {
        Seq::empty()
    } else {
        spec_basename_lower(cwd.drop_last()).push(crate::chars::spec_lower_char(cwd.last()))
    }
}

pub fn map_chars_bs(cwd: &Vec<char>) -> (r: Vec<char>)
    ensures
        r@ == spec_cwd_variant_bs(cwd@),
{
    let mut out: Vec<char> = Vec::new();
    let mut i: usize = 0;
    while i < cwd.len()
        invariant
            i <= cwd@.len(),
            out@ == cwd@.take(i as int).map_values(|c: char| spec_norm_char(c)),
        decreases cwd@.len() - i,
    {
        let c = cwd[i];
        let nc: char = if c == '/' {
            '\\'
        } else if 'A' <= c && c <= 'Z' {
            ((c as u8) + 32) as char
        } else {
            c
        };
        out.push(nc);
        proof {
            assert(cwd@.take((i + 1) as int).map_values(|c: char| spec_norm_char(c))
                =~= cwd@.take(i as int).map_values(|c: char| spec_norm_char(c)).push(
                spec_norm_char(cwd@[i as int]),
            ));
        }
        i += 1;
    }
    proof {
        assert(cwd@.take(cwd@.len() as int) =~= cwd@);
    }
    out
}

fn map_chars_fwd(cwd: &Vec<char>) -> (r: Vec<char>)
    ensures
        r@ == spec_cwd_variant_fwd(cwd@),
{
    let mut out: Vec<char> = Vec::new();
    let mut i: usize = 0;
    while i < cwd.len()
        invariant
            i <= cwd@.len(),
            out@ == cwd@.take(i as int).map_values(|c: char| spec_fwd_char(c)),
        decreases cwd@.len() - i,
    {
        let c = cwd[i];
        let nc: char = if c == '\\' {
            '/'
        } else if 'A' <= c && c <= 'Z' {
            ((c as u8) + 32) as char
        } else {
            c
        };
        out.push(nc);
        proof {
            assert(cwd@.take((i + 1) as int).map_values(|c: char| spec_fwd_char(c)) =~= cwd@.take(
                i as int,
            ).map_values(|c: char| spec_fwd_char(c)).push(spec_fwd_char(cwd@[i as int])));
        }
        i += 1;
    }
    proof {
        assert(cwd@.take(cwd@.len() as int) =~= cwd@);
    }
    out
}

fn basename_lower(cwd: &Vec<char>) -> (r: Vec<char>)
    ensures
        r@ == spec_basename_lower(cwd@),
{
    let mut start: usize = cwd.len();
    proof {
        assert(cwd@.take(cwd@.len() as int) =~= cwd@);
        assert(cwd@.skip(cwd@.len() as int) =~= Seq::<char>::empty());
        assert(spec_lower(Seq::<char>::empty()) =~= Seq::<char>::empty());
        assert(spec_basename_lower(cwd@) + Seq::<char>::empty() =~= spec_basename_lower(cwd@));
    }
    while start > 0 && cwd[start - 1] != '/' && cwd[start - 1] != '\\'
        invariant
            start <= cwd@.len(),
            spec_basename_lower(cwd@) == spec_basename_lower(cwd@.take(start as int))
                + spec_lower(cwd@.skip(start as int)),
        decreases start,
    {
        proof {
            assert(cwd@.take(start as int).drop_last() =~= cwd@.take((start - 1) as int));
            assert(spec_basename_lower(cwd@.take(start as int)) == spec_basename_lower(
                cwd@.take((start - 1) as int),
            ).push(crate::chars::spec_lower_char(cwd@[start - 1])));
            assert(spec_basename_lower(cwd@.take((start - 1) as int)).push(
                crate::chars::spec_lower_char(cwd@[start - 1]),
            ) + spec_lower(cwd@.skip(start as int)) =~= spec_basename_lower(
                cwd@.take((start - 1) as int),
            ) + spec_lower(cwd@.skip((start - 1) as int)));
        }
        start -= 1;
    }
    proof {
        if start > 0 {
            assert(cwd@.take(start as int).last() == cwd@[start - 1]);
            assert(spec_basename_lower(cwd@.take(start as int)) =~= Seq::<char>::empty());
        } else {
            assert(cwd@.take(0).len() == 0);
            assert(spec_basename_lower(cwd@.take(0)) =~= Seq::<char>::empty());
        }
        assert(spec_basename_lower(cwd@) =~= spec_lower(cwd@.skip(start as int)));
    }
    let mut out: Vec<char> = Vec::new();
    let mut i: usize = start;
    while i < cwd.len()
        invariant
            start <= i <= cwd@.len(),
            out@ == spec_lower(cwd@.subrange(start as int, i as int)),
        decreases cwd@.len() - i,
    {
        let c = cwd[i];
        let lc: char = if 'A' <= c && c <= 'Z' {
            ((c as u8) + 32) as char
        } else {
            c
        };
        out.push(lc);
        proof {
            assert(spec_lower(cwd@.subrange(start as int, (i + 1) as int)) =~= spec_lower(
                cwd@.subrange(start as int, i as int),
            ).push(crate::chars::spec_lower_char(cwd@[i as int])));
        }
        i += 1;
    }
    proof {
        assert(cwd@.subrange(start as int, cwd@.len() as int) =~= cwd@.skip(start as int));
    }
    out
}

/// Whether a window title names the working directory: the lower-cased
/// title contains one of the directory's nonempty variants.
pub open spec fn spec_title_matches(title: Seq<char>, cwd: Seq<char>) -> bool {
    let t = spec_lower(title);
    ||| (spec_cwd_variant_bs(cwd).len() > 0 && spec_contains(t, spec_cwd_variant_bs(cwd)))
    ||| (spec_cwd_variant_fwd(cwd).len() > 0 && spec_contains(t, spec_cwd_variant_fwd(cwd)))
    ||| (spec_basename_lower(cwd).len() > 0 && spec_contains(t, spec_basename_lower(cwd)))
}

pub fn title_matches(title: &str, cwd: &str) -> (r: bool)
    ensures
        r == spec_title_matches(title@, cwd@),
{
    let tc = str_to_chars(title);
    let t = lower_chars(&tc);
    let cc = str_to_chars(cwd);
    let bs = map_chars_bs(&cc);
    let fwd = map_chars_fwd(&cc);
    let base = basename_lower(&cc);
    (bs.len() > 0 && contains_chars(&t, &bs)) || (fwd.len() > 0 && contains_chars(&t, &fwd)) || (
    base.len() > 0 && contains_chars(&t, &base))
}

} // verus!
