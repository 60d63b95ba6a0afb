//! Process-name matching for the per-agent scanners, and the adapter
//! registry's shared snapshot cache.
//!
//! The OS process table itself is read by the shell; the scanner decides,
//! from a process's executable name, whether it is one of the agent's.

use vstd::prelude::*;
use crate::chars::{chars_eq, lower_chars, spec_lower, str_to_chars};
use crate::merge::ProcessInfo;

verus! {

/// Whether a lower-cased name stands in a list of lower-cased names.
pub open spec fn spec_name_in(names: Seq<Seq<char>>, name: Seq<char>) -> bool {
    exists|i: int| 0 <= i < names.len() && names[i] == name
}

/// The views of a list of names.
pub open spec fn spec_name_views(names: Seq<String>) -> Seq<Seq<char>> {
    names.map_values(|n: String| n@)
}

/// One agent's process scanner: the executable names that count as the
/// agent, and the names excluded even when they match.
pub struct ProcessScanner {
    pub agent_type: String,
    pub process_names: Vec<String>,
    pub exclude_names: Vec<String>,
}

impl ProcessScanner {
    /// A scanner for one agent type; the name lists are stored lower-cased.
    pub fn new(agent_type: &str, process_names: Vec<String>, exclude_names: Vec<String>) -> (r:
        ProcessScanner)
        ensures
            r.agent_type@ == agent_type@,
            spec_name_views(r.process_names@) == spec_name_views(process_names@).map_values(
                |n: Seq<char>| spec_lower(n),
            ),
            spec_name_views(r.exclude_names@) == spec_name_views(exclude_names@).map_values(
                |n: Seq<char>| spec_lower(n),
            ),
    {
        let lowered_names = lower_all(process_names);
        let lowered_excludes = lower_all(exclude_names);
        ProcessScanner {
            agent_type: agent_type.to_owned(),
            process_names: lowered_names,
            exclude_names: lowered_excludes,
        }
    }

    /// The agent type this scanner reports.
    pub fn agent_type(&self) -> (r: &String)
        ensures
            r@ == self.agent_type@,
    {
        &self.agent_type
    }

    /// Whether an executable name is one of this agent's processes: its
    /// lower-cased form must stand in the include list and not in the
    /// exclude list.
    pub fn is_target_process(&self, name: &str) -> (r: bool)
        ensures
            r == (spec_name_in(
                spec_name_views(self.process_names@),
                spec_lower(name@),
            ) && !spec_name_in(spec_name_views(self.exclude_names@), spec_lower(name@))),
    {
        let raw = str_to_chars(name);
        let lowered = lower_chars(&raw);
        let excluded = name_in(&self.exclude_names, &lowered);
        if excluded {
            return false;
        }
        name_in(&self.process_names, &lowered)
    }
}

/// Lower-cases every name in the list.
fn lower_all(names: Vec<String>) -> (r: Vec<String>)
    ensures
        spec_name_views(r@) == spec_name_views(names@).map_values(|n: Seq<char>| spec_lower(n)),
{
    let mut out: Vec<String> = Vec::new();
    let mut i: usize = 0;
    proof {
        assert(spec_name_views(out@) =~= spec_name_views(names@.take(0)).map_values(
            |n: Seq<char>| spec_lower(n),
        ));
    }
    while i < names.len()
        invariant
            i <= names@.len(),
            spec_name_views(out@) == spec_name_views(names@.take(i as int)).map_values(
                |n: Seq<char>| spec_lower(n),
            ),
        decreases names@.len() - i,
    {
        let raw = str_to_chars(names[i].as_str());
        let lowered = lower_chars(&raw);
        out.push(crate::chars::chars_to_string(&lowered));
        proof {
            assert(spec_name_views(out@) =~= spec_name_views(names@.take(i as int)).map_values(
                |n: Seq<char>| spec_lower(n),
            ).push(spec_lower(names@[i as int]@)));
            assert(spec_name_views(names@.take((i + 1) as int)).map_values(
                |n: Seq<char>| spec_lower(n),
            ) =~= spec_name_views(names@.take(i as int)).map_values(
                |n: Seq<char>| spec_lower(n),
            ).push(spec_lower(names@[i as int]@)));
        }
        i += 1;
    }
    proof {
        assert(names@.take(names@.len() as int) =~= names@);
    }
    out
}

/// Whether `name` stands in the list.
fn name_in(names: &Vec<String>, name: &Vec<char>) -> (r: bool)
    ensures
        r == spec_name_in(spec_name_views(names@), name@),
{
    let mut i: usize = 0;
    while i < names.len()
        invariant
            i <= names@.len(),
            forall|j: int| 0 <= j < i ==> #[trigger] spec_name_views(names@)[j] != name@,
        decreases names@.len() - i,
    {
        let nc = str_to_chars(names[i].as_str());
        if chars_eq(&nc, name) {
            proof {
                assert(spec_name_views(names@)[i as int] == name@);
            }
            return true;
        }
        i += 1;
    }
    proof {
        if spec_name_in(spec_name_views(names@), name@) {
            let j = choose|j: int|
                0 <= j < spec_name_views(names@).len() && spec_name_views(names@)[j] == name@;
        }
    }
    false
}

/// One registered adapter: a name and its scanner.
pub struct AdapterEntry {
    pub name: String,
    pub scanner: ProcessScanner,
}

/// The adapter registry: the adapters and the cached process snapshot the
/// last scan produced.  Readers get the cache; the shell's scan tick
/// replaces it whole.
pub struct AdapterRegistry {
    pub adapters: Vec<AdapterEntry>,
    pub cache: Vec<ProcessInfo>,
}

impl AdapterRegistry {
    /// The registry with its two built-in adapters and an empty cache.
    pub fn new() -> (r: AdapterRegistry)
        ensures
            r.cache@.len() == 0,
            r.adapters@.len() == 2,
    {
        let mut agent_names: Vec<String> = Vec::new();
        agent_names.push("agent-cli.exe".to_owned());
        agent_names.push("agent-cli".to_owned());
        let mut agent_excludes: Vec<String> = Vec::new();
        agent_excludes.push("chrome-native-host.exe".to_owned());
        agent_excludes.push("chrome-native-host".to_owned());
        let mut codex_names: Vec<String> = Vec::new();
        codex_names.push("codex.exe".to_owned());
        codex_names.push("codex".to_owned());
        let codex_excludes: Vec<String> = Vec::new();
        let mut adapters: Vec<AdapterEntry> = Vec::new();
        adapters.push(
            AdapterEntry {
                name: "agent_cli".to_owned(),
                scanner: ProcessScanner::new("agent_cli", agent_names, agent_excludes),
            },
        );
        adapters.push(
            AdapterEntry {
                name: "codex".to_owned(),
                scanner: ProcessScanner::new("codex", codex_names, codex_excludes),
            },
        );
        AdapterRegistry { adapters, cache: Vec::new() }
    }

    /// The registered adapters, for the shell's scan tick.
    pub fn adapters(&self) -> (r: &Vec<AdapterEntry>)
        ensures
            r@ == self.adapters@,
    {
        &self.adapters
    }

    /// Replaces the cached snapshot with a fresh scan's results, whole.
    pub fn install_scan(&mut self, results: Vec<ProcessInfo>)
        ensures
            final(self).cache@ == results@,
            final(self).adapters@ == old(self).adapters@,
    {
        self.cache = results;
    }

    /// The cached snapshot.
    pub fn get_cached(&self) -> (r: &Vec<ProcessInfo>)
        ensures
            r@ == self.cache@,
    {
        &self.cache
    }
}

} // verus!
