//! Reconciliation of processes with sessions, the computed state, and the
//! focus-walk helpers.

use agent_desk::focuswalk::{
    find_ancestor_agent_pid, is_shell_name, is_terminal_process, tab_index_for_shell,
    title_matches, walk_to_terminal, ProcessSnapshot, SnapshotEntry,
};
use agent_desk::merge::{
    compute_state, find_pid_for_cwd, scan_and_merge, MergedStatus, ProcessInfo, StateKind,
};
use agent_desk::protocol::SessionStatus;
use agent_desk::session::SessionInfo;

fn proc(pid: u32, cwd: &str) -> ProcessInfo {
    ProcessInfo {
        pid,
        name: "agent-cli.exe".to_string(),
        agent_type: "agent_cli".to_string(),
        cwd: cwd.to_string(),
        uptime: 10,
        create_time: 1_000_000,
    }
}

fn session(id: &str, cwd: &str, status: SessionStatus, updated_at: u64) -> SessionInfo {
    SessionInfo {
        session_id: id.to_string(),
        cwd: cwd.to_string(),
        model: None,
        status,
        started_at: updated_at,
        updated_at,
        last_message: None,
        notification_type: None,
        notification_message: None,
        agent_pid: None,
        parent_session_id: None,
    }
}

#[test]
fn cwd_match_joins_process_and_session() {
    let processes = vec![proc(100, "C:\\Proj\\One\\")];
    let sessions = vec![session("S1", "c:/proj/one", SessionStatus::Active, 50)];
    let rows = scan_and_merge(&processes, &sessions);
    assert_eq!(rows.len(), 1);
    assert_eq!(rows[0].pid, 100);
    assert_eq!(rows[0].session_id, "S1");
    assert_eq!(rows[0].status, MergedStatus::Active);
    assert_eq!(rows[0].cwd, "c:/proj/one", "the tracker's directory is shown");
}

#[test]
fn most_recently_updated_session_wins_a_shared_cwd() {
    let processes = vec![proc(100, "C:/p")];
    let sessions = vec![
        session("older", "C:/p", SessionStatus::Waiting, 10),
        session("newer", "C:/p", SessionStatus::Active, 20),
    ];
    let rows = scan_and_merge(&processes, &sessions);
    assert_eq!(rows.len(), 1);
    assert_eq!(rows[0].session_id, "newer");
}

#[test]
fn phase_two_pairs_leftovers_by_recency() {
    let processes = vec![proc(100, "D:/scanner/knows/nothing")];
    let sessions = vec![
        session("idle-old", "C:/a", SessionStatus::Idle, 10),
        session("idle-new", "C:/b", SessionStatus::Idle, 99),
    ];
    let rows = scan_and_merge(&processes, &sessions);
    assert_eq!(rows.len(), 1);
    assert_eq!(rows[0].session_id, "idle-new");
    assert_eq!(rows[0].cwd, "C:/b", "phase two shows the tracker's directory");
}

#[test]
fn phantom_processes_and_ended_sessions_are_dropped() {
    // All tracked sessions ended: the process at pid 4242 pairs with
    // nothing and never appears.
    let processes = vec![proc(4242, "C:/x")];
    let sessions = vec![session("gone", "C:/x", SessionStatus::Ended, 10)];
    let rows = scan_and_merge(&processes, &sessions);
    assert!(rows.is_empty());
    let state = compute_state(&rows);
    assert_eq!(state.state, StateKind::Sleeping);
}

#[test]
fn stale_sessions_without_processes_are_dropped() {
    let processes: Vec<ProcessInfo> = Vec::new();
    let sessions = vec![session("S1", "C:/a", SessionStatus::Active, 10)];
    let rows = scan_and_merge(&processes, &sessions);
    assert!(rows.is_empty());
}

#[test]
fn computed_state_prefers_attention_over_thinking() {
    let processes = vec![proc(1, "C:/a"), proc(2, "C:/b")];
    let sessions = vec![
        session("S1", "C:/a", SessionStatus::Active, 10),
        session("S2", "C:/b", SessionStatus::Waiting, 10),
    ];
    let rows = scan_and_merge(&processes, &sessions);
    assert_eq!(rows.len(), 2);
    let state = compute_state(&rows);
    assert_eq!(state.state, StateKind::Attention);
    assert_eq!(state.active_processes, 2);
    assert_eq!(state.pending_actions, 1);

    let only_active = scan_and_merge(&vec![proc(1, "C:/a")], &vec![session(
        "S1",
        "C:/a",
        SessionStatus::Active,
        10,
    )]);
    assert_eq!(compute_state(&only_active).state, StateKind::Thinking);

    let only_stopped = scan_and_merge(&vec![proc(1, "C:/a")], &vec![session(
        "S1",
        "C:/a",
        SessionStatus::Stopped,
        10,
    )]);
    assert_eq!(compute_state(&only_stopped).state, StateKind::Done);
}

fn entry(pid: u32, ppid: u32, name: &str) -> SnapshotEntry {
    SnapshotEntry { pid, ppid, name: name.to_string() }
}

#[test]
fn walk_finds_the_terminal_ancestor() {
    let snapshot = ProcessSnapshot::new(vec![
        entry(10, 0, "WindowsTerminal.exe"),
        entry(20, 10, "pwsh.exe"),
        entry(30, 20, "agent-cli.exe"),
    ]);
    let candidates = walk_to_terminal(&snapshot, 30);
    assert_eq!(candidates.len(), 2);
    assert_eq!(candidates[0].name_lower, "pwsh.exe");
    assert_eq!(candidates[0].child_pid, 30);
    assert_eq!(candidates[1].pid, 10);
    assert_eq!(candidates[1].name_lower, "windowsterminal.exe");
    assert_eq!(candidates[1].child_pid, 20, "the tab shell under the terminal host");
}

#[test]
fn ancestor_agent_walk() {
    let snapshot = ProcessSnapshot::new(vec![
        entry(5, 0, "explorer.exe"),
        entry(10, 5, "Agent-CLI.exe"),
        entry(20, 10, "bash.exe"),
        entry(30, 20, "agent-hook.exe"),
    ]);
    assert_eq!(find_ancestor_agent_pid(&snapshot, 30), Some(10));
    assert_eq!(find_ancestor_agent_pid(&snapshot, 5), None);
}

#[test]
fn tab_index_orders_by_creation_time() {
    // Children listed out of order; creation time approximates tab order.
    let children = vec![(201u32, 5000u64), (202u32, 1000u64), (203u32, 3000u64)];
    assert_eq!(tab_index_for_shell(&children, 202), Some(0));
    assert_eq!(tab_index_for_shell(&children, 203), Some(1));
    assert_eq!(tab_index_for_shell(&children, 201), Some(2));
    assert_eq!(tab_index_for_shell(&children, 999), None);
}

#[test]
fn terminal_and_shell_name_sets() {
    let wt: Vec<char> = "windowsterminal.exe".chars().collect();
    let notepad: Vec<char> = "notepad.exe".chars().collect();
    let bash: Vec<char> = "bash.exe".chars().collect();
    assert!(is_terminal_process(&wt));
    assert!(!is_terminal_process(&notepad));
    assert!(is_shell_name(&bash));
    assert!(!is_shell_name(&wt));
}

#[test]
fn titles_match_any_cwd_variant() {
    assert!(title_matches("Admin: C:\\proj\\one - pwsh", "c:/proj/one"));
    assert!(title_matches("bash in c:/proj/one", "C:\\proj\\one"));
    assert!(title_matches("one - Terminal", "C:/proj/one"), "the base name is enough");
    assert!(!title_matches("unrelated window", "C:/proj/one"));
}

#[test]
fn pids_resolve_from_normalized_directories() {
    let processes = vec![proc(100, "C:/p"), proc(200, "C:/q")];
    let sessions = vec![
        session("S1", "C:/p", SessionStatus::Active, 10),
        session("S2", "C:/q", SessionStatus::Waiting, 10),
    ];
    let rows = scan_and_merge(&processes, &sessions);
    assert_eq!(find_pid_for_cwd(&rows, "c:\\q"), Some(200));
    assert_eq!(find_pid_for_cwd(&rows, "C:/P"), Some(100));
    assert_eq!(find_pid_for_cwd(&rows, "C:/other"), None);
}

#[test]
fn equal_update_times_break_ties_deterministically() {
    // Phase 1: among equally recent directory matches the later entry wins.
    let rows = scan_and_merge(&vec![proc(1, "C:/p")], &vec![
        session("first", "C:/p", SessionStatus::Idle, 40),
        session("second", "C:/p", SessionStatus::Idle, 40),
    ]);
    assert_eq!(rows.len(), 1);
    assert_eq!(rows[0].session_id, "second");

    // Phase 2: among equally recent leftovers the earlier entry wins.
    let rows2 = scan_and_merge(&vec![proc(1, "D:/elsewhere")], &vec![
        session("first", "C:/a", SessionStatus::Idle, 40),
        session("second", "C:/b", SessionStatus::Idle, 40),
    ]);
    assert_eq!(rows2.len(), 1);
    assert_eq!(rows2[0].session_id, "first");
}

#[test]
fn ancestor_walk_stops_after_ten_steps() {
    // The agent sits eleven parent links away: out of reach.
    let mut entries = Vec::new();
    entries.push(entry(1, 0, "Agent-CLI.exe"));
    for pid in 2..=12u32 {
        entries.push(entry(pid, pid - 1, "bash.exe"));
    }
    let snapshot = ProcessSnapshot::new(entries);
    assert_eq!(find_ancestor_agent_pid(&snapshot, 12), None);
    // Ten links away it is still found.
    assert_eq!(find_ancestor_agent_pid(&snapshot, 11), Some(1));
}
