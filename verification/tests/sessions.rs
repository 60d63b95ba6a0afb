//! The session tracker: registration, updates, TTL reads, short ids,
//! purging, flushing, and the startup demotion pass.

use agent_desk::protocol::SessionStatus;
use agent_desk::session::{SessionInfo, SessionTracker, SessionUpdate};

fn blank_update() -> SessionUpdate {
    SessionUpdate {
        status: None,
        cwd: None,
        last_message: None,
        notification_type: None,
        notification_message: None,
        agent_pid: None,
        parent_session_id: None,
    }
}

fn find<'a>(t: &'a SessionTracker, id: &str) -> Option<&'a SessionInfo> {
    t.sessions().iter().find(|s| s.session_id == id)
}

#[test]
fn register_and_update() {
    let mut t = SessionTracker::new("sessions.json".to_string(), Vec::new(), 1_000_000);
    t.register("S1", "C:/p", Some("opus"), Some(7), 2_000_000);
    {
        let s = find(&t, "S1").unwrap();
        assert_eq!(s.status, SessionStatus::Idle);
        assert_eq!(s.cwd, "C:/p");
        assert_eq!(s.model.as_deref(), Some("opus"));
        assert_eq!(s.agent_pid, Some(7));
        assert_eq!(s.started_at, 2_000_000);
        assert_eq!(s.updated_at, 2_000_000);
    }
    let mut upd = blank_update();
    upd.status = Some(SessionStatus::Active);
    upd.last_message = Some("hi".to_string());
    t.update("S1", upd, 3_000_000);
    let s = find(&t, "S1").unwrap();
    assert_eq!(s.status, SessionStatus::Active);
    assert_eq!(s.last_message.as_deref(), Some("hi"));
    assert_eq!(s.updated_at, 3_000_000);
    assert_eq!(s.started_at, 2_000_000);
}

#[test]
fn update_creates_unknown_entry() {
    let mut t = SessionTracker::new("sessions.json".to_string(), Vec::new(), 0);
    let mut upd = blank_update();
    upd.cwd = Some("C:/q".to_string());
    t.update("S9", upd, 5_000_000);
    let s = find(&t, "S9").unwrap();
    assert_eq!(s.status, SessionStatus::Unknown);
    assert_eq!(s.cwd, "C:/q");
}

#[test]
fn get_active_honors_ttl() {
    let now: u64 = 100_000_000_000;
    let mut t = SessionTracker::new("sessions.json".to_string(), Vec::new(), now);
    t.register("old", "C:/a", None, None, now - 10_000_000_000);
    t.register("new", "C:/b", None, None, now - 1_000_000);
    let active = t.get_active(now, 3600);
    assert_eq!(active.len(), 1);
    assert_eq!(active[0].session_id, "new");
}

#[test]
fn resolve_short_id_needs_a_unique_prefix() {
    let mut t = SessionTracker::new("sessions.json".to_string(), Vec::new(), 0);
    t.register("abc-1", "", None, None, 1);
    t.register("abd-2", "", None, None, 2);
    assert_eq!(t.resolve_short_id("abc"), Some("abc-1".to_string()));
    assert_eq!(t.resolve_short_id("ab"), None);
    assert_eq!(t.resolve_short_id("zzz"), None);
}

#[test]
fn purge_drops_only_long_ended_sessions() {
    let now: u64 = 200_000_000_000;
    let mut t = SessionTracker::new("sessions.json".to_string(), Vec::new(), now);
    t.register("gone", "", None, None, now - 10_000_000_000);
    let mut upd = blank_update();
    upd.status = Some(SessionStatus::Ended);
    t.update("gone", upd, now - 10_000_000_000);
    t.register("kept", "", None, None, now - 10_000_000_000);
    t.purge_stale(now, 3600);
    assert!(find(&t, "gone").is_none());
    assert!(find(&t, "kept").is_some());
}

#[test]
fn flush_writes_at_most_once_per_dirty_transition() {
    let mut t = SessionTracker::new("sessions.json".to_string(), Vec::new(), 0);
    t.register("S1", "C:/p", None, None, 1_000_000);
    assert!(t.is_dirty());
    let first = t.flush_if_dirty();
    assert!(first.is_some());
    assert_eq!(first.unwrap().len(), 1);
    // No mutation in between: the second flush hands back nothing.
    let second = t.flush_if_dirty();
    assert!(second.is_none());
    t.register("S2", "C:/q", None, None, 2_000_000);
    assert!(t.flush_if_dirty().is_some());
}

#[test]
fn startup_demotes_stale_active_sessions_without_touching_their_time() {
    let now: u64 = 500_000_000_000;
    let stale_at = now - 301_000_000;
    let fresh_at = now - 10_000_000;
    let loaded = vec![
        SessionInfo {
            session_id: "stale".to_string(),
            cwd: String::new(),
            model: None,
            status: SessionStatus::Active,
            started_at: stale_at,
            updated_at: stale_at,
            last_message: None,
            notification_type: None,
            notification_message: None,
            agent_pid: None,
            parent_session_id: None,
        },
        SessionInfo {
            session_id: "fresh".to_string(),
            cwd: String::new(),
            model: None,
            status: SessionStatus::Active,
            started_at: fresh_at,
            updated_at: fresh_at,
            last_message: None,
            notification_type: None,
            notification_message: None,
            agent_pid: None,
            parent_session_id: None,
        },
        SessionInfo {
            session_id: "ended".to_string(),
            cwd: String::new(),
            model: None,
            status: SessionStatus::Ended,
            started_at: stale_at,
            updated_at: stale_at,
            last_message: None,
            notification_type: None,
            notification_message: None,
            agent_pid: None,
            parent_session_id: None,
        },
    ];
    let t = SessionTracker::new("sessions.json".to_string(), loaded, now);
    let stale = find(&t, "stale").unwrap();
    assert_eq!(stale.status, SessionStatus::Idle);
    assert_eq!(stale.updated_at, stale_at, "demotion keeps the old update time");
    assert_eq!(find(&t, "fresh").unwrap().status, SessionStatus::Active);
    assert_eq!(find(&t, "ended").unwrap().status, SessionStatus::Ended);
    assert!(t.is_dirty(), "a demotion makes the snapshot dirty");
}

#[test]
fn loading_drops_duplicate_ids_and_keeps_the_first() {
    let entry = |id: &str, cwd: &str| SessionInfo {
        session_id: id.to_string(),
        cwd: cwd.to_string(),
        model: None,
        status: SessionStatus::Idle,
        started_at: 5,
        updated_at: 5,
        last_message: None,
        notification_type: None,
        notification_message: None,
        agent_pid: None,
        parent_session_id: None,
    };
    let loaded = vec![entry("S1", "C:/first"), entry("S2", "C:/b"), entry("S1", "C:/second")];
    let t = SessionTracker::new("sessions.json".to_string(), loaded, 10);
    assert_eq!(t.sessions().len(), 2);
    assert_eq!(find(&t, "S1").unwrap().cwd, "C:/first", "the first entry of an id wins");
    assert!(find(&t, "S2").is_some());
    assert!(t.is_dirty(), "a dropped duplicate makes the snapshot dirty");

    let clean = SessionTracker::new("sessions.json".to_string(), vec![entry("S9", "C:/x")], 10);
    assert!(!clean.is_dirty(), "an unchanged snapshot stays clean");
}
