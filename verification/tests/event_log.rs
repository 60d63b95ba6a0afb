//! The event-log line format, the store, clearing, and compaction.

use agent_desk::events::{event_to_line, make_event_id, parse_event_line, Event};
use agent_desk::protocol::HookEvent;
use agent_desk::store::{events_text, parse_events_file, EventStore};

fn sample_event(ts: u64, msg: &str) -> Event {
    Event {
        id: make_event_id(ts / 1_000_000, &vec!['a', 'b', 'c', '1', '2', '3']),
        ts,
        event: HookEvent::Stop,
        session_id: "S1".to_string(),
        cwd: "C:/p".to_string(),
        message: msg.to_string(),
        notification_type: String::new(),
        last_assistant_message: "done.".to_string(),
        level: 2,
        cleared: false,
    }
}

fn chars(s: &str) -> Vec<char> {
    let mut v = Vec::new();
    for c in s.chars() {
        v.push(c);
    }
    v
}

#[test]
fn event_id_shape() {
    let id = make_event_id(1700000000, &vec!['a', 'b', 'c', '1', '2', '3']);
    assert_eq!(id, "evt_1700000000_abc123");
}

#[test]
fn line_round_trip_plain() {
    let e = sample_event(1_700_000_000_123_456, "[Done] S1\nC:/p\ndone.");
    let line = event_to_line(&e);
    let parsed = parse_event_line(&chars(&line)).expect("canonical line parses");
    assert_eq!(parsed.id, e.id);
    assert_eq!(parsed.ts, e.ts);
    assert_eq!(parsed.event, e.event);
    assert_eq!(parsed.session_id, e.session_id);
    assert_eq!(parsed.cwd, e.cwd);
    assert_eq!(parsed.message, e.message);
    assert_eq!(parsed.last_assistant_message, e.last_assistant_message);
    assert_eq!(parsed.level, e.level);
    assert_eq!(parsed.cleared, e.cleared);
}

#[test]
fn line_round_trip_with_escapes() {
    let mut e = sample_event(42, "quote \" backslash \\ tab \t\r\n end");
    e.cwd = "C:\\Users\\someone\\project".to_string();
    e.cleared = true;
    let line = event_to_line(&e);
    assert!(!line.contains('\n'), "escaped newline must not split the line");
    let parsed = parse_event_line(&chars(&line)).expect("canonical line parses");
    assert_eq!(parsed.message, e.message);
    assert_eq!(parsed.cwd, e.cwd);
    assert!(parsed.cleared);
}

#[test]
fn bad_lines_are_skipped() {
    let e = sample_event(7, "hello");
    let good = event_to_line(&e);
    let text = format!("not json\n{}\n\n{{\"id\":\"truncated\n", good);
    let parsed = parse_events_file(&text);
    assert_eq!(parsed.len(), 1);
    assert_eq!(parsed[0].message, "hello");
}

#[test]
fn store_get_events_filters_cleared_and_after() {
    let mut store = EventStore::new("events.jsonl".to_string(), 86400);
    let mut e1 = sample_event(1_000_000, "one");
    e1.cleared = true;
    let e2 = sample_event(2_000_000, "two");
    let e3 = sample_event(3_000_000, "three");
    store.append_event(e1);
    store.append_event(e2);
    store.append_event(e3);
    let all = store.get_events(0);
    assert_eq!(all.len(), 2);
    assert_eq!(all[0].message, "two");
    assert_eq!(all[1].message, "three");
    let after = store.get_events(2_000_000);
    assert_eq!(after.len(), 1);
    assert_eq!(after[0].message, "three");
}

#[test]
fn clear_all_empties_reads_and_reparses_cleared() {
    let mut store = EventStore::new("events.jsonl".to_string(), 86400);
    store.append_event(sample_event(1_000_000, "one"));
    store.append_event(sample_event(2_000_000, "two"));
    let text = store.clear_all();
    assert!(store.get_events(0).is_empty());
    let reparsed = parse_events_file(&text);
    assert_eq!(reparsed.len(), 2);
    assert!(reparsed.iter().all(|e| e.cleared));
    assert_eq!(reparsed[0].message, "one");
    assert_eq!(reparsed[1].message, "two");
}

#[test]
fn compaction_drops_old_events_and_keeps_order() {
    let now: u64 = 1_700_000_000_000_000;
    let mut store = EventStore::new("events.jsonl".to_string(), 10);
    store.append_event(sample_event(now - 20_000_000, "old"));
    store.append_event(sample_event(now - 5_000_000, "mid"));
    store.append_event(sample_event(now - 1_000_000, "new"));
    let text = store.compact(now);
    let lines: Vec<&str> = text.split('\n').filter(|l| !l.is_empty()).collect();
    assert_eq!(lines.len(), 2, "the file holds exactly the two later events");
    let reparsed = parse_events_file(&text);
    assert_eq!(reparsed.len(), 2);
    assert_eq!(reparsed[0].message, "mid");
    assert_eq!(reparsed[1].message, "new");
}

#[test]
fn cache_metadata_controls_refresh() {
    let mut store = EventStore::new("events.jsonl".to_string(), 86400);
    assert!(store.needs_refresh(Some(5), 100));
    store.note_file_state(Some(5), 100);
    assert!(!store.needs_refresh(Some(5), 100));
    assert!(store.needs_refresh(Some(5), 101));
    assert!(store.needs_refresh(Some(6), 100));
    assert!(store.needs_refresh(None, 100));
}

#[test]
fn install_cache_reads_written_text() {
    let mut store = EventStore::new("events.jsonl".to_string(), 86400);
    store.append_event(sample_event(1_000_000, "one"));
    store.append_event(sample_event(2_000_000, "two"));
    let text = events_text(store.get_events(0).as_ref());
    let mut other = EventStore::new("events.jsonl".to_string(), 86400);
    other.install_cache(&text, Some(1), text.len() as u64);
    assert!(!other.needs_refresh(Some(1), text.len() as u64));
    let evs = other.get_events(0);
    assert_eq!(evs.len(), 2);
    assert_eq!(evs[0].message, "one");
    assert_eq!(evs[1].message, "two");
}
