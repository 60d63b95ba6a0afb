//! The lossy broadcast channel the SSE fan-out rides on, the dedup sweep,
//! the scanner's name matching, and the configuration defaults.

use agent_desk::chars::{chars_to_string, str_to_chars};
use agent_desk::config::{Config, IslandConfig, ManagerConfig};
use agent_desk::dedup::{dedup_key, DedupCache};
use agent_desk::protocol::HookEvent;
use agent_desk::format::{short_sid, truncated};
use agent_desk::scanner::{AdapterRegistry, ProcessScanner};

#[test]
fn producing_past_capacity_never_blocks_the_producer() {
    // The fan-out channel has capacity 100 and drops frames for lagged
    // subscribers instead of exerting back-pressure.
    let (tx, mut rx) = tokio::sync::broadcast::channel::<String>(100);
    for i in 0..150u32 {
        // `send` is synchronous and returns immediately even though the
        // subscriber never reads.
        let sent = tx.send(format!("frame {}", i));
        assert!(sent.is_ok());
    }
    let skipped = match rx.try_recv() {
        Err(tokio::sync::broadcast::error::TryRecvError::Lagged(skipped)) => {
            assert!(skipped > 0, "the stalled subscriber lost the overflow");
            skipped
        }
        other => panic!("expected a lag report, got {:?}", other),
    };
    // After the lag report the subscriber reads the oldest retained frame.
    assert_eq!(rx.try_recv().unwrap(), format!("frame {}", skipped));
}

#[test]
fn dedup_keys_and_sweep() {
    assert_eq!(dedup_key("S1", HookEvent::UserPrompt), "S1:user_prompt");
    let mut cache = DedupCache::new();
    assert!(!cache.check_and_record("S1:user_prompt", 1_000_000));
    assert!(cache.check_and_record("S1:user_prompt", 1_400_000));
    assert!(!cache.check_and_record("S2:user_prompt", 1_000_000));
    // A minute later the sweep drops everything older than five seconds.
    cache.sweep(61_000_000);
    assert!(!cache.check_and_record("S1:user_prompt", 61_000_001));
}

#[test]
fn scanner_matches_by_lowercased_name_with_excludes() {
    let scanner = ProcessScanner::new(
        "agent_cli",
        vec!["agent-cli.exe".to_string(), "agent-cli".to_string()],
        vec!["chrome-native-host.exe".to_string()],
    );
    assert!(scanner.is_target_process("Agent-CLI.EXE"));
    assert!(scanner.is_target_process("agent-cli"));
    assert!(!scanner.is_target_process("chrome-native-host.exe"));
    assert!(!scanner.is_target_process("codex.exe"));
}

#[test]
fn registry_holds_two_adapters_and_a_replaceable_cache() {
    let mut registry = AdapterRegistry::new();
    assert_eq!(registry.adapters().len(), 2);
    assert_eq!(registry.adapters()[0].name, "agent_cli");
    assert_eq!(registry.adapters()[1].name, "codex");
    assert!(registry.get_cached().is_empty());
    registry.install_scan(vec![agent_desk::merge::ProcessInfo {
        pid: 7,
        name: "agent-cli.exe".to_string(),
        agent_type: "agent_cli".to_string(),
        cwd: "C:/p".to_string(),
        uptime: 1,
        create_time: 2,
    }]);
    assert_eq!(registry.get_cached().len(), 1);
    assert_eq!(registry.get_cached()[0].pid, 7);
}

#[test]
fn config_defaults() {
    let c = Config::default();
    assert_eq!(c.manager.port, 15924);
    assert_eq!(c.manager.max_events_age, 86400);
    assert_eq!(c.general.session_ttl, 86400);
    assert_eq!(c.island.permission_timeout_secs, 600);
    assert_eq!(c.island.hotkey, "Alt+D");
    assert!(c.island.sound_enabled);
    assert_eq!(c.island.sound_stop, "asterisk");
    assert!(!c.telegram.enabled);
    let m = ManagerConfig::default();
    assert_eq!(m.events_file, "events.jsonl");
    let i = IslandConfig::default();
    assert_eq!(i.pill_width, 300);
    assert_eq!(i.panel_height, 320);
}

#[test]
fn text_helpers() {
    let v = str_to_chars("héllo\n");
    assert_eq!(chars_to_string(&v), "héllo\n");
    let long: String = "x".repeat(400);
    let t = chars_to_string(&truncated(&long, 300, 297));
    assert_eq!(t.chars().count(), 300);
    assert!(t.ends_with("..."));
    assert_eq!(chars_to_string(&short_sid("0123456789")), "01234567");
    assert_eq!(chars_to_string(&short_sid("short")), "short");
}
