use sess::autosave::{log_file, loop_interval, pid_file, pid_from_file, resave};
use sess::config::{auto_save_on_start, default_interval, effective_interval, AutosaveConfig, Config};
use sess::model::{clock_timestamp, default_version, PaneSnapshot, SessionSnapshot, Timestamp, WindowSnapshot, CURRENT_SNAPSHOT_VERSION};

#[test]
fn defaults_match_the_documented_configuration() {
    let cfg = Config::default();
    assert!(!cfg.autosave.enabled);
    assert_eq!(cfg.autosave.interval, 30);
    assert!(cfg.environment.persist.is_empty());
    assert_eq!(default_interval(), 30);
    assert_eq!(default_version(), 1);
}

#[test]
fn auto_save_flags_override_the_config() {
    let on = AutosaveConfig { enabled: true, interval: 30 };
    let off = AutosaveConfig { enabled: false, interval: 30 };
    assert!(auto_save_on_start(false, false, &on));
    assert!(!auto_save_on_start(false, false, &off));
    assert!(auto_save_on_start(true, false, &off));
    assert!(!auto_save_on_start(false, true, &on));
    assert!(!auto_save_on_start(true, true, &on));
    assert_eq!(effective_interval(Some(60), &on), 60);
    assert_eq!(effective_interval(None, &AutosaveConfig { enabled: false, interval: 45 }), 45);
}

#[test]
fn autosave_files_and_pids() {
    assert_eq!(pid_file("w"), "w.pid");
    assert_eq!(log_file("w"), "w.log");
    assert_eq!(pid_from_file("1234\n"), Some(1234));
    assert_eq!(pid_from_file("garbage"), None);
    assert_eq!(pid_from_file(""), None);
    assert_eq!(loop_interval(0), 1);
    assert_eq!(loop_interval(45), 45);
}

fn snap(name: &str, env: Vec<(String, String)>) -> SessionSnapshot {
    SessionSnapshot::taken_at(
        name.into(),
        vec![WindowSnapshot { index: 0, name: "w".into(), layout: String::new(), panes: vec![PaneSnapshot { index: 0, cwd: "/".into(), command: String::new() }] }],
        env,
        Timestamp { unix_secs: 5, nanos: 0, offset_secs: 0 },
    )
}

#[test]
fn autosave_keeps_persisted_variables() {
    let captured = snap("tmux-name", vec![]);
    let previous = snap("w", vec![("NODE_ENV".into(), "production".into())]);
    let s = resave(captured, "w", Some(previous));
    assert_eq!(s.name, "w");
    assert_eq!(s.env, vec![("NODE_ENV".to_string(), "production".to_string())]);
    let s = resave(snap("x", vec![]), "w", None);
    assert!(s.env.is_empty());
}

#[test]
fn new_snapshots_use_the_current_format() {
    let s = SessionSnapshot::new("n".into(), vec![], vec![]).expect("the clock reads after 1970");
    assert_eq!(s.version, CURRENT_SNAPSHOT_VERSION);
    assert!(s.created_at.unix_secs > 1_600_000_000);
    assert!(s.created_at.nanos < 1_000_000_000);
    assert_eq!(s.created_at.offset_secs, 0);
    assert_eq!(s.pane_count(), 0);
    assert_eq!(s.window_count(), 0);
    let t = snap("w", vec![]);
    assert_eq!(t.pane_count(), 1);
    assert_eq!(t.window_count(), 1);
}

#[test]
fn timestamps_order_by_instant() {
    let a = Timestamp { unix_secs: 10, nanos: 5, offset_secs: 3600 };
    let b = Timestamp { unix_secs: 10, nanos: 6, offset_secs: 0 };
    assert!(a.is_before(&b));
    assert!(!b.is_before(&a));
    assert!(!a.is_before(&a));
}

#[test]
fn clock_readings_become_utc_timestamps() {
    assert_eq!(
        clock_timestamp(Some((1_788_059_785, 7))),
        Some(Timestamp { unix_secs: 1_788_059_785, nanos: 7, offset_secs: 0 })
    );
    assert_eq!(clock_timestamp(Some((u64::MAX, 0))), None);
    assert_eq!(clock_timestamp(None), None);
}
