use sess::commands::{
    asks_before_overwrite, attach_refusal, auto_save_refusal, close_refusal, confirms_overwrite, env_summary,
    list_report, open_step, same_name_refusal, save_name, saved_message, status_report,
    overwrite_question, OpenStep,
};
use sess::model::Timestamp;
use sess::state::{SessionState, StateKind};

fn state(name: &str, kind: StateKind) -> SessionState {
    SessionState {
        name: name.into(),
        kind,
        window_count: None,
        pane_count: None,
        size_bytes: None,
        saved_at: None,
        detail: None,
    }
}

#[test]
fn save_defaults_to_the_session_name() {
    assert_eq!(save_name(None, "work".into()), "work");
    assert_eq!(save_name(Some("other".into()), "work".into()), "other");
}

#[test]
fn overwrite_needs_an_explicit_yes() {
    assert!(confirms_overwrite("y\n"));
    assert!(confirms_overwrite("  Y  "));
    assert!(!confirms_overwrite("yes"));
    assert!(!confirms_overwrite(""));
    assert!(!confirms_overwrite("n"));
    assert_eq!(
        overwrite_question("w"),
        "a saved session named 'w' already exists. Overwrite? [y/N] "
    );
}

#[test]
fn save_messages() {
    assert_eq!(saved_message("w", 3, 0), "session saved as 'w' (3 panes).");
    assert_eq!(saved_message("w", 3, 2), "session saved as 'w' (3 panes, 2 env var(s) persisted).");
}

#[test]
fn open_attaches_unless_forced() {
    assert_eq!(open_step(true, false), OpenStep::Attach);
    assert_eq!(open_step(true, true), OpenStep::Restore { kill_first: true });
    assert_eq!(open_step(false, false), OpenStep::Restore { kill_first: false });
    assert_eq!(open_step(false, true), OpenStep::Restore { kill_first: false });
}

#[test]
fn restored_env_summary() {
    assert_eq!(env_summary(&vec![]), None);
    let env = vec![("EDITOR".to_string(), "vim".to_string()), ("NODE_ENV".to_string(), "p".to_string())];
    assert_eq!(env_summary(&env).as_deref(), Some("restoring 2 persisted env var(s): EDITOR, NODE_ENV"));
}

#[test]
fn refusals_name_the_situation() {
    assert_eq!(
        attach_refusal("w"),
        "tmux session 'w' is not running; use `sess open w` to restore it from a saved snapshot"
    );
    assert_eq!(close_refusal("w", &None), "'w' is not currently running");
    assert_eq!(
        close_refusal("w", &Some(state("w", StateKind::Saved))),
        "'w' is not currently running (it has a saved snapshot but isn't running)"
    );
    assert_eq!(
        close_refusal("w", &Some(state("w", StateKind::Stale))),
        "'w' is not currently running (it has a stale saved snapshot but isn't running)"
    );
    assert_eq!(
        close_refusal("w", &Some(state("w", StateKind::Broken))),
        "'w' is not currently running (its saved snapshot is broken and it isn't running)"
    );
    assert_eq!(same_name_refusal("a", "a").as_deref(), Some("source and destination names are the same"));
    assert_eq!(same_name_refusal("a", "b"), None);
    assert_eq!(
        auto_save_refusal("w"),
        "'w' is not currently running \u{2014} start it first with `sess start w`"
    );
}

#[test]
fn status_report_counts_and_lists() {
    let mut stale = state("old", StateKind::Stale);
    stale.detail = Some("a saved directory no longer exists: /tmp/x".into());
    let states = vec![state("a", StateKind::Running), state("b", StateKind::Saved), stale];
    let lines = status_report(&states);
    assert_eq!(
        lines,
        vec![
            "1 running, 1 saved, 1 stale, 0 broken (3 total)".to_string(),
            "  RUNNING  a".to_string(),
            "  SAVED    b".to_string(),
            "  STALE    old \u{2014} a saved directory no longer exists: /tmp/x".to_string(),
        ]
    );
}

#[test]
fn list_report_table() {
    assert_eq!(
        list_report(&vec![]),
        vec!["no sessions yet. Use `sess start <name>` or `sess save <name>` to create one.".to_string()]
    );
    let mut s = state("backend-debug", StateKind::Running);
    s.window_count = Some(1);
    s.pane_count = Some(3);
    s.size_bytes = Some(633);
    s.saved_at = Some(Timestamp { unix_secs: 1_788_059_785, nanos: 0, offset_secs: 0 });
    let mut broken = state("bad", StateKind::Broken);
    broken.size_bytes = Some(1229);
    broken.detail = Some("saved file could not be read: x".into());
    let lines = list_report(&vec![s, broken]);
    assert_eq!(
        lines,
        vec![
            format!("{:<20} {:<8} {:>3} {:>3} {:>10}  SAVED", "NAME", "STATE", "WIN", "PANE", "SIZE"),
            format!("{:<20} {:<8} {:>3} {:>3} {:>10}  {}", "backend-debug", "RUNNING", "1", "3", "633 B", "2026-08-30 03:16"),
            format!("{:<20} {:<8} {:>3} {:>3} {:>10}  {}", "bad", "BROKEN", "-", "-", "1.2 KB", "-"),
            "  saved file could not be read: x".to_string(),
        ]
    );
}

#[test]
fn save_asks_only_when_the_name_is_taken_and_not_forced() {
    assert!(asks_before_overwrite(true, false));
    assert!(!asks_before_overwrite(true, true));
    assert!(!asks_before_overwrite(false, false));
    assert!(!asks_before_overwrite(false, true));
}
