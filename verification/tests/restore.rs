use sess::model::{PaneSnapshot, SessionSnapshot, Timestamp, WindowSnapshot};
use sess::restore::{attach, kill_session, kill_window, restore, restore_error_message, start_new, RestoreError};

fn pane(index: u32, cwd: &str, command: &str) -> PaneSnapshot {
    PaneSnapshot { index, cwd: cwd.into(), command: command.into() }
}

fn snapshot(windows: Vec<WindowSnapshot>, env: Vec<(String, String)>) -> SessionSnapshot {
    SessionSnapshot::taken_at("work".into(), windows, env, Timestamp { unix_secs: 0, nanos: 0, offset_secs: 0 })
}

#[test]
fn restore_plan_rebuilds_windows_panes_layout_and_commands() {
    let s = snapshot(
        vec![
            WindowSnapshot {
                index: 1,
                name: "dev".into(),
                layout: "b25f,80x24".into(),
                panes: vec![pane(0, "/p", "vim a.rs"), pane(1, "/q", "")],
            },
            WindowSnapshot { index: 3, name: "logs".into(), layout: String::new(), panes: vec![pane(0, "/l", "-x")] },
        ],
        vec![],
    );
    let plan = restore(&s, false).unwrap();
    let expected: Vec<Vec<&str>> = vec![
        vec!["new-session", "-d", "-s", "work", "-c", "/p", "-n", "dev"],
        vec!["split-window", "-t", "work:1", "-c", "/q"],
        vec!["select-layout", "-t", "work:1", "b25f,80x24"],
        vec!["send-keys", "-t", "work:1.0", "--", "vim a.rs", "Enter"],
        vec!["new-window", "-t", "work:3", "-n", "logs", "-c", "/l"],
        vec!["send-keys", "-t", "work:3.0", "--", "-x", "Enter"],
        vec!["select-window", "-t", "work:1"],
    ];
    assert_eq!(plan, expected);
}

#[test]
fn persisted_variables_are_exported_in_every_pane_before_its_command() {
    let s = snapshot(
        vec![WindowSnapshot {
            index: 0,
            name: "w".into(),
            layout: String::new(),
            panes: vec![pane(0, "/p", "npm run dev"), pane(1, "/p", "")],
        }],
        vec![("NODE_ENV".into(), "it's prod".into())],
    );
    let plan = restore(&s, false).unwrap();
    let expected: Vec<Vec<&str>> = vec![
        vec!["new-session", "-d", "-s", "work", "-c", "/p", "-n", "w"],
        vec!["split-window", "-t", "work:0", "-c", "/p"],
        vec!["send-keys", "-t", "work:0.0", "--", r"export NODE_ENV='it'\''s prod'", "Enter"],
        vec!["send-keys", "-t", "work:0.0", "--", "npm run dev", "Enter"],
        vec!["send-keys", "-t", "work:0.1", "--", r"export NODE_ENV='it'\''s prod'", "Enter"],
        vec!["select-window", "-t", "work:0"],
    ];
    assert_eq!(plan, expected);
}

#[test]
fn restore_refuses_what_it_cannot_rebuild() {
    let ok = snapshot(vec![WindowSnapshot { index: 0, name: "w".into(), layout: String::new(), panes: vec![pane(0, "/", "")] }], vec![]);
    assert_eq!(restore(&ok, true), Err(RestoreError::AlreadyRunning));
    assert_eq!(restore(&snapshot(vec![], vec![]), false), Err(RestoreError::NoWindows));
    let no_panes = snapshot(vec![WindowSnapshot { index: 0, name: "w".into(), layout: String::new(), panes: vec![] }], vec![]);
    assert_eq!(restore(&no_panes, false), Err(RestoreError::NoPanes));
    assert_eq!(
        restore_error_message(RestoreError::AlreadyRunning, "work"),
        "a live tmux session named 'work' already exists \u{2014} use `sess open work` to attach instead of restoring."
    );
    assert_eq!(restore_error_message(RestoreError::NoWindows, "work"), "the snapshot has no saved windows");
    assert_eq!(
        restore_error_message(RestoreError::NoPanes, "work"),
        "the first window in the snapshot has no saved panes"
    );
}

#[test]
fn a_later_window_without_panes_starts_in_home() {
    let s = snapshot(
        vec![
            WindowSnapshot { index: 0, name: "a".into(), layout: String::new(), panes: vec![pane(0, "/a", "")] },
            WindowSnapshot { index: 1, name: "b".into(), layout: String::new(), panes: vec![] },
        ],
        vec![],
    );
    let plan = restore(&s, false).unwrap();
    assert_eq!(plan[1], vec!["new-window", "-t", "work:1", "-n", "b", "-c", "~"]);
}

#[test]
fn simple_tmux_commands() {
    assert_eq!(start_new("x"), vec!["new-session", "-d", "-s", "x"]);
    assert_eq!(attach("x", true), vec!["switch-client", "-t", "x"]);
    assert_eq!(attach("x", false), vec!["attach-session", "-t", "x"]);
    assert_eq!(kill_session("x"), vec!["kill-session", "-t", "x"]);
    assert_eq!(kill_window("x:1"), vec!["kill-window", "-t", "x:1"]);
}
