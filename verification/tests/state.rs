use sess::model::{PaneSnapshot, SessionSnapshot, Timestamp, WindowSnapshot};
use sess::state::{all, build_state, first_missing, of, pane_cwd_list, StateKind};
use sess::storage::RawEntry;

fn snapshot_with_cwd(cwd: &str) -> SessionSnapshot {
    SessionSnapshot::new(
        "t".into(),
        vec![WindowSnapshot {
            index: 0,
            name: "w".into(),
            layout: String::new(),
            panes: vec![PaneSnapshot {
                index: 0,
                cwd: cwd.into(),
                command: String::new(),
            }],
        }],
        Default::default(),
    )
    .expect("the system clock reads a time after 1970")
}

/// Asks the disk whether each pane's working directory exists.
fn presence(snap: &SessionSnapshot) -> Vec<bool> {
    pane_cwd_list(snap).iter().map(|c| std::path::Path::new(c).exists()).collect()
}

fn presence_of(raw: &[RawEntry]) -> Vec<Vec<bool>> {
    raw.iter()
        .map(|e| match &e.snapshot {
            Ok(s) => presence(s),
            Err(_) => Vec::new(),
        })
        .collect()
}

#[test]
fn saved_when_cwd_exists_and_not_live() {
    let snap = snapshot_with_cwd("/tmp");
    let state = build_state("t".into(), &snap, 10, false, &presence(&snap));
    assert_eq!(state.kind, StateKind::Saved);
}

#[test]
fn stale_when_cwd_missing_and_not_live() {
    let snap = snapshot_with_cwd("/this/does/not/exist/sess-test");
    let state = build_state("t".into(), &snap, 10, false, &presence(&snap));
    assert_eq!(state.kind, StateKind::Stale);
    assert!(state.detail.is_some());
}

#[test]
fn running_takes_priority_over_stale() {
    let snap = snapshot_with_cwd("/this/does/not/exist/sess-test");
    let state = build_state("t".into(), &snap, 10, true, &presence(&snap));
    assert_eq!(state.kind, StateKind::Running);
}

#[test]
fn stale_detail_names_the_missing_directory() {
    let snap = snapshot_with_cwd("/this/does/not/exist/sess-test");
    let state = build_state("t".into(), &snap, 10, false, &presence(&snap));
    assert_eq!(
        state.detail.as_deref(),
        Some("a saved directory no longer exists: /this/does/not/exist/sess-test")
    );
    assert_eq!(state.window_count, Some(1));
    assert_eq!(state.pane_count, Some(1));
    assert_eq!(state.size_bytes, Some(10));
}

fn entry(name: &str, snapshot: Result<SessionSnapshot, String>) -> RawEntry {
    RawEntry { name: name.into(), size_bytes: 100, snapshot }
}

fn valid(name: &str) -> SessionSnapshot {
    SessionSnapshot::taken_at(
        name.into(),
        vec![WindowSnapshot {
            index: 0,
            name: "w".into(),
            layout: String::new(),
            panes: vec![PaneSnapshot { index: 0, cwd: "/tmp".into(), command: String::new() }],
        }],
        vec![],
        Timestamp { unix_secs: 1_700_000_000, nanos: 0, offset_secs: 0 },
    )
}

#[test]
fn all_is_the_sorted_union_of_saved_and_live_sessions() {
    let raw = vec![
        entry("zeta", Ok(valid("zeta"))),
        entry("alpha", Err("expected value".into())),
        entry("mid", Ok(valid("mid"))),
    ];
    let live = vec!["mid".to_string(), "beta".to_string()];
    let states = all(&raw, &presence_of(&raw), &live);
    let names: Vec<&str> = states.iter().map(|s| s.name.as_str()).collect();
    assert_eq!(names, vec!["alpha", "beta", "mid", "zeta"]);
    assert_eq!(states[0].kind, StateKind::Broken);
    assert_eq!(states[0].detail.as_deref(), Some("saved file could not be read: expected value"));
    assert_eq!(states[0].size_bytes, Some(100));
    assert_eq!(states[1].kind, StateKind::Running);
    assert_eq!(states[1].size_bytes, None);
    assert_eq!(states[2].kind, StateKind::Running);
    assert_eq!(states[2].pane_count, Some(1));
    assert_eq!(states[3].kind, StateKind::Saved);
}

#[test]
fn a_live_session_with_a_broken_file_is_running() {
    let raw = vec![entry("x", Err("bad".into()))];
    let live = vec!["x".to_string()];
    let states = all(&raw, &presence_of(&raw), &live);
    assert_eq!(states.len(), 1);
    assert_eq!(states[0].kind, StateKind::Running);
    assert_eq!(states[0].detail, None);
}

#[test]
fn duplicate_live_names_appear_once() {
    let states = all(&vec![], &vec![], &vec!["a".to_string(), "a".to_string()]);
    assert_eq!(states.len(), 1);
}

#[test]
fn of_finds_known_sessions_only() {
    let raw = vec![entry("saved", Ok(valid("saved")))];
    let live = vec!["live".to_string()];
    assert_eq!(of(&raw, &presence_of(&raw), &live, "saved").map(|s| s.kind), Some(StateKind::Saved));
    assert_eq!(of(&raw, &presence_of(&raw), &live, "live").map(|s| s.kind), Some(StateKind::Running));
    assert!(of(&raw, &presence_of(&raw), &live, "unknown").is_none());
}

#[test]
fn state_labels() {
    assert_eq!(StateKind::Running.label(), "RUNNING");
    assert_eq!(StateKind::Saved.label(), "SAVED");
    assert_eq!(StateKind::Stale.label(), "STALE");
    assert_eq!(StateKind::Broken.label(), "BROKEN");
}

#[test]
fn pane_directories_are_listed_in_window_then_pane_order() {
    let pane = |i: u32, cwd: &str| PaneSnapshot { index: i, cwd: cwd.into(), command: String::new() };
    let snap = SessionSnapshot::taken_at(
        "m".into(),
        vec![
            WindowSnapshot { index: 0, name: "a".into(), layout: String::new(), panes: vec![pane(0, "/a0"), pane(1, "/a1")] },
            WindowSnapshot { index: 1, name: "b".into(), layout: String::new(), panes: vec![] },
            WindowSnapshot { index: 2, name: "c".into(), layout: String::new(), panes: vec![pane(0, "/c0")] },
        ],
        vec![],
        Timestamp { unix_secs: 0, nanos: 0, offset_secs: 0 },
    );
    assert_eq!(pane_cwd_list(&snap), vec!["/a0".to_string(), "/a1".to_string(), "/c0".to_string()]);
}

#[test]
fn stale_or_saved_follows_the_flags() {
    let snap = valid("v");
    let saved = build_state("v".into(), &snap, 5, false, &vec![true]);
    assert_eq!(saved.kind, StateKind::Saved);
    let stale = build_state("v".into(), &snap, 5, false, &vec![false]);
    assert_eq!(stale.kind, StateKind::Stale);
    assert_eq!(stale.detail.as_deref(), Some("a saved directory no longer exists: /tmp"));
    let raw = vec![entry("v", Ok(valid("v")))];
    let states = all(&raw, &vec![vec![false]], &vec![]);
    assert_eq!(states[0].kind, StateKind::Stale);
}

#[test]
fn first_missing_takes_the_first_absent_directory_in_window_then_pane_order() {
    let pane = |i: u32, cwd: &str| PaneSnapshot { index: i, cwd: cwd.into(), command: String::new() };
    let snap = SessionSnapshot::taken_at(
        "m".into(),
        vec![
            WindowSnapshot { index: 0, name: "a".into(), layout: String::new(), panes: vec![pane(0, "/a0"), pane(1, "/a1")] },
            WindowSnapshot { index: 1, name: "b".into(), layout: String::new(), panes: vec![] },
            WindowSnapshot { index: 2, name: "c".into(), layout: String::new(), panes: vec![pane(0, "/c0")] },
        ],
        vec![],
        Timestamp { unix_secs: 0, nanos: 0, offset_secs: 0 },
    );
    assert_eq!(first_missing(&snap, &vec![true, true, true]), None);
    assert_eq!(first_missing(&snap, &vec![true, false, false]), Some("/a1".to_string()));
    assert_eq!(first_missing(&snap, &vec![true, true, false]), Some("/c0".to_string()));
    assert_eq!(first_missing(&snap, &vec![false, true, true]), Some("/a0".to_string()));
}
