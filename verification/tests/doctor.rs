use sess::doctor::{exit_code, fix, run_checks, CheckResult, CheckStatus, DoctorProbes};
use sess::state::{SessionState, StateKind};

#[test]
fn exit_code_is_zero_without_failures() {
    let results = vec![
        CheckResult {
            status: CheckStatus::Pass,
            label: "a".into(),
            detail: None,
        },
        CheckResult {
            status: CheckStatus::Warn,
            label: "b".into(),
            detail: None,
        },
    ];
    assert_eq!(exit_code(&results), 0);
}

#[test]
fn exit_code_is_nonzero_with_any_failure() {
    let results = vec![
        CheckResult {
            status: CheckStatus::Pass,
            label: "a".into(),
            detail: None,
        },
        CheckResult {
            status: CheckStatus::Fail,
            label: "b".into(),
            detail: None,
        },
    ];
    assert_eq!(exit_code(&results), 1);
}

#[test]
fn exit_code_of_no_checks_is_zero() {
    assert_eq!(exit_code(&[]), 0);
}

fn state(name: &str, kind: StateKind) -> SessionState {
    SessionState {
        name: name.into(),
        kind,
        window_count: None,
        pane_count: None,
        size_bytes: None,
        saved_at: None,
        detail: None,
    }
}

#[test]
fn healthy_system_passes_every_check_in_order() {
    let probes = DoctorProbes {
        tmux_runs: true,
        tmux_version: Some("tmux 3.4".into()),
        storage_dir: Ok("/home/u/.local/share/sess".into()),
        storage_write: Some(Ok(())),
        sessions: Ok(vec![state("a", StateKind::Saved), state("b", StateKind::Running)]),
        term_set: true,
    };
    let results = run_checks(&probes);
    let labels: Vec<&str> = results.iter().map(|r| r.label.as_str()).collect();
    assert_eq!(
        labels,
        vec![
            "tmux installed",
            "tmux version (tmux 3.4)",
            "storage directory (/home/u/.local/share/sess)",
            "storage writable",
            "session data valid",
            "terminal environment",
        ]
    );
    assert!(results.iter().all(|r| r.status == CheckStatus::Pass && r.detail.is_none()));
    assert_eq!(exit_code(&results), 0);
}

#[test]
fn broken_sessions_fail_and_stale_ones_warn() {
    let mut probes = DoctorProbes {
        tmux_runs: true,
        tmux_version: Some("tmux 3.4".into()),
        storage_dir: Ok("/s".into()),
        storage_write: Some(Ok(())),
        sessions: Ok(vec![
            state("a", StateKind::Broken),
            state("b", StateKind::Stale),
            state("c", StateKind::Broken),
        ]),
        term_set: true,
    };
    let results = run_checks(&probes);
    assert_eq!(results[4].status, CheckStatus::Fail);
    assert_eq!(
        results[4].detail.as_deref(),
        Some("2 saved session file(s) could not be read. Run `sess prune` to remove them, or `sess doctor --fix`.")
    );
    assert_eq!(exit_code(&results), 1);

    probes.sessions = Ok(vec![state("b", StateKind::Stale)]);
    let results = run_checks(&probes);
    assert_eq!(results[4].status, CheckStatus::Warn);
    assert_eq!(
        results[4].detail.as_deref(),
        Some("1 saved session(s) reference directories that no longer exist.")
    );
    assert_eq!(exit_code(&results), 0);
}

#[test]
fn missing_tmux_and_storage_problems_are_reported() {
    let probes = DoctorProbes {
        tmux_runs: false,
        tmux_version: None,
        storage_dir: Err("permission denied".into()),
        storage_write: None,
        sessions: Err("boom".into()),
        term_set: false,
    };
    let results = run_checks(&probes);
    assert_eq!(results[0].status, CheckStatus::Fail);
    assert_eq!(results[1].status, CheckStatus::Warn);
    assert_eq!(results[1].label, "tmux version");
    assert_eq!(results[2].detail.as_deref(), Some("could not create or access it: permission denied"));
    assert_eq!(
        results[3].detail.as_deref(),
        Some("skipped \u{2014} storage directory itself is not accessible.")
    );
    assert_eq!(results[4].detail.as_deref(), Some("could not inspect saved sessions: boom"));
    assert_eq!(results[5].status, CheckStatus::Warn);
    assert_eq!(exit_code(&results), 1);
}

#[test]
fn unwritable_storage_fails() {
    let probes = DoctorProbes {
        tmux_runs: true,
        tmux_version: Some("tmux 3.4".into()),
        storage_dir: Ok("/s".into()),
        storage_write: Some(Err("read-only file system".into())),
        sessions: Ok(vec![]),
        term_set: true,
    };
    let results = run_checks(&probes);
    assert_eq!(results[3].status, CheckStatus::Fail);
    assert_eq!(
        results[3].detail.as_deref(),
        Some("could not write to the storage directory: read-only file system. Check its permissions.")
    );
}

#[test]
fn fix_only_reports_the_storage_directory() {
    let applied = fix(true);
    assert_eq!(applied.len(), 1);
    assert_eq!(applied[0].label, "storage directory");
    assert!(fix(false).is_empty());
}
