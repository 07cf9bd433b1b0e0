//! Health checks of `sess doctor`: from what was observed of the system,
//! the fixed list of check results, and the exit code they lead to.
use vstd::prelude::*;
use crate::state::{SessionState, StateKind};
use crate::text::{decimal, owned, push_decimal, push_str};

verus! {

/// The outcome of one check.
#[derive(Clone, Copy, Debug, PartialEq, Eq, Structural)]
pub enum CheckStatus {
    Pass,
    Warn,
    Fail,
}

/// One check: its outcome, what it checked, and an explanation.
#[derive(Debug)]
pub struct CheckResult {
    pub status: CheckStatus,
    pub label: String,
    pub detail: Option<String>,
}

/// What was observed of the system, one item per check.
#[derive(Debug)]
pub struct DoctorProbes {
    /// Whether `tmux -V` ran and succeeded.
    pub tmux_runs: bool,
    /// What a second `tmux -V` printed (trimmed), if it ran and succeeded.
    pub tmux_version: Option<String>,
    /// The storage directory as displayed, or why it could not be created or accessed.
    pub storage_dir: Result<String, String>,
    /// Whether a probe file could be written to the storage directory, or
    /// why not; `None` when the directory itself could not be accessed.
    pub storage_write: Option<Result<(), String>>,
    /// The state of every session, or why they could not be inspected.
    pub sessions: Result<Vec<SessionState>, String>,
    /// Whether `$TERM` is set.
    pub term_set: bool,
}

/// The view of a check result.
pub open spec fn result_view(r: CheckResult) -> (CheckStatus, Seq<char>, Option<Seq<char>>) {
    (
        r.status,
        r.label@,
        match r.detail {
            Some(d) => Some(d@),
            None => None,
        },
    )
}

pub open spec fn tmux_installed_spec(runs: bool) -> (CheckStatus, Seq<char>, Option<Seq<char>>) {
    if runs {
        (CheckStatus::Pass, "tmux installed"@, None)
    } else {
        (
            CheckStatus::Fail,
            "tmux installed"@,
            Some(
                "tmux was not found on your PATH \u{2014} install it with your package manager (e.g. `apt install tmux`)."@,
            ),
        )
    }
}

pub open spec fn tmux_version_spec(version: Option<Seq<char>>) -> (
    CheckStatus,
    Seq<char>,
    Option<Seq<char>>,
) {
    match version {
        Some(v) => (CheckStatus::Pass, "tmux version ("@ + v + ")"@, None),
        None => (
            CheckStatus::Warn,
            "tmux version"@,
            Some("could not determine the tmux version."@),
        ),
    }
}

pub open spec fn storage_dir_spec(dir: Result<Seq<char>, Seq<char>>) -> (
    CheckStatus,
    Seq<char>,
    Option<Seq<char>>,
) {
    match dir {
        Ok(d) => (CheckStatus::Pass, "storage directory ("@ + d + ")"@, None),
        Err(e) => (
            CheckStatus::Fail,
            "storage directory"@,
            Some("could not create or access it: "@ + e),
        ),
    }
}

pub open spec fn storage_writable_spec(write: Option<Result<(), Seq<char>>>) -> (
    CheckStatus,
    Seq<char>,
    Option<Seq<char>>,
) {
    match write {
        None => (
            CheckStatus::Fail,
            "storage writable"@,
            Some("skipped \u{2014} storage directory itself is not accessible."@),
        ),
        Some(Ok(())) => (CheckStatus::Pass, "storage writable"@, None),
        Some(Err(e)) => (
            CheckStatus::Fail,
            "storage writable"@,
            Some("could not write to the storage directory: "@ + e + ". Check its permissions."@),
        ),
    }
}

/// How many states are of the given kind.
pub open spec fn count_kind(states: Seq<SessionState>, k: StateKind) -> nat
    decreases states.len(),
{
    if states.len() == 0 {
        0
    } else {
        count_kind(states.drop_last(), k) + if states.last().kind == k {
            1nat
        } else {
            0nat
        }
    }
}

pub open spec fn session_data_spec(sessions: Result<Seq<SessionState>, Seq<char>>) -> (
    CheckStatus,
    Seq<char>,
    Option<Seq<char>>,
) {
    match sessions {
        Ok(states) => {
            let broken = count_kind(states, StateKind::Broken);
            let stale = count_kind(states, StateKind::Stale);
            if broken > 0 {
                (
                    CheckStatus::Fail,
                    "session data valid"@,
                    Some(
                        decimal(broken)
                            + " saved session file(s) could not be read. Run `sess prune` to remove them, or `sess doctor --fix`."@,
                    ),
                )
            } else if stale > 0 {
                (
                    CheckStatus::Warn,
                    "session data valid"@,
                    Some(
                        decimal(stale)
                            + " saved session(s) reference directories that no longer exist."@,
                    ),
                )
            } else {
                (CheckStatus::Pass, "session data valid"@, None)
            }
        },
        Err(e) => (
            CheckStatus::Fail,
            "session data valid"@,
            Some("could not inspect saved sessions: "@ + e),
        ),
    }
}

pub open spec fn terminal_spec(term_set: bool) -> (CheckStatus, Seq<char>, Option<Seq<char>>) {
    if term_set {
        (CheckStatus::Pass, "terminal environment"@, None)
    } else {
        (
            CheckStatus::Warn,
            "terminal environment"@,
            Some("$TERM is not set \u{2014} some tmux features may not behave correctly."@),
        )
    }
}

fn result(status: CheckStatus, label: &str, detail: Option<&str>) -> (r: CheckResult)
    ensures
        result_view(r) == (status, label@, match detail {
            Some(d) => Some(d@),
            None => None,
        }),
{
    CheckResult {
        status,
        label: owned(label),
        detail: match detail {
            Some(d) => Some(owned(d)),
            None => None,
        },
    }
}

/// Whether tmux is installed.
pub fn check_tmux_installed(runs: bool) -> (r: CheckResult)
    ensures
        result_view(r) == tmux_installed_spec(runs),
{
    if runs {
        result(CheckStatus::Pass, "tmux installed", None)
    } else {
        result(
            CheckStatus::Fail,
            "tmux installed",
            Some(
                "tmux was not found on your PATH \u{2014} install it with your package manager (e.g. `apt install tmux`).",
            ),
        )
    }
}

/// Which tmux version is installed.
pub fn check_tmux_version(version: &Option<String>) -> (r: CheckResult)
    ensures
        result_view(r) == tmux_version_spec(match version {
            Some(v) => Some(v@),
            None => None,
        }),
{
    match version {
        Some(v) => {
            let mut label = owned("tmux version (");
            push_str(&mut label, v.as_str());
            push_str(&mut label, ")");
            CheckResult { status: CheckStatus::Pass, label, detail: None }
        },
        None => result(
            CheckStatus::Warn,
            "tmux version",
            Some("could not determine the tmux version."),
        ),
    }
}

/// Whether the storage directory exists or could be created.
pub fn check_storage_dir(dir: &Result<String, String>) -> (r: CheckResult)
    ensures
        result_view(r) == storage_dir_spec(match dir {
            Ok(d) => Ok(d@),
            Err(e) => Err(e@),
        }),
{
    match dir {
        Ok(d) => {
            let mut label = owned("storage directory (");
            push_str(&mut label, d.as_str());
            push_str(&mut label, ")");
            CheckResult { status: CheckStatus::Pass, label, detail: None }
        },
        Err(e) => {
            let mut detail = owned("could not create or access it: ");
            push_str(&mut detail, e.as_str());
            CheckResult {
                status: CheckStatus::Fail,
                label: owned("storage directory"),
                detail: Some(detail),
            }
        },
    }
}

/// Whether the storage directory can be written.
pub fn check_storage_writable(write: &Option<Result<(), String>>) -> (r: CheckResult)
    ensures
        result_view(r) == storage_writable_spec(match write {
            None => None,
            Some(Ok(())) => Some(Ok(())),
            Some(Err(e)) => Some(Err(e@)),
        }),
{
    match write {
        None => result(
            CheckStatus::Fail,
            "storage writable",
            Some("skipped \u{2014} storage directory itself is not accessible."),
        ),
        Some(Ok(())) => result(CheckStatus::Pass, "storage writable", None),
        Some(Err(e)) => {
            let mut detail = owned("could not write to the storage directory: ");
            push_str(&mut detail, e.as_str());
            push_str(&mut detail, ". Check its permissions.");
            CheckResult {
                status: CheckStatus::Fail,
                label: owned("storage writable"),
                detail: Some(detail),
            }
        },
    }
}

/// How many states are of the given kind.
pub fn count_of_kind(states: &Vec<SessionState>, k: StateKind) -> (n: usize)
    ensures
        n == count_kind(states@, k),
{
    let mut n: usize = 0;
    let mut i: usize = 0;
    while i < states.len()
        invariant
            i <= states@.len(),
            n == count_kind(states@.take(i as int), k),
            n <= i,
        decreases states@.len() - i,
    {
        proof {
            assert(states@.take(i + 1).drop_last() =~= states@.take(i as int));
        }
        if states[i].kind == k {
            n = n + 1;
        }
        i = i + 1;
    }
    assert(states@.take(states@.len() as int) =~= states@);
    n
}

/// Whether every saved session file parses and references existing directories.
pub fn check_session_data(sessions: &Result<Vec<SessionState>, String>) -> (r: CheckResult)
    ensures
        result_view(r) == session_data_spec(match sessions {
            Ok(s) => Ok(s@),
            Err(e) => Err(e@),
        }),
{
    match sessions {
        Ok(states) => {
            let broken = count_of_kind(states, StateKind::Broken);
            let stale = count_of_kind(states, StateKind::Stale);
            if broken > 0 {
                let mut detail = String::new();
                push_decimal(&mut detail, broken as u64);
                push_str(
                    &mut detail,
                    " saved session file(s) could not be read. Run `sess prune` to remove them, or `sess doctor --fix`.",
                );
                assert(detail@ =~= decimal(broken as nat)
                    + " saved session file(s) could not be read. Run `sess prune` to remove them, or `sess doctor --fix`."@);
                CheckResult {
                    status: CheckStatus::Fail,
                    label: owned("session data valid"),
                    detail: Some(detail),
                }
            } else if stale > 0 {
                let mut detail = String::new();
                push_decimal(&mut detail, stale as u64);
                push_str(
                    &mut detail,
                    " saved session(s) reference directories that no longer exist.",
                );
                assert(detail@ =~= decimal(stale as nat)
                    + " saved session(s) reference directories that no longer exist."@);
                CheckResult {
                    status: CheckStatus::Warn,
                    label: owned("session data valid"),
                    detail: Some(detail),
                }
            } else {
                result(CheckStatus::Pass, "session data valid", None)
            }
        },
        Err(e) => {
            let mut detail = owned("could not inspect saved sessions: ");
            push_str(&mut detail, e.as_str());
            CheckResult {
                status: CheckStatus::Fail,
                label: owned("session data valid"),
                detail: Some(detail),
            }
        },
    }
}

/// Whether the terminal environment is set up.
pub fn check_terminal_environment(term_set: bool) -> (r: CheckResult)
    ensures
        result_view(r) == terminal_spec(term_set),
{
    if term_set {
        result(CheckStatus::Pass, "terminal environment", None)
    } else {
        result(
            CheckStatus::Warn,
            "terminal environment",
            Some("$TERM is not set \u{2014} some tmux features may not behave correctly."),
        )
    }
}

/// Every health check, in a fixed, predictable order: tmux installed, tmux
/// version, storage directory, storage writable, session data, terminal.
pub fn run_checks(p: &DoctorProbes) -> (out: Vec<CheckResult>)
    ensures
        out@.len() == 6,
        result_view(out@[0]) == tmux_installed_spec(p.tmux_runs),
        result_view(out@[1]) == tmux_version_spec(match p.tmux_version {
            Some(v) => Some(v@),
            None => None,
        }),
        result_view(out@[2]) == storage_dir_spec(match p.storage_dir {
            Ok(d) => Ok(d@),
            Err(e) => Err(e@),
        }),
        result_view(out@[3]) == storage_writable_spec(match p.storage_write {
            None => None,
            Some(Ok(())) => Some(Ok(())),
            Some(Err(e)) => Some(Err(e@)),
        }),
        result_view(out@[4]) == session_data_spec(match p.sessions {
            Ok(s) => Ok(s@),
            Err(e) => Err(e@),
        }),
        result_view(out@[5]) == terminal_spec(p.term_set),
{
    let mut out: Vec<CheckResult> = Vec::new();
    out.push(check_tmux_installed(p.tmux_runs));
    out.push(check_tmux_version(&p.tmux_version));
    out.push(check_storage_dir(&p.storage_dir));
    out.push(check_storage_writable(&p.storage_write));
    out.push(check_session_data(&p.sessions));
    out.push(check_terminal_environment(p.term_set));
    out
}

/// Whether some result is a failure.
pub open spec fn any_failed(results: Seq<CheckResult>) -> bool {
    exists|i: int| 0 <= i < results.len() && (#[trigger] results[i]).status == CheckStatus::Fail
}

/// The exit code of `sess doctor`: 1 if any check failed, 0 otherwise;
/// warnings alone do not fail it.
pub fn exit_code(results: &[CheckResult]) -> (code: i32)
    ensures
        code == if any_failed(results@) { 1i32 } else { 0i32 },
{
    let mut i: usize = 0;
    while i < results.len()
        invariant
            i <= results@.len(),
            forall|j: int| 0 <= j < i ==> (#[trigger] results@[j]).status != CheckStatus::Fail,
        decreases results@.len() - i,
    {
        if results[i].status == CheckStatus::Fail {
            return 1;
        }
        i = i + 1;
    }
    0
}

/// The safe, non-destructive fixes applied by `sess doctor --fix`, given
/// whether the storage directory is present (it is created if missing):
/// one result when it is, none otherwise. Nothing is ever deleted.
pub fn fix(storage_dir_ok: bool) -> (out: Vec<CheckResult>)
    ensures
        storage_dir_ok ==> out@.len() == 1 && result_view(out@[0]) == (
            CheckStatus::Pass,
            "storage directory"@,
            Some("already present (created if it was missing)."@),
        ),
        !storage_dir_ok ==> out@.len() == 0,
{
    let mut applied: Vec<CheckResult> = Vec::new();
    if storage_dir_ok {
        applied.push(
            result(
                CheckStatus::Pass,
                "storage directory",
                Some("already present (created if it was missing)."),
            ),
        );
    }
    applied
}

} // verus!
