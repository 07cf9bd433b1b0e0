//! The background auto-save loop's decisions: its file names, how a pid
//! file is read, how often it saves and what each save writes.
use vstd::prelude::*;
use crate::model::SessionSnapshot;
use crate::text::{owned, parse_u32, parse_u32_spec, push_str, trim, trimmed};

verus! {

/// The file that records the pid of a session's auto-save process: `<name>.pid`.
pub fn pid_file(name: &str) -> (out: String)
    ensures
        out@ == name@ + ".pid"@,
{
    let mut out = owned(name);
    push_str(&mut out, ".pid");
    out
}

/// The log file of a session's auto-save process: `<name>.log`.
pub fn log_file(name: &str) -> (out: String)
    ensures
        out@ == name@ + ".log"@,
{
    let mut out = owned(name);
    push_str(&mut out, ".log");
    out
}

/// The pid recorded in a pid file: its trimmed text as a `u32`, if it is one.
pub fn pid_from_file(raw: &str) -> (pid: Option<u32>)
    ensures
        pid == parse_u32_spec(trimmed(raw@)),
{
    let t = trim(raw);
    parse_u32(t.as_str())
}

/// The time between saves: the interval asked for, but at least one second.
pub fn loop_interval(interval_secs: u64) -> (s: u64)
    ensures
        s == if interval_secs >= 1 { interval_secs } else { 1 },
{
    if interval_secs >= 1 {
        interval_secs
    } else {
        1
    }
}

/// What one auto-save writes: the freshly captured snapshot, under the
/// watched session's name, keeping the variables persisted by the last
/// manual save (when that save can be read) instead of dropping them.
pub fn resave(captured: SessionSnapshot, name: &str, previous: Option<SessionSnapshot>) -> (s:
    SessionSnapshot)
    ensures
        s.name@ == name@,
        s.version == captured.version,
        s.created_at == captured.created_at,
        s.windows == captured.windows,
        s.env == match previous {
            Some(p) => p.env,
            None => captured.env,
        },
{
    let mut s = captured;
    s.name = owned(name);
    match previous {
        Some(p) => {
            s.env = p.env;
        },
        None => {},
    }
    s
}

} // verus!
