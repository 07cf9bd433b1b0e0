//! What a saved session holds: windows, panes, persisted environment
//! variables, and when it was taken.
use vstd::prelude::*;
use crate::sorted::{env_wf, pairs_map};

verus! {

/// Current on-disk snapshot format version.
pub const CURRENT_SNAPSHOT_VERSION: u32 = 2;

/// The version of a snapshot written before the `version` field existed.
pub fn default_version() -> (v: u32)
    ensures
        v == 1,
{
    1
}

/// A point in time: seconds and nanoseconds since the Unix epoch (UTC), and
/// the local offset from UTC, in seconds, at which it was taken.
#[derive(Clone, Copy, Debug, PartialEq, Eq)]
pub struct Timestamp {
    pub unix_secs: i64,
    /// May exceed 999,999,999 during a leap second.
    pub nanos: u32,
    pub offset_secs: i32,
}

impl Timestamp {
    /// Whether `self` is a strictly earlier instant than `other`.
    pub open spec fn before(self, other: Timestamp) -> bool {
        self.unix_secs < other.unix_secs || (self.unix_secs == other.unix_secs && self.nanos
            < other.nanos)
    }

    /// Whether `self` is a strictly earlier instant than `other`.
    pub fn is_before(&self, other: &Timestamp) -> (r: bool)
        ensures
            r == self.before(*other),
    {
        self.unix_secs < other.unix_secs || (self.unix_secs == other.unix_secs && self.nanos
            < other.nanos)
    }
}

/// The time elapsed since the Unix epoch, as std's `SystemTime::elapsed`
/// on `UNIX_EPOCH` reports it: whole seconds and the nanoseconds beyond
/// them (which std documents as always below one billion), or `None` where
/// std reports an error, as it does when the clock reads a time before 1970.
/// What the clock reads is not claimed.
#[verifier::external_body]
fn since_epoch() -> (r: Option<(u64, u32)>)
    ensures
        r matches Some((_, n)) ==> n < 1_000_000_000,
{
    match std::time::UNIX_EPOCH.elapsed() {
        Ok(d) => Some((d.as_secs(), d.subsec_nanos())),
        Err(_) => None,
    }
}

/// The instant that a reading of the clock gives, in UTC (offset zero):
/// `r` is the seconds and nanoseconds since the Unix epoch, or `None` when
/// the clock could not be read; `None` also when the seconds do not fit in
/// an `i64`.
pub fn clock_timestamp(r: Option<(u64, u32)>) -> (t: Option<Timestamp>)
    ensures
        t == match r {
            Some((s, n)) => if s <= 0x7fff_ffff_ffff_ffff {
                Some((Timestamp { unix_secs: s as i64, nanos: n, offset_secs: 0 }))
            } else {
                None
            },
            None => None,
        },
{
    match r {
        Some((secs, nanos)) => if secs <= 0x7fff_ffff_ffff_ffff {
            Some(Timestamp { unix_secs: secs as i64, nanos, offset_secs: 0 })
        } else {
            None
        },
        None => None,
    }
}

/// The current time, as an instant in UTC (offset zero), or `None` when the
/// system clock reads a time before 1970 or too far ahead for an `i64` of
/// seconds.
pub(crate) fn now_utc() -> (t: Option<Timestamp>)
    ensures
        t matches Some(v) ==> v.nanos < 1_000_000_000 && v.offset_secs == 0,
{
    clock_timestamp(since_epoch())
}

/// How `chrono` writes an instant as `%Y-%m-%d %H:%M` at a fixed offset
/// from UTC; `None` where chrono has no such instant or offset.
pub uninterp spec fn date_text(unix_secs: i64, nanos: u32, offset_secs: i32) -> Option<Seq<char>>;

/// The local date and time of an instant, to the minute (`%Y-%m-%d %H:%M`),
/// written by chrono: `FixedOffset::east_opt`, `DateTime::from_timestamp`,
/// `with_timezone` and `format`. The text is a function of the three numbers
/// alone; no more than that is claimed here.
#[verifier::external_body]
pub(crate) fn format_date(t: &Timestamp) -> (out: Option<String>)
    ensures
        match out {
            Some(s) => date_text(t.unix_secs, t.nanos, t.offset_secs) == Some(s@),
            None => date_text(t.unix_secs, t.nanos, t.offset_secs) is None,
        },
{
    let offset = chrono::FixedOffset::east_opt(t.offset_secs)?;
    let utc = chrono::DateTime::from_timestamp(t.unix_secs, t.nanos)?;
    Some(utc.with_timezone(&offset).format("%Y-%m-%d %H:%M").to_string())
}

/// A single pane inside a window.
#[derive(Debug)]
pub struct PaneSnapshot {
    pub index: u32,
    pub cwd: String,
    /// Command that was running in the pane; empty for an idle shell.
    pub command: String,
}

/// A window (can contain multiple panes).
#[derive(Debug)]
pub struct WindowSnapshot {
    pub index: u32,
    pub name: String,
    /// Native tmux layout string, fed back to `select-layout`.
    pub layout: String,
    pub panes: Vec<PaneSnapshot>,
}

/// A complete saved session.
#[derive(Debug)]
pub struct SessionSnapshot {
    pub version: u32,
    pub name: String,
    pub created_at: Timestamp,
    pub windows: Vec<WindowSnapshot>,
    /// Persisted environment variables, as name/value pairs in strictly
    /// increasing order of name.
    pub env: Vec<(String, String)>,
}

/// Short metadata used to list saved sessions.
#[derive(Debug)]
pub struct SessionSummary {
    pub name: String,
    pub created_at: Timestamp,
    pub pane_count: usize,
    pub window_count: usize,
    /// Size on disk in bytes.
    pub size_bytes: u64,
}

impl Clone for PaneSnapshot {
    fn clone(&self) -> (r: Self)
        ensures
            r == *self,
    {
        PaneSnapshot { index: self.index, cwd: self.cwd.clone(), command: self.command.clone() }
    }
}

impl Clone for WindowSnapshot {
    fn clone(&self) -> (r: Self)
        ensures
            r.index == self.index,
            r.name == self.name,
            r.layout == self.layout,
            r.panes@ == self.panes@,
    {
        let panes = self.panes.clone();
        proof {
            assert(panes@ =~= self.panes@);
        }
        WindowSnapshot {
            index: self.index,
            name: self.name.clone(),
            layout: self.layout.clone(),
            panes,
        }
    }
}

/// The number of panes over all the windows.
pub open spec fn total_panes(windows: Seq<WindowSnapshot>) -> nat
    decreases windows.len(),
{
    if windows.len() == 0 {
        0
    } else {
        total_panes(windows.drop_last()) + windows.last().panes@.len()
    }
}

impl SessionSnapshot {
    /// A snapshot in the current format, taken now, with its instant in UTC
    /// (the local offset is applied where it is shown or written); `None`
    /// when the system clock cannot be read as a time since 1970.
    pub fn new(name: String, windows: Vec<WindowSnapshot>, env: Vec<(String, String)>) -> (r:
        Option<SessionSnapshot>)
        ensures
            r matches Some(s) ==> {
                &&& s.version == CURRENT_SNAPSHOT_VERSION
                &&& s.name == name
                &&& s.windows == windows
                &&& s.env == env
                &&& s.created_at.nanos < 1_000_000_000
                &&& s.created_at.offset_secs == 0
                &&& -86_400 < s.created_at.offset_secs < 86_400
            },
    {
        match now_utc() {
            Some(created_at) => Some(Self::taken_at(name, windows, env, created_at)),
            None => None,
        }
    }

    /// A snapshot in the current format, taken at `created_at`.
    pub fn taken_at(
        name: String,
        windows: Vec<WindowSnapshot>,
        env: Vec<(String, String)>,
        created_at: Timestamp,
    ) -> (s: SessionSnapshot)
        ensures
            s == (SessionSnapshot {
                version: CURRENT_SNAPSHOT_VERSION,
                name,
                created_at,
                windows,
                env,
            }),
    {
        SessionSnapshot { version: CURRENT_SNAPSHOT_VERSION, name, created_at, windows, env }
    }

    /// The number of panes over all the windows.
    pub fn pane_count(&self) -> (n: usize)
        requires
            total_panes(self.windows@) <= usize::MAX,
        ensures
            n == total_panes(self.windows@),
    {
        let mut n: usize = 0;
        let mut i: usize = 0;
        while i < self.windows.len()
            invariant
                i <= self.windows@.len(),
                total_panes(self.windows@) <= usize::MAX,
                n == total_panes(self.windows@.take(i as int)),
            decreases self.windows@.len() - i,
        {
            proof {
                assert(self.windows@.take(i + 1).drop_last() =~= self.windows@.take(i as int));
                lemma_total_panes_prefix(self.windows@, i + 1);
            }
            n = n + self.windows[i].panes.len();
            i = i + 1;
        }
        proof {
            assert(self.windows@.take(i as int) =~= self.windows@);
        }
        n
    }

    /// The number of windows.
    pub fn window_count(&self) -> (n: usize)
        ensures
            n == self.windows@.len(),
    {
        self.windows.len()
    }

    /// Whether the persisted environment is well formed (names strictly increasing).
    pub open spec fn env_ok(&self) -> bool {
        env_wf(self.env@)
    }

    /// The persisted environment as a map from names to values.
    pub open spec fn env_map(&self) -> Map<Seq<char>, Seq<char>> {
        pairs_map(self.env@)
    }
}

/// The panes of a prefix are no more than those of the whole.
pub proof fn lemma_total_panes_prefix(windows: Seq<WindowSnapshot>, i: int)
    requires
        0 <= i <= windows.len(),
    ensures
        total_panes(windows.take(i)) <= total_panes(windows),
    decreases windows.len() - i,
{
    if i < windows.len() {
        lemma_total_panes_prefix(windows, i + 1);
        assert(windows.take(i + 1).drop_last() =~= windows.take(i));
    } else {
        assert(windows.take(i) =~= windows);
    }
}

/// Pane counts add up over windows: the panes of two runs of windows are
/// those of the first plus those of the second, and a single window counts
/// its own panes, so the count of a snapshot is the sum over its windows.
pub proof fn lemma_total_panes_additive(a: Seq<WindowSnapshot>, b: Seq<WindowSnapshot>)
    ensures
        total_panes(a + b) == total_panes(a) + total_panes(b),
        forall|w: WindowSnapshot| #[trigger] total_panes(seq![w]) == w.panes@.len(),
    decreases b.len(),
{
    assert forall|w: WindowSnapshot| #[trigger] total_panes(seq![w]) == w.panes@.len() by {
        assert(seq![w].drop_last() =~= Seq::<WindowSnapshot>::empty());
        assert(total_panes(Seq::<WindowSnapshot>::empty()) == 0);
        assert(seq![w].last() == w);
        assert(total_panes(seq![w]) == total_panes(seq![w].drop_last()) + seq![w].last().panes@.len());
    }
    if b.len() == 0 {
        assert(a + b =~= a);
    } else {
        lemma_total_panes_additive(a, b.drop_last());
        assert((a + b).drop_last() =~= a + b.drop_last());
        assert((a + b).last() == b.last());
    }
}

} // verus!
