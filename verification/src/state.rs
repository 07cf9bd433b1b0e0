//! The one place that classifies sessions: every saved snapshot (valid or
//! not) and every live tmux session is in exactly one of four states.
use vstd::prelude::*;
use crate::model::{total_panes, PaneSnapshot, SessionSnapshot, Timestamp, WindowSnapshot};
use crate::sorted::{insert_name, strictly_sorted, views};
use crate::storage::RawEntry;
use crate::text::{owned, push_str, str_eq};

verus! {

/// The state of a session.
#[derive(Clone, Copy, Debug, PartialEq, Eq, Structural)]
pub enum StateKind {
    /// A live tmux session exists for this name.
    Running,
    /// A valid snapshot exists, no live session, and every directory it
    /// references still exists.
    Saved,
    /// A valid snapshot exists, no live session, but a pane's working
    /// directory no longer exists.
    Stale,
    /// The saved session file exists but could not be parsed.
    Broken,
}

impl StateKind {
    /// The label shown for a state (`RUNNING`, `SAVED`, `STALE`, `BROKEN`).
    pub open spec fn label_spec(self) -> Seq<char> {
        match self {
            StateKind::Running => "RUNNING"@,
            StateKind::Saved => "SAVED"@,
            StateKind::Stale => "STALE"@,
            StateKind::Broken => "BROKEN"@,
        }
    }

    /// The label shown for a state.
    pub fn label(&self) -> (out: String)
        ensures
            out@ == self.label_spec(),
    {
        match self {
            StateKind::Running => owned("RUNNING"),
            StateKind::Saved => owned("SAVED"),
            StateKind::Stale => owned("STALE"),
            StateKind::Broken => owned("BROKEN"),
        }
    }
}

/// The state of one session, with what is known of it.
#[derive(Debug)]
pub struct SessionState {
    pub name: String,
    pub kind: StateKind,
    pub window_count: Option<usize>,
    pub pane_count: Option<usize>,
    pub size_bytes: Option<u64>,
    pub saved_at: Option<Timestamp>,
    /// Human-readable explanation, present for stale and broken sessions.
    pub detail: Option<String>,
}

/// Text of the detail of a stale session.
pub open spec fn stale_detail(missing: Seq<char>) -> Seq<char> {
    "a saved directory no longer exists: "@ + missing
}

/// Text of the detail of a broken session.
pub open spec fn broken_detail(error: Seq<char>) -> Seq<char> {
    "saved file could not be read: "@ + error
}

/// The view of an optional text.
pub open spec fn opt_view(o: Option<String>) -> Option<Seq<char>> {
    match o {
        Some(s) => Some(s@),
        None => None,
    }
}

/// Whether some pane of the snapshot has `cwd` as its working directory.
pub open spec fn has_pane_cwd(s: SessionSnapshot, cwd: Seq<char>) -> bool {
    exists|w: int, p: int|
        0 <= w < s.windows@.len() && 0 <= p < s.windows@[w].panes@.len()
            && (#[trigger] s.windows@[w].panes@[p]).cwd@ == cwd
}

/// The counts, size and date of a state, from a snapshot of `size` bytes.
pub open spec fn snapshot_fields(st: SessionState, snapshot: SessionSnapshot, size: u64) -> bool {
    &&& st.window_count == Some(snapshot.windows@.len() as usize)
    &&& st.pane_count == Some(total_panes(snapshot.windows@) as usize)
    &&& st.size_bytes == Some(size)
    &&& st.saved_at == Some(snapshot.created_at)
}

/// The state of a session with a valid snapshot, given whether it is live
/// and the first of its working directories found missing, if any.
pub open spec fn state_fits(
    st: SessionState,
    name: Seq<char>,
    snapshot: SessionSnapshot,
    size: u64,
    is_live: bool,
    missing: Option<Seq<char>>,
) -> bool {
    &&& st.name@ == name
    &&& snapshot_fields(st, snapshot, size)
    &&& if is_live {
        st.kind == StateKind::Running && st.detail is None
    } else {
        match missing {
            None => st.kind == StateKind::Saved && st.detail is None,
            Some(m) => st.kind == StateKind::Stale && opt_view(st.detail) == Some(stale_detail(m)),
        }
    }
}

/// The state of a session with a valid snapshot, given whether it is live
/// and the first of its working directories found missing, if any.
pub fn state_from(
    name: String,
    snapshot: &SessionSnapshot,
    size_bytes: u64,
    is_live: bool,
    missing: Option<String>,
) -> (st: SessionState)
    requires
        total_panes(snapshot.windows@) <= usize::MAX,
    ensures
        state_fits(st, name@, *snapshot, size_bytes, is_live, opt_view(missing)),
{
    let window_count = Some(snapshot.window_count());
    let pane_count = Some(snapshot.pane_count());
    let saved_at = Some(snapshot.created_at);
    if is_live {
        return SessionState {
            name,
            kind: StateKind::Running,
            window_count,
            pane_count,
            size_bytes: Some(size_bytes),
            saved_at,
            detail: None,
        };
    }
    match missing {
        Some(m) => {
            let mut detail = owned("a saved directory no longer exists: ");
            push_str(&mut detail, m.as_str());
            SessionState {
                name,
                kind: StateKind::Stale,
                window_count,
                pane_count,
                size_bytes: Some(size_bytes),
                saved_at,
                detail: Some(detail),
            }
        },
        None => SessionState {
            name,
            kind: StateKind::Saved,
            window_count,
            pane_count,
            size_bytes: Some(size_bytes),
            saved_at,
            detail: None,
        },
    }
}

/// The working directories of all the panes, window by window and, within
/// a window, pane by pane.
pub open spec fn pane_cwds(ws: Seq<WindowSnapshot>) -> Seq<Seq<char>>
    decreases ws.len(),
{
    if ws.len() == 0 {
        Seq::empty()
    } else {
        pane_cwds(ws.drop_last()) + ws.last().panes@.map_values(|p: PaneSnapshot| p.cwd@)
    }
}

/// The working directories of some windows are those of a prefix of them
/// followed by those of the rest.
pub proof fn lemma_pane_cwds_split(ws: Seq<WindowSnapshot>, w: int)
    requires
        0 <= w <= ws.len(),
    ensures
        pane_cwds(ws) == pane_cwds(ws.take(w)) + pane_cwds(ws.skip(w)),
    decreases ws.len(),
{
    if w == ws.len() {
        assert(ws.take(w) =~= ws);
        assert(ws.skip(w) =~= Seq::<WindowSnapshot>::empty());
        assert(pane_cwds(ws) + pane_cwds(ws.skip(w)) =~= pane_cwds(ws));
    } else {
        let dl = ws.drop_last();
        lemma_pane_cwds_split(dl, w);
        assert(dl.take(w) =~= ws.take(w));
        assert(ws.skip(w).drop_last() =~= dl.skip(w));
        assert(ws.skip(w).last() == ws.last());
        assert(pane_cwds(ws) =~= pane_cwds(ws.take(w)) + pane_cwds(ws.skip(w)));
    }
}

/// Every listed working directory is that of some pane.
proof fn lemma_pane_cwds_member(s: SessionSnapshot, k: int)
    requires
        0 <= k < pane_cwds(s.windows@).len(),
    ensures
        has_pane_cwd(s, pane_cwds(s.windows@)[k]),
{
    lemma_pane_cwds_member_of(s.windows@, k);
    let (w, p) = choose|w: int, p: int|
        0 <= w < s.windows@.len() && 0 <= p < s.windows@[w].panes@.len()
            && s.windows@[w].panes@[p].cwd@ == pane_cwds(s.windows@)[k];
    assert(s.windows@[w].panes@[p].cwd@ == pane_cwds(s.windows@)[k]);
}

proof fn lemma_pane_cwds_member_of(ws: Seq<WindowSnapshot>, k: int)
    requires
        0 <= k < pane_cwds(ws).len(),
    ensures
        exists|w: int, p: int|
            0 <= w < ws.len() && 0 <= p < ws[w].panes@.len() && ws[w].panes@[p].cwd@ == pane_cwds(
                ws,
            )[k],
    decreases ws.len(),
{
    let dl = ws.drop_last();
    let before = pane_cwds(dl);
    if k < before.len() {
        lemma_pane_cwds_member_of(dl, k);
        let (w, p) = choose|w: int, p: int|
            0 <= w < dl.len() && 0 <= p < dl[w].panes@.len() && dl[w].panes@[p].cwd@ == before[k];
        assert(ws[w] == dl[w]);
        assert(ws[w].panes@[p].cwd@ == pane_cwds(ws)[k]);
    } else {
        let p = k - before.len();
        assert(ws[ws.len() - 1].panes@[p].cwd@ == pane_cwds(ws)[k]);
    }
}

/// The first directory whose flag is false, if any: `flags[k]` tells
/// whether `cwds[k]` exists.
pub open spec fn first_absent(cwds: Seq<Seq<char>>, flags: Seq<bool>) -> Option<Seq<char>>
    decreases flags.len(),
{
    if flags.len() == 0 {
        None
    } else if !flags[0] {
        Some(cwds[0])
    } else {
        first_absent(cwds.drop_first(), flags.drop_first())
    }
}

proof fn lemma_first_absent_at(cwds: Seq<Seq<char>>, flags: Seq<bool>, k: int)
    requires
        cwds.len() == flags.len(),
        0 <= k < flags.len(),
        !flags[k],
        forall|j: int| 0 <= j < k ==> flags[j],
    ensures
        first_absent(cwds, flags) == Some(cwds[k]),
    decreases k,
{
    if k > 0 {
        assert(flags[0]);
        lemma_first_absent_at(cwds.drop_first(), flags.drop_first(), k - 1);
    }
}

proof fn lemma_first_absent_none(cwds: Seq<Seq<char>>, flags: Seq<bool>)
    requires
        cwds.len() == flags.len(),
        forall|j: int| 0 <= j < flags.len() ==> flags[j],
    ensures
        first_absent(cwds, flags) is None,
    decreases flags.len(),
{
    if flags.len() > 0 {
        lemma_first_absent_none(cwds.drop_first(), flags.drop_first());
    }
}

proof fn lemma_first_absent_member(cwds: Seq<Seq<char>>, flags: Seq<bool>)
    requires
        cwds.len() == flags.len(),
        first_absent(cwds, flags) is Some,
    ensures
        exists|k: int| 0 <= k < cwds.len() && cwds[k] == first_absent(cwds, flags)->Some_0,
    decreases flags.len(),
{
    if flags[0] {
        lemma_first_absent_member(cwds.drop_first(), flags.drop_first());
        let k = choose|k: int|
            0 <= k < cwds.drop_first().len() && cwds.drop_first()[k] == first_absent(
                cwds.drop_first(),
                flags.drop_first(),
            )->Some_0;
        assert(cwds[k + 1] == cwds.drop_first()[k]);
    } else {
        assert(cwds[0] == first_absent(cwds, flags)->Some_0);
    }
}

/// The working directories of the snapshot's panes, in window and then pane
/// order: the paths whose existence `build_state` and `all` are told of.
pub fn pane_cwd_list(s: &SessionSnapshot) -> (out: Vec<String>)
    ensures
        views(out@) == pane_cwds(s.windows@),
{
    let ghost ws = s.windows@;
    let mut out: Vec<String> = Vec::new();
    let mut w: usize = 0;
    while w < s.windows.len()
        invariant
            ws == s.windows@,
            w <= ws.len(),
            views(out@) == pane_cwds(ws.take(w as int)),
        decreases ws.len() - w,
    {
        let window = &s.windows[w];
        proof {
            assert(ws.take(w + 1).drop_last() =~= ws.take(w as int));
            assert(ws.take(w + 1).last() == ws[w as int]);
        }
        let ghost start = views(out@);
        let mut p: usize = 0;
        while p < window.panes.len()
            invariant
                ws == s.windows@,
                w < ws.len(),
                *window == ws[w as int],
                p <= window.panes@.len(),
                start == pane_cwds(ws.take(w as int)),
                views(out@) == start + window.panes@.take(p as int).map_values(
                    |q: PaneSnapshot| q.cwd@,
                ),
            decreases window.panes@.len() - p,
        {
            let ghost before = views(out@);
            out.push(window.panes[p].cwd.clone());
            proof {
                assert(window.panes@.take(p + 1).map_values(|q: PaneSnapshot| q.cwd@)
                    =~= window.panes@.take(p as int).map_values(|q: PaneSnapshot| q.cwd@).push(
                    window.panes@[p as int].cwd@,
                ));
                assert(views(out@) =~= before.push(window.panes@[p as int].cwd@));
            }
            p = p + 1;
        }
        proof {
            assert(window.panes@.take(p as int) =~= window.panes@);
        }
        w = w + 1;
    }
    proof {
        assert(ws.take(ws.len() as int) =~= ws);
    }
    out
}

/// The first working directory, in window and pane order, whose flag in
/// `present` is false: `present` holds, in that order, whether each pane's
/// working directory exists. `None` when every flag is true.
pub fn first_missing(snapshot: &SessionSnapshot, present: &Vec<bool>) -> (r: Option<String>)
    requires
        present@.len() == pane_cwds(snapshot.windows@).len(),
    ensures
        match r {
            Some(c) => exists|k: int|
                0 <= k < present@.len() && !present@[k] && (forall|j: int|
                    0 <= j < k ==> present@[j]) && pane_cwds(snapshot.windows@)[k] == c@,
            None => forall|k: int| 0 <= k < present@.len() ==> present@[k],
        },
        opt_view(r) == first_absent(pane_cwds(snapshot.windows@), present@),
{
    let ghost ws = snapshot.windows@;
    let ghost all = pane_cwds(ws);
    let n: usize = present.len();
    let mut k: usize = 0;
    let mut w: usize = 0;
    while w < snapshot.windows.len()
        invariant
            n == present@.len(),
            ws == snapshot.windows@,
            all == pane_cwds(ws),
            w <= ws.len(),
            present@.len() == all.len(),
            k == pane_cwds(ws.take(w as int)).len(),
            forall|j: int| 0 <= j < k ==> present@[j],
        decreases ws.len() - w,
    {
        let window = &snapshot.windows[w];
        proof {
            lemma_pane_cwds_split(ws, w + 1);
            assert(ws.take(w + 1).drop_last() =~= ws.take(w as int));
            assert(ws.take(w + 1).last() == ws[w as int]);
        }
        let mut p: usize = 0;
        while p < window.panes.len()
            invariant
                n == present@.len(),
                ws == snapshot.windows@,
                all == pane_cwds(ws),
                w < ws.len(),
                *window == ws[w as int],
                p <= window.panes@.len(),
                present@.len() == all.len(),
                pane_cwds(ws.take(w + 1)) == pane_cwds(ws.take(w as int)) + window.panes@.map_values(
                    |q: PaneSnapshot| q.cwd@,
                ),
                all == pane_cwds(ws.take(w + 1)) + pane_cwds(ws.skip(w + 1)),
                k == pane_cwds(ws.take(w as int)).len(),
                forall|j: int| 0 <= j < k + p ==> present@[j],
            decreases window.panes@.len() - p,
        {
            assert(pane_cwds(ws.take(w + 1)).len() == k + window.panes@.len());
            assert(all.len() == pane_cwds(ws.take(w + 1)).len() + pane_cwds(ws.skip(w + 1)).len());
            assert(all[k + p] == window.panes@[p as int].cwd@);
            if !present[k + p] {
                proof {
                    lemma_first_absent_at(all, present@, k + p);
                }
                return Some(window.panes[p].cwd.clone());
            }
            p = p + 1;
        }
        assert(pane_cwds(ws.take(w + 1)).len() == k + window.panes@.len());
        assert(all.len() == pane_cwds(ws.take(w + 1)).len() + pane_cwds(ws.skip(w + 1)).len());
        k = k + p;
        w = w + 1;
    }
    proof {
        assert(ws.take(ws.len() as int) =~= ws);
        lemma_first_absent_none(all, present@);
    }
    None
}

/// The state of a session with a valid snapshot: running if it is live;
/// otherwise stale, naming the first working directory (in window and pane
/// order) that no longer exists, if there is one; otherwise saved.
/// `present` tells, in that order, whether each pane's working directory
/// exists on disk (see `pane_cwd_list`).
pub fn build_state(
    name: String,
    snapshot: &SessionSnapshot,
    size_bytes: u64,
    is_live: bool,
    present: &Vec<bool>,
) -> (st: SessionState)
    requires
        total_panes(snapshot.windows@) <= usize::MAX,
        present@.len() == pane_cwds(snapshot.windows@).len(),
    ensures
        state_fits(
            st,
            name@,
            *snapshot,
            size_bytes,
            is_live,
            first_absent(pane_cwds(snapshot.windows@), present@),
        ),
{
    let missing = if is_live { None } else { first_missing(snapshot, present) };
    state_from(name, snapshot, size_bytes, is_live, missing)
}

/// Whether `i` is the first entry named `n`.
pub open spec fn first_named(raw: Seq<RawEntry>, n: Seq<char>, i: int) -> bool {
    &&& 0 <= i < raw.len()
    &&& raw[i].name@ == n
    &&& forall|j: int| 0 <= j < i ==> raw[j].name@ != n
}

/// Whether some entry is named `n`.
pub open spec fn has_entry(raw: Seq<RawEntry>, n: Seq<char>) -> bool {
    exists|i: int| 0 <= i < raw.len() && (#[trigger] raw[i]).name@ == n
}

/// The counts, size and date that a saved file gives a state: those of its
/// snapshot if it parsed; only its size if not.
pub open spec fn entry_fields(st: SessionState, e: RawEntry) -> bool {
    match e.snapshot {
        Ok(snap) => snapshot_fields(st, snap, e.size_bytes),
        Err(_) => {
            &&& st.window_count is None
            &&& st.pane_count is None
            &&& st.size_bytes == Some(e.size_bytes)
            &&& st.saved_at is None
        },
    }
}

/// How a session named `st.name` is classified, given the saved files and
/// the names of the live tmux sessions. A live session is running, whatever
/// its saved file holds. Otherwise its (first) saved file decides: broken
/// if it did not parse; stale, with the missing directory, if a working
/// directory of its snapshot is gone; saved otherwise.
pub open spec fn classified(
    st: SessionState,
    raw: Seq<RawEntry>,
    present: Seq<Vec<bool>>,
    live: Seq<Seq<char>>,
) -> bool {
    let n = st.name@;
    if live.contains(n) {
        &&& st.kind == StateKind::Running
        &&& st.detail is None
        &&& if has_entry(raw, n) {
            exists|i: int| first_named(raw, n, i) && entry_fields(st, raw[i])
        } else {
            &&& st.window_count is None
            &&& st.pane_count is None
            &&& st.size_bytes is None
            &&& st.saved_at is None
        }
    } else {
        exists|i: int|
            first_named(raw, n, i) && entry_fields(st, raw[i]) && match raw[i].snapshot {
                Err(msg) => st.kind == StateKind::Broken && opt_view(st.detail) == Some(
                    broken_detail(msg@),
                ),
                Ok(snap) => stale_or_saved(st, snap, present[i]@),
            }
    }
}

/// A valid snapshot that is not live: stale, naming the first working
/// directory flagged missing, if there is one; saved otherwise.
pub open spec fn stale_or_saved(st: SessionState, snap: SessionSnapshot, flags: Seq<bool>) -> bool {
    match first_absent(pane_cwds(snap.windows@), flags) {
        None => st.kind == StateKind::Saved && st.detail is None,
        Some(m) => st.kind == StateKind::Stale && opt_view(st.detail) == Some(stale_detail(m)),
    }
}

/// `present[i]` holds, for each parsed saved file `raw[i]`, whether each of
/// its panes' working directories exists, in window and pane order.
pub open spec fn flags_fit(raw: Seq<RawEntry>, present: Seq<Vec<bool>>) -> bool {
    &&& present.len() == raw.len()
    &&& forall|i: int|
        0 <= i < raw.len() ==> ((#[trigger] raw[i]).snapshot matches Ok(snap) ==> present[i]@.len()
            == pane_cwds(snap.windows@).len())
}

/// Every snapshot that parsed has a pane count that fits in a `usize`.
pub open spec fn counts_fit(raw: Seq<RawEntry>) -> bool {
    forall|i: int|
        0 <= i < raw.len() ==> ((#[trigger] raw[i]).snapshot matches Ok(snap) ==> total_panes(
            snap.windows@,
        ) <= usize::MAX)
}

/// The names of the states.
pub open spec fn state_names(states: Seq<SessionState>) -> Seq<Seq<char>> {
    states.map_values(|s: SessionState| s.name@)
}

/// The names of the saved files.
pub open spec fn entry_names(raw: Seq<RawEntry>) -> Seq<Seq<char>> {
    raw.map_values(|e: RawEntry| e.name@)
}

fn contains_name(names: &Vec<String>, n: &str) -> (r: bool)
    ensures
        r == views(names@).contains(n@),
{
    let mut i: usize = 0;
    while i < names.len()
        invariant
            i <= names@.len(),
            forall|j: int| 0 <= j < i ==> names@[j]@ != n@,
        decreases names@.len() - i,
    {
        if str_eq(names[i].as_str(), n) {
            assert(views(names@)[i as int] == n@);
            return true;
        }
        i = i + 1;
    }
    proof {
        if views(names@).contains(n@) {
            let j = choose|j: int| 0 <= j < views(names@).len() && views(names@)[j] == n@;
            assert(names@[j]@ == n@);
        }
    }
    false
}

fn find_entry(raw: &Vec<RawEntry>, n: &str) -> (r: Option<usize>)
    ensures
        r matches Some(i) ==> first_named(raw@, n@, i as int),
        r is None ==> !has_entry(raw@, n@),
{
    let mut i: usize = 0;
    while i < raw.len()
        invariant
            i <= raw@.len(),
            forall|j: int| 0 <= j < i ==> raw@[j].name@ != n@,
        decreases raw@.len() - i,
    {
        if str_eq(raw[i].name.as_str(), n) {
            return Some(i);
        }
        i = i + 1;
    }
    None
}

/// The state of the session `name`, known to be live or to have a saved file.
fn classify(name: String, raw: &Vec<RawEntry>, present: &Vec<Vec<bool>>, live: &Vec<String>) -> (st:
    SessionState)
    requires
        counts_fit(raw@),
        flags_fit(raw@, present@),
        views(live@).contains(name@) || has_entry(raw@, name@),
    ensures
        st.name@ == name@,
        classified(st, raw@, present@, views(live@)),
{
    let is_live = contains_name(live, name.as_str());
    let ghost n = name@;
    match find_entry(raw, name.as_str()) {
        None => SessionState {
            name,
            kind: StateKind::Running,
            window_count: None,
            pane_count: None,
            size_bytes: None,
            saved_at: None,
            detail: None,
        },
        Some(i) => {
            let entry = &raw[i];
            assert(has_entry(raw@, n));
            match &entry.snapshot {
                Err(parse_error) => {
                    if is_live {
                        SessionState {
                            name,
                            kind: StateKind::Running,
                            window_count: None,
                            pane_count: None,
                            size_bytes: Some(entry.size_bytes),
                            saved_at: None,
                            detail: None,
                        }
                    } else {
                        let mut detail = owned("saved file could not be read: ");
                        push_str(&mut detail, parse_error.as_str());
                        SessionState {
                            name,
                            kind: StateKind::Broken,
                            window_count: None,
                            pane_count: None,
                            size_bytes: Some(entry.size_bytes),
                            saved_at: None,
                            detail: Some(detail),
                        }
                    }
                },
                Ok(snapshot) => {
                    assert(raw@[i as int].snapshot matches Ok(snap) ==> total_panes(snap.windows@) <= usize::MAX);
                    build_state(name, snapshot, entry.size_bytes, is_live, &present[i])
                },
            }
        },
    }
}

/// The state of every session sess knows about: the union of the saved
/// files (valid or not) and the live tmux sessions, one state per name,
/// in strictly increasing order of name, each classified as `classified`
/// says. `live` holds the names of the live tmux sessions, and `present`,
/// for each parsed saved file, whether each of its panes' working
/// directories exists (see `pane_cwd_list`).
pub fn all(raw: &Vec<RawEntry>, present: &Vec<Vec<bool>>, live: &Vec<String>) -> (out: Vec<
    SessionState,
>)
    requires
        counts_fit(raw@),
        flags_fit(raw@, present@),
    ensures
        strictly_sorted(state_names(out@)),
        state_names(out@).to_set() == views(live@).to_set() + entry_names(raw@).to_set(),
        forall|k: int|
            0 <= k < out@.len() ==> classified(#[trigger] out@[k], raw@, present@, views(live@)),
{
    let mut names: Vec<String> = Vec::new();
    let mut i: usize = 0;
    proof {
        assert(views(names@).to_set() =~= views(live@.take(0)).to_set());
    }
    while i < live.len()
        invariant
            i <= live@.len(),
            strictly_sorted(views(names@)),
            views(names@).to_set() == views(live@.take(i as int)).to_set(),
        decreases live@.len() - i,
    {
        insert_name(&mut names, live[i].clone());
        i = i + 1;
        proof {
            assert(views(live@.take(i as int)) =~= views(live@.take(i - 1)).push(live@[i - 1]@));
            views(live@.take(i - 1)).lemma_push_to_set_commute(live@[i - 1]@);
            assert(views(live@.take(i as int)).to_set() =~= views(live@.take(i - 1)).to_set().insert(live@[i - 1]@));
        }
    }
    assert(live@.take(live@.len() as int) =~= live@);
    let mut j: usize = 0;
    proof {
        assert(entry_names(raw@.take(0)).to_set() =~= Set::<Seq<char>>::empty());
        assert(views(live@).to_set() + Set::<Seq<char>>::empty() =~= views(live@).to_set());
    }
    while j < raw.len()
        invariant
            j <= raw@.len(),
            strictly_sorted(views(names@)),
            views(names@).to_set() == views(live@).to_set() + entry_names(raw@.take(j as int)).to_set(),
        decreases raw@.len() - j,
    {
        insert_name(&mut names, raw[j].name.clone());
        j = j + 1;
        proof {
            assert(entry_names(raw@.take(j as int)) =~= entry_names(raw@.take(j - 1)).push(raw@[j - 1].name@));
            entry_names(raw@.take(j - 1)).lemma_push_to_set_commute(raw@[j - 1].name@);
            assert(entry_names(raw@.take(j as int)).to_set() =~= entry_names(raw@.take(j - 1)).to_set().insert(raw@[j - 1].name@));
            assert(views(names@).to_set() =~= views(live@).to_set() + entry_names(raw@.take(j as int)).to_set());
        }
    }
    assert(raw@.take(raw@.len() as int) =~= raw@);
    let ghost all_names = views(names@);
    let mut out: Vec<SessionState> = Vec::new();
    let mut k: usize = 0;
    while k < names.len()
        invariant
            k <= names@.len(),
            views(names@) == all_names,
            all_names.to_set() == views(live@).to_set() + entry_names(raw@).to_set(),
            counts_fit(raw@),
            flags_fit(raw@, present@),
            state_names(out@) == all_names.take(k as int),
            forall|m: int|
                0 <= m < out@.len() ==> classified(#[trigger] out@[m], raw@, present@, views(live@)),
        decreases names@.len() - k,
    {
        let name = names[k].clone();
        proof {
            assert(all_names[k as int] == name@);
            assert(all_names.to_set().contains(name@));
            if !views(live@).contains(name@) {
                assert(!views(live@).to_set().contains(name@));
                assert(entry_names(raw@).to_set().contains(name@));
                let e = choose|e: int| 0 <= e < entry_names(raw@).len() && entry_names(raw@)[e] == name@;
                assert(raw@[e].name@ == name@);
            }
        }
        let st = classify(name, raw, present, live);
        let ghost before = out@;
        out.push(st);
        k = k + 1;
        proof {
            assert(state_names(out@) =~= state_names(before).push(all_names[k - 1]));
            assert(all_names.take(k as int) =~= all_names.take(k - 1).push(all_names[k - 1]));
        }
    }
    assert(all_names.take(names@.len() as int) =~= all_names);
    out
}

/// The state of the session `name`, if sess knows about it: the same state
/// as the one `all` gives for that name.
pub fn of(raw: &Vec<RawEntry>, present: &Vec<Vec<bool>>, live: &Vec<String>, name: &str) -> (r:
    Option<SessionState>)
    requires
        counts_fit(raw@),
        flags_fit(raw@, present@),
    ensures
        r is Some <==> views(live@).contains(name@) || has_entry(raw@, name@),
        r matches Some(st) ==> st.name@ == name@ && classified(st, raw@, present@, views(live@)),
{
    let is_live = contains_name(live, name);
    let known = is_live || find_entry(raw, name).is_some();
    if known {
        Some(classify(owned(name), raw, present, live))
    } else {
        None
    }
}

/// Running takes priority: a session with a live tmux session is running,
/// whatever its saved file holds.
pub proof fn lemma_running_takes_priority(
    st: SessionState,
    raw: Seq<RawEntry>,
    present: Seq<Vec<bool>>,
    live: Seq<Seq<char>>,
)
    requires
        classified(st, raw, present, live),
        live.contains(st.name@),
    ensures
        st.kind == StateKind::Running,
        st.detail is None,
{
}

/// A session that is not live is broken exactly when its saved file did
/// not parse, and is then explained by the parse error.
pub proof fn lemma_broken_iff_unparseable(
    st: SessionState,
    raw: Seq<RawEntry>,
    present: Seq<Vec<bool>>,
    live: Seq<Seq<char>>,
    i: int,
)
    requires
        classified(st, raw, present, live),
        !live.contains(st.name@),
        first_named(raw, st.name@, i),
    ensures
        (st.kind == StateKind::Broken) <==> raw[i].snapshot is Err,
        raw[i].snapshot matches Err(msg) ==> opt_view(st.detail) == Some(broken_detail(msg@)),
{
    let j = choose|j: int|
        first_named(raw, st.name@, j) && entry_fields(st, raw[j]) && match raw[j].snapshot {
            Err(msg) => st.kind == StateKind::Broken && opt_view(st.detail) == Some(
                broken_detail(msg@),
            ),
            Ok(snap) => stale_or_saved(st, snap, present[j]@),
        };
    if j < i {
        assert(raw[j].name@ != st.name@);
    }
    if i < j {
        assert(raw[i].name@ != st.name@);
    }
}

/// A stale session names, as missing, the working directory of one of the
/// panes of its snapshot.
pub proof fn lemma_stale_names_a_pane(
    st: SessionState,
    raw: Seq<RawEntry>,
    present: Seq<Vec<bool>>,
    live: Seq<Seq<char>>,
)
    requires
        classified(st, raw, present, live),
        flags_fit(raw, present),
        st.kind == StateKind::Stale,
    ensures
        exists|i: int, c: Seq<char>|
            first_named(raw, st.name@, i) && (raw[i].snapshot matches Ok(snap) && has_pane_cwd(
                snap,
                c,
            )) && opt_view(st.detail) == Some(stale_detail(c)),
{
    let i = choose|i: int|
        first_named(raw, st.name@, i) && entry_fields(st, raw[i]) && match raw[i].snapshot {
            Err(msg) => st.kind == StateKind::Broken && opt_view(st.detail) == Some(
                broken_detail(msg@),
            ),
            Ok(snap) => stale_or_saved(st, snap, present[i]@),
        };
    let snap = raw[i].snapshot->Ok_0;
    assert(raw[i].snapshot is Ok);
    let cwds = pane_cwds(snap.windows@);
    let flags = present[i]@;
    assert(flags.len() == cwds.len());
    lemma_first_absent_member(cwds, flags);
    let c = first_absent(cwds, flags)->Some_0;
    let k = choose|k: int| 0 <= k < cwds.len() && cwds[k] == c;
    lemma_pane_cwds_member(snap, k);
    assert(first_named(raw, st.name@, i) && (raw[i].snapshot matches Ok(snap) && has_pane_cwd(
        snap,
        c,
    )) && opt_view(st.detail) == Some(stale_detail(c)));
}

/// Every view of the sessions agrees: two states classified for the same
/// name from the same saved files, the same answers about which working
/// directories exist and the same live sessions are the same in every
/// field but the name's own text.
pub proof fn lemma_views_agree(
    a: SessionState,
    b: SessionState,
    raw: Seq<RawEntry>,
    present: Seq<Vec<bool>>,
    live: Seq<Seq<char>>,
)
    requires
        classified(a, raw, present, live),
        classified(b, raw, present, live),
        a.name@ == b.name@,
    ensures
        a.window_count == b.window_count,
        a.pane_count == b.pane_count,
        a.size_bytes == b.size_bytes,
        a.saved_at == b.saved_at,
        a.kind == b.kind,
        opt_view(a.detail) == opt_view(b.detail),
{
    let n = a.name@;
    if has_entry(raw, n) {
        let i = choose|i: int| first_named(raw, n, i) && entry_fields(a, raw[i]) && (!live.contains(n) ==> match raw[i].snapshot {
            Err(msg) => a.kind == StateKind::Broken && opt_view(a.detail) == Some(broken_detail(msg@)),
            Ok(snap) => stale_or_saved(a, snap, present[i]@),
        });
        let j = choose|j: int| first_named(raw, n, j) && entry_fields(b, raw[j]) && (!live.contains(n) ==> match raw[j].snapshot {
            Err(msg) => b.kind == StateKind::Broken && opt_view(b.detail) == Some(broken_detail(msg@)),
            Ok(snap) => stale_or_saved(b, snap, present[j]@),
        });
        if i < j {
            assert(raw[i].name@ != n);
        }
        if j < i {
            assert(raw[j].name@ != n);
        }
    } else if !live.contains(n) {
        let i = choose|i: int| first_named(raw, n, i);
        assert(raw[i].name@ == n);
    }
}

/// Some flag false: the first false one is at some `j <= k`, and it names
/// the first absent directory.
proof fn lemma_first_absent_some(cwds: Seq<Seq<char>>, flags: Seq<bool>, k: int)
    requires
        cwds.len() == flags.len(),
        0 <= k < flags.len(),
        !flags[k],
    ensures
        exists|j: int|
            0 <= j <= k && !flags[j] && (forall|m: int| 0 <= m < j ==> flags[m])
                && first_absent(cwds, flags) == Some(cwds[j]),
    decreases k,
{
    if !flags[0] {
        lemma_first_absent_at(cwds, flags, 0);
        assert(0 <= 0 <= k && !flags[0] && (forall|m: int| 0 <= m < 0 ==> flags[m])
            && first_absent(cwds, flags) == Some(cwds[0]));
    } else {
        lemma_first_absent_some(cwds.drop_first(), flags.drop_first(), k - 1);
        let j = choose|j: int|
            0 <= j <= k - 1 && !flags.drop_first()[j] && (forall|m: int|
                0 <= m < j ==> flags.drop_first()[m]) && first_absent(
                cwds.drop_first(),
                flags.drop_first(),
            ) == Some(cwds.drop_first()[j]);
        assert forall|m: int| 0 <= m < j + 1 implies flags[m] by {
            if m > 0 {
                assert(flags[m] == flags.drop_first()[m - 1]);
            }
        }
        assert(0 <= j + 1 <= k && !flags[j + 1] && first_absent(cwds, flags) == Some(cwds[j + 1]));
    }
}

/// A session that is not live, with a valid snapshot, is stale whenever any
/// of its panes' working directories is missing, whichever pane it is, and
/// then names the first missing one in window and pane order; with every
/// directory present it is saved.
pub proof fn lemma_any_missing_dir_makes_stale(
    st: SessionState,
    name: Seq<char>,
    snapshot: SessionSnapshot,
    size: u64,
    present: Seq<bool>,
)
    requires
        present.len() == pane_cwds(snapshot.windows@).len(),
        state_fits(st, name, snapshot, size, false, first_absent(pane_cwds(snapshot.windows@), present)),
    ensures
        (exists|k: int| 0 <= k < present.len() && !present[k]) ==> {
            &&& st.kind == StateKind::Stale
            &&& exists|j: int|
                0 <= j < present.len() && !present[j] && (forall|m: int| 0 <= m < j ==> present[m])
                    && opt_view(st.detail) == Some(stale_detail(pane_cwds(snapshot.windows@)[j]))
        },
        (forall|k: int| 0 <= k < present.len() ==> present[k]) ==> st.kind == StateKind::Saved
            && st.detail is None,
{
    let cwds = pane_cwds(snapshot.windows@);
    if exists|k: int| 0 <= k < present.len() && !present[k] {
        let k = choose|k: int| 0 <= k < present.len() && !present[k];
        lemma_first_absent_some(cwds, present, k);
    } else {
        lemma_first_absent_none(cwds, present);
    }
}

/// In the classification of every session, one that is not live and whose
/// saved file parsed is stale whenever any of its panes' working
/// directories is missing, and saved when none is.
pub proof fn lemma_classified_stale_iff_some_dir_missing(
    st: SessionState,
    raw: Seq<RawEntry>,
    present: Seq<Vec<bool>>,
    live: Seq<Seq<char>>,
    i: int,
)
    requires
        classified(st, raw, present, live),
        flags_fit(raw, present),
        !live.contains(st.name@),
        first_named(raw, st.name@, i),
        raw[i].snapshot is Ok,
    ensures
        (st.kind == StateKind::Stale) <==> exists|k: int|
            0 <= k < present[i]@.len() && !present[i]@[k],
        (st.kind == StateKind::Saved) <==> forall|k: int|
            0 <= k < present[i]@.len() ==> present[i]@[k],
{
    let j = choose|j: int|
        first_named(raw, st.name@, j) && entry_fields(st, raw[j]) && match raw[j].snapshot {
            Err(msg) => st.kind == StateKind::Broken && opt_view(st.detail) == Some(
                broken_detail(msg@),
            ),
            Ok(snap) => stale_or_saved(st, snap, present[j]@),
        };
    if j < i {
        assert(raw[j].name@ != st.name@);
    }
    if i < j {
        assert(raw[i].name@ != st.name@);
    }
    let snap = raw[i].snapshot->Ok_0;
    let cwds = pane_cwds(snap.windows@);
    let flags = present[i]@;
    assert(flags.len() == cwds.len());
    if exists|k: int| 0 <= k < flags.len() && !flags[k] {
        let k = choose|k: int| 0 <= k < flags.len() && !flags[k];
        lemma_first_absent_some(cwds, flags, k);
    } else {
        lemma_first_absent_none(cwds, flags);
    }
}

} // verus!
