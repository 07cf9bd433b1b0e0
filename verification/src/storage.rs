//! Saved session files: what a read of the storage directory yields, which
//! files pruning removes, the listing of valid snapshots, and sizes.
use vstd::prelude::*;
use crate::model::{total_panes, SessionSnapshot, SessionSummary, Timestamp};
use crate::sorted::views;
use crate::text::{decimal, digit_char, owned, push_char, push_decimal, push_str};

verus! {

/// One `.json` file of the storage directory: the name from its file name,
/// its size on disk, and either the parsed snapshot or the error as text.
#[derive(Debug)]
pub struct RawEntry {
    pub name: String,
    pub size_bytes: u64,
    pub snapshot: Result<SessionSnapshot, String>,
}

/// The file name under which a session is saved: `<name>.json`.
pub fn session_file_name(name: &str) -> (out: String)
    ensures
        out@ == name@ + ".json"@,
{
    let mut out = owned(name);
    push_str(&mut out, ".json");
    out
}

/// Why saving under `name` is refused: a file of that name is there and
/// overwriting was not asked for.
pub fn save_refusal(name: &str, exists: bool, overwrite: bool) -> (out: Option<String>)
    ensures
        (exists && !overwrite) ==> (out matches Some(m) && m@ == "a saved session named '"@ + name@
            + "' already exists. Use --force to overwrite it."@),
        !(exists && !overwrite) ==> out is None,
{
    if exists && !overwrite {
        let mut m = owned("a saved session named '");
        push_str(&mut m, name);
        push_str(&mut m, "' already exists. Use --force to overwrite it.");
        Some(m)
    } else {
        None
    }
}

/// Why loading or deleting `name` is refused: no file of that name is there.
pub fn missing_refusal(name: &str, exists: bool) -> (out: Option<String>)
    ensures
        !exists ==> (out matches Some(m) && m@ == "no saved session named '"@ + name@ + "' exists"@),
        exists ==> out is None,
{
    if exists {
        None
    } else {
        let mut m = owned("no saved session named '");
        push_str(&mut m, name);
        push_str(&mut m, "' exists");
        Some(m)
    }
}

/// Why renaming `from` to `to` is refused: the source is missing, or else
/// the destination is taken.
pub fn rename_refusal(from: &str, to: &str, from_exists: bool, to_exists: bool) -> (out: Option<String>)
    ensures
        !from_exists ==> (out matches Some(m) && m@ == "no saved session named '"@ + from@ + "' exists"@),
        from_exists && to_exists ==> (out matches Some(m) && m@ == "a saved session named '"@ + to@
            + "' already exists"@),
        from_exists && !to_exists ==> out is None,
{
    if !from_exists {
        missing_refusal(from, false)
    } else if to_exists {
        let mut m = owned("a saved session named '");
        push_str(&mut m, to);
        push_str(&mut m, "' already exists");
        Some(m)
    } else {
        None
    }
}

/// A snapshot moved to another name: only its `name` field changes.
pub fn renamed(snapshot: SessionSnapshot, to: &str) -> (out: SessionSnapshot)
    ensures
        out.name@ == to@,
        out.version == snapshot.version,
        out.created_at == snapshot.created_at,
        out.windows == snapshot.windows,
        out.env == snapshot.env,
{
    let mut out = snapshot;
    out.name = owned(to);
    out
}

/// 2^53: every integer below it is exactly a `f64`.
pub open spec fn two53() -> nat {
    9007199254740992
}

/// The power of two that a `f64` near `b` counts in: the least `p`, from
/// `p` up by doubling, with `b / p < 2^53`.
pub open spec fn float_scale(b: nat, p: nat) -> nat
    decreases b - p,
    when p >= 1
{
    if b / p < two53() {
        p
    } else {
        proof {
            assert(b >= 2 * p) by (nonlinear_arith)
                requires
                    p >= 1,
                    b / p >= 9007199254740992,
            ;
        }
        float_scale(b, 2 * p)
    }
}

/// `n / d` rounded to the nearest integer, ties to even.
pub open spec fn round_half_even(n: nat, d: nat) -> nat {
    let q = n / d;
    let r = n % d;
    if 2 * r > d || (2 * r == d && q % 2 == 1) {
        q + 1
    } else {
        q
    }
}

/// The value of `b as f64`: `b` rounded to 53 significant bits, ties to even.
pub open spec fn f64_value(b: nat) -> nat {
    let p = float_scale(b, 1);
    round_half_even(b, p) * p
}

/// `x / unit` to one decimal place, halves rounded to even (as `{:.1}` does).
pub open spec fn tenths(x: nat, unit: nat) -> Seq<char> {
    let t = round_half_even(10 * x, unit);
    decimal(t / 10) + seq!['.', digit_char(t % 10)]
}

/// `human_size`: bytes shown as `N B` below 1 KiB, as `N.N KB` (to the
/// nearest tenth of a KiB) below 1 MiB, and as `N.N MB` (to the nearest
/// tenth of a MiB) above; the value is that of the byte count as a `f64`,
/// and halves round to even, as `{:.1}` does.
pub open spec fn human_size_spec(bytes: nat) -> Seq<char> {
    let x = f64_value(bytes);
    if x >= 1048576 {
        tenths(x, 1048576) + " MB"@
    } else if x >= 1024 {
        tenths(x, 1024) + " KB"@
    } else {
        decimal(bytes) + " B"@
    }
}

fn round_half_even_exec(n: u128, d: u128) -> (r: u128)
    requires
        0 < d <= 0x10_0000,
        n < 0x1_0000_0000_0000_0000_0000_0000_0000,
    ensures
        r == round_half_even(n as nat, d as nat),
{
    let q = n / d;
    let r = n % d;
    if 2 * r > d || (2 * r == d && q % 2 == 1) {
        q + 1
    } else {
        q
    }
}

/// The value of `b as f64`, as an integer.
fn f64_value_exec(b: u64) -> (x: u128)
    ensures
        x == f64_value(b as nat),
        x <= 0x1_0000_0000_0000_2000,
        b < 1048576 ==> x == b,
{
    let mut p: u64 = 1;
    while b / p >= 9007199254740992
        invariant
            1 <= p <= 4096,
            b < 9007199254740992 ==> p == 1,
            float_scale(b as nat, p as nat) == float_scale(b as nat, 1),
        decreases b - p,
    {
        proof {
            assert(p * 9007199254740992 <= b) by (nonlinear_arith)
                requires
                    p >= 1,
                    b / p >= 9007199254740992,
            ;
            assert(b >= 2 * p);
            assert(p < 2048) by (nonlinear_arith)
                requires
                    p * 9007199254740992 <= b,
                    b < 0x1_0000_0000_0000_0000,
            ;
        }
        p = 2 * p;
    }
    let q = b / p;
    let r = b % p;
    let q2: u64 = if 2 * r > p || (2 * r == p && q % 2 == 1) {
        q + 1
    } else {
        q
    };
    proof {
        assert(q2 <= 9007199254740992);
        assert((q2 as nat) * (p as nat) <= b + p) by (nonlinear_arith)
            requires
                q2 <= q + 1,
                q == b / p,
                p >= 1,
        ;
        if b < 1048576 {
            assert(p == 1);
            assert(q == b);
            assert(r == 0);
            assert(q2 == b);
            assert((q2 as u128) * (p as u128) == b);
        }
    }
    (q2 as u128) * (p as u128)
}

/// `x / unit` to one decimal place, halves rounded to even.
fn tenths_text(x: u128, unit: u128) -> (out: String)
    requires
        x <= 0x1_0000_0000_0000_2000,
        unit == 1024 || unit == 1048576,
    ensures
        out@ == tenths(x as nat, unit as nat),
{
    let t = round_half_even_exec(10 * x, unit);
    proof {
        assert(t <= (10 * x) / (unit as int) + 1) by (nonlinear_arith)
            requires
                t == round_half_even((10 * x) as nat, unit as nat),
                unit >= 1,
        ;
        assert((10 * x) / (unit as int) <= 10 * x) by (nonlinear_arith)
            requires
                unit >= 1,
                x >= 0,
        ;
    }
    let whole = (t / 10) as u64;
    let tenth = (t % 10) as u64;
    let mut out = String::new();
    push_decimal(&mut out, whole);
    push_char(&mut out, '.');
    push_decimal(&mut out, tenth);
    proof {
        assert(decimal(tenth as nat) == seq![digit_char(tenth as nat)]);
        assert(out@ =~= tenths(x as nat, unit as nat));
    }
    out
}

/// Formats bytes in a readable way (B, KB, MB).
pub fn human_size(bytes: u64) -> (out: String)
    ensures
        out@ == human_size_spec(bytes as nat),
{
    let x = f64_value_exec(bytes);
    if x >= 1048576 {
        let mut out = tenths_text(x, 1048576);
        push_str(&mut out, " MB");
        assert(out@ =~= human_size_spec(bytes as nat));
        out
    } else if x >= 1024 {
        let mut out = tenths_text(x, 1024);
        push_str(&mut out, " KB");
        assert(out@ =~= human_size_spec(bytes as nat));
        out
    } else {
        let mut out = String::new();
        push_decimal(&mut out, bytes);
        push_str(&mut out, " B");
        assert(out@ =~= human_size_spec(bytes as nat));
        out
    }
}

/// The names of the files that did not parse, in order.
pub open spec fn unparseable_names(raw: Seq<RawEntry>) -> Seq<Seq<char>>
    decreases raw.len(),
{
    if raw.len() == 0 {
        Seq::empty()
    } else {
        let before = unparseable_names(raw.drop_last());
        if raw.last().snapshot is Err {
            before.push(raw.last().name@)
        } else {
            before
        }
    }
}

/// The saved files that pruning removes: exactly those that did not parse,
/// in order. How many there are is what `sess prune` reports.
pub fn prune(raw: &Vec<RawEntry>) -> (out: Vec<String>)
    ensures
        views(out@) == unparseable_names(raw@),
{
    let mut out: Vec<String> = Vec::new();
    let mut i: usize = 0;
    while i < raw.len()
        invariant
            i <= raw@.len(),
            views(out@) == unparseable_names(raw@.take(i as int)),
        decreases raw@.len() - i,
    {
        proof {
            assert(raw@.take(i + 1).drop_last() =~= raw@.take(i as int));
        }
        if raw[i].snapshot.is_err() {
            let ghost before = out@;
            out.push(raw[i].name.clone());
            assert(views(out@) =~= views(before).push(raw@[i as int].name@));
        }
        i = i + 1;
    }
    assert(raw@.take(raw@.len() as int) =~= raw@);
    out
}

/// Whether a summary describes a parsed file.
pub open spec fn summary_of(s: SessionSummary, e: RawEntry) -> bool {
    match e.snapshot {
        Ok(snap) => {
            &&& s.name@ == snap.name@
            &&& s.created_at == snap.created_at
            &&& s.pane_count == total_panes(snap.windows@)
            &&& s.window_count == snap.windows@.len()
            &&& s.size_bytes == e.size_bytes
        },
        Err(_) => false,
    }
}

/// Whether two instants are the same (whatever their offsets).
pub open spec fn same_instant(a: Timestamp, b: Timestamp) -> bool {
    a.unix_secs == b.unix_secs && a.nanos == b.nanos
}

/// Newest first; among equally old ones, in the order of their files.
pub open spec fn listed_before(a: Timestamp, ia: int, b: Timestamp, ib: int) -> bool {
    b.before(a) || (same_instant(a, b) && ia < ib)
}

/// The listing of `raw` through positions `idx`: each summary describes the
/// file at its position, every parsed file appears once, and the order is
/// newest first, ties in file order (a stable sort by date, newest first).
pub open spec fn listing(out: Seq<SessionSummary>, idx: Seq<int>, raw: Seq<RawEntry>) -> bool {
    &&& idx.len() == out.len()
    &&& forall|k: int| 0 <= k < out.len() ==> 0 <= #[trigger] idx[k] < raw.len() && summary_of(out[k], raw[idx[k]])
    &&& forall|k: int, l: int| 0 <= k < l < out.len() ==> #[trigger] idx[k] != #[trigger] idx[l]
    &&& forall|i: int| 0 <= i < raw.len() && (#[trigger] raw[i]).snapshot is Ok ==> exists|k: int| 0 <= k < idx.len() && idx[k] == i
    &&& forall|k: int, l: int| 0 <= k < l < out.len() ==> listed_before(
        #[trigger] out[k].created_at,
        idx[k],
        #[trigger] out[l].created_at,
        idx[l],
    )
}

/// All saved sessions that parsed, with their sizes, newest first.
pub fn list(raw: &Vec<RawEntry>) -> (out: Vec<SessionSummary>)
    requires
        forall|i: int| 0 <= i < raw@.len() ==> ((#[trigger] raw@[i]).snapshot matches Ok(snap) ==> total_panes(snap.windows@) <= usize::MAX),
    ensures
        exists|idx: Seq<int>| listing(out@, idx, raw@),
{
    let mut out: Vec<SessionSummary> = Vec::new();
    let ghost mut idx: Seq<int> = Seq::empty();
    let mut i: usize = 0;
    while i < raw.len()
        invariant
            i <= raw@.len(),
            forall|m: int| 0 <= m < raw@.len() ==> ((#[trigger] raw@[m]).snapshot matches Ok(snap) ==> total_panes(snap.windows@) <= usize::MAX),
            listing(out@, idx, raw@.take(i as int)),
            forall|k: int| 0 <= k < idx.len() ==> 0 <= #[trigger] idx[k] < i,
        decreases raw@.len() - i,
    {
        let ghost pre_raw = raw@.take(i as int);
        let ghost next_raw = raw@.take(i + 1);
        if let Ok(snapshot) = &raw[i].snapshot {
            let summary = SessionSummary {
                name: snapshot.name.clone(),
                created_at: snapshot.created_at,
                pane_count: snapshot.pane_count(),
                window_count: snapshot.window_count(),
                size_bytes: raw[i].size_bytes,
            };
            let mut pos: usize = 0;
            while pos < out.len() && !out[pos].created_at.is_before(&summary.created_at)
                invariant
                    pos <= out@.len(),
                    forall|k: int| 0 <= k < pos ==> !(#[trigger] out@[k].created_at).before(summary.created_at),
                decreases out@.len() - pos,
            {
                pos = pos + 1;
            }
            let ghost old_out = out@;
            let ghost new_ts = summary.created_at;
            out.insert(pos, summary);
            proof {
                let new_idx = idx.insert(pos as int, i as int);
                assert(forall|k: int| 0 <= k < idx.len() ==> 0 <= #[trigger] idx[k] < i);
                assert forall|k: int| 0 <= k < out@.len() implies 0 <= #[trigger] new_idx[k] < next_raw.len() && summary_of(out@[k], next_raw[new_idx[k]]) by {
                    if k < pos {
                        assert(new_idx[k] == idx[k]);
                        assert(next_raw[idx[k]] == pre_raw[idx[k]]);
                    } else if k > pos {
                        assert(new_idx[k] == idx[k - 1]);
                        assert(next_raw[idx[k - 1]] == pre_raw[idx[k - 1]]);
                    }
                }
                assert forall|k: int, l: int| 0 <= k < l < out@.len() implies #[trigger] new_idx[k] != #[trigger] new_idx[l] by {
                    if k == pos {
                        assert(idx[l - 1] < i);
                    } else if l == pos {
                        assert(idx[k] < i);
                    } else if k < pos && l < pos {
                        assert(idx[k] != idx[l]);
                    } else if k < pos {
                        assert(idx[k] != idx[l - 1]);
                    } else {
                        assert(idx[k - 1] != idx[l - 1]);
                    }
                }
                assert forall|m: int| 0 <= m < next_raw.len() && (#[trigger] next_raw[m]).snapshot is Ok implies exists|k: int| 0 <= k < new_idx.len() && new_idx[k] == m by {
                    if m == i {
                        assert(new_idx[pos as int] == m);
                    } else {
                        assert(pre_raw[m] == next_raw[m]);
                        let k = choose|k: int| 0 <= k < idx.len() && idx[k] == m;
                        if k < pos {
                            assert(new_idx[k] == m);
                        } else {
                            assert(new_idx[k + 1] == m);
                        }
                    }
                }
                assert forall|k: int, l: int| 0 <= k < l < out@.len() implies listed_before(
                    #[trigger] out@[k].created_at,
                    new_idx[k],
                    #[trigger] out@[l].created_at,
                    new_idx[l],
                ) by {
                    if k == pos {
                        // everything after pos is strictly older, or ...
                        let o = old_out[l - 1].created_at;
                        if l - 1 == pos {
                            assert(o.before(new_ts));
                        } else {
                            assert(listed_before(old_out[pos as int].created_at, idx[pos as int], o, idx[l - 1]));
                            assert(old_out[pos as int].created_at.before(new_ts));
                        }
                    } else if l == pos {
                        assert(!old_out[k].created_at.before(new_ts));
                        assert(idx[k] < i);
                    } else if k < pos && l < pos {
                        assert(listed_before(old_out[k].created_at, idx[k], old_out[l].created_at, idx[l]));
                    } else if k < pos {
                        assert(listed_before(old_out[k].created_at, idx[k], old_out[l - 1].created_at, idx[l - 1]));
                    } else {
                        assert(listed_before(old_out[k - 1].created_at, idx[k - 1], old_out[l - 1].created_at, idx[l - 1]));
                    }
                }
                idx = new_idx;
            }
        } else {
            proof {
                assert forall|m: int| 0 <= m < next_raw.len() && (#[trigger] next_raw[m]).snapshot is Ok implies exists|k: int| 0 <= k < idx.len() && idx[k] == m by {
                    assert(pre_raw[m] == next_raw[m]);
                }
                assert forall|k: int| 0 <= k < out@.len() implies 0 <= #[trigger] idx[k] < next_raw.len() && summary_of(out@[k], next_raw[idx[k]]) by {
                    assert(next_raw[idx[k]] == pre_raw[idx[k]]);
                }
            }
        }
        i = i + 1;
    }
    assert(raw@.take(raw@.len() as int) =~= raw@);
    out
}

/// Pruning never touches a snapshot that parses: when file names are
/// distinct, no parsed file's name is among those pruned, and every pruned
/// name is that of a file that did not parse.
pub proof fn lemma_prune_spares_valid(raw: Seq<RawEntry>)
    requires
        forall|i: int, j: int| 0 <= i < j < raw.len() ==> raw[i].name@ != raw[j].name@,
    ensures
        forall|i: int| 0 <= i < raw.len() && (#[trigger] raw[i]).snapshot is Ok ==> !unparseable_names(raw).contains(raw[i].name@),
        forall|n: Seq<char>| #[trigger] unparseable_names(raw).contains(n) ==> exists|i: int|
            0 <= i < raw.len() && raw[i].name@ == n && raw[i].snapshot is Err,
    decreases raw.len(),
{
    if raw.len() > 0 {
        let r = raw.drop_last();
        lemma_prune_spares_valid(r);
        assert forall|i: int| 0 <= i < raw.len() && (#[trigger] raw[i]).snapshot is Ok implies !unparseable_names(raw).contains(raw[i].name@) by {
            if i < raw.len() - 1 {
                assert(r[i] == raw[i]);
                if raw.last().snapshot is Err {
                    assert(raw.last().name@ != raw[i].name@);
                    assert(unparseable_names(raw) == unparseable_names(r).push(raw.last().name@));
                    if unparseable_names(raw).contains(raw[i].name@) {
                        let k = choose|k: int| 0 <= k < unparseable_names(raw).len() && unparseable_names(raw)[k] == raw[i].name@;
                        if k < unparseable_names(r).len() {
                            assert(unparseable_names(r)[k] == raw[i].name@);
                        }
                    }
                }
            } else {
                assert(!unparseable_names(r).contains(raw.last().name@)) by {
                    if unparseable_names(r).contains(raw.last().name@) {
                        let j = choose|j: int| 0 <= j < r.len() && r[j].name@ == raw.last().name@ && r[j].snapshot is Err;
                        assert(raw[j].name@ == raw[raw.len() - 1].name@);
                    }
                }
            }
        }
        assert forall|n: Seq<char>| #[trigger] unparseable_names(raw).contains(n) implies exists|i: int|
            0 <= i < raw.len() && raw[i].name@ == n && raw[i].snapshot is Err by {
            if raw.last().snapshot is Err {
                let k = choose|k: int| 0 <= k < unparseable_names(raw).len() && unparseable_names(raw)[k] == n;
                assert(unparseable_names(raw) == unparseable_names(r).push(raw.last().name@));
                if k < unparseable_names(r).len() {
                    assert(unparseable_names(r)[k] == n);
                    assert(unparseable_names(r).contains(n));
                    let j = choose|j: int| 0 <= j < r.len() && r[j].name@ == n && r[j].snapshot is Err;
                    assert(raw[j] == r[j]);
                } else {
                    assert(raw[raw.len() - 1].name@ == n);
                }
            } else {
                assert(unparseable_names(raw) == unparseable_names(r));
                assert(unparseable_names(r).contains(n));
                let j = choose|j: int| 0 <= j < r.len() && r[j].name@ == n && r[j].snapshot is Err;
                assert(raw[j] == r[j]);
            }
        }
    }
}

} // verus!
