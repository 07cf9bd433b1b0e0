//! Capturing a live tmux session: the tmux queries to run, how their output
//! is read into windows and panes, and how the full command line of a
//! pane's foreground process is found in a table of processes.
use vstd::prelude::*;
use crate::model::{now_utc, PaneSnapshot, SessionSnapshot, Timestamp, WindowSnapshot};
use crate::sorted::views;
use crate::text::{
    decimal, lines, lines_of, owned, parse_u32, parse_u32_spec, piece, push_char, push_decimal,
    push_str, split_n, splitn, str_eq, trim, trimmed, words, words_of,
};

verus! {

/// Whether a command name is an idle shell: nothing to relaunch.
pub open spec fn bare_shell(cmd: Seq<char>) -> bool {
    cmd == "bash"@ || cmd == "zsh"@ || cmd == "fish"@ || cmd == "sh"@ || cmd == "dash"@
}

/// Whether a command name is an idle shell (`bash`, `zsh`, `fish`, `sh`, `dash`).
pub fn is_bare_shell(cmd: &str) -> (r: bool)
    ensures
        r == bare_shell(cmd@),
{
    str_eq(cmd, "bash") || str_eq(cmd, "zsh") || str_eq(cmd, "fish") || str_eq(cmd, "sh")
        || str_eq(cmd, "dash")
}

/// Whether a command name is sess's own binary: the file name of the
/// running executable when it is known, `sess` otherwise.
pub open spec fn sess_itself(short: Seq<char>, own_name: Option<Seq<char>>) -> bool {
    match own_name {
        Some(n) => short == n,
        None => short == "sess"@,
    }
}

/// Whether a pane's foreground command is sess itself (a pane running
/// `sess save` captures itself; relaunching that would re-run sess).
pub fn is_sess_itself(short: &str, own_name: &Option<String>) -> (r: bool)
    ensures
        r == sess_itself(short@, match own_name {
            Some(n) => Some(n@),
            None => None,
        }),
{
    match own_name {
        Some(n) => str_eq(short, n.as_str()),
        None => str_eq(short, "sess"),
    }
}

/// What `String::from_utf8_lossy` makes of some bytes.
pub uninterp spec fn utf8_lossy(bytes: Seq<u8>) -> Seq<char>;

/// `String::from_utf8_lossy`, made an owned string. Its result is a
/// function of the bytes alone; no more than that is claimed here.
#[verifier::external_body]
fn lossy_string(bytes: &[u8]) -> (s: String)
    ensures
        s@ == utf8_lossy(bytes@),
{
    String::from_utf8_lossy(bytes).into_owned()
}

/// What is known of one process: its children, its `comm` (as read, not
/// trimmed) and its raw `cmdline`; `None` where that could not be read.
#[derive(Debug)]
pub struct ProcInfo {
    pub pid: u32,
    pub children: Vec<u32>,
    pub comm: Option<String>,
    pub cmdline: Option<Vec<u8>>,
}

/// The index of the first entry for `pid`, if any.
pub open spec fn proc_index(t: Seq<ProcInfo>, pid: u32) -> Option<int>
    decreases t.len(),
{
    if t.len() == 0 {
        None
    } else {
        match proc_index(t.drop_last(), pid) {
            Some(i) => Some(i),
            None => if t.last().pid == pid {
                Some(t.len() - 1)
            } else {
                None
            },
        }
    }
}

/// The children of `pid` (none when it is not in the table).
pub open spec fn children_spec(t: Seq<ProcInfo>, pid: u32) -> Seq<u32> {
    match proc_index(t, pid) {
        Some(i) => t[i].children@,
        None => Seq::empty(),
    }
}

/// The words that are numbers that fit in a `u32`, in order; the others
/// are skipped.
pub open spec fn pids_of(ws: Seq<Seq<char>>) -> Seq<u32>
    decreases ws.len(),
{
    if ws.len() == 0 {
        Seq::empty()
    } else {
        let before = pids_of(ws.drop_last());
        match parse_u32_spec(ws.last()) {
            Some(p) => before.push(p),
            None => before,
        }
    }
}

/// The child pids listed in a `/proc/<pid>/task/<pid>/children` file:
/// white-space separated numbers, anything else skipped.
pub fn children_from_text(raw: &str) -> (out: Vec<u32>)
    ensures
        out@ == pids_of(words_of(raw@)),
{
    let ws = words(raw);
    let ghost wv = ws@.map_values(|w: String| w@);
    let mut out: Vec<u32> = Vec::new();
    let mut i: usize = 0;
    while i < ws.len()
        invariant
            i <= ws@.len(),
            wv == ws@.map_values(|w: String| w@),
            out@ == pids_of(wv.take(i as int)),
        decreases ws@.len() - i,
    {
        proof {
            assert(wv.take(i + 1).drop_last() =~= wv.take(i as int));
            assert(wv.take(i + 1).last() == ws@[i as int]@);
        }
        match parse_u32(ws[i].as_str()) {
            Some(p) => out.push(p),
            None => {},
        }
        i = i + 1;
    }
    assert(wv.take(ws@.len() as int) =~= wv);
    out
}

/// Whether the `comm` of `pid`, trimmed, is `short`.
pub open spec fn comm_matches_spec(t: Seq<ProcInfo>, pid: u32, short: Seq<char>) -> bool {
    match proc_index(t, pid) {
        Some(i) => match t[i].comm {
            Some(c) => trimmed(c@) == short,
            None => false,
        },
        None => false,
    }
}

/// The pieces of a raw command line between NUL bytes, empty ones left out.
pub open spec fn nul_pieces(raw: Seq<u8>) -> (Seq<Seq<u8>>, Seq<u8>)
    decreases raw.len(),
{
    if raw.len() == 0 {
        (Seq::empty(), Seq::empty())
    } else {
        let (done, cur) = nul_pieces(raw.drop_last());
        if raw.last() == 0 {
            (if cur.len() > 0 { done.push(cur) } else { done }, Seq::empty())
        } else {
            (done, cur.push(raw.last()))
        }
    }
}

pub open spec fn arguments(raw: Seq<u8>) -> Seq<Seq<u8>> {
    let (done, cur) = nul_pieces(raw);
    if cur.len() > 0 {
        done.push(cur)
    } else {
        done
    }
}

/// The texts joined with single spaces.
pub open spec fn join_spaced(parts: Seq<Seq<char>>) -> Seq<char>
    decreases parts.len(),
{
    if parts.len() == 0 {
        Seq::empty()
    } else if parts.len() == 1 {
        parts[0]
    } else {
        join_spaced(parts.drop_last()) + seq![' '] + parts.last()
    }
}

/// The command line of a raw `cmdline`: its arguments, each read as lossy
/// UTF-8, joined with spaces; nothing for an empty one.
pub open spec fn cmdline_text(raw: Seq<u8>) -> Option<Seq<char>> {
    if raw.len() == 0 {
        None
    } else {
        let cmd = join_spaced(arguments(raw).map_values(|a: Seq<u8>| utf8_lossy(a)));
        if cmd.len() == 0 {
            None
        } else {
            Some(cmd)
        }
    }
}

/// The command line of `pid` (none when unknown or unreadable).
pub open spec fn cmdline_spec(t: Seq<ProcInfo>, pid: u32) -> Option<Seq<char>> {
    match proc_index(t, pid) {
        Some(i) => match t[i].cmdline {
            Some(raw) => cmdline_text(raw@),
            None => None,
        },
        None => None,
    }
}

/// All children of the processes of a level, in order.
pub open spec fn next_level(t: Seq<ProcInfo>, level: Seq<u32>) -> Seq<u32>
    decreases level.len(),
{
    if level.len() == 0 {
        Seq::empty()
    } else {
        next_level(t, level.drop_last()) + children_spec(t, level.last())
    }
}

/// The first of `cands` whose `comm` matches with a readable command line.
pub open spec fn first_found(t: Seq<ProcInfo>, cands: Seq<u32>, short: Seq<char>) -> Option<
    Seq<char>,
>
    decreases cands.len(),
{
    if cands.len() == 0 {
        None
    } else if comm_matches_spec(t, cands[0], short) && cmdline_spec(t, cands[0]) is Some {
        cmdline_spec(t, cands[0])
    } else {
        first_found(t, cands.drop_first(), short)
    }
}

/// The processes at most three levels below the shell, level by level.
pub open spec fn descendants(t: Seq<ProcInfo>, shell: u32) -> Seq<u32> {
    let l1 = next_level(t, seq![shell]);
    let l2 = next_level(t, l1);
    let l3 = next_level(t, l2);
    l1 + l2 + l3
}

/// The full command line of a pane's foreground process: the first process,
/// in breadth-first order at most three levels below the pane's shell, whose
/// name is the one tmux reported and whose command line can be read.
pub open spec fn foreground_spec(t: Seq<ProcInfo>, shell: u32, short: Seq<char>) -> Option<
    Seq<char>,
> {
    first_found(t, descendants(t, shell), short)
}

fn find_proc(t: &Vec<ProcInfo>, pid: u32) -> (r: Option<usize>)
    ensures
        match r {
            Some(i) => i < t@.len() && proc_index(t@, pid) == Some(i as int),
            None => proc_index(t@, pid) is None,
        },
{
    let mut i: usize = 0;
    while i < t.len()
        invariant
            i <= t@.len(),
            proc_index(t@.take(i as int), pid) is None,
        decreases t@.len() - i,
    {
        proof {
            assert(t@.take(i + 1).drop_last() =~= t@.take(i as int));
        }
        if t[i].pid == pid {
            proof {
                assert(proc_index(t@.take(i + 1), pid) == Some(i as int));
                lemma_proc_index_prefix(t@, i as int + 1, pid);
            }
            return Some(i);
        }
        i = i + 1;
    }
    assert(t@.take(t@.len() as int) =~= t@);
    None
}

/// The first entry for a pid in a prefix of the table is its first entry.
proof fn lemma_proc_index_prefix(t: Seq<ProcInfo>, n: int, pid: u32)
    requires
        0 <= n <= t.len(),
        proc_index(t.take(n), pid) is Some,
    ensures
        proc_index(t, pid) == proc_index(t.take(n), pid),
    decreases t.len() - n,
{
    if n < t.len() {
        assert(t.take(n + 1).drop_last() =~= t.take(n));
        assert(proc_index(t.take(n + 1), pid) == proc_index(t.take(n), pid));
        lemma_proc_index_prefix(t, n + 1, pid);
    } else {
        assert(t.take(n) =~= t);
    }
}

fn children_of(t: &Vec<ProcInfo>, pid: u32) -> (r: Vec<u32>)
    ensures
        r@ == children_spec(t@, pid),
{
    match find_proc(t, pid) {
        Some(i) => t[i].children.clone(),
        None => Vec::new(),
    }
}

fn comm_matches(t: &Vec<ProcInfo>, pid: u32, short: &str) -> (r: bool)
    ensures
        r == comm_matches_spec(t@, pid, short@),
{
    match find_proc(t, pid) {
        Some(i) => match &t[i].comm {
            Some(c) => {
                let tc = trim(c.as_str());
                str_eq(tc.as_str(), short)
            },
            None => false,
        },
        None => false,
    }
}

/// The arguments of a raw command line.
fn split_arguments(raw: &[u8]) -> (out: Vec<Vec<u8>>)
    ensures
        out@.map_values(|a: Vec<u8>| a@) == arguments(raw@),
{
    let mut done: Vec<Vec<u8>> = Vec::new();
    let mut cur: Vec<u8> = Vec::new();
    let mut i: usize = 0;
    while i < raw.len()
        invariant
            i <= raw@.len(),
            nul_pieces(raw@.take(i as int)) == (done@.map_values(|a: Vec<u8>| a@), cur@),
        decreases raw@.len() - i,
    {
        proof {
            assert(raw@.take(i + 1).drop_last() =~= raw@.take(i as int));
        }
        let ghost d0 = done@;
        if raw[i] == 0 {
            if cur.len() > 0 {
                let c = cur;
                let ghost cv = c@;
                done.push(c);
                assert(done@.map_values(|a: Vec<u8>| a@) =~= d0.map_values(|a: Vec<u8>| a@).push(cv));
            }
            cur = Vec::new();
        } else {
            cur.push(raw[i]);
        }
        i = i + 1;
    }
    assert(raw@.take(raw@.len() as int) =~= raw@);
    if cur.len() > 0 {
        let ghost d0 = done@;
        let ghost cv = cur@;
        done.push(cur);
        assert(done@.map_values(|a: Vec<u8>| a@) =~= d0.map_values(|a: Vec<u8>| a@).push(cv));
    }
    done
}

/// The command line of a raw `cmdline`, if it holds anything.
pub fn cmdline_from_raw(raw: &[u8]) -> (r: Option<String>)
    ensures
        match r {
            Some(s) => cmdline_text(raw@) == Some(s@),
            None => cmdline_text(raw@) is None,
        },
{
    if raw.len() == 0 {
        return None;
    }
    let args = split_arguments(raw);
    let ghost texts = arguments(raw@).map_values(|a: Seq<u8>| utf8_lossy(a));
    let mut cmd = String::new();
    let mut i: usize = 0;
    while i < args.len()
        invariant
            i <= args@.len(),
            args@.map_values(|a: Vec<u8>| a@) == arguments(raw@),
            texts == arguments(raw@).map_values(|a: Seq<u8>| utf8_lossy(a)),
            cmd@ == join_spaced(texts.take(i as int)),
        decreases args@.len() - i,
    {
        let part = lossy_string(args[i].as_slice());
        proof {
            assert(texts[i as int] == part@);
            assert(texts.take(i + 1).drop_last() =~= texts.take(i as int));
        }
        if i > 0 {
            push_char(&mut cmd, ' ');
        } else {
            assert(texts.take(1) =~= seq![part@]);
            assert(cmd@ =~= Seq::<char>::empty());
        }
        push_str(&mut cmd, part.as_str());
        i = i + 1;
        proof {
            if i > 1 {
                assert(cmd@ =~= join_spaced(texts.take(i as int)));
            } else {
                assert(cmd@ =~= part@);
            }
        }
    }
    assert(texts.take(args@.len() as int) =~= texts);
    if cmd.as_str().is_empty() {
        None
    } else {
        Some(cmd)
    }
}

fn cmdline_of(t: &Vec<ProcInfo>, pid: u32) -> (r: Option<String>)
    ensures
        match r {
            Some(s) => cmdline_spec(t@, pid) == Some(s@),
            None => cmdline_spec(t@, pid) is None,
        },
{
    match find_proc(t, pid) {
        Some(i) => match &t[i].cmdline {
            Some(raw) => cmdline_from_raw(raw.as_slice()),
            None => None,
        },
        None => None,
    }
}

proof fn lemma_first_found_append(t: Seq<ProcInfo>, a: Seq<u32>, b: Seq<u32>, short: Seq<char>)
    ensures
        first_found(t, a + b, short) == match first_found(t, a, short) {
            Some(c) => Some(c),
            None => first_found(t, b, short),
        },
    decreases a.len(),
{
    if a.len() > 0 {
        assert((a + b).drop_first() =~= a.drop_first() + b);
        assert((a + b)[0] == a[0]);
        lemma_first_found_append(t, a.drop_first(), b, short);
    } else {
        assert(a + b =~= b);
    }
}

/// Searches one level of the tree: the children of each process of `level`,
/// in order. Returns the command line found, or the next level.
fn search_level(t: &Vec<ProcInfo>, level: &Vec<u32>, short: &str) -> (r: Result<
    Vec<u32>,
    String,
>)
    ensures
        match r {
            Err(cmd) => first_found(t@, next_level(t@, level@), short@) == Some(cmd@),
            Ok(next) => first_found(t@, next_level(t@, level@), short@) is None && next@
                == next_level(t@, level@),
        },
{
    let mut next: Vec<u32> = Vec::new();
    let mut i: usize = 0;
    while i < level.len()
        invariant
            i <= level@.len(),
            next@ == next_level(t@, level@.take(i as int)),
            first_found(t@, next@, short@) is None,
        decreases level@.len() - i,
    {
        proof {
            assert(level@.take(i + 1).drop_last() =~= level@.take(i as int));
        }
        let children = children_of(t, level[i]);
        let ghost before = next@;
        let mut j: usize = 0;
        while j < children.len()
            invariant
                i < level@.len(),
                children@ == children_spec(t@, level@[i as int]),
                before == next_level(t@, level@.take(i as int)),
                j <= children@.len(),
                next@ == before + children@.take(j as int),
                first_found(t@, next@, short@) is None,
            decreases children@.len() - j,
        {
            let child = children[j];
            let ghost prev = next@;
            proof {
                lemma_first_found_append(t@, prev, seq![child], short@);
                assert(seq![child].drop_first() =~= Seq::<u32>::empty());
            }
            if comm_matches(t, child, short) {
                match cmdline_of(t, child) {
                    Some(cmd) => {
                        proof {
                            lemma_found_here(t@, level@, i as int, children@, j as int, before, short@);
                        }
                        return Err(cmd);
                    },
                    None => {},
                }
            }
            proof {
                assert(!(comm_matches_spec(t@, child, short@) && cmdline_spec(t@, child) is Some));
                assert(seq![child][0] == child);
                assert(seq![child].drop_first() =~= Seq::<u32>::empty());
                assert(first_found(t@, Seq::<u32>::empty(), short@) is None);
                assert(first_found(t@, seq![child], short@) is None);
                lemma_first_found_append(t@, prev, seq![child], short@);
            }
            next.push(child);
            j = j + 1;
            assert(next@ =~= prev + seq![child]);
            assert(next@ =~= before + children@.take(j as int));
        }
        assert(children@.take(children@.len() as int) =~= children@);
        i = i + 1;
    }
    assert(level@.take(level@.len() as int) =~= level@);
    Ok(next)
}

/// A match met while searching a level is the first match of the level.
proof fn lemma_found_here(
    t: Seq<ProcInfo>,
    level: Seq<u32>,
    i: int,
    children: Seq<u32>,
    j: int,
    before: Seq<u32>,
    short: Seq<char>,
)
    requires
        0 <= i < level.len(),
        0 <= j < children.len(),
        children == children_spec(t, level[i]),
        before == next_level(t, level.take(i)),
        first_found(t, before + children.take(j), short) is None,
        comm_matches_spec(t, children[j], short),
        cmdline_spec(t, children[j]) is Some,
    ensures
        first_found(t, next_level(t, level), short) == cmdline_spec(t, children[j]),
{
    let child = children[j];
    let prev = before + children.take(j);
    let rest = children.skip(j + 1) + next_level(t, level.skip(i + 1));
    lemma_next_level_split(t, level, i);
    assert(children =~= children.take(j).push(child) + children.skip(j + 1));
    assert(next_level(t, level) =~= prev + (seq![child] + rest));
    lemma_first_found_append(t, prev, seq![child] + rest, short);
    assert((seq![child] + rest)[0] == child);
}

/// `next_level` of a level, split around its `i`-th process.
proof fn lemma_next_level_split(t: Seq<ProcInfo>, level: Seq<u32>, i: int)
    requires
        0 <= i < level.len(),
    ensures
        next_level(t, level) == next_level(t, level.take(i)) + children_spec(t, level[i])
            + next_level(t, level.skip(i + 1)),
    decreases level.len(),
{
    if i == level.len() - 1 {
        assert(level.take(i) =~= level.drop_last());
        assert(level.skip(i + 1) =~= Seq::<u32>::empty());
        assert(next_level(t, level.skip(i + 1)) =~= Seq::<u32>::empty());
    } else {
        lemma_next_level_split(t, level.drop_last(), i);
        assert(level.drop_last().take(i) =~= level.take(i));
        assert(level.skip(i + 1).drop_last() =~= level.drop_last().skip(i + 1));
        assert(level.skip(i + 1).last() == level.last());
    }
}

/// The full command line of the foreground process of a pane whose shell is
/// `shell_pid`, found in the process table `t` (breadth-first, at most three
/// levels down, by the short name tmux reported).
pub fn full_cmdline_of_foreground(t: &Vec<ProcInfo>, shell_pid: u32, short_command: &str) -> (r:
    Option<String>)
    ensures
        match r {
            Some(s) => foreground_spec(t@, shell_pid, short_command@) == Some(s@),
            None => foreground_spec(t@, shell_pid, short_command@) is None,
        },
{
    let mut frontier: Vec<u32> = Vec::new();
    frontier.push(shell_pid);
    let ghost l0 = frontier@;
    let ghost l1 = next_level(t@, l0);
    let ghost l2 = next_level(t@, l1);
    let ghost l3 = next_level(t@, l2);
    proof {
        assert(l0 =~= seq![shell_pid]);
        lemma_first_found_append(t@, l1 + l2, l3, short_command@);
        lemma_first_found_append(t@, l1, l2, short_command@);
    }
    match search_level(t, &frontier, short_command) {
        Err(cmd) => return Some(cmd),
        Ok(next) => frontier = next,
    }
    match search_level(t, &frontier, short_command) {
        Err(cmd) => return Some(cmd),
        Ok(next) => frontier = next,
    }
    match search_level(t, &frontier, short_command) {
        Err(cmd) => Some(cmd),
        Ok(_) => None,
    }
}

/// The tmux query that lists a session's windows.
pub fn windows_query(session: &str) -> (c: Vec<String>)
    ensures
        views(c@) == seq![
            "list-windows"@,
            "-t"@,
            session@,
            "-F"@,
            "#{window_index}\t#{window_name}\t#{window_layout}"@,
        ],
{
    let mut c: Vec<String> = Vec::new();
    c.push(owned("list-windows"));
    c.push(owned("-t"));
    c.push(owned(session));
    c.push(owned("-F"));
    c.push(owned("#{window_index}\t#{window_name}\t#{window_layout}"));
    assert(views(c@) =~= seq![
        "list-windows"@,
        "-t"@,
        session@,
        "-F"@,
        "#{window_index}\t#{window_name}\t#{window_layout}"@,
    ]);
    c
}

/// The tmux query that lists the panes of window `index` of a session.
pub fn panes_query(session: &str, index: u32) -> (c: Vec<String>)
    ensures
        views(c@) == seq![
            "list-panes"@,
            "-t"@,
            session@ + seq![':'] + decimal(index as nat),
            "-F"@,
            "#{pane_index}\t#{pane_current_path}\t#{pane_current_command}\t#{pane_pid}"@,
        ],
{
    let mut target = owned(session);
    push_char(&mut target, ':');
    push_decimal(&mut target, index as u64);
    let ghost tv = target@;
    let mut c: Vec<String> = Vec::new();
    c.push(owned("list-panes"));
    c.push(owned("-t"));
    c.push(target);
    c.push(owned("-F"));
    c.push(owned("#{pane_index}\t#{pane_current_path}\t#{pane_current_command}\t#{pane_pid}"));
    assert(tv =~= session@ + seq![':'] + decimal(index as nat));
    assert(views(c@) =~= seq![
        "list-panes"@,
        "-t"@,
        session@ + seq![':'] + decimal(index as nat),
        "-F"@,
        "#{pane_index}\t#{pane_current_path}\t#{pane_current_command}\t#{pane_pid}"@,
    ]);
    c
}

/// A number field: parsed as a `u32`, 0 when absent or not a number.
pub open spec fn number_field(parts: Seq<Seq<char>>, k: int) -> u32 {
    let text = if 0 <= k < parts.len() { parts[k] } else { "0"@ };
    match parse_u32_spec(text) {
        Some(v) => v,
        None => 0,
    }
}

fn number_at(parts: &Vec<String>, k: usize) -> (v: u32)
    ensures
        v == number_field(views(parts@), k as int),
{
    let parsed = if k < parts.len() { parse_u32(parts[k].as_str()) } else { parse_u32("0") };
    match parsed {
        Some(v) => v,
        None => 0,
    }
}

fn text_at(parts: &Vec<String>, k: usize) -> (s: String)
    ensures
        s@ == piece(views(parts@), k as int),
{
    if k < parts.len() {
        parts[k].clone()
    } else {
        String::new()
    }
}

/// One line of the window query: index, name and layout, tab-separated.
pub open spec fn window_line(line: Seq<char>) -> (u32, Seq<char>, Seq<char>) {
    let parts = splitn(line, 3, '\t');
    (number_field(parts, 0), piece(parts, 1), piece(parts, 2))
}

/// The window described by one line of the window query.
pub fn parse_window_line(line: &str) -> (r: (u32, String, String))
    ensures
        (r.0, r.1@, r.2@) == window_line(line@),
{
    let parts = split_n(line, 3, '\t');
    (number_at(&parts, 0), text_at(&parts, 1), text_at(&parts, 2))
}

/// One line of the pane query: index, working directory, short command
/// name and shell pid, tab-separated.
pub open spec fn pane_line(line: Seq<char>) -> (u32, Seq<char>, Seq<char>, u32) {
    let parts = splitn(line, 4, '\t');
    (number_field(parts, 0), piece(parts, 1), piece(parts, 2), number_field(parts, 3))
}

/// The pane described by one line of the pane query.
pub fn parse_pane_line(line: &str) -> (r: (u32, String, String, u32))
    ensures
        (r.0, r.1@, r.2@, r.3) == pane_line(line@),
{
    let parts = split_n(line, 4, '\t');
    (number_at(&parts, 0), text_at(&parts, 1), text_at(&parts, 2), number_at(&parts, 3))
}

/// What is recorded as a pane's command: nothing for an idle shell or for
/// sess itself; otherwise the full command line of its foreground process,
/// or, when that cannot be found, the short name tmux reported.
pub open spec fn pane_command_spec(
    t: Seq<ProcInfo>,
    short: Seq<char>,
    pid: u32,
    own_name: Option<Seq<char>>,
) -> Seq<char> {
    if bare_shell(short) || sess_itself(short, own_name) {
        Seq::empty()
    } else {
        match foreground_spec(t, pid, short) {
            Some(c) => c,
            None => short,
        }
    }
}

/// The panes described by the output of the pane query, one per line.
pub open spec fn panes_from(
    raw: Seq<char>,
    t: Seq<ProcInfo>,
    own_name: Option<Seq<char>>,
    panes: Seq<PaneSnapshot>,
) -> bool {
    let ls = lines_of(raw);
    &&& panes.len() == ls.len()
    &&& forall|k: int|
        0 <= k < ls.len() ==> {
            let (index, cwd, short, pid) = pane_line(ls[k]);
            &&& (#[trigger] panes[k]).index == index
            &&& panes[k].cwd@ == cwd
            &&& panes[k].command@ == pane_command_spec(t, short, pid, own_name)
        }
}

/// Reads the output of the pane query of one window into panes. `procs` is
/// the process table in which foreground commands are looked up, and
/// `own_name` the file name of the running sess binary, if known.
pub fn parse_panes(raw: &str, procs: &Vec<ProcInfo>, own_name: &Option<String>) -> (out: Vec<
    PaneSnapshot,
>)
    ensures
        panes_from(raw@, procs@, match own_name {
            Some(n) => Some(n@),
            None => None,
        }, out@),
{
    let ghost own = match own_name {
        Some(n) => Some(n@),
        None => None,
    };
    let ls = lines(raw);
    let ghost lv = lines_of(raw@);
    let mut out: Vec<PaneSnapshot> = Vec::new();
    let mut k: usize = 0;
    while k < ls.len()
        invariant
            k <= ls@.len(),
            views(ls@) == lv,
            lv == lines_of(raw@),
            own == match own_name {
                Some(n) => Some(n@),
                None => None,
            },
            out@.len() == k,
            forall|m: int|
                0 <= m < k ==> {
                    let (index, cwd, short, pid) = pane_line(lv[m]);
                    &&& (#[trigger] out@[m]).index == index
                    &&& out@[m].cwd@ == cwd
                    &&& out@[m].command@ == pane_command_spec(procs@, short, pid, own)
                },
        decreases ls@.len() - k,
    {
        assert(lv[k as int] == ls@[k as int]@);
        let (index, cwd, short, pid) = parse_pane_line(ls[k].as_str());
        let command = if is_bare_shell(short.as_str()) || is_sess_itself(short.as_str(), own_name) {
            String::new()
        } else {
            match full_cmdline_of_foreground(procs, pid, short.as_str()) {
                Some(c) => c,
                None => short,
            }
        };
        out.push(PaneSnapshot { index, cwd, command });
        k = k + 1;
    }
    out
}

/// The windows of a session: one per line of the window query, each with
/// its panes. `panes[k]` holds the panes of the `k`-th line's window.
pub open spec fn windows_from(raw: Seq<char>, panes: Seq<Vec<PaneSnapshot>>, out: Seq<
    WindowSnapshot,
>) -> bool {
    let ls = lines_of(raw);
    &&& out.len() == ls.len()
    &&& forall|k: int|
        0 <= k < ls.len() ==> {
            let (index, name, layout) = window_line(ls[k]);
            &&& (#[trigger] out[k]).index == index
            &&& out[k].name@ == name
            &&& out[k].layout@ == layout
            &&& out[k].panes@ == panes[k]@
        }
}

/// Why a session could not be captured.
#[derive(Clone, Copy, Debug, PartialEq, Eq)]
pub enum CaptureError {
    /// The window query listed no window.
    NoWindows,
    /// The system clock could not be read as a time since 1970.
    NoClock,
}

/// The message for a failed capture of `session`.
pub fn capture_error_message(e: CaptureError, session: &str) -> (out: String)
    ensures
        out@ == match e {
            CaptureError::NoWindows => "no windows were found in session '"@ + session@ + "'"@,
            CaptureError::NoClock => "could not read the system clock to date the snapshot of '"@
                + session@ + "'"@,
        },
{
    let mut out = match e {
        CaptureError::NoWindows => owned("no windows were found in session '"),
        CaptureError::NoClock => owned("could not read the system clock to date the snapshot of '"),
    };
    push_str(&mut out, session);
    push_str(&mut out, "'");
    out
}

/// The indices of the windows listed by the window query, one per line, in
/// order: the panes of each are to be queried with `panes_query`.
pub fn window_indices(windows_raw: &str) -> (out: Vec<u32>)
    ensures
        out@.len() == lines_of(windows_raw@).len(),
        forall|k: int| 0 <= k < out@.len() ==> out@[k] == window_line(lines_of(windows_raw@)[k]).0,
{
    let ls = lines(windows_raw);
    let mut out: Vec<u32> = Vec::new();
    let mut k: usize = 0;
    while k < ls.len()
        invariant
            k <= ls@.len(),
            views(ls@) == lines_of(windows_raw@),
            out@.len() == k,
            forall|m: int| 0 <= m < k ==> out@[m] == window_line(lines_of(windows_raw@)[m]).0,
        decreases ls@.len() - k,
    {
        assert(lines_of(windows_raw@)[k as int] == ls@[k as int]@);
        let (index, _, _) = parse_window_line(ls[k].as_str());
        out.push(index);
        k = k + 1;
    }
    out
}

/// The snapshot of a live session, taken at `now`, from the output of its
/// window query and, for each of its windows in order, the panes read from
/// its pane query. A session with no windows cannot be captured; any other
/// is, in the current format, with no persisted variables.
pub fn capture_session_at(
    session_name: &str,
    windows_raw: &str,
    panes: Vec<Vec<PaneSnapshot>>,
    now: Timestamp,
) -> (r: Result<SessionSnapshot, CaptureError>)
    requires
        panes@.len() == lines_of(windows_raw@).len(),
    ensures
        (r == Err::<SessionSnapshot, CaptureError>(CaptureError::NoWindows)) <==> lines_of(
            windows_raw@,
        ).len() == 0,
        r is Ok <==> lines_of(windows_raw@).len() > 0,
        r matches Ok(s) ==> {
            &&& s.name@ == session_name@
            &&& s.version == crate::model::CURRENT_SNAPSHOT_VERSION
            &&& s.env@.len() == 0
            &&& s.created_at == now
            &&& windows_from(windows_raw@, panes@, s.windows@)
        },
{
    let ls = lines(windows_raw);
    let ghost all_panes = panes@;
    let mut panes = panes;
    let mut windows: Vec<WindowSnapshot> = Vec::new();
    let mut k: usize = 0;
    while k < ls.len()
        invariant
            k <= ls@.len(),
            views(ls@) == lines_of(windows_raw@),
            all_panes.len() == ls@.len(),
            panes@.len() == all_panes.len(),
            forall|m: int| k <= m < panes@.len() ==> panes@[m] == all_panes[m],
            windows@.len() == k,
            forall|m: int|
                0 <= m < k ==> {
                    let (index, name, layout) = window_line(lines_of(windows_raw@)[m]);
                    &&& (#[trigger] windows@[m]).index == index
                    &&& windows@[m].name@ == name
                    &&& windows@[m].layout@ == layout
                    &&& windows@[m].panes@ == all_panes[m]@
                },
        decreases ls@.len() - k,
    {
        assert(lines_of(windows_raw@)[k as int] == ls@[k as int]@);
        let (index, name, layout) = parse_window_line(ls[k].as_str());
        let mut window_panes: Vec<PaneSnapshot> = Vec::new();
        std::mem::swap(&mut window_panes, &mut panes[k]);
        windows.push(WindowSnapshot { index, name, layout, panes: window_panes });
        k = k + 1;
    }
    if windows.len() == 0 {
        return Err(CaptureError::NoWindows);
    }
    Ok(SessionSnapshot::taken_at(owned(session_name), windows, Vec::new(), now))
}


/// The snapshot of a live session, taken now: as `capture_session_at` with
/// the time the system clock reads, or `NoClock` when the clock cannot be
/// read as a time since 1970.
pub fn capture_session(session_name: &str, windows_raw: &str, panes: Vec<Vec<PaneSnapshot>>) -> (r:
    Result<SessionSnapshot, CaptureError>)
    requires
        panes@.len() == lines_of(windows_raw@).len(),
    ensures
        lines_of(windows_raw@).len() == 0 ==> r == Err::<SessionSnapshot, CaptureError>(
            CaptureError::NoWindows,
        ),
        lines_of(windows_raw@).len() > 0 ==> r != Err::<SessionSnapshot, CaptureError>(
            CaptureError::NoWindows,
        ),
        r matches Ok(s) ==> {
            &&& s.name@ == session_name@
            &&& s.version == crate::model::CURRENT_SNAPSHOT_VERSION
            &&& s.env@.len() == 0
            &&& s.created_at.nanos < 1_000_000_000
            &&& s.created_at.offset_secs == 0
            &&& windows_from(windows_raw@, panes@, s.windows@)
        },
{
    if lines(windows_raw).len() == 0 {
        return Err(CaptureError::NoWindows);
    }
    match now_utc() {
        Some(now) => capture_session_at(session_name, windows_raw, panes, now),
        None => Err(CaptureError::NoClock),
    }
}

/// The names of the live tmux sessions from the output of
/// `tmux list-sessions -F #{session_name}`: each line trimmed, blank ones
/// left out.
pub open spec fn live_names(raw: Seq<char>) -> Seq<Seq<char>> {
    nonblank_trimmed(lines_of(raw))
}

/// The lines trimmed, blank ones left out.
pub open spec fn nonblank_trimmed(ls: Seq<Seq<char>>) -> Seq<Seq<char>>
    decreases ls.len(),
{
    if ls.len() == 0 {
        Seq::empty()
    } else {
        let before = nonblank_trimmed(ls.drop_last());
        let t = trimmed(ls.last());
        if t.len() > 0 {
            before.push(t)
        } else {
            before
        }
    }
}

/// Reads the output of the session listing into session names.
pub fn parse_live_sessions(raw: &str) -> (out: Vec<String>)
    ensures
        views(out@) == live_names(raw@),
{
    let ls = lines(raw);
    let ghost lv = lines_of(raw@);
    let mut out: Vec<String> = Vec::new();
    let mut k: usize = 0;
    while k < ls.len()
        invariant
            k <= ls@.len(),
            views(ls@) == lv,
            views(out@) == nonblank_trimmed(lv.take(k as int)),
        decreases ls@.len() - k,
    {
        let t = trim(ls[k].as_str());
        proof {
            assert(lv[k as int] == ls@[k as int]@);
            assert(lv.take(k + 1).drop_last() =~= lv.take(k as int));
            assert(lv.take(k + 1).last() == lv[k as int]);
        }
        if !t.as_str().is_empty() {
            let ghost before = out@;
            out.push(t);
            assert(views(out@) =~= views(before).push(trimmed(lv[k as int])));
        }
        k = k + 1;
    }
    assert(lv.take(ls@.len() as int) =~= lv);
    out
}

/// The idle shells: a pane showing one of these has nothing to relaunch.
pub open spec fn idle_shell_names() -> Seq<Seq<char>> {
    seq!["bash"@, "zsh"@, "fish"@, "sh"@, "dash"@]
}

/// A pane sitting at an idle `bash`, `zsh`, `fish`, `sh` or `dash` prompt
/// is recorded with an empty command, whatever the process table holds;
/// any other short command (other than sess itself) is recorded as the
/// full command line of its foreground process, or as tmux's short name
/// when none is found.
pub proof fn lemma_idle_shells_record_no_command(
    t: Seq<ProcInfo>,
    short: Seq<char>,
    pid: u32,
    own_name: Option<Seq<char>>,
)
    ensures
        idle_shell_names().contains(short) ==> pane_command_spec(t, short, pid, own_name).len() == 0,
        !idle_shell_names().contains(short) && !sess_itself(short, own_name) ==> pane_command_spec(
            t,
            short,
            pid,
            own_name,
        ) == match foreground_spec(t, pid, short) {
            Some(c) => c,
            None => short,
        },
{
    let names = idle_shell_names();
    if names.contains(short) {
        let j = choose|j: int| 0 <= j < names.len() && names[j] == short;
        assert(j == 0 || j == 1 || j == 2 || j == 3 || j == 4);
    } else {
        assert(names[0] == "bash"@);
        assert(names[1] == "zsh"@);
        assert(names[2] == "fish"@);
        assert(names[3] == "sh"@);
        assert(names[4] == "dash"@);
    }
}

/// In the panes read from a pane query, every pane whose line reports an
/// idle shell has an empty command.
pub proof fn lemma_idle_panes_are_empty(
    raw: Seq<char>,
    t: Seq<ProcInfo>,
    own_name: Option<Seq<char>>,
    panes: Seq<PaneSnapshot>,
    k: int,
)
    requires
        panes_from(raw, t, own_name, panes),
        0 <= k < lines_of(raw).len(),
        idle_shell_names().contains(pane_line(lines_of(raw)[k]).2),
    ensures
        panes[k].command@.len() == 0,
{
    let (index, cwd, short, pid) = pane_line(lines_of(raw)[k]);
    lemma_idle_shells_record_no_command(t, short, pid, own_name);
    assert(panes[k].command@ == pane_command_spec(t, short, pid, own_name));
}

} // verus!
