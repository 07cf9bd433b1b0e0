//! What the commands decide and report: names, confirmations, refusals,
//! and the text of `sess list` and `sess status`.
use vstd::prelude::*;
use crate::doctor::count_kind;
use crate::model::{date_text, format_date};
use crate::state::{SessionState, StateKind};
use crate::storage::{human_size, human_size_spec};
use crate::text::{
    decimal, owned, pad_left_spec, pad_right_spec, push_decimal, push_padded_left,
    push_padded_right, push_str, str_eq, trim, trimmed,
};

verus! {

/// The name a session is saved under: the one given, or the tmux session's own.
pub fn save_name(name: Option<String>, session: String) -> (out: String)
    ensures
        out == match name {
            Some(n) => n,
            None => session,
        },
{
    match name {
        Some(n) => n,
        None => session,
    }
}

/// Whether `sess save` asks before writing: only when a saved session of
/// that name exists and `--force` was not given.
pub fn asks_before_overwrite(exists: bool, force: bool) -> (ask: bool)
    ensures
        ask == (exists && !force),
{
    exists && !force
}

/// The question asked before overwriting a saved session.
pub fn overwrite_question(name: &str) -> (out: String)
    ensures
        out@ == "a saved session named '"@ + name@ + "' already exists. Overwrite? [y/N] "@,
{
    let mut out = owned("a saved session named '");
    push_str(&mut out, name);
    push_str(&mut out, "' already exists. Overwrite? [y/N] ");
    out
}

/// Whether an answer to the overwrite question is yes: `y` or `Y`, with
/// white space around it ignored.
pub fn confirms_overwrite(answer: &str) -> (yes: bool)
    ensures
        yes == (trimmed(answer@) == "y"@ || trimmed(answer@) == "Y"@),
{
    let t = trim(answer);
    str_eq(t.as_str(), "y") || str_eq(t.as_str(), "Y")
}

/// What `sess save` reports.
pub fn saved_message(name: &str, pane_count: usize, env_count: usize) -> (out: String)
    ensures
        out@ == if env_count == 0 {
            "session saved as '"@ + name@ + "' ("@ + decimal(pane_count as nat) + " panes)."@
        } else {
            "session saved as '"@ + name@ + "' ("@ + decimal(pane_count as nat) + " panes, "@
                + decimal(env_count as nat) + " env var(s) persisted)."@
        },
{
    let mut out = owned("session saved as '");
    push_str(&mut out, name);
    push_str(&mut out, "' (");
    push_decimal(&mut out, pane_count as u64);
    if env_count == 0 {
        push_str(&mut out, " panes).");
    } else {
        push_str(&mut out, " panes, ");
        push_decimal(&mut out, env_count as u64);
        push_str(&mut out, " env var(s) persisted).");
    }
    out
}

/// What `sess open` does with a session, given whether it is live and
/// whether `--force` was given.
#[derive(Clone, Copy, Debug, PartialEq, Eq)]
pub enum OpenStep {
    /// Attach to the live session; the snapshot is left alone.
    Attach,
    /// Load the snapshot and restore it, killing the live session first if asked.
    Restore { kill_first: bool },
}

/// `sess open`: attach to a live session unless `--force`; otherwise restore
/// from the snapshot, killing a live session of that name first.
pub fn open_step(live: bool, force: bool) -> (s: OpenStep)
    ensures
        s == if live && !force {
            OpenStep::Attach
        } else {
            OpenStep::Restore { kill_first: live }
        },
{
    if live && !force {
        OpenStep::Attach
    } else {
        OpenStep::Restore { kill_first: live }
    }
}

/// The names joined with `, `.
pub open spec fn join_comma(names: Seq<Seq<char>>) -> Seq<char>
    decreases names.len(),
{
    if names.len() == 0 {
        Seq::empty()
    } else if names.len() == 1 {
        names[0]
    } else {
        join_comma(names.drop_last()) + ", "@ + names.last()
    }
}

/// The line printed when a restored snapshot has persisted variables;
/// nothing when it has none.
pub fn env_summary(env: &Vec<(String, String)>) -> (out: Option<String>)
    ensures
        env@.len() == 0 ==> out is None,
        env@.len() > 0 ==> (out matches Some(s) && s@ == "restoring "@ + decimal(env@.len())
            + " persisted env var(s): "@ + join_comma(env@.map_values(|p: (String, String)| p.0@))),
{
    if env.len() == 0 {
        return None;
    }
    let ghost keys = env@.map_values(|p: (String, String)| p.0@);
    let mut out = owned("restoring ");
    push_decimal(&mut out, env.len() as u64);
    push_str(&mut out, " persisted env var(s): ");
    let ghost head = out@;
    let mut i: usize = 0;
    while i < env.len()
        invariant
            i <= env@.len(),
            keys == env@.map_values(|p: (String, String)| p.0@),
            out@ == head + join_comma(keys.take(i as int)),
        decreases env@.len() - i,
    {
        proof {
            assert(keys.take(i + 1).drop_last() =~= keys.take(i as int));
            assert(keys[i as int] == env@[i as int].0@);
        }
        if i > 0 {
            push_str(&mut out, ", ");
        } else {
            assert(keys.take(1) =~= seq![keys[0]]);
        }
        push_str(&mut out, env[i].0.as_str());
        i = i + 1;
        assert(out@ =~= head + join_comma(keys.take(i as int)));
    }
    assert(keys.take(env@.len() as int) =~= keys);
    Some(out)
}

/// Why `sess attach` refuses a session that is not running.
pub fn attach_refusal(name: &str) -> (out: String)
    ensures
        out@ == "tmux session '"@ + name@
            + "' is not running; use `sess open "@ + name@
            + "` to restore it from a saved snapshot"@,
{
    let mut out = owned("tmux session '");
    push_str(&mut out, name);
    push_str(&mut out, "' is not running; use `sess open ");
    push_str(&mut out, name);
    push_str(&mut out, "` to restore it from a saved snapshot");
    out
}

/// The hint given when closing a session that is not running, by its state.
pub open spec fn close_hint(kind: Option<StateKind>) -> Seq<char> {
    match kind {
        Some(StateKind::Saved) => " (it has a saved snapshot but isn't running)"@,
        Some(StateKind::Stale) => " (it has a stale saved snapshot but isn't running)"@,
        Some(StateKind::Broken) => " (its saved snapshot is broken and it isn't running)"@,
        _ => Seq::empty(),
    }
}

/// Why `sess close` refuses a session that is not running, naming its state.
pub fn close_refusal(name: &str, state: &Option<SessionState>) -> (out: String)
    ensures
        out@ == "'"@ + name@ + "' is not currently running"@ + close_hint(match state {
            Some(s) => Some(s.kind),
            None => None,
        }),
{
    let mut out = owned("'");
    push_str(&mut out, name);
    push_str(&mut out, "' is not currently running");
    match state {
        Some(s) => match s.kind {
            StateKind::Saved => push_str(&mut out, " (it has a saved snapshot but isn't running)"),
            StateKind::Stale => push_str(
                &mut out,
                " (it has a stale saved snapshot but isn't running)",
            ),
            StateKind::Broken => push_str(
                &mut out,
                " (its saved snapshot is broken and it isn't running)",
            ),
            StateKind::Running => {
                assert(out@ =~= out@ + Seq::<char>::empty());
            },
        },
        None => {
            assert(out@ =~= out@ + Seq::<char>::empty());
        },
    }
    out
}

/// Why renaming or copying a session onto its own name is refused, if it is.
pub fn same_name_refusal(from: &str, to: &str) -> (out: Option<String>)
    ensures
        from@ == to@ ==> (out matches Some(m) && m@ == "source and destination names are the same"@),
        from@ != to@ ==> out is None,
{
    if str_eq(from, to) {
        Some(owned("source and destination names are the same"))
    } else {
        None
    }
}

/// Why `sess auto-save` refuses a session that is not running.
pub fn auto_save_refusal(name: &str) -> (out: String)
    ensures
        out@ == "'"@ + name@ + "' is not currently running \u{2014} start it first with `sess start "@
            + name@ + "`"@,
{
    let mut out = owned("'");
    push_str(&mut out, name);
    push_str(&mut out, "' is not currently running \u{2014} start it first with `sess start ");
    push_str(&mut out, name);
    push_str(&mut out, "`");
    out
}

/// The first line of `sess status`: how many sessions are in each state.
pub open spec fn status_counts_line(states: Seq<SessionState>) -> Seq<char> {
    decimal(count_kind(states, StateKind::Running)) + " running, "@ + decimal(
        count_kind(states, StateKind::Saved),
    ) + " saved, "@ + decimal(count_kind(states, StateKind::Stale)) + " stale, "@ + decimal(
        count_kind(states, StateKind::Broken),
    ) + " broken ("@ + decimal(states.len()) + " total)"@
}

/// One line of `sess status` per session: its state, its name and, for a
/// stale or broken one, why.
pub open spec fn status_line(s: SessionState) -> Seq<char> {
    "  "@ + pad_right_spec(s.kind.label_spec(), 8) + " "@ + s.name@ + match s.detail {
        Some(d) => " \u{2014} "@ + d@,
        None => Seq::empty(),
    }
}

/// The text of `sess status`, line by line.
pub fn status_report(states: &Vec<SessionState>) -> (out: Vec<String>)
    ensures
        out@.len() == states@.len() + 1,
        out@[0]@ == status_counts_line(states@),
        forall|k: int| 0 <= k < states@.len() ==> (#[trigger] out@[k + 1])@ == status_line(states@[k]),
{
    let running = crate::doctor::count_of_kind(states, StateKind::Running);
    let saved = crate::doctor::count_of_kind(states, StateKind::Saved);
    let stale = crate::doctor::count_of_kind(states, StateKind::Stale);
    let broken = crate::doctor::count_of_kind(states, StateKind::Broken);
    let mut first = String::new();
    push_decimal(&mut first, running as u64);
    push_str(&mut first, " running, ");
    push_decimal(&mut first, saved as u64);
    push_str(&mut first, " saved, ");
    push_decimal(&mut first, stale as u64);
    push_str(&mut first, " stale, ");
    push_decimal(&mut first, broken as u64);
    push_str(&mut first, " broken (");
    push_decimal(&mut first, states.len() as u64);
    push_str(&mut first, " total)");
    let mut out: Vec<String> = Vec::new();
    out.push(first);
    let mut k: usize = 0;
    while k < states.len()
        invariant
            k <= states@.len(),
            out@.len() == k + 1,
            out@[0]@ == status_counts_line(states@),
            forall|m: int| 0 <= m < k ==> (#[trigger] out@[m + 1])@ == status_line(states@[m]),
        decreases states@.len() - k,
    {
        let s = &states[k];
        let mut line = owned("  ");
        let label = s.kind.label();
        push_padded_right(&mut line, label.as_str(), 8);
        push_str(&mut line, " ");
        push_str(&mut line, s.name.as_str());
        match &s.detail {
            Some(d) => {
                push_str(&mut line, " \u{2014} ");
                push_str(&mut line, d.as_str());
            },
            None => {},
        }
        assert(line@ =~= status_line(*s));
        out.push(line);
        k = k + 1;
    }
    out
}

/// A count, or `-` when unknown.
pub open spec fn count_text(n: Option<usize>) -> Seq<char> {
    match n {
        Some(v) => decimal(v as nat),
        None => "-"@,
    }
}

/// When a session was saved, or `-`.
pub open spec fn saved_text(s: SessionState) -> Seq<char> {
    match s.saved_at {
        Some(t) => match date_text(t.unix_secs, t.nanos, t.offset_secs) {
            Some(d) => d,
            None => "-"@,
        },
        None => "-"@,
    }
}

/// The header of the `sess list` table.
pub open spec fn list_header() -> Seq<char> {
    pad_right_spec("NAME"@, 20) + " "@ + pad_right_spec("STATE"@, 8) + " "@ + pad_left_spec(
        "WIN"@,
        3,
    ) + " "@ + pad_left_spec("PANE"@, 3) + " "@ + pad_left_spec("SIZE"@, 10) + "  SAVED"@
}

/// One row of the `sess list` table.
pub open spec fn list_row(s: SessionState) -> Seq<char> {
    pad_right_spec(s.name@, 20) + " "@ + pad_right_spec(s.kind.label_spec(), 8) + " "@
        + pad_left_spec(count_text(s.window_count), 3) + " "@ + pad_left_spec(
        count_text(s.pane_count),
        3,
    ) + " "@ + pad_left_spec(
        match s.size_bytes {
            Some(b) => human_size_spec(b as nat),
            None => "-"@,
        },
        10,
    ) + "  "@ + saved_text(s)
}

/// The lines `sess list` prints for one session: its row and, for a stale
/// or broken one, the reason, indented.
pub open spec fn list_lines(s: SessionState) -> Seq<Seq<char>> {
    match s.detail {
        Some(d) => seq![list_row(s), "  "@ + d@],
        None => seq![list_row(s)],
    }
}

pub open spec fn list_body(states: Seq<SessionState>) -> Seq<Seq<char>>
    decreases states.len(),
{
    if states.len() == 0 {
        Seq::empty()
    } else {
        list_body(states.drop_last()) + list_lines(states.last())
    }
}

/// The text of `sess list`, line by line: a hint when there is nothing to
/// list; otherwise the header, then each session.
pub open spec fn list_report_spec(states: Seq<SessionState>) -> Seq<Seq<char>> {
    if states.len() == 0 {
        seq!["no sessions yet. Use `sess start <name>` or `sess save <name>` to create one."@]
    } else {
        seq![list_header()] + list_body(states)
    }
}

fn count_string(n: Option<usize>) -> (out: String)
    ensures
        out@ == count_text(n),
{
    match n {
        Some(v) => crate::text::decimal_string(v as u64),
        None => owned("-"),
    }
}

fn list_row_of(s: &SessionState) -> (out: String)
    ensures
        out@ == list_row(*s),
{
    let mut out = String::new();
    push_padded_right(&mut out, s.name.as_str(), 20);
    push_str(&mut out, " ");
    let label = s.kind.label();
    push_padded_right(&mut out, label.as_str(), 8);
    push_str(&mut out, " ");
    let w = count_string(s.window_count);
    push_padded_left(&mut out, w.as_str(), 3);
    push_str(&mut out, " ");
    let p = count_string(s.pane_count);
    push_padded_left(&mut out, p.as_str(), 3);
    push_str(&mut out, " ");
    let size = match s.size_bytes {
        Some(b) => human_size(b),
        None => owned("-"),
    };
    push_padded_left(&mut out, size.as_str(), 10);
    push_str(&mut out, "  ");
    let saved = match &s.saved_at {
        Some(t) => match format_date(t) {
            Some(d) => d,
            None => owned("-"),
        },
        None => owned("-"),
    };
    push_str(&mut out, saved.as_str());
    assert(out@ =~= list_row(*s));
    out
}

fn push_line(out: &mut Vec<String>, line: String)
    ensures
        final(out)@.map_values(|l: String| l@) == old(out)@.map_values(|l: String| l@).push(line@),
{
    let ghost lv = line@;
    out.push(line);
    assert(out@.map_values(|l: String| l@) =~= old(out)@.map_values(|l: String| l@).push(lv));
}

/// The text of `sess list`, line by line.
pub fn list_report(states: &Vec<SessionState>) -> (out: Vec<String>)
    ensures
        out@.map_values(|l: String| l@) == list_report_spec(states@),
{
    let mut out: Vec<String> = Vec::new();
    if states.len() == 0 {
        push_line(
            &mut out,
            owned("no sessions yet. Use `sess start <name>` or `sess save <name>` to create one."),
        );
        assert(out@.map_values(|l: String| l@) =~= list_report_spec(states@));
        return out;
    }
    let mut header = String::new();
    push_padded_right(&mut header, "NAME", 20);
    push_str(&mut header, " ");
    push_padded_right(&mut header, "STATE", 8);
    push_str(&mut header, " ");
    push_padded_left(&mut header, "WIN", 3);
    push_str(&mut header, " ");
    push_padded_left(&mut header, "PANE", 3);
    push_str(&mut header, " ");
    push_padded_left(&mut header, "SIZE", 10);
    push_str(&mut header, "  SAVED");
    assert(header@ =~= list_header());
    push_line(&mut out, header);
    let ghost head = out@.map_values(|l: String| l@);
    let mut k: usize = 0;
    assert(head + list_body(states@.take(0)) =~= head);
    while k < states.len()
        invariant
            k <= states@.len(),
            out@.map_values(|l: String| l@) == head + list_body(states@.take(k as int)),
        decreases states@.len() - k,
    {
        let s = &states[k];
        let row = list_row_of(s);
        push_line(&mut out, row);
        match &s.detail {
            Some(d) => {
                let mut line = owned("  ");
                push_str(&mut line, d.as_str());
                push_line(&mut out, line);
            },
            None => {},
        }
        proof {
            assert(states@.take(k + 1).drop_last() =~= states@.take(k as int));
            assert(states@.take(k + 1).last() == *s);
        }
        k = k + 1;
        assert(out@.map_values(|l: String| l@) =~= head + list_body(states@.take(k as int)));
    }
    assert(states@.take(states@.len() as int) =~= states@);
    assert(seq![list_header()] + list_body(states@) =~= head + list_body(states@));
    out
}

} // verus!
