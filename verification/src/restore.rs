//! Recreating a tmux session from a snapshot: the exact sequence of tmux
//! commands that rebuilds its windows, panes, layout, environment and
//! foreground commands.
use vstd::prelude::*;
use crate::env::{shell_single_quote, single_quoted};
use crate::model::{PaneSnapshot, SessionSnapshot, WindowSnapshot};
use crate::sorted::views;
use crate::text::{decimal, owned, push_char, push_decimal, push_str};

verus! {

/// The arguments of each tmux invocation in a plan.
pub open spec fn plan_view(p: Seq<Vec<String>>) -> Seq<Seq<Seq<char>>> {
    p.map_values(|c: Vec<String>| views(c@))
}

/// `session:index`, the tmux target of a window.
pub open spec fn window_target(name: Seq<char>, index: u32) -> Seq<char> {
    name + seq![':'] + decimal(index as nat)
}

/// `window.index`, the tmux target of a pane.
pub open spec fn pane_target(window: Seq<char>, index: u32) -> Seq<char> {
    window + seq!['.'] + decimal(index as nat)
}

pub open spec fn new_session_cmd(name: Seq<char>, cwd: Seq<char>, window: Seq<char>) -> Seq<
    Seq<char>,
> {
    seq!["new-session"@, "-d"@, "-s"@, name, "-c"@, cwd, "-n"@, window]
}

/// Creates a window at its saved index (`target` is `session:index`).
pub open spec fn new_window_cmd(target: Seq<char>, window: Seq<char>, cwd: Seq<char>) -> Seq<
    Seq<char>,
> {
    seq!["new-window"@, "-t"@, target, "-n"@, window, "-c"@, cwd]
}

pub open spec fn split_cmd(target: Seq<char>, cwd: Seq<char>) -> Seq<Seq<char>> {
    seq!["split-window"@, "-t"@, target, "-c"@, cwd]
}

pub open spec fn layout_cmd(target: Seq<char>, layout: Seq<char>) -> Seq<Seq<char>> {
    seq!["select-layout"@, "-t"@, target, layout]
}

/// Types `text` into a pane and presses Enter; `--` keeps a text that starts
/// with `-` from being read as a flag.
pub open spec fn send_cmd(target: Seq<char>, text: Seq<char>) -> Seq<Seq<char>> {
    seq!["send-keys"@, "-t"@, target, "--"@, text, "Enter"@]
}

pub open spec fn select_window_cmd(name: Seq<char>, index: u32) -> Seq<Seq<char>> {
    seq!["select-window"@, "-t"@, window_target(name, index)]
}

/// The shell line that re-exports one persisted variable.
pub open spec fn export_line(name: Seq<char>, value: Seq<char>) -> Seq<char> {
    "export "@ + name + seq!['='] + single_quoted(value)
}

/// The working directory a window is created in: its first pane's, or `~`.
pub open spec fn first_cwd(w: WindowSnapshot) -> Seq<char> {
    if w.panes@.len() > 0 {
        w.panes@[0].cwd@
    } else {
        "~"@
    }
}

/// Re-exports every persisted variable into a pane.
pub open spec fn export_cmds(target: Seq<char>, env: Seq<(String, String)>) -> Seq<Seq<Seq<char>>> {
    Seq::new(env.len(), |k: int| send_cmd(target, export_line(env[k].0@, env[k].1@)))
}

/// What is sent to one pane: the persisted variables, then its command, if any.
pub open spec fn pane_cmds(window: Seq<char>, p: PaneSnapshot, env: Seq<(String, String)>) -> Seq<
    Seq<Seq<char>>,
> {
    let target = pane_target(window, p.index);
    export_cmds(target, env) + if p.command@.len() > 0 {
        seq![send_cmd(target, p.command@)]
    } else {
        Seq::empty()
    }
}

pub open spec fn panes_cmds(
    window: Seq<char>,
    panes: Seq<PaneSnapshot>,
    env: Seq<(String, String)>,
) -> Seq<Seq<Seq<char>>>
    decreases panes.len(),
{
    if panes.len() == 0 {
        Seq::empty()
    } else {
        panes_cmds(window, panes.drop_last(), env) + pane_cmds(window, panes.last(), env)
    }
}

/// One split per pane after the first, each in that pane's directory.
pub open spec fn split_cmds(window: Seq<char>, panes: Seq<PaneSnapshot>) -> Seq<Seq<Seq<char>>> {
    if panes.len() == 0 {
        Seq::empty()
    } else {
        Seq::new((panes.len() - 1) as nat, |k: int| split_cmd(window, panes[k + 1].cwd@))
    }
}

/// Everything that rebuilds one window: creating it (all but the first
/// window, which comes with the session), splitting it, applying its saved
/// layout (if any), and relaunching what ran in its panes.
pub open spec fn window_cmds(
    name: Seq<char>,
    w: WindowSnapshot,
    first: bool,
    env: Seq<(String, String)>,
) -> Seq<Seq<Seq<char>>> {
    let target = window_target(name, w.index);
    (if first {
        Seq::empty()
    } else {
        seq![new_window_cmd(target, w.name@, first_cwd(w))]
    }) + split_cmds(target, w.panes@) + (if w.layout@.len() > 0 {
        seq![layout_cmd(target, w.layout@)]
    } else {
        Seq::empty()
    }) + panes_cmds(target, w.panes@, env)
}

pub open spec fn windows_cmds(
    name: Seq<char>,
    ws: Seq<WindowSnapshot>,
    env: Seq<(String, String)>,
) -> Seq<Seq<Seq<char>>>
    decreases ws.len(),
{
    if ws.len() == 0 {
        Seq::empty()
    } else {
        windows_cmds(name, ws.drop_last(), env) + window_cmds(name, ws.last(), ws.len() == 1, env)
    }
}

/// The full sequence of tmux commands that recreates a snapshot whose first
/// window has at least one pane.
pub open spec fn restore_cmds(s: SessionSnapshot) -> Seq<Seq<Seq<char>>> {
    let w0 = s.windows@[0];
    seq![new_session_cmd(s.name@, w0.panes@[0].cwd@, w0.name@)] + windows_cmds(
        s.name@,
        s.windows@,
        s.env@,
    ) + seq![select_window_cmd(s.name@, w0.index)]
}

/// Why a snapshot cannot be restored.
#[derive(Clone, Copy, Debug, PartialEq, Eq)]
pub enum RestoreError {
    /// A live tmux session with the snapshot's name already exists.
    AlreadyRunning,
    /// The snapshot has no windows.
    NoWindows,
    /// The snapshot's first window has no panes.
    NoPanes,
}

/// The message for a refused restore.
pub fn restore_error_message(e: RestoreError, name: &str) -> (out: String)
    ensures
        out@ == match e {
            RestoreError::AlreadyRunning => "a live tmux session named '"@ + name@
                + "' already exists \u{2014} use `sess open "@ + name@
                + "` to attach instead of restoring."@,
            RestoreError::NoWindows => "the snapshot has no saved windows"@,
            RestoreError::NoPanes => "the first window in the snapshot has no saved panes"@,
        },
{
    match e {
        RestoreError::AlreadyRunning => {
            let mut out = owned("a live tmux session named '");
            push_str(&mut out, name);
            push_str(&mut out, "' already exists \u{2014} use `sess open ");
            push_str(&mut out, name);
            push_str(&mut out, "` to attach instead of restoring.");
            out
        },
        RestoreError::NoWindows => owned("the snapshot has no saved windows"),
        RestoreError::NoPanes => owned("the first window in the snapshot has no saved panes"),
    }
}

fn args2(a: &str, b: &str) -> (v: Vec<String>)
    ensures
        views(v@) == seq![a@, b@],
{
    let mut v: Vec<String> = Vec::new();
    v.push(owned(a));
    v.push(owned(b));
    assert(views(v@) =~= seq![a@, b@]);
    v
}

fn push_arg(v: &mut Vec<String>, a: &str)
    ensures
        views(final(v)@) == views(old(v)@).push(a@),
{
    v.push(owned(a));
    assert(views(v@) =~= views(old(v)@).push(a@));
}

fn push_string(v: &mut Vec<String>, a: String)
    ensures
        views(final(v)@) == views(old(v)@).push(a@),
{
    let ghost av = a@;
    v.push(a);
    assert(views(v@) =~= views(old(v)@).push(av));
}

fn window_target_of(name: &str, index: u32) -> (t: String)
    ensures
        t@ == window_target(name@, index),
{
    let mut t = owned(name);
    push_char(&mut t, ':');
    push_decimal(&mut t, index as u64);
    assert(t@ =~= window_target(name@, index));
    t
}

fn pane_target_of(window: &str, index: u32) -> (t: String)
    ensures
        t@ == pane_target(window@, index),
{
    let mut t = owned(window);
    push_char(&mut t, '.');
    push_decimal(&mut t, index as u64);
    assert(t@ =~= pane_target(window@, index));
    t
}

fn send_keys(target: &str, text: &str) -> (c: Vec<String>)
    ensures
        views(c@) == send_cmd(target@, text@),
{
    let mut c = args2("send-keys", "-t");
    push_arg(&mut c, target);
    push_arg(&mut c, "--");
    push_arg(&mut c, text);
    push_arg(&mut c, "Enter");
    assert(views(c@) =~= send_cmd(target@, text@));
    c
}

fn export_line_of(name: &str, value: &str) -> (l: String)
    ensures
        l@ == export_line(name@, value@),
{
    let mut l = owned("export ");
    push_str(&mut l, name);
    push_char(&mut l, '=');
    let q = shell_single_quote(value);
    push_str(&mut l, q.as_str());
    assert(l@ =~= export_line(name@, value@));
    l
}

fn push_cmd(out: &mut Vec<Vec<String>>, c: Vec<String>)
    ensures
        plan_view(final(out)@) == plan_view(old(out)@).push(views(c@)),
{
    let ghost cv = views(c@);
    out.push(c);
    assert(plan_view(out@) =~= plan_view(old(out)@).push(cv));
}

fn push_pane_cmds(
    out: &mut Vec<Vec<String>>,
    window: &str,
    p: &PaneSnapshot,
    env: &Vec<(String, String)>,
)
    ensures
        plan_view(final(out)@) == plan_view(old(out)@) + pane_cmds(window@, *p, env@),
{
    let target = pane_target_of(window, p.index);
    let mut k: usize = 0;
    while k < env.len()
        invariant
            k <= env@.len(),
            target@ == pane_target(window@, p.index),
            plan_view(out@) == plan_view(old(out)@) + export_cmds(target@, env@.take(k as int)),
        decreases env@.len() - k,
    {
        let line = export_line_of(env[k].0.as_str(), env[k].1.as_str());
        let c = send_keys(target.as_str(), line.as_str());
        push_cmd(out, c);
        k = k + 1;
        assert(export_cmds(target@, env@.take(k as int)) =~= export_cmds(
            target@,
            env@.take(k - 1),
        ).push(views(c@)));
    }
    assert(env@.take(env@.len() as int) =~= env@);
    if !p.command.as_str().is_empty() {
        let c = send_keys(target.as_str(), p.command.as_str());
        push_cmd(out, c);
    }
    assert(plan_view(out@) =~= plan_view(old(out)@) + pane_cmds(window@, *p, env@));
}

fn push_window_cmds(
    out: &mut Vec<Vec<String>>,
    name: &str,
    w: &WindowSnapshot,
    first: bool,
    env: &Vec<(String, String)>,
)
    ensures
        plan_view(final(out)@) == plan_view(old(out)@) + window_cmds(name@, *w, first, env@),
{
    let target = window_target_of(name, w.index);
    if !first {
        let mut c = args2("new-window", "-t");
        push_arg(&mut c, target.as_str());
        push_arg(&mut c, "-n");
        push_arg(&mut c, w.name.as_str());
        push_arg(&mut c, "-c");
        if w.panes.len() > 0 {
            push_arg(&mut c, w.panes[0].cwd.as_str());
        } else {
            push_arg(&mut c, "~");
        }
        assert(views(c@) =~= new_window_cmd(target@, w.name@, first_cwd(*w)));
        push_cmd(out, c);
    }
    let ghost after_new = plan_view(out@);
    if w.panes.len() > 0 {
    let mut k: usize = 1;
    assert(split_cmds(target@, w.panes@.take(1)) =~= Seq::<Seq<Seq<char>>>::empty());
    assert(after_new + Seq::<Seq<Seq<char>>>::empty() =~= after_new);
    while k < w.panes.len()
        invariant
            1 <= k <= w.panes@.len(),
            target@ == window_target(name@, w.index),
            plan_view(out@) == after_new + split_cmds(target@, w.panes@.take(k as int)),
        decreases w.panes@.len() - k,
    {
        let mut c = args2("split-window", "-t");
        push_arg(&mut c, target.as_str());
        push_arg(&mut c, "-c");
        push_arg(&mut c, w.panes[k].cwd.as_str());
        assert(views(c@) =~= split_cmd(target@, w.panes@[k as int].cwd@));
        push_cmd(out, c);
        k = k + 1;
        assert(split_cmds(target@, w.panes@.take(k as int)) =~= split_cmds(
            target@,
            w.panes@.take(k - 1),
        ).push(split_cmd(target@, w.panes@[k - 1].cwd@)));
    }
    assert(w.panes@.take(w.panes@.len() as int) =~= w.panes@);
    } else {
        assert(split_cmds(target@, w.panes@) =~= Seq::<Seq<Seq<char>>>::empty());
        assert(after_new + Seq::<Seq<Seq<char>>>::empty() =~= after_new);
    }
    if !w.layout.as_str().is_empty() {
        let mut c = args2("select-layout", "-t");
        push_arg(&mut c, target.as_str());
        push_arg(&mut c, w.layout.as_str());
        assert(views(c@) =~= layout_cmd(target@, w.layout@));
        push_cmd(out, c);
    }
    let ghost after_layout = plan_view(out@);
    let mut j: usize = 0;
    while j < w.panes.len()
        invariant
            j <= w.panes@.len(),
            target@ == window_target(name@, w.index),
            plan_view(out@) == after_layout + panes_cmds(target@, w.panes@.take(j as int), env@),
        decreases w.panes@.len() - j,
    {
        push_pane_cmds(out, target.as_str(), &w.panes[j], env);
        j = j + 1;
        assert(w.panes@.take(j as int).drop_last() =~= w.panes@.take(j - 1));
        assert(plan_view(out@) =~= after_layout + panes_cmds(target@, w.panes@.take(j as int), env@));
    }
    assert(w.panes@.take(w.panes@.len() as int) =~= w.panes@);
    assert(plan_view(out@) =~= plan_view(old(out)@) + window_cmds(name@, *w, first, env@));
}

/// The tmux commands that recreate `snapshot`, in the order they must run;
/// running them stops at the first one that fails. `already_running` tells
/// whether a live tmux session with the snapshot's name exists, in which
/// case nothing is restored over it.
pub fn restore(snapshot: &SessionSnapshot, already_running: bool) -> (r: Result<
    Vec<Vec<String>>,
    RestoreError,
>)
    ensures
        already_running ==> r == Err::<Vec<Vec<String>>, RestoreError>(RestoreError::AlreadyRunning),
        !already_running && snapshot.windows@.len() == 0 ==> r == Err::<
            Vec<Vec<String>>,
            RestoreError,
        >(RestoreError::NoWindows),
        !already_running && snapshot.windows@.len() > 0 && snapshot.windows@[0].panes@.len() == 0
            ==> r == Err::<Vec<Vec<String>>, RestoreError>(RestoreError::NoPanes),
        r is Ok <==> !already_running && snapshot.windows@.len() > 0
            && snapshot.windows@[0].panes@.len() > 0,
        r matches Ok(plan) ==> plan_view(plan@) == restore_cmds(*snapshot),
{
    if already_running {
        return Err(RestoreError::AlreadyRunning);
    }
    if snapshot.windows.len() == 0 {
        return Err(RestoreError::NoWindows);
    }
    let first_window = &snapshot.windows[0];
    if first_window.panes.len() == 0 {
        return Err(RestoreError::NoPanes);
    }
    let name = snapshot.name.as_str();
    let mut out: Vec<Vec<String>> = Vec::new();
    let mut c = args2("new-session", "-d");
    push_arg(&mut c, "-s");
    push_arg(&mut c, name);
    push_arg(&mut c, "-c");
    push_arg(&mut c, first_window.panes[0].cwd.as_str());
    push_arg(&mut c, "-n");
    push_arg(&mut c, first_window.name.as_str());
    assert(views(c@) =~= new_session_cmd(name@, first_window.panes@[0].cwd@, first_window.name@));
    push_cmd(&mut out, c);
    let ghost head = plan_view(out@);
    let mut i: usize = 0;
    while i < snapshot.windows.len()
        invariant
            i <= snapshot.windows@.len(),
            name@ == snapshot.name@,
            plan_view(out@) == head + windows_cmds(name@, snapshot.windows@.take(i as int), snapshot.env@),
        decreases snapshot.windows@.len() - i,
    {
        push_window_cmds(&mut out, name, &snapshot.windows[i], i == 0, &snapshot.env);
        i = i + 1;
        assert(snapshot.windows@.take(i as int).drop_last() =~= snapshot.windows@.take(i - 1));
        assert(plan_view(out@) =~= head + windows_cmds(name@, snapshot.windows@.take(i as int), snapshot.env@));
    }
    assert(snapshot.windows@.take(snapshot.windows@.len() as int) =~= snapshot.windows@);
    let mut c = args2("select-window", "-t");
    let t = window_target_of(name, first_window.index);
    push_string(&mut c, t);
    assert(views(c@) =~= select_window_cmd(name@, first_window.index));
    push_cmd(&mut out, c);
    assert(plan_view(out@) =~= restore_cmds(*snapshot));
    Ok(out)
}

/// The tmux command that creates a new, empty, detached session (`sess start`).
pub fn start_new(name: &str) -> (c: Vec<String>)
    ensures
        views(c@) == seq!["new-session"@, "-d"@, "-s"@, name@],
{
    let mut c = args2("new-session", "-d");
    push_arg(&mut c, "-s");
    push_arg(&mut c, name);
    c
}

/// The tmux command that attaches to an existing session, or switches the
/// client to it when already inside tmux.
pub fn attach(name: &str, inside_tmux: bool) -> (c: Vec<String>)
    ensures
        views(c@) == seq![if inside_tmux { "switch-client"@ } else { "attach-session"@ }, "-t"@, name@],
{
    let flag = if inside_tmux { "switch-client" } else { "attach-session" };
    let mut c = args2(flag, "-t");
    push_arg(&mut c, name);
    c
}

/// The tmux command that kills a session.
pub fn kill_session(name: &str) -> (c: Vec<String>)
    ensures
        views(c@) == seq!["kill-session"@, "-t"@, name@],
{
    let mut c = args2("kill-session", "-t");
    push_arg(&mut c, name);
    c
}

/// The tmux command that kills a window.
pub fn kill_window(target: &str) -> (c: Vec<String>)
    ensures
        views(c@) == seq!["kill-window"@, "-t"@, target@],
{
    let mut c = args2("kill-window", "-t");
    push_arg(&mut c, target);
    c
}

/// A command that types into a pane types exactly one text, after `--`.
pub open spec fn guarded(c: Seq<Seq<char>>) -> bool {
    c.len() > 0 && c[0] == "send-keys"@ ==> c.len() == 6 && c[3] == "--"@
}

pub open spec fn all_guarded(cmds: Seq<Seq<Seq<char>>>) -> bool {
    forall|k: int| 0 <= k < cmds.len() ==> guarded(#[trigger] cmds[k])
}

proof fn lemma_guarded_concat(a: Seq<Seq<Seq<char>>>, b: Seq<Seq<Seq<char>>>)
    requires
        all_guarded(a),
        all_guarded(b),
    ensures
        all_guarded(a + b),
{
    assert forall|k: int| 0 <= k < (a + b).len() implies guarded(#[trigger] (a + b)[k]) by {
        if k < a.len() {
            assert((a + b)[k] == a[k]);
        } else {
            assert((a + b)[k] == b[k - a.len()]);
        }
    }
}

proof fn lemma_other_words()
    ensures
        "new-session"@ != "send-keys"@,
        "new-window"@ != "send-keys"@,
        "split-window"@ != "send-keys"@,
        "select-layout"@ != "send-keys"@,
        "select-window"@ != "send-keys"@,
{
    reveal_strlit("send-keys");
    reveal_strlit("new-session");
    reveal_strlit("new-window");
    reveal_strlit("split-window");
    reveal_strlit("select-layout");
    reveal_strlit("select-window");
    assert("new-session"@[0] != "send-keys"@[0]);
    assert("new-window"@[0] != "send-keys"@[0]);
    assert("split-window"@[1] != "send-keys"@[1]);
    assert("select-layout"@[2] != "send-keys"@[2]);
    assert("select-window"@[2] != "send-keys"@[2]);
}

proof fn lemma_panes_guarded(window: Seq<char>, panes: Seq<PaneSnapshot>, env: Seq<(String, String)>)
    ensures
        all_guarded(panes_cmds(window, panes, env)),
    decreases panes.len(),
{
    if panes.len() > 0 {
        lemma_panes_guarded(window, panes.drop_last(), env);
        let p = panes.last();
        let target = pane_target(window, p.index);
        let e = export_cmds(target, env);
        assert(all_guarded(e));
        let tail = if p.command@.len() > 0 {
            seq![send_cmd(target, p.command@)]
        } else {
            Seq::<Seq<Seq<char>>>::empty()
        };
        assert(all_guarded(tail));
        lemma_guarded_concat(e, tail);
        lemma_guarded_concat(panes_cmds(window, panes.drop_last(), env), e + tail);
    }
}

proof fn lemma_windows_guarded(name: Seq<char>, ws: Seq<WindowSnapshot>, env: Seq<(String, String)>)
    ensures
        all_guarded(windows_cmds(name, ws, env)),
    decreases ws.len(),
{
    if ws.len() > 0 {
        lemma_windows_guarded(name, ws.drop_last(), env);
        lemma_other_words();
        let w = ws.last();
        let target = window_target(name, w.index);
        let first = ws.len() == 1;
        let a = if first {
            Seq::<Seq<Seq<char>>>::empty()
        } else {
            seq![new_window_cmd(target, w.name@, first_cwd(w))]
        };
        let b = split_cmds(target, w.panes@);
        let c = if w.layout@.len() > 0 {
            seq![layout_cmd(target, w.layout@)]
        } else {
            Seq::<Seq<Seq<char>>>::empty()
        };
        let d = panes_cmds(target, w.panes@, env);
        assert(all_guarded(a));
        assert(all_guarded(b));
        assert(all_guarded(c));
        lemma_panes_guarded(target, w.panes@, env);
        lemma_guarded_concat(a, b);
        lemma_guarded_concat(a + b, c);
        lemma_guarded_concat(a + b + c, d);
        lemma_guarded_concat(windows_cmds(name, ws.drop_last(), env), a + b + c + d);
    }
}

/// Restoring never lets a pane command be read as a tmux flag: every
/// command that types into a pane passes its text after `--`.
pub proof fn lemma_restore_guards_commands(s: SessionSnapshot)
    requires
        s.windows@.len() > 0,
        s.windows@[0].panes@.len() > 0,
    ensures
        all_guarded(restore_cmds(s)),
{
    lemma_other_words();
    let w0 = s.windows@[0];
    let head = seq![new_session_cmd(s.name@, w0.panes@[0].cwd@, w0.name@)];
    let tail = seq![select_window_cmd(s.name@, w0.index)];
    assert(all_guarded(head));
    assert(all_guarded(tail));
    lemma_windows_guarded(s.name@, s.windows@, s.env@);
    lemma_guarded_concat(head, windows_cmds(s.name@, s.windows@, s.env@));
    lemma_guarded_concat(head + windows_cmds(s.name@, s.windows@, s.env@), tail);
}

/// The command that creates window `w` of session `name` at its saved
/// index, in the working directory of its pane at position 0 (or `~` when
/// it has no panes).
pub open spec fn creates_window_in_first_pane_dir(name: Seq<char>, w: WindowSnapshot) -> Seq<
    Seq<char>,
> {
    seq![
        "new-window"@,
        "-t"@,
        name + seq![':'] + decimal(w.index as nat),
        "-n"@,
        w.name@,
        "-c"@,
        if w.panes@.len() > 0 {
            w.panes@[0].cwd@
        } else {
            "~"@
        },
    ]
}

proof fn lemma_windows_create_later_windows(
    name: Seq<char>,
    ws: Seq<WindowSnapshot>,
    env: Seq<(String, String)>,
    k: int,
)
    requires
        1 <= k < ws.len(),
    ensures
        windows_cmds(name, ws, env).contains(creates_window_in_first_pane_dir(name, ws[k])),
    decreases ws.len(),
{
    let dl = ws.drop_last();
    let before = windows_cmds(name, dl, env);
    let own = window_cmds(name, ws.last(), ws.len() == 1, env);
    assert(windows_cmds(name, ws, env) == before + own);
    if k == ws.len() - 1 {
        assert(own[0] == creates_window_in_first_pane_dir(name, ws[k]));
        assert((before + own)[before.len() as int] == own[0]);
    } else {
        lemma_windows_create_later_windows(name, dl, env, k);
        assert(dl[k] == ws[k]);
        let j = choose|j: int| 0 <= j < before.len() && before[j] == creates_window_in_first_pane_dir(name, ws[k]);
        assert((before + own)[j] == before[j]);
    }
}

/// Every window after the first is created at its saved index, under its
/// name, in the working directory of its pane at position 0 (or `~` when it
/// has no panes): the restore plan holds that command for each of them.
pub proof fn lemma_later_windows_start_in_their_first_pane_dir(s: SessionSnapshot, k: int)
    requires
        s.windows@.len() > 0,
        s.windows@[0].panes@.len() > 0,
        1 <= k < s.windows@.len(),
    ensures
        restore_cmds(s).contains(creates_window_in_first_pane_dir(s.name@, s.windows@[k])),
{
    let head = seq![new_session_cmd(s.name@, s.windows@[0].panes@[0].cwd@, s.windows@[0].name@)];
    let mid = windows_cmds(s.name@, s.windows@, s.env@);
    let tail = seq![select_window_cmd(s.name@, s.windows@[0].index)];
    lemma_windows_create_later_windows(s.name@, s.windows@, s.env@, k);
    let j = choose|j: int| 0 <= j < mid.len() && mid[j] == creates_window_in_first_pane_dir(s.name@, s.windows@[k]);
    assert(restore_cmds(s) == head + mid + tail);
    assert((head + mid + tail)[1 + j] == mid[j]);
}

} // verus!
