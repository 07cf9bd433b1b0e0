//! The interactive picker's decisions: what each key does in each mode,
//! how the selection moves, and what the terminal front end is asked to do.
//! The front end draws, reads keys, performs the returned actions and hands
//! the refreshed sessions back.
use vstd::prelude::*;
use crate::state::{SessionState, StateKind};
use crate::storage::{human_size, human_size_spec};
use crate::text::{
    decimal, owned, pad_left_spec, pad_right_spec, push_char, push_chars, push_decimal,
    push_padded_left, push_padded_right, push_str, string_of, trim, trimmed,
};

verus! {

/// How the picker was left.
#[derive(Debug, PartialEq, Eq)]
pub enum PickerResult {
    /// Open (attach to or restore) the named session.
    Open(String),
    Quit,
}

/// Which edit a name prompt is for.
#[derive(Clone, Copy, Debug, PartialEq, Eq, Structural)]
pub enum PromptKind {
    Rename,
    Duplicate,
}

/// What the picker is doing beyond plain navigation.
#[derive(Debug)]
pub enum Mode {
    Normal,
    /// Typing a new name for `target`.
    Prompt { kind: PromptKind, target: String, buffer: Vec<char> },
    /// A stale session was chosen: open anyway, delete, or cancel.
    Confirm { target: String, message: String },
    /// A message shown until the next key.
    Message { text: String },
}

/// A key press, as far as the picker tells keys apart.
#[derive(Clone, Copy, Debug, PartialEq, Eq)]
pub enum Key {
    Char(char),
    Enter,
    Esc,
    Up,
    Down,
    Backspace,
    Other,
}

/// What the front end is to do after a key.
#[derive(Debug, PartialEq, Eq)]
pub enum Action {
    /// Nothing beyond drawing again.
    Stay,
    /// Leave the picker with this result.
    Finish(PickerResult),
    /// Delete the saved snapshot of the named session, report with
    /// `delete_status`, then refresh.
    Delete(String),
    /// Rename a saved session, report with `edit_status`, then refresh.
    Rename { from: String, to: String },
    /// Copy a saved session under a new name, report with `edit_status`, then refresh.
    Duplicate { from: String, to: String },
    /// Save the session sess runs inside, report with `save_status`, then refresh.
    SaveCurrent,
    /// Refresh the sessions (the status is already set).
    Refresh,
}

/// The picker: the sessions shown, which one is selected, the mode and the
/// status line.
#[derive(Debug)]
pub struct Picker {
    pub sessions: Vec<SessionState>,
    pub selected: Option<usize>,
    pub mode: Mode,
    pub status: Option<String>,
}

/// `a` modulo `m`, in `0..m` (`i32::rem_euclid` for a positive `m`).
pub open spec fn wrap(a: int, m: int) -> int {
    a % m
}

impl Picker {
    /// A selection exists exactly when there are sessions, and it is one of them.
    pub open spec fn wf(&self) -> bool {
        &&& self.sessions@.len() <= i32::MAX
        &&& match self.selected {
            Some(i) => i < self.sessions@.len(),
            None => self.sessions@.len() == 0,
        }
    }

    /// A picker over `sessions`, in normal mode, the first one selected.
    pub fn new(sessions: Vec<SessionState>) -> (p: Picker)
        requires
            sessions@.len() <= i32::MAX,
        ensures
            p.wf(),
            p.sessions@ == sessions@,
            p.selected == if sessions@.len() > 0 { Some(0usize) } else { None },
            p.mode is Normal,
            p.status is None,
    {
        let selected = if sessions.len() > 0 { Some(0) } else { None };
        Picker { sessions, selected, mode: Mode::Normal, status: None }
    }

    /// The selected session, if any.
    pub fn selected_session(&self) -> (r: Option<&SessionState>)
        requires
            self.wf(),
        ensures
            match self.selected {
                Some(i) => r == Some(&self.sessions@[i as int]),
                None => r is None,
            },
    {
        match self.selected {
            Some(i) => Some(&self.sessions[i]),
            None => None,
        }
    }

    /// Moves the selection by `delta` rows, wrapping around at both ends
    /// (the new row is the old one plus `delta`, Euclidean modulo the
    /// number of rows).
    pub fn move_selection(&mut self, delta: i32)
        requires
            old(self).wf(),
        ensures
            final(self).wf(),
            final(self).sessions@ == old(self).sessions@,
            final(self).mode == old(self).mode,
            final(self).status == old(self).status,
            old(self).sessions@.len() == 0 ==> final(self).selected is None,
            old(self).sessions@.len() > 0 ==> final(self).selected == Some(
                wrap(
                    (match old(self).selected {
                        Some(i) => i as int,
                        None => 0,
                    }) + delta,
                    old(self).sessions@.len() as int,
                ) as usize,
            ),
    {
        let len = self.sessions.len();
        if len == 0 {
            return;
        }
        let current: i64 = match self.selected {
            Some(i) => i as i64,
            None => 0,
        };
        let n: i64 = len as i64;
        let sum: i64 = current + delta as i64;
        let next: i64 = if sum >= 0 {
            ((sum as u64) % (n as u64)) as i64
        } else {
            let m: i64 = (((-sum) as u64) % (n as u64)) as i64;
            if m == 0 {
                0
            } else {
                n - m
            }
        };
        proof {
            if sum >= 0 {
                assert(next as int == wrap(sum as int, n as int));
            } else {
                let m = (-sum) % (n as int);
                let q = (-sum) / (n as int);
                assert(-sum == q * n + m && 0 <= m < n) by (nonlinear_arith)
                    requires
                        n > 0,
                        -sum > 0,
                        m == (-sum) % (n as int),
                        q == (-sum) / (n as int),
                ;
                if m == 0 {
                    assert(sum == (-q) * n) by (nonlinear_arith)
                        requires
                            -sum == q * n + m,
                            m == 0,
                    ;
                    assert(wrap(sum as int, n as int) == 0) by (nonlinear_arith)
                        requires
                            sum == (-q) * n,
                            n > 0,
                    ;
                } else {
                    assert(sum == (-q - 1) * n + (n - m)) by (nonlinear_arith)
                        requires
                            -sum == q * n + m,
                    ;
                    assert(wrap(sum as int, n as int) == n - m) by (nonlinear_arith)
                        requires
                            sum == (-q - 1) * n + (n - m),
                            0 < n - m < n,
                    ;
                }
            }
            assert(0 <= next < n);
        }
        self.selected = Some(next as usize);
    }

    /// Replaces the sessions after an action, keeping the selection on the
    /// same row where it still exists, on the last row otherwise.
    pub fn refresh(&mut self, sessions: Vec<SessionState>)
        requires
            sessions@.len() <= i32::MAX,
        ensures
            final(self).wf(),
            final(self).sessions@ == sessions@,
            final(self).mode == old(self).mode,
            final(self).status == old(self).status,
            sessions@.len() == 0 ==> final(self).selected is None,
            sessions@.len() > 0 ==> final(self).selected == Some(
                {
                    let cur = match old(self).selected {
                        Some(i) => i as int,
                        None => 0,
                    };
                    if cur < sessions@.len() {
                        cur
                    } else {
                        sessions@.len() - 1
                    }
                } as usize,
            ),
    {
        let len = sessions.len();
        self.sessions = sessions;
        if len == 0 {
            self.selected = None;
        } else {
            let current = match self.selected {
                Some(i) => i,
                None => 0,
            };
            self.selected = Some(if current < len - 1 { current } else { len - 1 });
        }
    }

    /// What a key does. Navigation and mode changes happen here; what needs
    /// the outside world is returned as an action.
    pub fn step(&mut self, key: Key) -> (a: Action)
        requires
            old(self).wf(),
        ensures
            final(self).wf(),
            final(self).sessions@ == old(self).sessions@,
            step_spec(*old(self), key, *final(self), a),
    {
        let mut mode = Mode::Normal;
        std::mem::swap(&mut mode, &mut self.mode);
        match mode {
            Mode::Normal => self.step_normal(key),
            Mode::Prompt { kind, target, buffer } => self.step_prompt(kind, target, buffer, key),
            Mode::Confirm { target, message } => match key {
                Key::Char('o') => Action::Finish(PickerResult::Open(target)),
                Key::Char('d') => Action::Delete(target),
                Key::Char('c') | Key::Esc => Action::Stay,
                _ => {
                    self.mode = Mode::Confirm { target, message };
                    Action::Stay
                },
            },
            Mode::Message { text } => Action::Stay,
        }
    }

    fn step_normal(&mut self, key: Key) -> (a: Action)
        requires
            old(self).wf(),
            old(self).mode is Normal,
        ensures
            final(self).wf(),
            final(self).sessions@ == old(self).sessions@,
            normal_step(*old(self), key, *final(self), a),
    {
        match key {
            Key::Char('q') | Key::Esc => Action::Finish(PickerResult::Quit),
            Key::Down | Key::Char('j') => {
                self.move_selection(1);
                self.status = None;
                Action::Stay
            },
            Key::Up | Key::Char('k') => {
                self.move_selection(-1);
                self.status = None;
                Action::Stay
            },
            Key::Enter => {
                match self.selected {
                    None => Action::Stay,
                    Some(i) => {
                        let session = &self.sessions[i];
                        match session.kind {
                            StateKind::Running | StateKind::Saved => Action::Finish(
                                PickerResult::Open(session.name.clone()),
                            ),
                            StateKind::Stale => {
                                let message = match &session.detail {
                                    Some(d) => d.clone(),
                                    None => owned("this session looks stale."),
                                };
                                self.mode = Mode::Confirm { target: session.name.clone(), message };
                                Action::Stay
                            },
                            StateKind::Broken => {
                                let text = match &session.detail {
                                    Some(d) => d.clone(),
                                    None => owned("this saved session is broken."),
                                };
                                self.mode = Mode::Message { text };
                                Action::Stay
                            },
                        }
                    },
                }
            },
            Key::Char('d') => match self.selected {
                None => Action::Stay,
                Some(i) => Action::Delete(self.sessions[i].name.clone()),
            },
            Key::Char('r') => match self.selected {
                None => Action::Stay,
                Some(i) => {
                    self.mode = Mode::Prompt {
                        kind: PromptKind::Rename,
                        target: self.sessions[i].name.clone(),
                        buffer: Vec::new(),
                    };
                    Action::Stay
                },
            },
            Key::Char('c') => match self.selected {
                None => Action::Stay,
                Some(i) => {
                    self.mode = Mode::Prompt {
                        kind: PromptKind::Duplicate,
                        target: self.sessions[i].name.clone(),
                        buffer: Vec::new(),
                    };
                    Action::Stay
                },
            },
            Key::Char('s') => Action::SaveCurrent,
            _ => Action::Stay,
        }
    }

    fn step_prompt(&mut self, kind: PromptKind, target: String, buffer: Vec<char>, key: Key) -> (a:
        Action)
        requires
            old(self).wf(),
            old(self).mode is Normal,
        ensures
            final(self).wf(),
            final(self).sessions@ == old(self).sessions@,
            final(self).selected == old(self).selected,
            prompt_step(kind, target@, buffer@, old(self).status, key, *final(self), a),
    {
        match key {
            Key::Esc => Action::Stay,
            Key::Enter => {
                let typed = string_of(buffer.as_slice());
                let new_name = trim(typed.as_str());
                if new_name.as_str().is_empty() {
                    self.status = Some(owned("could not complete: name can't be empty"));
                    Action::Refresh
                } else {
                    match kind {
                        PromptKind::Rename => Action::Rename { from: target, to: new_name },
                        PromptKind::Duplicate => Action::Duplicate { from: target, to: new_name },
                    }
                }
            },
            Key::Backspace => {
                let mut buffer = buffer;
                buffer.pop();
                self.mode = Mode::Prompt { kind, target, buffer };
                Action::Stay
            },
            Key::Char(c) => {
                let mut buffer = buffer;
                buffer.push(c);
                self.mode = Mode::Prompt { kind, target, buffer };
                Action::Stay
            },
            _ => {
                self.mode = Mode::Prompt { kind, target, buffer };
                Action::Stay
            },
        }
    }
}

/// The selection after moving by `delta` over `len` rows.
pub open spec fn moved(selected: Option<usize>, len: nat, delta: int) -> Option<usize> {
    if len == 0 {
        None
    } else {
        Some(
            wrap(
                (match selected {
                    Some(i) => i as int,
                    None => 0,
                }) + delta,
                len as int,
            ) as usize,
        )
    }
}

/// What a key does in normal mode: `q`/Esc quit; Up/`k` and Down/`j` move
/// the selection, wrapping, and clear the status; on a selected session,
/// Enter opens a running or saved one, asks about a stale one and shows why
/// a broken one is broken; `d` deletes it; `r` and `c` prompt for the name
/// to rename or copy it to; `s` saves the current session.
pub open spec fn normal_step(pre: Picker, key: Key, post: Picker, a: Action) -> bool {
    let sel = pre.selected;
    let same = post.selected == pre.selected && post.status == pre.status;
    match key {
        Key::Char('q') | Key::Esc => a == Action::Finish(PickerResult::Quit) && same
            && post.mode is Normal,
        Key::Down | Key::Char('j') => a == Action::Stay && post.selected == moved(
            sel,
            pre.sessions@.len(),
            1,
        ) && post.status is None && post.mode is Normal,
        Key::Up | Key::Char('k') => a == Action::Stay && post.selected == moved(
            sel,
            pre.sessions@.len(),
            -1,
        ) && post.status is None && post.mode is Normal,
        Key::Enter => same && match sel {
            None => a == Action::Stay && post.mode is Normal,
            Some(i) => {
                let s = pre.sessions@[i as int];
                match s.kind {
                    StateKind::Running | StateKind::Saved => a == Action::Finish(
                        PickerResult::Open(s.name),
                    ) && post.mode is Normal,
                    StateKind::Stale => a == Action::Stay && post.mode == Mode::Confirm {
                        target: s.name,
                        message: match s.detail {
                            Some(d) => d,
                            None => post.mode->message,
                        },
                    } && (s.detail is None ==> post.mode->message@
                        == "this session looks stale."@),
                    StateKind::Broken => a == Action::Stay && post.mode == Mode::Message {
                        text: match s.detail {
                            Some(d) => d,
                            None => post.mode->text,
                        },
                    } && (s.detail is None ==> post.mode->text@
                        == "this saved session is broken."@),
                }
            },
        },
        Key::Char('d') => same && post.mode is Normal && match sel {
            None => a == Action::Stay,
            Some(i) => a == Action::Delete(pre.sessions@[i as int].name),
        },
        Key::Char('r') | Key::Char('c') => same && a == Action::Stay && match sel {
            None => post.mode is Normal,
            Some(i) => post.mode matches Mode::Prompt { kind, target, buffer } && kind == (if key
                == Key::Char('r') {
                PromptKind::Rename
            } else {
                PromptKind::Duplicate
            }) && target == pre.sessions@[i as int].name && buffer@.len() == 0,
        },
        Key::Char('s') => same && a == Action::SaveCurrent && post.mode is Normal,
        _ => same && a == Action::Stay && post.mode is Normal,
    }
}

/// What a key does while typing a name: Esc cancels; Enter asks for the
/// rename or copy to the typed name, trimmed (an empty one is refused with a
/// status); Backspace deletes the last character; a character is typed.
pub open spec fn prompt_step(
    kind: PromptKind,
    target: Seq<char>,
    buffer: Seq<char>,
    status: Option<String>,
    key: Key,
    post: Picker,
    a: Action,
) -> bool {
    match key {
        Key::Esc => a == Action::Stay && post.mode is Normal && post.status == status,
        Key::Enter => post.mode is Normal && if trimmed(buffer).len() == 0 {
            &&& a == Action::Refresh
            &&& post.status matches Some(s) && s@ == "could not complete: name can't be empty"@
        } else {
            post.status == status && match a {
                Action::Rename { from, to } => kind == PromptKind::Rename && from@ == target
                    && to@ == trimmed(buffer),
                Action::Duplicate { from, to } => kind == PromptKind::Duplicate && from@ == target
                    && to@ == trimmed(buffer),
                _ => false,
            }
        },
        Key::Backspace => {
            &&& a == Action::Stay
            &&& post.status == status
            &&& post.mode matches Mode::Prompt { kind: k, target: t, buffer: b } && k == kind
                && t@ == target && b@ == (if buffer.len() > 0 {
                buffer.drop_last()
            } else {
                buffer
            })
        },
        Key::Char(c) => {
            &&& a == Action::Stay
            &&& post.status == status
            &&& post.mode matches Mode::Prompt { kind: k, target: t, buffer: b } && k == kind
                && t@ == target && b@ == buffer.push(c)
        },
        _ => {
            &&& a == Action::Stay
            &&& post.status == status
            &&& post.mode matches Mode::Prompt { kind: k, target: t, buffer: b } && k == kind
                && t@ == target && b@ == buffer
        },
    }
}

/// What a key does, in whatever mode the picker is.
pub open spec fn step_spec(pre: Picker, key: Key, post: Picker, a: Action) -> bool {
    match pre.mode {
        Mode::Normal => normal_step(pre, key, post, a),
        Mode::Prompt { kind, target, buffer } => post.selected == pre.selected && prompt_step(
            kind,
            target@,
            buffer@,
            pre.status,
            key,
            post,
            a,
        ),
        Mode::Confirm { target, message } => post.selected == pre.selected && post.status
            == pre.status && match key {
            Key::Char('o') => a == Action::Finish(PickerResult::Open(target)) && post.mode is Normal,
            Key::Char('d') => a == Action::Delete(target) && post.mode is Normal,
            Key::Char('c') | Key::Esc => a == Action::Stay && post.mode is Normal,
            _ => a == Action::Stay && post.mode == pre.mode,
        },
        Mode::Message { .. } => post.selected == pre.selected && post.status == pre.status && a
            == Action::Stay && post.mode is Normal,
    }
}

/// The status after a delete.
pub fn delete_status(name: &str, outcome: &Result<(), String>) -> (out: String)
    ensures
        out@ == match outcome {
            Ok(()) => "deleted '"@ + name@ + "'."@,
            Err(e) => "could not delete '"@ + name@ + "': "@ + e@,
        },
{
    match outcome {
        Ok(()) => {
            let mut out = owned("deleted '");
            push_str(&mut out, name);
            push_str(&mut out, "'.");
            out
        },
        Err(e) => {
            let mut out = owned("could not delete '");
            push_str(&mut out, name);
            push_str(&mut out, "': ");
            push_str(&mut out, e.as_str());
            out
        },
    }
}

/// The status after a rename or copy.
pub fn edit_status(target: &str, new_name: &str, outcome: &Result<(), String>) -> (out: String)
    ensures
        out@ == match outcome {
            Ok(()) => "'"@ + target@ + "' -> '"@ + new_name@ + "'."@,
            Err(e) => "could not complete: "@ + e@,
        },
{
    match outcome {
        Ok(()) => {
            let mut out = owned("'");
            push_str(&mut out, target);
            push_str(&mut out, "' -> '");
            push_str(&mut out, new_name);
            push_str(&mut out, "'.");
            out
        },
        Err(e) => {
            let mut out = owned("could not complete: ");
            push_str(&mut out, e.as_str());
            out
        },
    }
}

/// How saving the current session went.
#[derive(Debug)]
pub enum SaveOutcome {
    /// sess does not run inside tmux.
    NotInTmux,
    /// The session was saved.
    Saved { session: String },
    /// The session was captured but could not be written.
    SaveFailed { session: String, error: String },
    /// The session could not be captured.
    CaptureFailed { session: String, error: String },
}

/// The status after saving the current session.
pub fn save_status(o: &SaveOutcome) -> (out: String)
    ensures
        out@ == match o {
            SaveOutcome::NotInTmux => "can't save: not inside a tmux session."@,
            SaveOutcome::Saved { session } => "saved '"@ + session@ + "'."@,
            SaveOutcome::SaveFailed { session, error } => "could not save '"@ + session@ + "': "@
                + error@,
            SaveOutcome::CaptureFailed { session, error } => "could not capture '"@ + session@
                + "': "@ + error@,
        },
{
    match o {
        SaveOutcome::NotInTmux => owned("can't save: not inside a tmux session."),
        SaveOutcome::Saved { session } => {
            let mut out = owned("saved '");
            push_str(&mut out, session.as_str());
            push_str(&mut out, "'.");
            out
        },
        SaveOutcome::SaveFailed { session, error } => {
            let mut out = owned("could not save '");
            push_str(&mut out, session.as_str());
            push_str(&mut out, "': ");
            push_str(&mut out, error.as_str());
            out
        },
        SaveOutcome::CaptureFailed { session, error } => {
            let mut out = owned("could not capture '");
            push_str(&mut out, session.as_str());
            push_str(&mut out, "': ");
            push_str(&mut out, error.as_str());
            out
        },
    }
}

/// The sizes of the states that have one, added up.
pub open spec fn size_sum(states: Seq<SessionState>) -> nat
    decreases states.len(),
{
    if states.len() == 0 {
        0
    } else {
        size_sum(states.drop_last()) + match states.last().size_bytes {
            Some(b) => b as nat,
            None => 0nat,
        }
    }
}

/// The total size of the sessions, unless it does not fit in a `u64`.
pub fn total_size(states: &Vec<SessionState>) -> (r: Option<u64>)
    ensures
        r == if size_sum(states@) <= u64::MAX { Some(size_sum(states@) as u64) } else { None },
{
    let mut total: u64 = 0;
    let mut i: usize = 0;
    while i < states.len()
        invariant
            i <= states@.len(),
            total == size_sum(states@.take(i as int)),
        decreases states@.len() - i,
    {
        proof {
            assert(states@.take(i + 1).drop_last() =~= states@.take(i as int));
            lemma_size_sum_prefix(states@, i + 1);
        }
        match states[i].size_bytes {
            Some(b) => {
                if total > u64::MAX - b {
                    return None;
                }
                total = total + b;
            },
            None => {},
        }
        i = i + 1;
    }
    assert(states@.take(states@.len() as int) =~= states@);
    Some(total)
}

/// The sizes of a prefix add up to no more than those of the whole.
pub proof fn lemma_size_sum_prefix(states: Seq<SessionState>, i: int)
    requires
        0 <= i <= states.len(),
    ensures
        size_sum(states.take(i)) <= size_sum(states),
    decreases states.len() - i,
{
    if i < states.len() {
        lemma_size_sum_prefix(states, i + 1);
        assert(states.take(i + 1).drop_last() =~= states.take(i));
    } else {
        assert(states.take(i) =~= states);
    }
}

/// The largest size among the sessions, or 1; never below 1.
pub open spec fn largest_size(states: Seq<SessionState>) -> u64
    decreases states.len(),
{
    if states.len() == 0 {
        1
    } else {
        let before = largest_size(states.drop_last());
        match states.last().size_bytes {
            Some(b) => if b > before { b } else { before },
            None => before,
        }
    }
}

/// The size that the size bars are relative to: the largest size, at least 1.
pub fn max_size(states: &Vec<SessionState>) -> (m: u64)
    ensures
        m == largest_size(states@),
        m >= 1,
{
    let mut m: u64 = 1;
    let mut i: usize = 0;
    while i < states.len()
        invariant
            i <= states@.len(),
            m == largest_size(states@.take(i as int)),
            m >= 1,
        decreases states@.len() - i,
    {
        proof {
            assert(states@.take(i + 1).drop_last() =~= states@.take(i as int));
        }
        match states[i].size_bytes {
            Some(b) => {
                if b > m {
                    m = b;
                }
            },
            None => {},
        }
        i = i + 1;
    }
    assert(states@.take(states@.len() as int) =~= states@);
    m
}

/// How a piece of text is shown.
#[derive(Clone, Copy, Debug, PartialEq, Eq)]
pub enum Look {
    Plain,
    Bold,
    Cyan,
    Yellow,
    Red,
    Gray,
    DarkGray,
    /// The color of a state (running green, saved gray, stale yellow,
    /// broken red), in bold.
    State(StateKind),
}

/// Pieces of a line, each with its look.
pub open spec fn spans_view(spans: Seq<(String, Look)>) -> Seq<(Seq<char>, Look)> {
    spans.map_values(|p: (String, Look)| (p.0@, p.1))
}

/// The line above the list: how many sessions, how many running, their total size.
pub open spec fn summary_spec(states: Seq<SessionState>, total_bytes: u64) -> Seq<char> {
    " sessions: "@ + decimal(states.len()) + "   running: "@ + decimal(
        crate::doctor::count_kind(states, StateKind::Running),
    ) + "   total space: "@ + human_size_spec(total_bytes as nat) + " "@
}

/// The line above the list.
pub fn summary_text(states: &Vec<SessionState>, total_bytes: u64) -> (out: String)
    ensures
        out@ == summary_spec(states@, total_bytes),
{
    let running = crate::doctor::count_of_kind(states, StateKind::Running);
    let mut out = owned(" sessions: ");
    push_decimal(&mut out, states.len() as u64);
    push_str(&mut out, "   running: ");
    push_decimal(&mut out, running as u64);
    push_str(&mut out, "   total space: ");
    let size = human_size(total_bytes);
    push_str(&mut out, size.as_str());
    push_str(&mut out, " ");
    out
}

/// The pane count column of a row: `{n:>2}p`, or `  -`.
pub open spec fn panes_column(n: Option<usize>) -> Seq<char> {
    match n {
        Some(v) => pad_left_spec(decimal(v as nat), 2) + "p"@,
        None => "  -"@,
    }
}

/// One row of the list: state, name, pane count, size bar, size. `bar` is the
/// size bar drawn for a session with a size.
pub open spec fn row_spec(s: SessionState, bar: Seq<char>) -> Seq<(Seq<char>, Look)> {
    seq![
        (pad_right_spec(s.kind.label_spec(), 8), Look::State(s.kind)),
        (pad_right_spec(s.name@, 20), Look::Bold),
        (panes_column(s.pane_count) + "  "@, Look::Gray),
        (if s.size_bytes is Some { bar } else { "------------"@ }, Look::DarkGray),
        ("  "@ + pad_left_spec(match s.size_bytes {
            Some(b) => human_size_spec(b as nat),
            None => "-"@,
        }, 8), Look::Plain),
    ]
}

/// One row of the list.
pub fn row(s: &SessionState, bar: &str) -> (out: Vec<(String, Look)>)
    ensures
        spans_view(out@) == row_spec(*s, bar@),
{
    let mut kind = String::new();
    let label = s.kind.label();
    push_padded_right(&mut kind, label.as_str(), 8);
    let mut name = String::new();
    push_padded_right(&mut name, s.name.as_str(), 20);
    let mut panes = String::new();
    match s.pane_count {
        Some(n) => {
            let d = crate::text::decimal_string(n as u64);
            push_padded_left(&mut panes, d.as_str(), 2);
            push_str(&mut panes, "p");
        },
        None => push_str(&mut panes, "  -"),
    }
    push_str(&mut panes, "  ");
    proof {
        assert(panes@ =~= panes_column(s.pane_count) + "  "@);
    }
    let bar_text = if s.size_bytes.is_some() { owned(bar) } else { owned("------------") };
    let mut size = owned("  ");
    let size_text = match s.size_bytes {
        Some(b) => human_size(b),
        None => owned("-"),
    };
    push_padded_left(&mut size, size_text.as_str(), 8);
    let mut out: Vec<(String, Look)> = Vec::new();
    out.push((kind, Look::State(s.kind)));
    out.push((name, Look::Bold));
    out.push((panes, Look::Gray));
    out.push((bar_text, Look::DarkGray));
    out.push((size, Look::Plain));
    assert(spans_view(out@) =~= row_spec(*s, bar@));
    out
}

/// The key help shown in normal mode without a status.
pub open spec fn help_spans() -> Seq<(Seq<char>, Look)> {
    seq![
        ("enter"@, Look::Bold), (" open   "@, Look::Plain),
        ("d"@, Look::Bold), (" delete   "@, Look::Plain),
        ("r"@, Look::Bold), (" rename   "@, Look::Plain),
        ("c"@, Look::Bold), (" clone   "@, Look::Plain),
        ("s"@, Look::Bold), (" save current   "@, Look::Plain),
        ("q"@, Look::Bold), (" quit"@, Look::Plain),
    ]
}

/// The line below the list, by mode: the status or the key help; the name
/// being typed; the question about a stale session; a message to dismiss.
pub open spec fn footer_spec(mode: Mode, status: Option<String>) -> Seq<(Seq<char>, Look)> {
    match mode {
        Mode::Normal => match status {
            Some(msg) => seq![(msg@, Look::Cyan)],
            None => help_spans(),
        },
        Mode::Prompt { kind, target, buffer } => seq![
            ((if kind == PromptKind::Rename { "rename"@ } else { "clone"@ }) + " '"@ + target@
                + "' to: "@, Look::Cyan),
            (buffer@ + "_"@, Look::Bold),
        ],
        Mode::Confirm { target, message } => seq![
            ("'"@ + target@ + "' is stale: "@ + message@
                + "  [o]pen anyway  [d]elete  [c]ancel"@, Look::Yellow),
        ],
        Mode::Message { text } => seq![(text@ + "  (press any key)"@, Look::Red)],
    }
}

fn push_span(out: &mut Vec<(String, Look)>, text: &str, look: Look)
    ensures
        spans_view(final(out)@) == spans_view(old(out)@).push((text@, look)),
{
    out.push((owned(text), look));
    assert(spans_view(out@) =~= spans_view(old(out)@).push((text@, look)));
}

/// The line below the list.
pub fn footer(p: &Picker) -> (out: Vec<(String, Look)>)
    ensures
        spans_view(out@) == footer_spec(p.mode, p.status),
{
    let mut out: Vec<(String, Look)> = Vec::new();
    match &p.mode {
        Mode::Normal => match &p.status {
            Some(msg) => push_span(&mut out, msg.as_str(), Look::Cyan),
            None => {
                push_span(&mut out, "enter", Look::Bold);
                push_span(&mut out, " open   ", Look::Plain);
                push_span(&mut out, "d", Look::Bold);
                push_span(&mut out, " delete   ", Look::Plain);
                push_span(&mut out, "r", Look::Bold);
                push_span(&mut out, " rename   ", Look::Plain);
                push_span(&mut out, "c", Look::Bold);
                push_span(&mut out, " clone   ", Look::Plain);
                push_span(&mut out, "s", Look::Bold);
                push_span(&mut out, " save current   ", Look::Plain);
                push_span(&mut out, "q", Look::Bold);
                push_span(&mut out, " quit", Look::Plain);
            },
        },
        Mode::Prompt { kind, target, buffer } => {
            let mut label = match kind {
                PromptKind::Rename => owned("rename"),
                PromptKind::Duplicate => owned("clone"),
            };
            push_str(&mut label, " '");
            push_str(&mut label, target.as_str());
            push_str(&mut label, "' to: ");
            push_span(&mut out, label.as_str(), Look::Cyan);
            let mut typed = String::new();
            push_chars(&mut typed, buffer.as_slice());
            push_str(&mut typed, "_");
            assert(typed@ =~= buffer@ + "_"@);
            push_span(&mut out, typed.as_str(), Look::Bold);
        },
        Mode::Confirm { target, message } => {
            let mut text = owned("'");
            push_str(&mut text, target.as_str());
            push_str(&mut text, "' is stale: ");
            push_str(&mut text, message.as_str());
            push_str(&mut text, "  [o]pen anyway  [d]elete  [c]ancel");
            push_span(&mut out, text.as_str(), Look::Yellow);
        },
        Mode::Message { text } => {
            let mut t = owned(text.as_str());
            push_str(&mut t, "  (press any key)");
            push_span(&mut out, t.as_str(), Look::Red);
        },
    }
    assert(spans_view(out@) =~= footer_spec(p.mode, p.status));
    out
}

/// Moving down then up (or up then down) comes back to the same row, and
/// moving always stays on a row.
pub proof fn lemma_move_round_trip(i: usize, len: nat, delta: int)
    requires
        i < len,
        len <= i32::MAX,
        delta == 1 || delta == -1,
    ensures
        moved(moved(Some(i), len, delta), len, -delta) == Some(i),
        moved(Some(i), len, delta) matches Some(j) && j < len,
{
    let j = wrap(i + delta, len as int);
    assert(0 <= j < len) by (nonlinear_arith)
        requires
            j == wrap(i + delta, len as int),
            len > 0,
    ;
    assert(wrap(j + (-delta), len as int) == i) by (nonlinear_arith)
        requires
            j == (i + delta) % (len as int),
            0 <= i < len,
            delta == 1 || delta == -1,
            len > 0,
    ;
}

/// Whether a key opens the named session straight away: Enter in normal
/// mode on a selected running or saved session of that name.
pub open spec fn opens_directly(p: Picker, key: Key, n: String) -> bool {
    &&& p.mode is Normal
    &&& key == Key::Enter
    &&& p.selected matches Some(i) && i < p.sessions@.len() && p.sessions@[i as int].name == n && (
    p.sessions@[i as int].kind == StateKind::Running || p.sessions@[i as int].kind
        == StateKind::Saved)
}

/// Whether, at key `j`, Enter was pressed in normal mode on a selected stale
/// session named `n`, and from then until picker `i` the picker has been
/// asking about `n` (open anyway, delete or cancel).
pub open spec fn asked_since(pickers: Seq<Picker>, keys: Seq<Key>, j: int, i: int, n: String) -> bool {
    &&& 0 <= j < i
    &&& pickers[j].mode is Normal
    &&& keys[j] == Key::Enter
    &&& pickers[j].selected matches Some(s) && s < pickers[j].sessions@.len()
        && pickers[j].sessions@[s as int].name == n && pickers[j].sessions@[s as int].kind
        == StateKind::Stale
    &&& forall|m: int| j < m <= i ==> (#[trigger] pickers[m]).mode is Confirm
        && pickers[m].mode->Confirm_target == n
}

/// A run of the picker: `pickers[k]` reads `keys[k]`, steps to `mids[k]`
/// with action `actions[k]`, and `pickers[k + 1]` is `mids[k]`, possibly
/// with its sessions refreshed, in the same mode. It starts in normal mode.
pub open spec fn picker_run(
    pickers: Seq<Picker>,
    mids: Seq<Picker>,
    keys: Seq<Key>,
    actions: Seq<Action>,
) -> bool {
    &&& pickers.len() == keys.len() + 1
    &&& mids.len() == keys.len()
    &&& actions.len() == keys.len()
    &&& pickers[0].mode is Normal
    &&& forall|k: int|
        0 <= k < keys.len() ==> (#[trigger] pickers[k]).wf() && step_spec(
            pickers[k],
            keys[k],
            mids[k],
            actions[k],
        ) && pickers[k + 1].mode == mids[k].mode
}

/// Where a question about a stale session comes from: the picker keeps
/// asking about the same session, or Enter was just pressed on it.
proof fn lemma_confirm_origin(pre: Picker, key: Key, post: Picker, a: Action)
    requires
        pre.wf(),
        step_spec(pre, key, post, a),
        post.mode is Confirm,
    ensures
        (pre.mode is Confirm && pre.mode->Confirm_target == post.mode->Confirm_target) || (
        pre.mode is Normal && key == Key::Enter && pre.selected is Some
            && pre.selected->0 < pre.sessions@.len()
            && pre.sessions@[pre.selected->0 as int].name == post.mode->Confirm_target
            && pre.sessions@[pre.selected->0 as int].kind == StateKind::Stale),
{
}

/// Where an open comes from: Enter on a running or saved session, or `o`
/// while asking about a stale one.
proof fn lemma_open_origin(pre: Picker, key: Key, post: Picker, a: Action, n: String)
    requires
        pre.wf(),
        step_spec(pre, key, post, a),
        a == Action::Finish(PickerResult::Open(n)),
    ensures
        opens_directly(pre, key, n) || (key == Key::Char('o') && pre.mode is Confirm
            && pre.mode->Confirm_target == n),
{
}

#[verifier::spinoff_prover]
#[verifier::rlimit(40)]
proof fn lemma_asked_invariant(
    pickers: Seq<Picker>,
    mids: Seq<Picker>,
    keys: Seq<Key>,
    actions: Seq<Action>,
    i: int,
)
    requires
        picker_run(pickers, mids, keys, actions),
        0 <= i < pickers.len(),
        pickers[i].mode is Confirm,
    ensures
        exists|j: int| asked_since(pickers, keys, j, i, pickers[i].mode->Confirm_target),
    decreases i,
{
    if i == 0 {
    } else {
        let k = i - 1;
        assert(pickers[k].wf() && step_spec(pickers[k], keys[k], mids[k], actions[k])
            && pickers[k + 1].mode == mids[k].mode);
        let n = pickers[i].mode->Confirm_target;
        lemma_confirm_origin(pickers[k], keys[k], mids[k], actions[k]);
        if pickers[k].mode is Confirm {
            lemma_asked_invariant(pickers, mids, keys, actions, k);
            let j = choose|j: int| asked_since(pickers, keys, j, k, n);
            assert forall|m: int| j < m <= i implies (#[trigger] pickers[m]).mode is Confirm
                && pickers[m].mode->Confirm_target == n by {
                if m < i {
                    assert(asked_since(pickers, keys, j, k, n));
                }
            }
            assert(asked_since(pickers, keys, j, i, n));
        } else {
            assert(asked_since(pickers, keys, k, i, n));
        }
    }
}

/// A session is opened from the picker only by Enter on a running or saved
/// session, or by `o` while the picker asks about a stale session after
/// Enter was pressed on it (with nothing but that question in between); a
/// broken session is never opened, whatever the keys.
pub proof fn lemma_picker_opens_only_as_documented(
    pickers: Seq<Picker>,
    mids: Seq<Picker>,
    keys: Seq<Key>,
    actions: Seq<Action>,
    i: int,
    n: String,
)
    requires
        picker_run(pickers, mids, keys, actions),
        0 <= i < keys.len(),
        actions[i] == Action::Finish(PickerResult::Open(n)),
    ensures
        opens_directly(pickers[i], keys[i], n) || (keys[i] == Key::Char('o') && exists|j: int|
            asked_since(pickers, keys, j, i, n)),
        pickers[i].mode is Normal && keys[i] == Key::Enter ==> pickers[i].selected is Some
            && pickers[i].sessions@[pickers[i].selected->0 as int].kind != StateKind::Broken,
{
    assert(pickers[i].wf() && step_spec(pickers[i], keys[i], mids[i], actions[i]));
    lemma_open_origin(pickers[i], keys[i], mids[i], actions[i], n);
    if !opens_directly(pickers[i], keys[i], n) {
        lemma_asked_invariant(pickers, mids, keys, actions, i);
    }
}

/// Enter in normal mode on a selected session that is running or saved
/// opens that session and leaves the picker (whatever else is selected or
/// shown).
pub proof fn lemma_enter_opens_running_or_saved(pre: Picker, post: Picker, a: Action)
    requires
        pre.wf(),
        pre.mode is Normal,
        pre.selected is Some,
        pre.sessions@[pre.selected->0 as int].kind == StateKind::Running
            || pre.sessions@[pre.selected->0 as int].kind == StateKind::Saved,
        step_spec(pre, Key::Enter, post, a),
    ensures
        a == Action::Finish(PickerResult::Open(pre.sessions@[pre.selected->0 as int].name)),
{
}

} // verus!
