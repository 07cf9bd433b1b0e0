use sess::picker::{
    delete_status, edit_status, footer, max_size, row, save_status, summary_text, total_size,
    Action, Key, Look, Mode, Picker, PickerResult, PromptKind, SaveOutcome,
};
use sess::state::{SessionState, StateKind};

fn state(name: &str, kind: StateKind, detail: Option<&str>) -> SessionState {
    SessionState {
        name: name.into(),
        kind,
        window_count: Some(1),
        pane_count: Some(3),
        size_bytes: Some(2048),
        saved_at: None,
        detail: detail.map(|d| d.to_string()),
    }
}

fn picker() -> Picker {
    Picker::new(vec![
        state("a", StateKind::Running, None),
        state("b", StateKind::Stale, Some("a saved directory no longer exists: /x")),
        state("c", StateKind::Broken, None),
    ])
}

#[test]
fn selection_wraps_around_both_ends() {
    let mut p = picker();
    assert_eq!(p.selected, Some(0));
    assert_eq!(p.step(Key::Up), Action::Stay);
    assert_eq!(p.selected, Some(2));
    p.step(Key::Char('j'));
    assert_eq!(p.selected, Some(0));
    p.step(Key::Down);
    p.step(Key::Char('k'));
    assert_eq!(p.selected, Some(0));
}

#[test]
fn empty_picker_has_no_selection() {
    let mut p = Picker::new(vec![]);
    assert_eq!(p.selected, None);
    assert_eq!(p.step(Key::Down), Action::Stay);
    assert_eq!(p.selected, None);
    assert_eq!(p.step(Key::Enter), Action::Stay);
    assert_eq!(p.step(Key::Char('d')), Action::Stay);
}

#[test]
fn enter_depends_on_the_state() {
    let mut p = picker();
    assert_eq!(p.step(Key::Enter), Action::Finish(PickerResult::Open("a".into())));

    p.step(Key::Down);
    assert_eq!(p.step(Key::Enter), Action::Stay);
    match &p.mode {
        Mode::Confirm { target, message } => {
            assert_eq!(target, "b");
            assert_eq!(message, "a saved directory no longer exists: /x");
        }
        _ => panic!("expected the stale question"),
    }
    assert_eq!(p.step(Key::Char('d')), Action::Delete("b".into()));
    assert!(matches!(p.mode, Mode::Normal));

    p.step(Key::Down);
    p.step(Key::Enter);
    match &p.mode {
        Mode::Message { text } => assert_eq!(text, "this saved session is broken."),
        _ => panic!("expected the broken message"),
    }
    assert_eq!(p.step(Key::Char('x')), Action::Stay);
    assert!(matches!(p.mode, Mode::Normal));
}

#[test]
fn confirm_open_anyway_and_cancel() {
    let mut p = picker();
    p.step(Key::Down);
    p.step(Key::Enter);
    assert_eq!(p.step(Key::Char('z')), Action::Stay);
    assert!(matches!(p.mode, Mode::Confirm { .. }));
    assert_eq!(p.step(Key::Char('o')), Action::Finish(PickerResult::Open("b".into())));
    p.step(Key::Enter);
    assert_eq!(p.step(Key::Esc), Action::Stay);
    assert!(matches!(p.mode, Mode::Normal));
}

#[test]
fn rename_prompt_collects_a_trimmed_name() {
    let mut p = picker();
    p.step(Key::Char('r'));
    for c in " new-nam".chars() {
        p.step(Key::Char(c));
    }
    p.step(Key::Char('x'));
    p.step(Key::Backspace);
    p.step(Key::Char('e'));
    p.step(Key::Char(' '));
    match &p.mode {
        Mode::Prompt { kind, target, buffer } => {
            assert_eq!(*kind, PromptKind::Rename);
            assert_eq!(target, "a");
            assert_eq!(buffer.iter().collect::<String>(), " new-name ");
        }
        _ => panic!("expected the prompt"),
    }
    assert_eq!(p.step(Key::Enter), Action::Rename { from: "a".into(), to: "new-name".into() });
    assert!(matches!(p.mode, Mode::Normal));
}

#[test]
fn empty_name_is_refused() {
    let mut p = picker();
    p.step(Key::Char('c'));
    p.step(Key::Char(' '));
    assert_eq!(p.step(Key::Enter), Action::Refresh);
    assert_eq!(p.status.as_deref(), Some("could not complete: name can't be empty"));
}

#[test]
fn duplicate_quit_and_save_keys() {
    let mut p = picker();
    p.step(Key::Char('c'));
    p.step(Key::Char('z'));
    assert_eq!(p.step(Key::Enter), Action::Duplicate { from: "a".into(), to: "z".into() });
    assert_eq!(p.step(Key::Char('s')), Action::SaveCurrent);
    assert_eq!(p.step(Key::Char('q')), Action::Finish(PickerResult::Quit));
    assert_eq!(p.step(Key::Esc), Action::Finish(PickerResult::Quit));
}

#[test]
fn refresh_clamps_the_selection() {
    let mut p = picker();
    p.step(Key::Up);
    assert_eq!(p.selected, Some(2));
    p.refresh(vec![state("a", StateKind::Saved, None)]);
    assert_eq!(p.selected, Some(0));
    p.refresh(vec![]);
    assert_eq!(p.selected, None);
    p.refresh(vec![state("a", StateKind::Saved, None), state("b", StateKind::Saved, None)]);
    assert_eq!(p.selected, Some(0));
}

#[test]
fn status_messages() {
    assert_eq!(delete_status("a", &Ok(())), "deleted 'a'.");
    assert_eq!(delete_status("a", &Err("gone".into())), "could not delete 'a': gone");
    assert_eq!(edit_status("a", "b", &Ok(())), "'a' -> 'b'.");
    assert_eq!(edit_status("a", "b", &Err("exists".into())), "could not complete: exists");
    assert_eq!(save_status(&SaveOutcome::NotInTmux), "can't save: not inside a tmux session.");
    assert_eq!(save_status(&SaveOutcome::Saved { session: "w".into() }), "saved 'w'.");
    assert_eq!(
        save_status(&SaveOutcome::SaveFailed { session: "w".into(), error: "e".into() }),
        "could not save 'w': e"
    );
    assert_eq!(
        save_status(&SaveOutcome::CaptureFailed { session: "w".into(), error: "e".into() }),
        "could not capture 'w': e"
    );
}

#[test]
fn summary_sizes_and_rows() {
    let states = vec![state("a", StateKind::Running, None), state("b", StateKind::Saved, None)];
    assert_eq!(total_size(&states), Some(4096));
    assert_eq!(max_size(&states), 2048);
    assert_eq!(max_size(&vec![]), 1);
    assert_eq!(summary_text(&states, 4096), " sessions: 2   running: 1   total space: 4.0 KB ");
    let spans = row(&states[0], "############");
    let texts: Vec<&str> = spans.iter().map(|(t, _)| t.as_str()).collect();
    assert_eq!(texts, vec!["RUNNING ", "a                   ", " 3p  ", "############", "    2.0 KB"]);
    assert_eq!(spans[0].1, Look::State(StateKind::Running));
}

#[test]
fn total_size_reports_overflow() {
    let mut big = state("a", StateKind::Saved, None);
    big.size_bytes = Some(u64::MAX);
    let states = vec![big, state("b", StateKind::Saved, None)];
    assert_eq!(total_size(&states), None);
}

#[test]
fn footer_by_mode() {
    let mut p = picker();
    let help: Vec<String> = footer(&p).into_iter().map(|(t, _)| t).collect();
    assert_eq!(help.concat(), "enter open   d delete   r rename   c clone   s save current   q quit");
    p.step(Key::Char('r'));
    p.step(Key::Char('n'));
    let prompt: Vec<String> = footer(&p).into_iter().map(|(t, _)| t).collect();
    assert_eq!(prompt, vec!["rename 'a' to: ".to_string(), "n_".to_string()]);
    p.step(Key::Esc);
    p.status = Some("done".into());
    let status = footer(&p);
    assert_eq!(status, vec![("done".to_string(), Look::Cyan)]);
}
