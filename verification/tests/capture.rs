use sess::capture::{
    capture_error_message, children_from_text, capture_session, capture_session_at, cmdline_from_raw, full_cmdline_of_foreground,
    is_bare_shell, is_sess_itself, panes_query, parse_live_sessions, parse_pane_line, parse_panes,
    parse_window_line, window_indices, windows_query, CaptureError, ProcInfo,
};

#[test]
fn is_bare_shell_matches_known_shells_only() {
    assert!(is_bare_shell("bash"));
    assert!(is_bare_shell("zsh"));
    assert!(is_bare_shell("fish"));
    assert!(!is_bare_shell("vim"));
    assert!(!is_bare_shell("sess"));
}

#[test]
fn is_sess_itself_matches_the_running_binarys_name() {
    assert!(!is_sess_itself("bash", &None));
    assert!(!is_sess_itself("vim", &None));
    assert!(is_sess_itself("sess", &None));
    assert!(is_sess_itself("sess-dev", &Some("sess-dev".to_string())));
    assert!(!is_sess_itself("sess", &Some("sess-dev".to_string())));
}

#[test]
fn window_lines_are_split_on_tabs() {
    let (index, name, layout) = parse_window_line("3\teditor\tb25f,80x24,0,0,2");
    assert_eq!((index, name.as_str(), layout.as_str()), (3, "editor", "b25f,80x24,0,0,2"));
    let (index, name, layout) = parse_window_line("x\tname with\ttab\tinside");
    assert_eq!((index, name.as_str(), layout.as_str()), (0, "name with", "tab\tinside"));
    let (index, name, layout) = parse_window_line("7");
    assert_eq!((index, name.as_str(), layout.as_str()), (7, "", ""));
}

#[test]
fn pane_lines_are_split_on_tabs() {
    let (index, cwd, cmd, pid) = parse_pane_line("1\t/home/u/project\tvim\t4242");
    assert_eq!((index, cwd.as_str(), cmd.as_str(), pid), (1, "/home/u/project", "vim", 4242));
    let (index, cwd, cmd, pid) = parse_pane_line("+2\t/tmp\tsleep\t99999999999");
    assert_eq!((index, cwd.as_str(), cmd.as_str(), pid), (2, "/tmp", "sleep", 0));
}

fn table() -> Vec<ProcInfo> {
    vec![
        ProcInfo { pid: 10, children: vec![11, 12], comm: Some("bash\n".into()), cmdline: Some(b"-bash\0".to_vec()) },
        ProcInfo { pid: 11, children: vec![], comm: Some("cat\n".into()), cmdline: Some(b"cat\0".to_vec()) },
        ProcInfo { pid: 12, children: vec![13], comm: Some("sh\n".into()), cmdline: Some(b"sh\0-c\0sleep 300\0".to_vec()) },
        ProcInfo { pid: 13, children: vec![], comm: Some("sleep\n".into()), cmdline: Some(b"sleep\0300\0".to_vec()) },
        ProcInfo { pid: 20, children: vec![21], comm: Some("zsh\n".into()), cmdline: None },
        ProcInfo { pid: 21, children: vec![], comm: Some("vim\n".into()), cmdline: Some(Vec::new()) },
    ]
}

#[test]
fn foreground_command_is_found_below_the_shell() {
    let t = table();
    assert_eq!(full_cmdline_of_foreground(&t, 10, "sleep"), Some("sleep 300".to_string()));
    assert_eq!(full_cmdline_of_foreground(&t, 10, "cat"), Some("cat".to_string()));
    assert_eq!(full_cmdline_of_foreground(&t, 10, "vim"), None);
    assert_eq!(full_cmdline_of_foreground(&t, 20, "vim"), None);
    assert_eq!(full_cmdline_of_foreground(&t, 99, "sleep"), None);
}

#[test]
fn command_lines_join_arguments_with_spaces() {
    assert_eq!(cmdline_from_raw(b"vim\0src/main.rs\0"), Some("vim src/main.rs".to_string()));
    assert_eq!(cmdline_from_raw(b"\0\0a\0\0b"), Some("a b".to_string()));
    assert_eq!(cmdline_from_raw(b"\xffx\0"), Some("\u{fffd}x".to_string()));
    assert_eq!(cmdline_from_raw(b""), None);
    assert_eq!(cmdline_from_raw(b"\0\0"), None);
}

#[test]
fn panes_record_full_commands_and_skip_idle_shells() {
    let t = table();
    let raw = "0\t/home\tbash\t10\n1\t/tmp\tsleep\t10\n2\t/srv\ttop\t77\n3\t/x\tsess\t10";
    let panes = parse_panes(raw, &t, &None);
    let got: Vec<(u32, &str, &str)> = panes.iter().map(|p| (p.index, p.cwd.as_str(), p.command.as_str())).collect();
    assert_eq!(
        got,
        vec![(0, "/home", ""), (1, "/tmp", "sleep 300"), (2, "/srv", "top"), (3, "/x", "")]
    );
}

#[test]
fn capture_builds_windows_in_order() {
    let t = table();
    let windows_raw = "0\tdev\tlayout-a\n1\tlogs\tlayout-b";
    assert_eq!(window_indices(windows_raw), vec![0, 1]);
    let panes = vec![
        parse_panes("0\t/a\tbash\t1", &t, &None),
        parse_panes("0\t/b\tbash\t1\n1\t/c\tbash\t1", &t, &None),
    ];
    let snap = capture_session("work", windows_raw, panes).unwrap();
    assert_eq!(snap.name, "work");
    assert_eq!(snap.version, 2);
    assert_eq!(snap.windows.len(), 2);
    assert_eq!(snap.windows[1].name, "logs");
    assert_eq!(snap.windows[1].layout, "layout-b");
    assert_eq!(snap.windows[1].panes.len(), 2);
    assert!(snap.env.is_empty());
    assert!(snap.created_at.unix_secs > 1_600_000_000);
}

#[test]
fn capture_without_windows_fails() {
    let err = capture_session("empty", "", vec![]).unwrap_err();
    assert_eq!(err, CaptureError::NoWindows);
    assert_eq!(
        capture_error_message(CaptureError::NoClock, "w"),
        "could not read the system clock to date the snapshot of 'w'"
    );
    assert_eq!(capture_error_message(err, "empty"), "no windows were found in session 'empty'");
}

#[test]
fn tmux_queries() {
    assert_eq!(
        windows_query("work"),
        vec!["list-windows", "-t", "work", "-F", "#{window_index}\t#{window_name}\t#{window_layout}"]
    );
    assert_eq!(
        panes_query("work", 12),
        vec!["list-panes", "-t", "work:12", "-F", "#{pane_index}\t#{pane_current_path}\t#{pane_current_command}\t#{pane_pid}"]
    );
}

#[test]
fn live_sessions_are_trimmed_and_blank_lines_dropped() {
    assert_eq!(parse_live_sessions(" a \n\n b\r\n"), vec!["a".to_string(), "b".to_string()]);
    assert!(parse_live_sessions("").is_empty());
}

#[test]
fn children_file_is_read_as_pids() {
    assert_eq!(children_from_text("123 456 \n"), vec![123, 456]);
    assert_eq!(children_from_text(""), Vec::<u32>::new());
    assert_eq!(children_from_text("7 x 8"), vec![7, 8]);
}

#[test]
fn capture_at_a_given_time_keeps_that_time() {
    let now = sess::model::Timestamp { unix_secs: 1_700_000_123, nanos: 45, offset_secs: 0 };
    let snap = capture_session_at("w", "3\tmain\tl", vec![vec![]], now).unwrap();
    assert_eq!(snap.created_at, now);
    assert_eq!(snap.windows[0].index, 3);
    assert_eq!(capture_session_at("w", "", vec![], now).unwrap_err(), CaptureError::NoWindows);
}
