use sess::env::{
    capture_allowed, looks_like_secret, marks_secret, secret_looking_names, secret_warning,
    shell_single_quote,
};

#[test]
fn flags_common_secret_names() {
    assert!(looks_like_secret("API_KEY"));
    assert!(looks_like_secret("AWS_SECRET_ACCESS_KEY"));
    assert!(looks_like_secret("GITHUB_TOKEN"));
    assert!(looks_like_secret("DB_PASSWORD"));
    assert!(looks_like_secret("BASIC_AUTH"));
    assert!(looks_like_secret("SSH_CREDENTIAL"));
}

#[test]
fn does_not_flag_ordinary_names() {
    assert!(!looks_like_secret("NODE_ENV"));
    assert!(!looks_like_secret("EDITOR"));
    assert!(!looks_like_secret("PROJECT_ENV"));
}

#[test]
fn secret_check_is_case_insensitive() {
    // Only an upper-casing step can make these match the markers.
    assert!(looks_like_secret("github_token"));
    assert!(looks_like_secret("Db_Password"));
    assert!(!marks_secret("github_token"));
    assert!(marks_secret("GITHUB_TOKEN"));
}

#[test]
fn only_captures_allow_listed_present_vars() {
    let allowlist = vec![
        "SESS_TEST_ENV_ONE".to_string(),
        "SESS_TEST_ENV_MISSING".to_string(),
    ];
    let values = vec![Some("value-one".to_string()), None];
    let captured = capture_allowed(&allowlist, values);

    assert_eq!(
        captured.iter().find(|(k, _)| k == "SESS_TEST_ENV_ONE").map(|(_, v)| v.clone()),
        Some("value-one".to_string())
    );
    assert!(!captured.iter().any(|(k, _)| k == "SESS_TEST_ENV_MISSING"));
}

#[test]
fn captured_variables_come_sorted_and_later_duplicates_win() {
    let allowlist = vec!["NODE_ENV".to_string(), "EDITOR".to_string(), "NODE_ENV".to_string()];
    let values = vec![Some("dev".to_string()), Some("vim".to_string()), Some("prod".to_string())];
    let captured = capture_allowed(&allowlist, values);
    assert_eq!(
        captured,
        vec![
            ("EDITOR".to_string(), "vim".to_string()),
            ("NODE_ENV".to_string(), "prod".to_string()),
        ]
    );
}

#[test]
fn empty_allowlist_captures_nothing() {
    assert!(capture_allowed(&vec![], vec![]).is_empty());
}

#[test]
fn quotes_single_quotes_safely() {
    assert_eq!(shell_single_quote("plain"), "'plain'");
    assert_eq!(shell_single_quote("it's"), r"'it'\''s'");
}

#[test]
fn quoting_edge_cases() {
    assert_eq!(shell_single_quote(""), "''");
    assert_eq!(shell_single_quote("''"), r"''\'''\'''");
    assert_eq!(shell_single_quote("a b\\c$HOME"), "'a b\\c$HOME'");
}

#[test]
fn secret_warning_text() {
    assert_eq!(
        secret_warning("GITHUB_TOKEN"),
        "warning: 'GITHUB_TOKEN' looks like it might hold a secret \u{2014} persisting it anyway because it's explicitly listed in your config."
    );
}

#[test]
fn only_secret_looking_captured_names_are_warned_about() {
    let captured = vec![
        ("EDITOR".to_string(), "vim".to_string()),
        ("GITHUB_TOKEN".to_string(), "t".to_string()),
        ("NODE_ENV".to_string(), "production".to_string()),
        ("api_key".to_string(), "k".to_string()),
    ];
    assert_eq!(secret_looking_names(&captured), vec!["GITHUB_TOKEN".to_string(), "api_key".to_string()]);
    assert!(secret_looking_names(&vec![]).is_empty());
}
