use sess::model::{SessionSnapshot, Timestamp, WindowSnapshot};
use sess::storage::{
    human_size, list, missing_refusal, prune, rename_refusal, renamed, save_refusal,
    session_file_name, RawEntry,
};

fn sample(name: &str, secs: i64) -> SessionSnapshot {
    SessionSnapshot::taken_at(
        name.into(),
        vec![WindowSnapshot { index: 0, name: "w".into(), layout: String::new(), panes: vec![] }],
        vec![],
        Timestamp { unix_secs: secs, nanos: 0, offset_secs: 0 },
    )
}

#[test]
fn prune_removes_only_unparseable_files() {
    let raw = vec![
        RawEntry { name: "valid".into(), size_bytes: 10, snapshot: Ok(sample("valid", 1)) },
        RawEntry { name: "broken".into(), size_bytes: 16, snapshot: Err("{ not valid json".into()) },
    ];
    let removed = prune(&raw);
    assert_eq!(removed.len(), 1);
    assert!(!removed.contains(&"valid".to_string()));
    assert_eq!(removed, vec!["broken".to_string()]);
}

#[test]
fn list_is_newest_first_and_skips_broken_files() {
    let raw = vec![
        RawEntry { name: "old".into(), size_bytes: 1, snapshot: Ok(sample("old", 100)) },
        RawEntry { name: "bad".into(), size_bytes: 2, snapshot: Err("x".into()) },
        RawEntry { name: "new".into(), size_bytes: 3, snapshot: Ok(sample("new", 300)) },
        RawEntry { name: "tie".into(), size_bytes: 4, snapshot: Ok(sample("tie", 100)) },
    ];
    let out = list(&raw);
    let names: Vec<&str> = out.iter().map(|s| s.name.as_str()).collect();
    assert_eq!(names, vec!["new", "old", "tie"]);
    assert_eq!(out[0].size_bytes, 3);
    assert_eq!(out[0].window_count, 1);
    assert_eq!(out[0].pane_count, 0);
}

#[test]
fn session_files_are_json() {
    assert_eq!(session_file_name("work"), "work.json");
}

#[test]
fn human_size_exact_values() {
    assert_eq!(human_size(0), "0 B");
    assert_eq!(human_size(1023), "1023 B");
    assert_eq!(human_size(633), "633 B");
    assert_eq!(human_size(1024), "1.0 KB");
    assert_eq!(human_size(1229), "1.2 KB");
    assert_eq!(human_size(1280), "1.2 KB");
    assert_eq!(human_size(1331), "1.3 KB");
    assert_eq!(human_size(1536), "1.5 KB");
    assert_eq!(human_size(1048575), "1024.0 KB");
    assert_eq!(human_size(1048576), "1.0 MB");
    assert_eq!(human_size(1310720), "1.2 MB");
    assert_eq!(human_size(u64::MAX), "17592186044416.0 MB");
}

fn float_human_size(bytes: u64) -> String {
    const KB: f64 = 1024.0;
    const MB: f64 = KB * 1024.0;
    let b = bytes as f64;
    if b >= MB {
        format!("{:.1} MB", b / MB)
    } else if b >= KB {
        format!("{:.1} KB", b / KB)
    } else {
        format!("{bytes} B")
    }
}

#[test]
fn human_size_agrees_with_float_formatting() {
    let mut samples: Vec<u64> = Vec::new();
    for b in 0..5000u64 {
        samples.push(b);
    }
    for k in 0..4000u64 {
        samples.push(k * 512);
        samples.push(k * 104857 + 13);
        samples.push(1048576 + k * 52428);
        samples.push(k * 1310720);
    }
    for shift in 50..64u32 {
        let base = 1u64 << shift;
        for d in 0..64u64 {
            samples.push(base.wrapping_add(d * 997));
            samples.push(base.wrapping_sub(d * 1021 + 1));
            samples.push(base + (base >> 1) + d);
        }
    }
    samples.push(u64::MAX);
    samples.push(u64::MAX - 1);
    samples.push(9007199254740993);
    for b in samples {
        assert_eq!(human_size(b), float_human_size(b), "bytes = {b}");
    }
}

#[test]
fn save_without_force_is_refused_when_the_name_is_taken() {
    assert_eq!(
        save_refusal("dup", true, false),
        Some("a saved session named 'dup' already exists. Use --force to overwrite it.".to_string())
    );
    assert_eq!(save_refusal("dup", true, true), None);
    assert_eq!(save_refusal("dup", false, false), None);
}

#[test]
fn loading_a_missing_session_is_refused() {
    assert_eq!(
        missing_refusal("ghost", false),
        Some("no saved session named 'ghost' exists".to_string())
    );
    assert_eq!(missing_refusal("ghost", true), None);
}

#[test]
fn rename_checks_the_source_before_the_destination() {
    assert_eq!(
        rename_refusal("a", "b", false, true),
        Some("no saved session named 'a' exists".to_string())
    );
    assert_eq!(
        rename_refusal("a", "b", true, true),
        Some("a saved session named 'b' already exists".to_string())
    );
    assert_eq!(rename_refusal("a", "b", true, false), None);
}

#[test]
fn rename_updates_only_the_name_field() {
    let snap = sample("old-name", 42);
    let moved = renamed(snap, "new-name");
    assert_eq!(moved.name, "new-name");
    assert_eq!(moved.created_at.unix_secs, 42);
    assert_eq!(moved.windows.len(), 1);
}
