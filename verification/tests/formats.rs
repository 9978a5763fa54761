use patholog::human::{
    format_apply_outcome, format_conflicts, format_diagnostic, format_shell_profile_scan,
};
use patholog::json::{
    JsonValue, config_to_json, dumps_json, entries_to_json, entry_kind, finish_json,
};
use patholog::config::{ConfigPolicy, LoadedConfig, PathologConfig};
use patholog::model::{
    ApplyAction, ApplyOutcome, ApplyPlan, Diagnostic, IssueKind, PathEntry, PathMutation,
    PresetKind, ResolutionCandidate, ResolutionReport, ShellKind, ShellProfile,
    ShellProfileScanReport,
};

fn candidate(entry_index: usize, path: &str, wins: bool) -> ResolutionCandidate {
    ResolutionCandidate {
        entry_index,
        directory: path.rsplit_once('/').map(|(d, _)| d.to_owned()).unwrap_or_default(),
        path: path.to_owned(),
        wins,
    }
}

#[test]
fn format_conflicts_marks_the_winner() {
    let report = ResolutionReport {
        command: "tool".to_owned(),
        candidates: vec![candidate(1, "/a/tool", true), candidate(3, "/c/tool", false)],
        searched_directories: Vec::new(),
        related_hints: Vec::new(),
    };

    assert_eq!(format_conflicts(&report), "1* /a/tool\n3  /c/tool\n");
}

#[test]
fn format_diagnostic_renders_each_kind_for_why_not() {
    let diagnostic = |kind, message: &str, index: Option<usize>, value: Option<&str>| Diagnostic {
        kind,
        message: message.to_owned(),
        entry_index: index,
        entry_value: value.map(str::to_owned),
        related_indexes: Vec::new(),
    };
    assert_eq!(
        format_diagnostic(&diagnostic(IssueKind::Empty, "entry 2 is empty", Some(2), Some(""))),
        "  empty  2  <empty>"
    );
    assert_eq!(
        format_diagnostic(&diagnostic(IssueKind::NotDirectory, "x", Some(4), Some("/f"))),
        "  not_directory  4  /f"
    );
    assert_eq!(
        format_diagnostic(&diagnostic(IssueKind::Unreadable, "x", None, None)),
        "  unreadable  0  "
    );
    assert_eq!(
        format_diagnostic(&diagnostic(IssueKind::Duplicate, "/a appears 2 times", Some(1), Some("/a"))),
        "  duplicate  /a appears 2 times"
    );
}

#[test]
fn format_shell_profile_scan_lists_unreadable_profiles() {
    let report = ShellProfileScanReport {
        home: "/home/me".to_owned(),
        profiles: vec![
            ShellProfile {
                shell: "bash".to_owned(),
                path: "/home/me/.bashrc".to_owned(),
                exists: true,
                is_file: true,
                readable: false,
                path_mutations: Vec::new(),
            },
            ShellProfile {
                shell: "zsh".to_owned(),
                path: "/home/me/.zshrc".to_owned(),
                exists: true,
                is_file: true,
                readable: true,
                path_mutations: vec![PathMutation {
                    line: 7,
                    kind: "path_prepend".to_owned(),
                    text: "path=(~/bin $path)".to_owned(),
                }],
            },
        ],
    };

    assert_eq!(
        format_shell_profile_scan(&report),
        "Shell profile scan: /home/me\n\nPATH changes:\n  /home/me/.zshrc (zsh)\n    line 7  path_prepend  path=(~/bin $path)\n\nUnreadable profiles:\n  /home/me/.bashrc (bash)\n"
    );
}

fn plan(action: ApplyAction) -> ApplyPlan {
    ApplyPlan {
        shell: ShellKind::Bash,
        profile_path: "/home/me/.bashrc".to_owned(),
        action,
        existing_block: None,
        planned_block: "# >>> patholog PATH >>>\r\nexport PATH='/a'\r\n# <<< patholog PATH <<<".to_owned(),
        cleaned_path: "/a".to_owned(),
        would_write: true,
    }
}

#[test]
fn format_apply_outcome_reports_missing_backups() {
    let created = ApplyOutcome {
        plan: plan(ApplyAction::CreateProfile),
        wrote: true,
        backup_path: None,
        backup_created: false,
    };
    let text = format_apply_outcome(&created);
    assert!(text.contains("Backup:\n  none\n"));
    assert!(text.ends_with("Written block:\n# >>> patholog PATH >>>\nexport PATH='/a'\n# <<< patholog PATH <<<\n"));

    let appended = ApplyOutcome { plan: plan(ApplyAction::AppendBlock), ..created };
    assert!(format_apply_outcome(&appended).contains("Backup:\n  disabled\n"));
}

#[test]
fn json_rendering_sorts_keys_and_escapes_strings() {
    let value = JsonValue::Object(vec![
        ("b".to_owned(), JsonValue::Str("quote \" and \\".to_owned())),
        ("a".to_owned(), JsonValue::Array(vec![JsonValue::Number(7), JsonValue::Null, JsonValue::Bool(true)])),
    ]);

    assert_eq!(
        dumps_json(&value).expect("render"),
        "{\n  \"a\": [\n    7,\n    null,\n    true\n  ],\n  \"b\": \"quote \\\" and \\\\\"\n}\n"
    );
    assert_eq!(finish_json(Ok("{}".to_owned())).expect("finish"), "{}\n");
}

#[test]
fn entry_kinds_and_config_json() {
    let entry = |raw: &str, exists: bool, is_dir: bool| PathEntry {
        index: 1,
        raw: raw.to_owned(),
        display: raw.to_owned(),
        comparison_key: raw.to_owned(),
        exists,
        is_dir,
        is_empty: raw.is_empty(),
    };
    assert_eq!(entry_kind(&entry("", false, false)), "empty");
    assert_eq!(entry_kind(&entry("/m", false, false)), "missing");
    assert_eq!(entry_kind(&entry("/f", true, false)), "not_directory");
    assert_eq!(entry_kind(&entry("/d", true, true)), "directory");
    let text = dumps_json(&entries_to_json(&[entry("/d", true, true)])).expect("render");
    assert!(text.contains("\"kind\": \"directory\""));

    let policy = ConfigPolicy {
        drop_entries: vec!["/x".to_owned()],
        presets: vec![PresetKind::Homebrew],
        fail_on: vec![IssueKind::Empty],
    };
    let config = LoadedConfig {
        path: "/c.toml".to_owned(),
        config: PathologConfig { version: 1, path: policy.clone(), manpath: policy },
    };
    let text = dumps_json(&config_to_json(&config)).expect("render");
    assert!(text.contains("\"preset\": [\n      \"homebrew\"\n    ]"));
    assert!(text.contains("\"version\": 1"));
}

#[test]
fn json_errors_keep_the_serializer_text() {
    let error = serde_json::from_str::<serde_json::Value>("{").expect_err("incomplete");
    let text = error.to_string();
    let finished = finish_json(Err(error)).expect_err("error kept");

    assert_eq!(finished.message, text);
}
