use patholog::apply::{
    appended_profile_content, existing_managed_block, managed_block, replaced_profile_content,
};
use patholog::clean::clean_path_with_policy;
use patholog::config::{merge_fail_on, parse_fail_on, ConfigPolicy};
use patholog::fuzz_args::{
    CliArgContext, PathCase, ProfileSetup, bounded_case, cli_args, platform_arg, platform_mode, preset_arg, profile_setup,
    path_case_from_input, shell_arg, truncate_string, variable_arg,
};
use patholog::health::summarize_health;
use patholog::model::{Diagnostic, DoctorReport, IssueKind, PathVariable, PlatformMode, PresetKind};
use patholog::path_env::parse_path;
use patholog::policy::PathPolicy;

#[test]
fn replaced_block_is_found_again() {
    let old = managed_block("export PATH='/old'");
    let new = managed_block("export PATH='/new:/more'");
    for (before, after) in [("", ""), ("a\n", ""), ("", "\nz"), ("a\nb\n", "\nz\n")] {
        let content = format!("{before}{old}{after}");
        let replaced = replaced_profile_content(&content, &new).expect("replace");
        assert_eq!(existing_managed_block(&replaced), Ok(Some(new.clone())));
        assert!(replaced.starts_with(before));
        assert!(replaced.ends_with(after));
    }
}

#[test]
fn rerunning_apply_replaces_the_block_it_appended() {
    let first = managed_block("export PATH='/a'");
    let second = managed_block("export PATH='/b'");
    let once = appended_profile_content("export EDITOR=vi\n", &first);
    let twice = replaced_profile_content(&once, &second).expect("replace");

    assert_eq!(
        twice,
        "export EDITOR=vi\n\n# >>> patholog PATH >>>\nexport PATH='/b'\n# <<< patholog PATH <<<\n"
    );
    assert_eq!(existing_managed_block(&twice), Ok(Some(second)));
}

#[test]
fn parsing_keeps_every_piece_in_order() {
    let value = "/a::/b:/a:";
    let entries = parse_path(value, PlatformMode::Posix, None);
    let joined = entries.iter().map(|e| e.raw.as_str()).collect::<Vec<_>>().join(":");

    assert_eq!(joined, value);
    for (i, entry) in entries.iter().enumerate() {
        assert_eq!(entry.index, i + 1);
        assert_eq!(entry.display, entry.raw);
        assert_eq!(entry.is_empty, entry.raw.is_empty());
    }
}

#[test]
fn cleaning_keeps_one_entry_per_key() {
    let cleaned = clean_path_with_policy(
        r"C:\A;c:\a\;C:\B\..\A;D:\x;D:\X",
        PlatformMode::Windows,
        None,
        PathVariable::Path,
        &PathPolicy::default(),
    );

    assert_eq!(cleaned, r"C:\A;D:\x");
}

#[test]
fn health_counts_add_up_to_the_issues() {
    let diagnostic = |kind| Diagnostic {
        kind,
        message: String::new(),
        entry_index: None,
        entry_value: None,
        related_indexes: Vec::new(),
    };
    let report = summarize_health(DoctorReport {
        variable: PathVariable::Path,
        entries: Vec::new(),
        diagnostics: vec![
            diagnostic(IssueKind::Unwanted),
            diagnostic(IssueKind::Duplicate),
            diagnostic(IssueKind::Unwanted),
            diagnostic(IssueKind::Empty),
        ],
    });

    assert_eq!(report.counts.iter().map(|(_, n)| n).sum::<usize>(), report.issue_count);
    assert_eq!(
        report.counts,
        vec![(IssueKind::Duplicate, 1), (IssueKind::Empty, 1), (IssueKind::Unwanted, 2)]
    );
}

#[test]
fn selections_never_repeat_a_kind() {
    let config = ConfigPolicy {
        drop_entries: Vec::new(),
        presets: vec![PresetKind::Cargo],
        fail_on: vec![IssueKind::Missing, IssueKind::Duplicate],
    };
    let cli = parse_fail_on("duplicate,empty,missing,empty").expect("parse");
    assert_eq!(cli, [IssueKind::Duplicate, IssueKind::Empty, IssueKind::Missing]);
    assert_eq!(
        merge_fail_on(Some(&config), &cli),
        [IssueKind::Missing, IssueKind::Duplicate, IssueKind::Empty]
    );
}

#[test]
fn fuzz_case_values_are_read_leniently() {
    assert_eq!(platform_arg("WINDOWS"), "windows");
    assert_eq!(platform_arg("Auto"), "auto");
    assert_eq!(platform_arg("linux"), "posix");
    assert_eq!(platform_mode("Windows"), PlatformMode::Windows);
    assert_eq!(platform_mode(""), PlatformMode::Posix);
    assert_eq!(shell_arg("PowerShell"), "pwsh");
    assert_eq!(shell_arg("ZSH"), "zsh");
    assert_eq!(shell_arg("tcsh"), "bash");
    assert_eq!(variable_arg("ManPath"), "manpath");
    assert_eq!(variable_arg("x"), "path");
    assert_eq!(preset_arg("Fink"), Some("fink"));
    assert_eq!(preset_arg("brew"), None);
}

#[test]
fn fuzz_command_lines_follow_the_mode() {
    let context = CliArgContext {
        platform: "posix".to_owned(),
        variable: "path".to_owned(),
        shell: "fish".to_owned(),
        profile: Some("/tmp/p".to_owned()),
        drop_entries: vec!["/x".to_owned(), "/y".to_owned()],
        preset: Some("cargo".to_owned()),
        json: true,
    };
    let doctor = cli_args(&Some("doctor".to_owned()), &context);
    assert_eq!(
        doctor,
        vec![vec![
            "doctor", "--platform", "posix", "--var", "path", "--drop", "/x", "--drop", "/y",
            "--preset", "cargo", "--json",
        ]]
    );
    let apply = cli_args(&Some("apply".to_owned()), &context);
    assert_eq!(
        apply,
        vec![vec![
            "apply", "--dry-run", "--shell", "fish", "--platform", "posix", "--profile", "/tmp/p",
            "--drop", "/x", "--drop", "/y", "--preset", "cargo", "--json",
        ]]
    );
    let all = cli_args(&None, &context);
    assert_eq!(all.len(), 6);
    assert_eq!(all[5], vec!["completions", "fish"]);
    assert_eq!(all[2][0..2], ["clean", "--stdout"]);
    assert_eq!(cli_args(&Some("other".to_owned()), &context), all);
}

#[test]
fn fuzz_cases_are_cut_to_bounds() {
    assert_eq!(truncate_string("abcdef".to_owned(), 4), "abcd");
    assert_eq!(truncate_string("aé€".to_owned(), 3), "aé");
    assert_eq!(truncate_string("aé€".to_owned(), 6), "aé€");
    assert_eq!(truncate_string("€".to_owned(), 2), "");
    let case = PathCase {
        path: "p".repeat(5000),
        platform: "posix".to_owned(),
        pathext: Some("x".repeat(4097)),
        json: false,
        command_mode: None,
        manpath: String::new(),
        variable: String::new(),
        drop_entries: vec!["a".to_owned(), "b".to_owned(), "c".to_owned(), "d".to_owned(), "e".to_owned()],
        preset: String::new(),
        shell: "bash".to_owned(),
        profile_mode: String::new(),
    };
    let bounded = bounded_case(case);
    assert_eq!(bounded.path.len(), 4096);
    assert_eq!(bounded.pathext.map(|p| p.len()), Some(4096));
    assert_eq!(bounded.drop_entries, ["a", "b", "c", "d"]);
}

#[test]
fn fuzz_profiles_follow_the_mode() {
    assert_eq!(
        profile_setup("append"),
        ProfileSetup::Text("export PATH=\"$HOME/bin:$PATH\"\n".to_string())
    );
    assert_eq!(
        profile_setup("replace"),
        ProfileSetup::Text(
            "# >>> patholog PATH >>>\nexport PATH='/old'\n# <<< patholog PATH <<<\n".to_string()
        )
    );
    assert_eq!(
        profile_setup("malformed"),
        ProfileSetup::Text("# >>> patholog PATH >>>\nexport PATH='/old'\n".to_string())
    );
    match profile_setup("duplicate") {
        ProfileSetup::Text(text) => assert_eq!(text.matches("# >>> patholog PATH >>>").count(), 2),
        other => panic!("unexpected {other:?}"),
    }
    assert_eq!(profile_setup("non_file"), ProfileSetup::Directory);
    assert_eq!(profile_setup("missing"), ProfileSetup::Absent);
    assert_eq!(profile_setup(""), ProfileSetup::Absent);
}

#[test]
fn raw_fuzz_input_becomes_a_posix_bash_case() {
    let case = path_case_from_input(None, b"/a:/b");
    assert_eq!(case.path, "/a:/b");
    assert_eq!(case.platform, "posix");
    assert_eq!(case.shell, "bash");
    assert_eq!(case.pathext, None);
    assert!(!case.json && case.command_mode.is_none() && case.drop_entries.is_empty());

    let lossy = path_case_from_input(None, b"/a\xff:/b");
    assert_eq!(lossy.path, "/a\u{FFFD}:/b");

    let long = vec![b'x'; 5000];
    assert_eq!(path_case_from_input(None, &long).path.len(), 4096);

    let parsed = PathCase {
        path: "y".repeat(5000),
        platform: "windows".to_owned(),
        pathext: None,
        json: true,
        command_mode: Some("print".to_owned()),
        manpath: String::new(),
        variable: String::new(),
        drop_entries: vec!["a".to_owned(); 6],
        preset: String::new(),
        shell: "zsh".to_owned(),
        profile_mode: String::new(),
    };
    let case = path_case_from_input(Some(parsed), b"ignored");
    assert_eq!(case.path.len(), 4096);
    assert_eq!(case.platform, "windows");
    assert_eq!(case.drop_entries.len(), 4);
}

#[test]
fn fuzz_command_lines_never_write() {
    let context = CliArgContext {
        platform: "posix".to_owned(),
        variable: "path".to_owned(),
        shell: "bash".to_owned(),
        profile: Some("/tmp/p".to_owned()),
        drop_entries: vec!["/x".to_owned()],
        preset: Some("fink".to_owned()),
        json: true,
    };
    let all = cli_args(&None, &context);
    assert_eq!(all.len(), 6);
    for args in &all {
        assert!(!args.iter().any(|a| a == "--yes" || a == "--no-backup"));
    }
    assert_eq!(all[4][..2], ["apply", "--dry-run"]);
    assert_eq!(cli_args(&Some("apply".to_owned()), &context).len(), 1);
}
