use patholog::apply::{BackupAttempt, ProfileState, backup_step, plan_apply_from_state};
use patholog::apply::{
    plan_for_profile,
    END_MARKER, START_MARKER, appended_profile_content, backup_file_name,
    default_profile_relative_path, existing_managed_block, existing_managed_block_span,
    line_ending_for, managed_block, missing_home_message, plan_for_existing, plan_for_missing,
    planned_block_for, planned_profile_content, replaced_profile_content,
};
use patholog::model::{ApplyAction, PathVariable, PlatformMode, ShellKind};
use patholog::policy::PathPolicy;

#[test]
fn existing_managed_block_detects_crlf_block() {
    let content =
        format!("before\r\n{START_MARKER}\r\nexport PATH='/old'\r\n{END_MARKER}\r\nafter\r\n");

    assert_eq!(
        existing_managed_block(&content).expect("detect block"),
        Some(format!(
            "{START_MARKER}\r\nexport PATH='/old'\r\n{END_MARKER}\r"
        ))
    );
}

#[test]
fn existing_managed_block_rejects_malformed_block() {
    let error = existing_managed_block(START_MARKER).expect_err("malformed block");

    assert!(error.contains("malformed"));
}

#[test]
fn existing_managed_block_rejects_indented_marker_lines() {
    let content = format!("{START_MARKER}\nexport PATH='/old'\n  {END_MARKER}");
    let error = existing_managed_block(&content).expect_err("indented marker should not match");

    assert!(error.contains("malformed"));
}

#[test]
fn existing_managed_block_rejects_duplicate_blocks() {
    let block = managed_block("export PATH='/old'");
    let error = existing_managed_block(&format!("{block}\n{block}")).expect_err("duplicate blocks");

    assert!(error.contains("duplicate"));
}

#[test]
fn existing_managed_block_span_supports_exact_replacement() {
    let existing_block = managed_block("export PATH='/old'");
    let content = format!("before\n{existing_block}\nafter\n");
    let span = existing_managed_block_span(&content)
        .expect("detect block")
        .expect("block exists");

    assert_eq!(&content[span], existing_block);
    assert_eq!(
        replaced_profile_content(&content, &managed_block("export PATH='/new'"))
            .expect("replace block"),
        "before\n# >>> patholog PATH >>>\nexport PATH='/new'\n# <<< patholog PATH <<<\nafter\n"
    );
}

#[test]
fn replaced_profile_content_preserves_crlf_line_endings() {
    let existing_block = "# >>> patholog PATH >>>\r\nexport PATH='/old'\r\n# <<< patholog PATH <<<";
    let content = format!("before\r\n{existing_block}\r\nafter\r\n");
    let planned_block = managed_block("export PATH='/new'");
    let span = existing_managed_block_span(&content)
        .expect("detect block")
        .expect("block exists");

    assert_eq!(&content[span], format!("{existing_block}\r"));
    assert_eq!(
        replaced_profile_content(&content, &planned_block).expect("replace block"),
        "before\r\n# >>> patholog PATH >>>\r\nexport PATH='/new'\r\n# <<< patholog PATH <<<\r\nafter\r\n"
    );
}

#[test]
fn appended_profile_content_preserves_existing_text_with_separator() {
    let block = managed_block("export PATH='/new'");

    assert_eq!(
        appended_profile_content("", &block),
        "# >>> patholog PATH >>>\nexport PATH='/new'\n# <<< patholog PATH <<<\n"
    );
    assert_eq!(
        appended_profile_content("before\n", &block),
        "before\n\n# >>> patholog PATH >>>\nexport PATH='/new'\n# <<< patholog PATH <<<\n"
    );
    assert_eq!(
        appended_profile_content("before", &block),
        "before\n\n# >>> patholog PATH >>>\nexport PATH='/new'\n# <<< patholog PATH <<<\n"
    );
}

#[test]
fn appended_profile_content_preserves_crlf_line_endings() {
    let block = managed_block("export PATH='/new'");

    assert_eq!(
        appended_profile_content("before\r\n", &block),
        "before\r\n\r\n# >>> patholog PATH >>>\r\nexport PATH='/new'\r\n# <<< patholog PATH <<<\r\n"
    );
    assert_eq!(
        appended_profile_content("before", &block),
        "before\n\n# >>> patholog PATH >>>\nexport PATH='/new'\n# <<< patholog PATH <<<\n"
    );
}

#[test]
fn backup_path_for_seconds_uses_base_name() {
    assert_eq!(backup_file_name(".zshrc", 123, 0), ".zshrc.patholog-backup.123");
    assert_eq!(backup_file_name(".bashrc", 123, 1), ".bashrc.patholog-backup.123.1");
}

#[test]
fn plan_apply_appends_when_profile_has_no_managed_block() {
    let plan = plan_for_existing(
        ShellKind::Bash,
        "/home/me/.bashrc".to_owned(),
        "export PATH=\"$HOME/bin:$PATH\"\n",
        managed_block("export PATH='/a'"),
        "/a".to_owned(),
    )
    .expect("plan apply");

    assert_eq!(plan.action, ApplyAction::AppendBlock);
    assert_eq!(plan.existing_block, None);
}

#[test]
fn plan_apply_replaces_one_complete_managed_block() {
    let existing_block = managed_block("export PATH='/old'");
    let plan = plan_for_existing(
        ShellKind::Bash,
        "/home/me/.bashrc".to_owned(),
        &format!("before\n{existing_block}\nafter\n"),
        managed_block("export PATH='/a'"),
        "/a".to_owned(),
    )
    .expect("plan apply");

    assert_eq!(plan.action, ApplyAction::ReplaceBlock);
    assert_eq!(plan.existing_block, Some(existing_block));
}

#[test]
fn plan_for_existing_reports_malformed_blocks() {
    let error = plan_for_existing(
        ShellKind::Bash,
        "/home/me/.bashrc".to_owned(),
        END_MARKER,
        managed_block("export PATH='/a'"),
        "/a".to_owned(),
    )
    .expect_err("malformed");

    assert_eq!(
        error,
        "apply target profile contains duplicate or malformed patholog managed blocks"
    );
}

#[test]
fn plan_for_missing_creates_the_profile() {
    let plan = plan_for_missing(
        ShellKind::Zsh,
        "/home/me/.zshrc".to_owned(),
        managed_block("export PATH='/a'"),
        "/a".to_owned(),
    );

    assert_eq!(plan.action, ApplyAction::CreateProfile);
    assert!(!plan.would_write);
    assert_eq!(plan.existing_block, None);
}

#[test]
fn planned_block_for_cleans_and_wraps_the_export() {
    let (cleaned, block) = planned_block_for(
        "/a:/b:/a",
        PlatformMode::Posix,
        None,
        ShellKind::Fish,
        &PathPolicy::new(&["/b".to_owned()], &[], PathVariable::Path),
    );

    assert_eq!(cleaned, "/a");
    assert_eq!(
        block,
        "# >>> patholog PATH >>>\nset -gx PATH '/a'\n# <<< patholog PATH <<<"
    );
}

#[test]
fn planned_profile_content_detects_changed_profiles() {
    let created = plan_for_missing(
        ShellKind::Bash,
        "/p".to_owned(),
        managed_block("export PATH='/a'"),
        "/a".to_owned(),
    );
    assert_eq!(
        planned_profile_content(&created, false, "").expect("create"),
        "# >>> patholog PATH >>>\nexport PATH='/a'\n# <<< patholog PATH <<<\n"
    );
    assert_eq!(
        planned_profile_content(&created, true, "").expect_err("changed"),
        "apply target profile changed before write; rerun apply"
    );

    let appended = plan_for_existing(
        ShellKind::Bash,
        "/p".to_owned(),
        "x\n",
        managed_block("export PATH='/a'"),
        "/a".to_owned(),
    )
    .expect("plan");
    let now_with_block = format!("x\n{}\n", managed_block("export PATH='/z'"));
    assert_eq!(
        planned_profile_content(&appended, true, &now_with_block).expect_err("changed"),
        "apply target profile changed before write; rerun apply"
    );

    let replaced = plan_for_existing(
        ShellKind::Bash,
        "/p".to_owned(),
        &now_with_block,
        managed_block("export PATH='/a'"),
        "/a".to_owned(),
    )
    .expect("plan");
    assert_eq!(
        planned_profile_content(&replaced, true, &now_with_block).expect("replace"),
        "x\n# >>> patholog PATH >>>\nexport PATH='/a'\n# <<< patholog PATH <<<\n"
    );
    assert_eq!(
        planned_profile_content(&replaced, true, "x\n").expect_err("changed"),
        "apply target profile changed before write; rerun apply"
    );
}

#[test]
fn appended_block_is_found_again() {
    let block = managed_block("export PATH='/a:/b'");
    for existing in ["", "before", "before\n", "one\ntwo\n"] {
        let content = appended_profile_content(existing, &block);
        assert_eq!(existing_managed_block(&content), Ok(Some(block.clone())));
    }
}

#[test]
fn default_profiles_and_home_messages() {
    assert_eq!(default_profile_relative_path(ShellKind::Zsh, PlatformMode::Posix), ".zshrc");
    assert_eq!(default_profile_relative_path(ShellKind::Bash, PlatformMode::Windows), ".bashrc");
    assert_eq!(
        default_profile_relative_path(ShellKind::Fish, PlatformMode::Posix),
        ".config/fish/config.fish"
    );
    assert_eq!(
        default_profile_relative_path(ShellKind::Pwsh, PlatformMode::Windows),
        "Documents/PowerShell/Microsoft.PowerShell_profile.ps1"
    );
    assert_eq!(
        default_profile_relative_path(ShellKind::Pwsh, PlatformMode::Posix),
        ".config/powershell/Microsoft.PowerShell_profile.ps1"
    );
    assert_eq!(
        missing_home_message(ShellKind::Pwsh, PlatformMode::Windows),
        "apply requires a home directory; set USERPROFILE, pass --home, or pass --profile"
    );
    assert_eq!(
        missing_home_message(ShellKind::Bash, PlatformMode::Windows),
        "apply requires a home directory; set HOME, pass --home, or pass --profile"
    );
}

#[test]
fn line_endings_follow_the_profile() {
    assert_eq!(line_ending_for("a\r\nb"), "\r\n");
    assert_eq!(line_ending_for("a\nb\r"), "\n");
    assert_eq!(line_ending_for(""), "\n");
}

#[test]
fn existing_managed_block_span_counts_bytes() {
    let existing_block = managed_block("export PATH='/old'");
    let content = format!("é\n{existing_block}\nafter ü\n");
    let span = existing_managed_block_span(&content)
        .expect("detect block")
        .expect("block exists");

    assert_eq!(span.start, 3);
    assert_eq!(&content[span], existing_block);
}

#[test]
fn plan_for_profile_follows_the_profile_text() {
    let block = managed_block("export PATH='/a'");
    let plan = |existing: Option<&str>| {
        plan_for_profile(ShellKind::Bash, "p".to_owned(), existing, block.clone(), "/a".to_owned())
    };

    let created = plan(None).expect("create");
    assert_eq!(created.action, ApplyAction::CreateProfile);
    assert_eq!(created.existing_block, None);
    assert!(!created.would_write);

    let appended = plan(Some("export X=1\n")).expect("append");
    assert_eq!(appended.action, ApplyAction::AppendBlock);

    let old = managed_block("export PATH='/old'");
    let replaced = plan(Some(&format!("x\n{old}\ny\n"))).expect("replace");
    assert_eq!(replaced.action, ApplyAction::ReplaceBlock);
    assert_eq!(replaced.existing_block, Some(old.clone()));
    assert_eq!(replaced.planned_block, block);
    assert_eq!(replaced.cleaned_path, "/a");

    let reversed = "# <<< patholog PATH <<<\n# >>> patholog PATH >>>\n";
    assert_eq!(
        plan(Some(reversed)).expect_err("malformed"),
        "apply target profile contains a malformed patholog managed block"
    );
    assert_eq!(
        plan(Some(&format!("{old}\n{old}\n"))).expect_err("duplicate"),
        "apply target profile contains duplicate or malformed patholog managed blocks"
    );
}

fn location(shell: ShellKind, mode: PlatformMode, home: bool, user_profile: bool) -> Result<(bool, &'static str), &'static str> {
    patholog::apply::default_profile_location(shell, mode, home, user_profile)
}

#[test]
fn plan_apply_defaults_to_zshrc_for_zsh() {
    assert_eq!(location(ShellKind::Zsh, PlatformMode::Posix, true, false), Ok((false, ".zshrc")));
}

#[test]
fn plan_apply_defaults_to_interactive_profiles() {
    for (shell, expected_path) in [
        (ShellKind::Bash, ".bashrc"),
        (ShellKind::Fish, ".config/fish/config.fish"),
        (ShellKind::Pwsh, ".config/powershell/Microsoft.PowerShell_profile.ps1"),
    ] {
        assert_eq!(location(shell, PlatformMode::Posix, true, false), Ok((false, expected_path)));
    }
}

#[test]
fn plan_apply_uses_windows_user_profile_for_pwsh_windows_mode() {
    assert_eq!(
        location(ShellKind::Pwsh, PlatformMode::Windows, false, true),
        Ok((true, "Documents/PowerShell/Microsoft.PowerShell_profile.ps1"))
    );
}

#[test]
fn plan_apply_uses_home_for_posix_shells_in_windows_mode() {
    for (shell, expected_path) in [
        (ShellKind::Bash, ".bashrc"),
        (ShellKind::Fish, ".config/fish/config.fish"),
        (ShellKind::Zsh, ".zshrc"),
    ] {
        assert_eq!(location(shell, PlatformMode::Windows, true, true), Ok((false, expected_path)));
    }
}

#[test]
fn default_profile_requires_a_known_home() {
    assert_eq!(
        location(ShellKind::Bash, PlatformMode::Posix, false, true),
        Err("apply requires a home directory; set HOME, pass --home, or pass --profile")
    );
    assert_eq!(
        location(ShellKind::Pwsh, PlatformMode::Windows, true, false),
        Err("apply requires a home directory; set USERPROFILE, pass --home, or pass --profile")
    );
}

#[test]
fn plan_apply_from_profile_state() {
    let plan = |state: ProfileState| {
        plan_apply_from_state("/a:/b:/a", PlatformMode::Posix, None, ShellKind::Bash, &PathPolicy::default(), "p".to_owned(), state)
    };
    let created = plan(ProfileState::Missing).expect("create");
    assert_eq!(created.action, ApplyAction::CreateProfile);
    assert_eq!(created.cleaned_path, "/a:/b");
    assert_eq!(created.planned_block, managed_block("export PATH='/a:/b'"));
    assert!(!created.would_write);
    assert_eq!(plan(ProfileState::Text("x\n".to_owned())).expect("append").action, ApplyAction::AppendBlock);
    assert_eq!(plan(ProfileState::NotAFile).expect_err("dir"), "apply target profile is not a file: p");
    assert_eq!(
        plan(ProfileState::Unreadable("denied".to_owned())).expect_err("unreadable"),
        "apply target profile is not readable: p (denied)"
    );
}

#[test]
fn backup_attempts_step_to_the_next_suffix() {
    assert_eq!(backup_step(0, BackupAttempt::Copied, "p", "b"), Ok(None));
    assert_eq!(backup_step(2, BackupAttempt::AlreadyExists, "p", "b"), Ok(Some(3)));
    assert_eq!(
        backup_step(0, BackupAttempt::Failed("denied".to_owned()), "/h/.zshrc", "/h/.zshrc.patholog-backup.1"),
        Err("apply backup failed for /h/.zshrc: /h/.zshrc.patholog-backup.1 (denied)".to_owned())
    );
}

#[test]
fn appended_content_keeps_the_profile_in_front() {
    let block = managed_block("export PATH='/a'");
    assert_eq!(appended_profile_content("", &block), format!("{block}\n"));
    assert_eq!(appended_profile_content("x\n", &block), format!("x\n\n{block}\n"));
    assert_eq!(appended_profile_content("x", &block), format!("x\n\n{block}\n"));
}
