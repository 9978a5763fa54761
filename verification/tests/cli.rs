use patholog::apply::{managed_block, plan_for_existing, plan_for_missing, planned_block_for};
use patholog::cli::{
    ApplyRequest, ApplyStep, CleanRequest, CliResult, CommandContext, DoctorRequest,
    HealthRequest, apply_after_plan, apply_after_write, apply_outcome_result, apply_plan_result,
    apply_target, check_apply_modes, check_clean_modes, config_not_found_message,
    config_unreadable_message, dir_or, has_selected_issue, is_auto_config, loaded_config,
    resolution_result, run_clean, run_config_check, run_config_print, run_conflicts, run_doctor,
    run_health, run_print, run_scan, run_why, run_why_not, scan_home, scan_home_dir,
    variable_value, write_steps,
};
use patholog::config::{LoadedConfig, RawPolicy, parse_fail_on};
use patholog::model::{
    ApplyAction, ApplyOutcome, Diagnostic, ExitCode, IssueKind, PathVariable, PlatformMode,
    PresetKind, ResolutionCandidate, ResolutionReport, ShellKind, ShellProfileScanReport,
    WhyNotReport,
};

// ----- contexts and requests -----

fn context(path_value: &str, pathext: Option<&str>) -> CommandContext {
    context_with_cwd(path_value, pathext, ".")
}

fn context_with_manpath(path_value: &str, manpath_value: &str, pathext: Option<&str>) -> CommandContext {
    CommandContext {
        path_value: path_value.to_owned(),
        manpath_value: manpath_value.to_owned(),
        pathext: pathext.map(str::to_owned),
        cwd: ".".to_owned(),
        home_dir: None,
        user_profile_dir: None,
    }
}

fn context_with_cwd(path_value: &str, pathext: Option<&str>, cwd: &str) -> CommandContext {
    CommandContext {
        path_value: path_value.to_owned(),
        manpath_value: String::new(),
        pathext: pathext.map(str::to_owned),
        cwd: cwd.to_owned(),
        home_dir: None,
        user_profile_dir: None,
    }
}

fn context_with_home(path_value: &str, pathext: Option<&str>, home: &str) -> CommandContext {
    let mut context = context(path_value, pathext);
    context.home_dir = Some(home.to_owned());
    context
}

fn clean_request(platform: PlatformMode, stdout: bool, export: bool, shell: Option<ShellKind>) -> CleanRequest {
    CleanRequest {
        platform,
        variable: PathVariable::Path,
        stdout,
        export,
        shell,
        drop_entries: Vec::new(),
        presets: Vec::new(),
    }
}

fn doctor_request(variable: PathVariable, platform: PlatformMode) -> DoctorRequest {
    DoctorRequest {
        variable,
        platform,
        json: false,
        fail_on: None,
        command: None,
        drop_entries: Vec::new(),
        presets: Vec::new(),
    }
}

fn health_request(platform: PlatformMode) -> HealthRequest {
    HealthRequest {
        variable: PathVariable::Path,
        platform,
        json: false,
        drop_entries: Vec::new(),
        presets: Vec::new(),
    }
}

fn apply_request(dry_run: bool, yes: bool, no_backup: bool, shell: Option<ShellKind>) -> ApplyRequest {
    ApplyRequest {
        platform: PlatformMode::Auto,
        json: false,
        dry_run,
        yes,
        no_backup,
        shell,
        home: None,
        drop_entries: Vec::new(),
        presets: Vec::new(),
    }
}

fn raw(drop: &[&str], presets: &[&str], fail_on: &[&str]) -> RawPolicy {
    RawPolicy {
        drop_entries: drop.iter().map(|s| s.to_string()).collect(),
        presets: presets.iter().map(|s| s.to_string()).collect(),
        fail_on: fail_on.iter().map(|s| s.to_string()).collect(),
    }
}

fn none() -> RawPolicy {
    raw(&[], &[], &[])
}

/// A configuration file that was read and validated, as the command receives it.
fn config_file(path: &str, policy: RawPolicy, manpath: RawPolicy) -> Result<Option<LoadedConfig>, String> {
    loaded_config(path.to_owned(), Ok((1, policy, manpath))).map(Some)
}

/// The error of a configuration file whose TOML text does not parse.
fn malformed_config(path: &str, text: &str) -> Result<Option<LoadedConfig>, String> {
    let error = toml::from_str::<toml::Table>(text).expect_err("malformed toml").to_string();
    loaded_config(path.to_owned(), Err(error)).map(Some)
}

fn missing_config(path: &str) -> String {
    config_unreadable_message(path, "No such file or directory (os error 2)")
}

fn temp_dir() -> tempfile::TempDir {
    tempfile::tempdir().expect("create tempdir")
}

fn display(dir: &tempfile::TempDir) -> String {
    dir.path().display().to_string()
}

fn joined(dir: &tempfile::TempDir, name: &str) -> String {
    dir.path().join(name).display().to_string()
}

fn parse_json(stdout: &str) -> serde_json::Value {
    serde_json::from_str(stdout).expect("parse json")
}

fn assert_json_object_keys(label: &str, stdout: &str, expected: &[&str]) {
    let json = parse_json(stdout);
    assert_object_keys(label, &json, expected);
}

fn assert_object_keys(label: &str, value: &serde_json::Value, expected: &[&str]) {
    let object = value.as_object().unwrap_or_else(|| panic!("{label} object"));
    let keys = object.keys().map(String::as_str).collect::<Vec<_>>();
    assert_eq!(keys, expected, "{label} top-level keys");
}

/// The dry run of `apply` for a profile at `profile` that holds `existing`, or none.
fn apply_dry_run(
    request: &ApplyRequest,
    config: Result<Option<LoadedConfig>, String>,
    context: &CommandContext,
    profile: &str,
    existing: Option<&str>,
) -> CliResult {
    let target = match apply_target(request, config, context) {
        Ok(target) => target,
        Err(result) => return result,
    };
    let (cleaned, block) = planned_block_for(
        &context.path_value,
        request.platform,
        context.pathext.as_deref(),
        target.shell,
        &target.policy,
    );
    let plan = match existing {
        None => Ok(plan_for_missing(target.shell, profile.to_owned(), block, cleaned)),
        Some(content) => plan_for_existing(target.shell, profile.to_owned(), content, block, cleaned),
    };
    match apply_after_plan(request, plan) {
        ApplyStep::Done(result) => result,
        ApplyStep::Write(..) => panic!("a dry run writes nothing"),
    }
}

// ----- clean -----

#[test]
fn clean_requires_output_mode() {
    let result = run_clean(&clean_request(PlatformMode::Auto, false, false, None), Ok(None), &context("", None));

    assert_eq!(result.exit_code, ExitCode::GeneralError);
    assert_eq!(result.stderr, "patholog: clean requires --stdout or --export\n");
}

#[test]
fn clean_stdout_output_is_unchanged() {
    let result = run_clean(
        &clean_request(PlatformMode::Posix, true, false, None),
        Ok(None),
        &context("first::second:first", None),
    );

    assert_eq!(result.exit_code, ExitCode::Success);
    assert_eq!(result.stdout, "first:second\n");
}

#[test]
fn clean_stdout_drops_unwanted_entries() {
    let mut request = clean_request(PlatformMode::Posix, true, false, None);
    request.drop_entries = vec!["first".to_owned()];
    let result = run_clean(&request, Ok(None), &context("first::second:first:third", None));

    assert_eq!(result.exit_code, ExitCode::Success);
    assert_eq!(result.stdout, "second:third\n");
}

#[test]
fn clean_stdout_applies_repeated_fink_preset_once() {
    let mut request = clean_request(PlatformMode::Posix, true, false, None);
    request.presets = vec![PresetKind::Fink, PresetKind::Fink];
    let result = run_clean(&request, Ok(None), &context("/usr/bin:/sw/bin:/sw/sbin:/sw/share/man", None));

    assert_eq!(result.exit_code, ExitCode::Success);
    assert_eq!(result.stdout, "/usr/bin:/sw/share/man\n");
}

#[test]
fn clean_stdout_combines_drop_and_preset_policy() {
    let mut request = clean_request(PlatformMode::Posix, true, false, None);
    request.drop_entries = vec!["/custom/bin".to_owned()];
    request.presets = vec![PresetKind::Fink];
    let result = run_clean(&request, Ok(None), &context("/custom/bin:/sw/bin:/usr/bin", None));

    assert_eq!(result.exit_code, ExitCode::Success);
    assert_eq!(result.stdout, "/usr/bin\n");
}

#[test]
fn clean_stdout_applies_config_policy_before_cli_policy() {
    let mut request = clean_request(PlatformMode::Posix, true, false, None);
    request.drop_entries = vec!["cli-drop".to_owned()];
    let config = config_file("patholog.toml", raw(&["config-drop"], &[], &[]), none());
    let result = run_clean(&request, config, &context("config-drop:cli-drop:keep", None));

    assert_eq!(result.exit_code, ExitCode::Success);
    assert_eq!(result.stdout, "keep\n");
}

#[test]
fn clean_export_outputs_shell_snippets() {
    for (shell, expected_stdout) in [
        (ShellKind::Bash, "export PATH='first:second'\n"),
        (ShellKind::Zsh, "export PATH='first:second'\n"),
        (ShellKind::Fish, "set -gx PATH 'first' 'second'\n"),
        (ShellKind::Pwsh, "$env:Path = 'first:second'\n"),
    ] {
        let result = run_clean(
            &clean_request(PlatformMode::Posix, false, true, Some(shell)),
            Ok(None),
            &context("first::second:first", None),
        );

        assert_eq!(result.exit_code, ExitCode::Success);
        assert_eq!(result.stdout, expected_stdout);
    }
}

#[test]
fn clean_export_outputs_manpath_shell_snippet() {
    let mut request = clean_request(PlatformMode::Posix, false, true, Some(ShellKind::Bash));
    request.variable = PathVariable::Manpath;
    let result = run_clean(
        &request,
        Ok(None),
        &context_with_manpath("", "/usr/share/man::/opt/share/man:/usr/share/man", None),
    );

    assert_eq!(result.exit_code, ExitCode::Success);
    assert_eq!(result.stdout, "export MANPATH='/usr/share/man::/opt/share/man'\n");
}

#[test]
fn clean_export_quotes_posix_shell_paths() {
    let result = run_clean(
        &clean_request(PlatformMode::Posix, false, true, Some(ShellKind::Bash)),
        Ok(None),
        &context("dir one:weird'quote:back\\slash", None),
    );

    assert_eq!(result.exit_code, ExitCode::Success);
    assert_eq!(result.stdout, "export PATH='dir one:weird'\\''quote:back\\slash'\n");
}

#[test]
fn clean_export_quotes_fish_paths() {
    let result = run_clean(
        &clean_request(PlatformMode::Posix, false, true, Some(ShellKind::Fish)),
        Ok(None),
        &context("dir one:weird'quote:back\\slash", None),
    );

    assert_eq!(result.exit_code, ExitCode::Success);
    assert_eq!(result.stdout, "set -gx PATH 'dir one' 'weird\\'quote' 'back\\\\slash'\n");
}

#[test]
fn clean_export_requires_shell() {
    let result = run_clean(&clean_request(PlatformMode::Auto, false, true, None), Ok(None), &context("", None));

    assert_eq!(result.exit_code, ExitCode::GeneralError);
    assert_eq!(result.stderr, "patholog: clean --export requires --shell\n");
}

#[test]
fn clean_export_manpath_applies_config_policy() {
    let mut request = clean_request(PlatformMode::Posix, false, true, Some(ShellKind::Bash));
    request.variable = PathVariable::Manpath;
    let config = config_file("patholog.toml", none(), raw(&["/drop/man"], &[], &[]));
    let result = run_clean(&request, config, &context_with_manpath("", "/drop/man:/keep/man", None));

    assert_eq!(result.exit_code, ExitCode::Success);
    assert_eq!(result.stdout, "export MANPATH='/keep/man'\n");
}

#[test]
fn clean_shell_requires_export() {
    let result = run_clean(
        &clean_request(PlatformMode::Auto, false, false, Some(ShellKind::Bash)),
        Ok(None),
        &context("", None),
    );

    assert_eq!(result.exit_code, ExitCode::GeneralError);
    assert_eq!(result.stderr, "patholog: clean --shell requires --export\n");
}

#[test]
fn clean_rejects_conflicting_output_modes() {
    let result = run_clean(
        &clean_request(PlatformMode::Auto, true, true, Some(ShellKind::Bash)),
        Ok(None),
        &context("", None),
    );

    assert_eq!(result.exit_code, ExitCode::GeneralError);
    assert_eq!(
        result.stderr,
        "patholog: clean output modes --stdout and --export are mutually exclusive\n"
    );
}

#[test]
fn config_errors_are_reported_after_mode_checks() {
    let result = run_clean(
        &clean_request(PlatformMode::Posix, true, false, None),
        Err(missing_config("x.toml")),
        &context("/a", None),
    );
    assert_eq!(result.exit_code, ExitCode::GeneralError);
    assert_eq!(
        result.stderr,
        "patholog: config file is not readable: x.toml (No such file or directory (os error 2))\n"
    );

    let result = run_clean(
        &clean_request(PlatformMode::Posix, false, false, None),
        Err(missing_config("x.toml")),
        &context("/a", None),
    );
    assert_eq!(result.stderr, "patholog: clean requires --stdout or --export\n");
}

// ----- health -----

#[test]
fn health_clean_path_returns_success() {
    let bin = temp_dir();
    let result = run_health(&health_request(PlatformMode::Posix), Ok(None), &context(&display(&bin), None));

    assert_eq!(result.exit_code, ExitCode::Success);
    assert!(result.stdout.contains("PATH health: 100/100"));
    assert!(result.stdout.contains("Status: healthy"));
}

#[test]
fn health_unhealthy_path_still_returns_success() {
    let root = temp_dir();
    let file = tempfile::NamedTempFile::new_in(root.path()).expect("create file");
    let path_value = format!("{}:{}:", joined(&root, "missing"), file.path().display());
    let result = run_health(&health_request(PlatformMode::Posix), Ok(None), &context(&path_value, None));

    assert_eq!(result.exit_code, ExitCode::Success);
    assert!(result.stdout.contains("PATH health:"));
    assert!(result.stdout.contains("Status: issues found"));
    assert!(result.stdout.contains("missing"));
    assert!(result.stdout.contains("not_directory"));
    assert!(result.stdout.contains("empty"));
}

#[test]
fn health_json_includes_stable_fields() {
    let root = temp_dir();
    let missing = joined(&root, "missing");
    let mut request = health_request(PlatformMode::Posix);
    request.json = true;
    let result = run_health(&request, Ok(None), &context(&missing, None));

    assert_eq!(result.exit_code, ExitCode::Success);
    let json = parse_json(&result.stdout);
    let object = json.as_object().expect("health json object");
    assert_eq!(
        object.keys().map(String::as_str).collect::<Vec<_>>(),
        [
            "counts",
            "diagnostics",
            "entry_count",
            "healthy",
            "issue_count",
            "score",
            "variable",
            "worst_severity",
        ]
    );
    assert_eq!(json["variable"].as_str(), Some("path"));
    assert_eq!(json["score"].as_u64(), Some(85));
    assert_eq!(json["healthy"].as_bool(), Some(false));
    assert_eq!(json["entry_count"].as_u64(), Some(1));
    assert_eq!(json["issue_count"].as_u64(), Some(1));
    assert_eq!(json["worst_severity"].as_str(), Some("error"));
    assert_eq!(json["counts"]["missing"].as_u64(), Some(1));

    let diagnostics = json["diagnostics"].as_array().expect("diagnostics array");
    assert_eq!(diagnostics.len(), 1);
    assert_eq!(diagnostics[0]["kind"].as_str(), Some("missing"));
    assert_eq!(diagnostics[0]["entry_index"].as_u64(), Some(1));
    assert_eq!(diagnostics[0]["entry_value"].as_str(), Some(missing.as_str()));
    assert!(
        diagnostics[0]["related_indexes"]
            .as_array()
            .expect("related indexes array")
            .is_empty()
    );
}

#[test]
fn health_windows_mode_uses_semicolon_separators() {
    let root = temp_dir();
    let file = tempfile::NamedTempFile::new_in(root.path()).expect("create file");
    let path_value = format!("{};{};", joined(&root, "missing"), file.path().display());
    let mut request = health_request(PlatformMode::Windows);
    request.json = true;
    let result = run_health(&request, Ok(None), &context(&path_value, Some(".EXE")));

    assert_eq!(result.exit_code, ExitCode::Success);
    let json = parse_json(&result.stdout);
    assert_eq!(json["entry_count"].as_u64(), Some(3));
    assert_eq!(json["issue_count"].as_u64(), Some(3));
    assert_eq!(json["score"].as_u64(), Some(55));
    assert_eq!(json["worst_severity"].as_str(), Some("error"));
    assert_eq!(json["counts"]["missing"].as_u64(), Some(1));
    assert_eq!(json["counts"]["not_directory"].as_u64(), Some(1));
    assert_eq!(json["counts"]["empty"].as_u64(), Some(1));
}

#[test]
fn health_does_not_emit_shadowed_command_diagnostics() {
    let first = temp_dir();
    let second = temp_dir();
    let _first_tool = tempfile::Builder::new()
        .prefix("tool")
        .rand_bytes(0)
        .tempfile_in(first.path())
        .expect("create tool");
    let _second_tool = tempfile::Builder::new()
        .prefix("tool")
        .rand_bytes(0)
        .tempfile_in(second.path())
        .expect("create tool");
    let mut request = health_request(PlatformMode::Posix);
    request.json = true;
    let result = run_health(
        &request,
        Ok(None),
        &context(&format!("{}:{}", display(&first), display(&second)), None),
    );

    assert_eq!(result.exit_code, ExitCode::Success);
    let json = parse_json(&result.stdout);
    let diagnostics = json["diagnostics"].as_array().expect("diagnostics array");
    assert!(
        diagnostics
            .iter()
            .all(|diagnostic| diagnostic["kind"].as_str() != Some("shadowed_command"))
    );
}

#[test]
fn health_var_manpath_reports_manpath() {
    let manpath = temp_dir();
    let mut request = health_request(PlatformMode::Posix);
    request.variable = PathVariable::Manpath;
    let result = run_health(&request, Ok(None), &context_with_manpath("", &display(&manpath), None));

    assert_eq!(result.exit_code, ExitCode::Success);
    assert!(result.stdout.contains("MANPATH health: 100/100"));
}

#[test]
fn health_drop_reports_unwanted_entries() {
    let drop_entry = temp_dir();
    let keep_entry = temp_dir();
    let mut request = health_request(PlatformMode::Posix);
    request.drop_entries = vec![display(&drop_entry)];
    let result = run_health(
        &request,
        Ok(None),
        &context(&format!("{}:{}", display(&drop_entry), display(&keep_entry)), None),
    );

    assert_eq!(result.exit_code, ExitCode::Success);
    assert!(result.stdout.contains("Worst severity: warning"));
    assert!(result.stdout.contains("unwanted  1"));
}

#[test]
fn health_preset_reports_unwanted_entries() {
    let mut request = health_request(PlatformMode::Posix);
    request.presets = vec![PresetKind::Fink];
    let result = run_health(&request, Ok(None), &context("/sw/bin:/usr/bin", None));

    assert_eq!(result.exit_code, ExitCode::Success);
    assert!(result.stdout.contains("unwanted  1"));
}

#[test]
fn health_config_applies_policy_without_fail_on_exit_code() {
    let config = config_file("patholog.toml", raw(&["config-drop"], &[], &["unwanted"]), none());
    let result = run_health(&health_request(PlatformMode::Posix), config, &context("config-drop:keep", None));

    assert_eq!(result.exit_code, ExitCode::Success);
    assert!(result.stdout.contains("unwanted  1"));
}

#[test]
fn health_config_auto_applies_local_policy() {
    let directory = temp_dir();
    let config = config_file(&joined(&directory, "patholog.toml"), raw(&["auto-drop"], &[], &[]), none());
    let result = run_health(
        &health_request(PlatformMode::Posix),
        config,
        &context_with_cwd("auto-drop:keep", None, &display(&directory)),
    );

    assert_eq!(result.exit_code, ExitCode::Success);
    assert!(result.stdout.contains("unwanted  1"));
}

#[test]
fn health_malformed_config_returns_runtime_error() {
    let config = malformed_config("patholog.toml", "version = ");
    let result = run_health(&health_request(PlatformMode::Posix), config, &context("", None));

    assert_eq!(result.exit_code, ExitCode::GeneralError);
    assert!(result.stderr.contains("config file is invalid"));
}

// ----- doctor -----

#[test]
fn doctor_fail_on_returns_diagnostics_found() {
    let directory = temp_dir();
    let mut request = doctor_request(PathVariable::Path, PlatformMode::Posix);
    request.fail_on = Some("missing".to_owned());
    let result = run_doctor(&request, Ok(None), &Vec::new(), &context(&joined(&directory, "missing"), None));

    assert_eq!(result.exit_code, ExitCode::DiagnosticsFound);
    assert!(result.stdout.contains("Missing directories:"));
}

#[test]
fn doctor_reports_unwanted_entries_and_fail_on() {
    let mut request = doctor_request(PathVariable::Path, PlatformMode::Posix);
    request.drop_entries = vec!["drop".to_owned()];
    request.fail_on = Some("unwanted".to_owned());
    let result = run_doctor(&request, Ok(None), &Vec::new(), &context("drop:keep", None));

    assert_eq!(result.exit_code, ExitCode::DiagnosticsFound);
    assert!(result.stdout.contains("Unwanted entries:"));
    assert!(result.stdout.contains("drop"));
}

#[test]
fn doctor_config_reports_unwanted_entries_and_fail_on() {
    let config = config_file("patholog.toml", raw(&["drop"], &[], &["unwanted"]), none());
    let request = doctor_request(PathVariable::Path, PlatformMode::Posix);
    let result = run_doctor(&request, config, &Vec::new(), &context("drop:keep", None));

    assert_eq!(result.exit_code, ExitCode::DiagnosticsFound);
    assert!(result.stdout.contains("Unwanted entries:"));
    assert!(result.stdout.contains("drop"));
}

#[test]
fn doctor_config_fail_on_combines_with_cli_fail_on() {
    let directory = temp_dir();
    let config = config_file("patholog.toml", raw(&[], &[], &["unwanted"]), none());
    let mut request = doctor_request(PathVariable::Path, PlatformMode::Posix);
    request.fail_on = Some("missing".to_owned());
    let result = run_doctor(&request, config, &Vec::new(), &context(&joined(&directory, "missing"), None));

    assert_eq!(result.exit_code, ExitCode::DiagnosticsFound);
    assert!(result.stdout.contains("Missing directories:"));
}

#[test]
fn doctor_config_var_manpath_uses_manpath_section() {
    let config = config_file("patholog.toml", raw(&["path-drop"], &[], &[]), raw(&["man-drop"], &[], &[]));
    let request = doctor_request(PathVariable::Manpath, PlatformMode::Posix);
    let result = run_doctor(
        &request,
        config,
        &Vec::new(),
        &context_with_manpath("path-drop", "man-drop:keep", None),
    );

    assert_eq!(result.exit_code, ExitCode::Success);
    assert!(result.stdout.contains("Unwanted entries:"));
    assert!(result.stdout.contains("man-drop"));
    assert!(!result.stdout.contains("path-drop"));
}

#[test]
fn doctor_config_command_uses_path_section() {
    let directory = temp_dir();
    let bin = tempfile::Builder::new().prefix("bin").tempdir_in(directory.path()).expect("create bin");
    let config = config_file("patholog.toml", raw(&["drop"], &[], &[]), raw(&["man-drop"], &[], &[]));
    let mut request = doctor_request(PathVariable::Path, PlatformMode::Posix);
    request.command = Some("tool".to_owned());
    let result = run_doctor(&request, config, &Vec::new(), &context(&format!("drop:{}", display(&bin)), None));

    assert_eq!(result.exit_code, ExitCode::Success);
    assert!(result.stdout.contains("Unwanted entries:"));
    assert!(result.stdout.contains("drop"));
    assert!(!result.stdout.contains("man-drop"));
}

#[test]
fn doctor_var_manpath_reports_manpath_entries() {
    let request = doctor_request(PathVariable::Manpath, PlatformMode::Posix);
    let result = run_doctor(&request, Ok(None), &Vec::new(), &context_with_manpath("", "man:man", None));

    assert_eq!(result.exit_code, ExitCode::Success);
    assert!(result.stdout.contains("MANPATH entries: 2"));
    assert!(result.stdout.contains("Duplicates:"));
}

#[test]
fn doctor_var_manpath_rejects_command_resolution() {
    let mut request = doctor_request(PathVariable::Manpath, PlatformMode::Auto);
    request.command = Some("tool".to_owned());
    let result = run_doctor(&request, Ok(None), &Vec::new(), &context_with_manpath("", "/usr/share/man", None));

    assert_eq!(result.exit_code, ExitCode::GeneralError);
    assert_eq!(result.stderr, "patholog: doctor --command only supports --var path\n");
}

#[test]
fn doctor_var_manpath_does_not_fail_on_path_ordering() {
    let mut request = doctor_request(PathVariable::Manpath, PlatformMode::Posix);
    request.fail_on = Some("suspicious_order".to_owned());
    let result = run_doctor(
        &request,
        Ok(None),
        &Vec::new(),
        &context_with_manpath("", "/bin:/Users/me/.cargo/bin", None),
    );

    assert_eq!(result.exit_code, ExitCode::Success);
    assert!(!result.stdout.contains("Ordering warnings:"));
}

#[test]
fn doctor_fink_preset_reports_unwanted_entries() {
    let mut request = doctor_request(PathVariable::Path, PlatformMode::Posix);
    request.presets = vec![PresetKind::Fink];
    let result = run_doctor(&request, Ok(None), &Vec::new(), &context("/usr/bin:/sw/bin:/sw/sbin", None));

    assert_eq!(result.exit_code, ExitCode::Success);
    assert!(result.stdout.contains("Unwanted entries:"));
    assert!(result.stdout.contains("/sw/bin"));
    assert!(result.stdout.contains("/sw/sbin"));
}

#[test]
fn doctor_fink_preset_reports_manpath_unwanted_entries() {
    let mut request = doctor_request(PathVariable::Manpath, PlatformMode::Posix);
    request.presets = vec![PresetKind::Fink];
    let result = run_doctor(&request, Ok(None), &Vec::new(), &context_with_manpath("", "/sw/share/man", None));

    assert_eq!(result.exit_code, ExitCode::Success);
    assert!(result.stdout.contains("Unwanted entries:"));
    assert!(result.stdout.contains("/sw/share/man"));
}

#[test]
fn doctor_ordering_presets_are_accepted() {
    for (preset, path, expected_warning) in [
        (PresetKind::Homebrew, "/bin:/opt/homebrew/bin", "/bin appears before /opt/homebrew/bin"),
        (
            PresetKind::Cargo,
            "/usr/bin:/Users/me/.local/bin:/Users/me/.cargo/bin",
            "/usr/bin appears before /Users/me/.cargo/bin",
        ),
        (
            PresetKind::Pyenv,
            "/usr/bin:/Users/me/.cargo/bin:/Users/me/.pyenv/shims",
            "/usr/bin appears before /Users/me/.pyenv/shims",
        ),
    ] {
        let mut request = doctor_request(PathVariable::Path, PlatformMode::Posix);
        request.presets = vec![preset];
        let result = run_doctor(&request, Ok(None), &Vec::new(), &context(path, None));

        assert_eq!(result.exit_code, ExitCode::Success);
        assert!(result.stdout.contains("Ordering warnings:"));
        assert!(result.stdout.contains(expected_warning));
    }
}

#[test]
fn doctor_command_reports_shadowed_candidates() {
    let mut request = doctor_request(PathVariable::Path, PlatformMode::Windows);
    request.command = Some("tool".to_owned());
    let candidates = vec![
        ResolutionCandidate {
            entry_index: 1,
            directory: "first".to_owned(),
            path: "first\\tool.exe".to_owned(),
            wins: true,
        },
        ResolutionCandidate {
            entry_index: 2,
            directory: "second".to_owned(),
            path: "second\\tool.exe".to_owned(),
            wins: false,
        },
    ];
    let result = run_doctor(&request, Ok(None), &candidates, &context("first;second", None));

    assert_eq!(result.exit_code, ExitCode::Success);
    assert!(result.stdout.contains("Shadowed commands:"));
    assert!(result.stdout.contains("tool at"));
}

#[test]
fn invalid_fail_on_returns_runtime_error() {
    let mut request = doctor_request(PathVariable::Path, PlatformMode::Auto);
    request.fail_on = Some("bogus".to_owned());
    let result = run_doctor(&request, Ok(None), &Vec::new(), &context("", None));

    assert_eq!(result.exit_code, ExitCode::GeneralError);
    assert_eq!(result.stdout, "");
    assert!(result.stderr.contains("unsupported issue kind \"bogus\""));
    assert!(result.stderr.contains("unreadable"));
    assert!(result.stderr.contains("shadowed_command"));
}

#[test]
fn parse_fail_on_trims_ignores_empty_and_deduplicates() {
    assert_eq!(
        parse_fail_on(
            " duplicate, ,not_directory,unreadable,suspicious_order,shadowed_command,unwanted,duplicate ",
        )
        .expect("parse fail-on"),
        [
            IssueKind::Duplicate,
            IssueKind::NotDirectory,
            IssueKind::Unreadable,
            IssueKind::SuspiciousOrder,
            IssueKind::ShadowedCommand,
            IssueKind::Unwanted
        ]
    );
}

#[test]
fn invalid_fail_on_reports_the_kind() {
    assert_eq!(
        parse_fail_on("duplicate,nope").expect_err("unsupported"),
        "unsupported issue kind \"nope\"; expected one of: duplicate, empty, missing, not_directory, unreadable, suspicious_order, shadowed_command, unwanted"
    );
    assert_eq!(parse_fail_on("").expect("empty"), Vec::<IssueKind>::new());
}

#[test]
fn selected_issue_detection() {
    let diagnostic = Diagnostic {
        kind: IssueKind::Missing,
        message: String::new(),
        entry_index: None,
        entry_value: None,
        related_indexes: Vec::new(),
    };
    assert!(has_selected_issue(&vec![IssueKind::Duplicate, IssueKind::Missing], &vec![diagnostic.clone()]));
    assert!(!has_selected_issue(&vec![], &vec![diagnostic.clone()]));
    assert!(!has_selected_issue(&vec![IssueKind::Duplicate], &vec![diagnostic]));
}

// ----- print, resolution and scan -----

#[test]
fn print_can_read_manpath() {
    let result = run_print(
        PathVariable::Manpath,
        PlatformMode::Posix,
        false,
        &context_with_manpath("", "/usr/share/man:/opt/share/man", None),
    );

    assert_eq!(result.exit_code, ExitCode::Success);
    assert_eq!(result.stdout, "1  /usr/share/man\n2  /opt/share/man\n");
}

#[test]
fn print_json_lists_entries() {
    let result = run_print(PathVariable::Path, PlatformMode::Posix, true, &context("/a", None));
    let json = parse_json(&result.stdout);

    assert_eq!(json[0]["raw"].as_str(), Some("/a"));
    assert_eq!(json[0]["index"].as_u64(), Some(1));
}

fn resolution(candidates: Vec<ResolutionCandidate>) -> ResolutionReport {
    ResolutionReport {
        command: "tool".to_owned(),
        candidates,
        searched_directories: vec!["/a".to_owned()],
        related_hints: Vec::new(),
    }
}

#[test]
fn resolution_commands_report_not_found_status() {
    let missing = resolution(Vec::new());
    let result = run_why(&missing, false);
    assert_eq!(result.exit_code, ExitCode::CommandNotFound);
    assert!(result.stdout.contains("Not found in PATH."));
    let result = run_conflicts(&missing, false);
    assert_eq!(result.exit_code, ExitCode::CommandNotFound);
    assert_eq!(result.stdout, "No matches for tool\n");

    let found = resolution(vec![ResolutionCandidate {
        entry_index: 1,
        directory: "/a".to_owned(),
        path: "/a/tool".to_owned(),
        wins: true,
    }]);
    let result = run_why(&found, true);
    assert_eq!(result.exit_code, ExitCode::Success);
    let json = parse_json(&result.stdout);
    assert_eq!(json["found"].as_bool(), Some(true));
    assert_eq!(json["winner"]["path"].as_str(), Some("/a/tool"));
}

#[test]
fn why_not_and_scan_outputs() {
    let report = WhyNotReport {
        command: "tool".to_owned(),
        candidates: Vec::new(),
        searched_directories: Vec::new(),
        related_hints: Vec::new(),
        path_diagnostics: Vec::new(),
        advice: vec!["Check it.".to_owned()],
    };
    let result = run_why_not(&report, false);
    assert_eq!(result.exit_code, ExitCode::CommandNotFound);
    assert!(result.stdout.ends_with("Advice:\n  Check it.\n"));

    let scan = ShellProfileScanReport { home: "/h".to_owned(), profiles: Vec::new() };
    let result = run_scan(&scan, true);
    let json = parse_json(&result.stdout);
    assert_eq!(json["home"].as_str(), Some("/h"));
}

#[test]
fn scan_home_option_overrides_missing_context_home() {
    let directory = temp_dir();
    let home = scan_home(&Some(display(&directory)), PlatformMode::Posix, &context("", None))
        .expect("home");
    assert_eq!(home, display(&directory));

    let result = run_scan(&ShellProfileScanReport { home, profiles: Vec::new() }, false);
    assert_eq!(result.exit_code, ExitCode::Success);
    assert!(result.stdout.contains("No PATH changes found"));
}

#[test]
fn scan_requires_home_directory() {
    let result = scan_home(&None, PlatformMode::Auto, &context("", None)).expect_err("no home");

    assert_eq!(result.exit_code, ExitCode::GeneralError);
    assert_eq!(result.stderr, "patholog: scan requires a home directory; set HOME or pass --home\n");
}

#[test]
fn scan_home_prefers_platform_home() {
    let mut ctx = context_with_home("/a", None, "/home/me");
    ctx.user_profile_dir = Some("C:\\Users\\me".to_owned());
    assert_eq!(scan_home_dir(PlatformMode::Posix, &ctx), Some("/home/me".to_owned()));
    assert_eq!(scan_home_dir(PlatformMode::Windows, &ctx), Some("C:\\Users\\me".to_owned()));
    assert_eq!(scan_home(&None, PlatformMode::Windows, &ctx).expect("home"), "C:\\Users\\me");
    let mut no_profile = ctx.clone();
    no_profile.user_profile_dir = None;
    assert_eq!(scan_home_dir(PlatformMode::Windows, &no_profile), Some("/home/me".to_owned()));
    assert_eq!(dir_or(&Some("/given".to_owned()), &ctx.home_dir), Some("/given".to_owned()));
    assert_eq!(dir_or(&None, &None), None);
}

#[test]
fn exit_codes_preserve_public_contract() {
    let success = run_health(&health_request(PlatformMode::Posix), Ok(None), &context("", None));
    assert_eq!(success.exit_code, ExitCode::Success);

    let general_error =
        run_clean(&clean_request(PlatformMode::Auto, false, false, None), Ok(None), &context("", None));
    assert_eq!(general_error.exit_code, ExitCode::GeneralError);

    let mut request = doctor_request(PathVariable::Path, PlatformMode::Posix);
    request.fail_on = Some("missing".to_owned());
    let diagnostics_found = run_doctor(&request, Ok(None), &Vec::new(), &context("missing-entry", None));
    assert_eq!(diagnostics_found.exit_code, ExitCode::DiagnosticsFound);

    let mut not_found = resolution(Vec::new());
    not_found.command = "missing-tool".to_owned();
    not_found.searched_directories = Vec::new();
    let command_not_found = run_why(&not_found, false);
    assert_eq!(command_not_found.exit_code, ExitCode::CommandNotFound);
}

#[test]
fn results_carry_status_and_streams() {
    let ok = CliResult::success("out".to_owned());
    assert_eq!(ok.exit_code, ExitCode::Success);
    let err = CliResult::error("bad");
    assert_eq!(err.stderr, "patholog: bad\n");
    assert_eq!(err.stdout, "");
    let usage = CliResult::clap_error("usage".to_owned());
    assert_eq!(usage.stderr, "usage");
    assert_eq!(resolution_result("x".to_owned(), true).exit_code, ExitCode::CommandNotFound);
    assert_eq!(resolution_result("x".to_owned(), false).exit_code, ExitCode::Success);
    assert_eq!(variable_value(&context("/p", None), PathVariable::Path), "/p");
}

// ----- configuration -----

#[test]
fn missing_config_returns_runtime_error() {
    let directory = temp_dir();
    let config = joined(&directory, "missing.toml");
    let result = run_doctor(
        &doctor_request(PathVariable::Path, PlatformMode::Auto),
        Err(missing_config(&config)),
        &Vec::new(),
        &context("", None),
    );

    assert_eq!(result.exit_code, ExitCode::GeneralError);
    assert!(result.stderr.contains("config file is not readable"));
}

#[test]
fn malformed_config_returns_runtime_error() {
    let result = run_clean(
        &clean_request(PlatformMode::Auto, true, false, None),
        malformed_config("patholog.toml", "version = "),
        &context("", None),
    );

    assert_eq!(result.exit_code, ExitCode::GeneralError);
    assert!(result.stderr.contains("config file is invalid"));
}

#[test]
fn unknown_config_key_returns_runtime_error() {
    let config = loaded_config(
        "patholog.toml".to_owned(),
        Err("unknown field `unknown`, expected one of `version`, `path`, `manpath`".to_owned()),
    )
    .map(Some);
    let result = apply_dry_run(
        &apply_request(true, false, false, Some(ShellKind::Bash)),
        config,
        &context("", None),
        "missing.profile",
        None,
    );

    assert_eq!(result.exit_code, ExitCode::GeneralError);
    assert!(result.stderr.contains("config file is invalid"));
    assert!(result.stderr.contains("unknown"));
}

#[test]
fn config_check_validates_config_file() {
    let config = loaded_config("patholog.toml".to_owned(), Ok((1, raw(&["/drop"], &[], &[]), none())));
    let result = run_config_check(config);

    assert_eq!(result.exit_code, ExitCode::Success);
    assert!(result.stdout.contains("Config OK:"));
}

#[test]
fn config_print_outputs_normalized_json() {
    let config = loaded_config(
        "patholog.toml".to_owned(),
        Ok((1, raw(&["/drop", "/drop"], &["cargo"], &["duplicate"]), none())),
    );
    let result = run_config_print(config, true);

    assert_eq!(result.exit_code, ExitCode::Success);
    assert!(result.stdout.contains("\"version\": 1"));
    assert!(result.stdout.contains("\"drop\": [\n      \"/drop\"\n    ]"));
    assert!(result.stdout.contains("\"preset\": [\n      \"cargo\"\n    ]"));
    assert!(result.stdout.contains("\"fail_on\": [\n      \"duplicate\"\n    ]"));
}

#[test]
fn config_print_outputs_normalized_human_policy() {
    let directory = temp_dir();
    let path = joined(&directory, "patholog.toml");
    let config = loaded_config(
        path.clone(),
        Ok((1, raw(&["/drop", "/drop"], &["cargo"], &["duplicate"]), none())),
    );
    let result = run_config_print(config, false);

    assert_eq!(result.exit_code, ExitCode::Success);
    assert!(result.stdout.contains(&format!("Config: {path}")));
    assert!(result.stdout.contains("Version: 1"));
    assert!(result.stdout.contains("PATH:\n  drop: /drop"));
    assert!(result.stdout.contains("  preset: cargo"));
    assert!(result.stdout.contains("  fail_on: duplicate"));
    assert!(result.stdout.contains("MANPATH:\n  drop: none"));
}

#[test]
fn config_print_missing_config_returns_runtime_error() {
    let directory = temp_dir();
    let result = run_config_print(Err(missing_config(&joined(&directory, "missing.toml"))), false);

    assert_eq!(result.exit_code, ExitCode::GeneralError);
    assert!(result.stderr.contains("config file is not readable"));
}

#[test]
fn config_auto_discovers_local_patholog_toml_for_operations() {
    let directory = temp_dir();
    let config = config_file(&joined(&directory, "patholog.toml"), raw(&["drop"], &[], &[]), none());
    let result = run_clean(
        &clean_request(PlatformMode::Posix, true, false, None),
        config,
        &context_with_cwd("drop:keep", None, &display(&directory)),
    );

    assert_eq!(result.exit_code, ExitCode::Success);
    assert_eq!(result.stdout, "keep\n");
}

#[test]
fn config_auto_not_found_is_ignored_for_operations() {
    let directory = temp_dir();
    let result = run_clean(
        &clean_request(PlatformMode::Posix, true, false, None),
        Ok(None),
        &context_with_cwd("drop:keep", None, &display(&directory)),
    );

    assert_eq!(result.exit_code, ExitCode::Success);
    assert_eq!(result.stdout, "drop:keep\n");
}

#[test]
fn config_auto_not_found_fails_for_config_commands() {
    let result = run_config_check(Err(config_not_found_message().to_owned()));

    assert_eq!(result.exit_code, ExitCode::GeneralError);
    assert!(result.stderr.contains("config auto did not find"));
}

#[test]
fn config_helpers_build_messages_and_policies() {
    assert!(is_auto_config("auto"));
    assert!(!is_auto_config("./auto"));
    assert_eq!(
        config_unreadable_message("/c.toml", "denied"),
        "config file is not readable: /c.toml (denied)"
    );
    assert_eq!(
        loaded_config("/c.toml".to_owned(), Err("bad key".to_owned())).expect_err("invalid"),
        "config file is invalid: /c.toml (bad key)"
    );
    assert_eq!(
        loaded_config("/c.toml".to_owned(), Ok((2, none(), none()))).expect_err("version"),
        "config file uses unsupported version 2; expected 1"
    );
    assert_eq!(
        loaded_config("/c.toml".to_owned(), Ok((1, raw(&[], &["nope"], &[]), none())))
            .expect_err("preset"),
        "unsupported preset \"nope\"; expected one of: homebrew, cargo, pyenv, fink"
    );
}

#[test]
fn config_check_and_print_render_the_policy() {
    let config = loaded_config(
        "/c.toml".to_owned(),
        Ok((1, raw(&["/x", "/x"], &["cargo"], &["duplicate"]), none())),
    );
    assert_eq!(run_config_check(config.clone()).stdout, "Config OK: /c.toml\n");
    assert_eq!(
        run_config_print(config.clone(), false).stdout,
        "Config: /c.toml\nVersion: 1\n\nPATH:\n  drop: /x\n  preset: cargo\n  fail_on: duplicate\n\nMANPATH:\n  drop: none\n  preset: none\n  fail_on: none\n"
    );
    let json = parse_json(&run_config_print(config, true).stdout);
    assert_eq!(json["config_path"].as_str(), Some("/c.toml"));
    assert_eq!(json["path"]["drop"][0].as_str(), Some("/x"));
    assert_eq!(json["manpath"]["preset"].as_array().map(|a| a.len()), Some(0));
}

// ----- apply -----

#[test]
fn apply_requires_output_mode() {
    let result = apply_dry_run(
        &apply_request(false, false, false, Some(ShellKind::Zsh)),
        Ok(None),
        &context("", None),
        ".zshrc",
        None,
    );

    assert_eq!(result.exit_code, ExitCode::GeneralError);
    assert_eq!(result.stderr, "patholog: apply requires --dry-run or --yes\n");
}

#[test]
fn apply_rejects_conflicting_modes() {
    let result = apply_dry_run(
        &apply_request(true, true, false, Some(ShellKind::Zsh)),
        Ok(None),
        &context("", None),
        ".zshrc",
        None,
    );

    assert_eq!(result.exit_code, ExitCode::GeneralError);
    assert_eq!(result.stderr, "patholog: apply cannot use --dry-run with --yes\n");
}

#[test]
fn apply_no_backup_requires_yes() {
    let result = apply_dry_run(
        &apply_request(true, false, true, Some(ShellKind::Zsh)),
        Ok(None),
        &context("", None),
        ".zshrc",
        None,
    );

    assert_eq!(result.exit_code, ExitCode::GeneralError);
    assert_eq!(result.stderr, "patholog: apply --no-backup requires --yes\n");
}

#[test]
fn apply_requires_shell() {
    let result = apply_dry_run(&apply_request(true, false, false, None), Ok(None), &context("", None), ".zshrc", None);

    assert_eq!(result.exit_code, ExitCode::GeneralError);
    assert_eq!(result.stderr, "patholog: apply requires --shell\n");
}

#[test]
fn apply_mode_checks_follow_the_command_contract() {
    assert_eq!(check_apply_modes(false, true, true, Some(ShellKind::Zsh)), None);
    assert_eq!(check_apply_modes(true, false, false, Some(ShellKind::Zsh)), None);
    assert_eq!(
        check_clean_modes(true, true, Some(ShellKind::Bash)),
        Some("clean output modes --stdout and --export are mutually exclusive")
    );
    assert_eq!(check_clean_modes(false, true, Some(ShellKind::Bash)), None);
}

#[test]
fn apply_dry_run_reports_create_append_and_replace_actions() {
    let mut request = apply_request(true, false, false, Some(ShellKind::Bash));
    request.platform = PlatformMode::Posix;
    for (existing, expected_action) in [
        (None, "create_profile"),
        (Some("export PATH=\"$HOME/bin:$PATH\"\n"), "append_block"),
        (
            Some("# >>> patholog PATH >>>\nexport PATH='/old'\n# <<< patholog PATH <<<\n"),
            "replace_block",
        ),
    ] {
        let result = apply_dry_run(&request, Ok(None), &context("/a:/b:/a", None), "/tmp/x.profile", existing);

        assert_eq!(result.exit_code, ExitCode::Success);
        assert!(result.stdout.contains(expected_action));
        assert!(result.stdout.contains("# >>> patholog PATH >>>"));
        assert!(result.stdout.contains("export PATH='/a:/b'"));
    }
}

#[test]
fn apply_dry_run_uses_drop_policy_in_cleaned_block() {
    let mut request = apply_request(true, false, false, Some(ShellKind::Bash));
    request.platform = PlatformMode::Posix;
    request.drop_entries = vec!["/a".to_owned()];
    let result = apply_dry_run(&request, Ok(None), &context("/a:/b:/a", None), "missing.profile", None);

    assert_eq!(result.exit_code, ExitCode::Success);
    assert!(result.stdout.contains("Cleaned PATH:\n  /b"));
    assert!(result.stdout.contains("export PATH='/b'"));
}

#[test]
fn apply_dry_run_uses_fink_preset_drop_policy() {
    let mut request = apply_request(true, false, false, Some(ShellKind::Bash));
    request.platform = PlatformMode::Posix;
    request.presets = vec![PresetKind::Fink];
    let result = apply_dry_run(&request, Ok(None), &context("/usr/bin:/sw/bin:/sw/sbin", None), "missing.profile", None);

    assert_eq!(result.exit_code, ExitCode::Success);
    assert!(result.stdout.contains("Cleaned PATH:\n  /usr/bin"));
    assert!(result.stdout.contains("export PATH='/usr/bin'"));
}

#[test]
fn apply_dry_run_uses_config_path_policy() {
    let mut request = apply_request(true, false, false, Some(ShellKind::Bash));
    request.platform = PlatformMode::Posix;
    let config = config_file("patholog.toml", raw(&["/drop"], &[], &[]), raw(&["/keep"], &[], &[]));
    let result = apply_dry_run(&request, config, &context("/drop:/keep", None), "missing.profile", None);

    assert_eq!(result.exit_code, ExitCode::Success);
    assert!(result.stdout.contains("Cleaned PATH:\n  /keep"));
    assert!(result.stdout.contains("export PATH='/keep'"));
}

#[test]
fn apply_dry_run_json_includes_plan_fields() {
    let mut request = apply_request(true, false, false, Some(ShellKind::Zsh));
    request.platform = PlatformMode::Posix;
    request.json = true;
    request.home = Some("/home/me".to_owned());
    let result = apply_dry_run(&request, Ok(None), &context("/a:/b:/a", None), "/home/me/.zshrc", None);

    assert_eq!(result.exit_code, ExitCode::Success);
    assert!(result.stdout.contains("\"action\": \"create_profile\""));
    assert!(result.stdout.contains("\"cleaned_path\": \"/a:/b\""));
    assert!(result.stdout.contains("\"existing_block\": null"));
    assert!(result.stdout.contains("\"would_write\": false"));
}

#[test]
fn apply_yes_json_includes_write_fields() {
    let plan = plan_for_missing(
        ShellKind::Zsh,
        "/tmp/.zshrc".to_owned(),
        managed_block("export PATH='/a:/b'"),
        "/a:/b".to_owned(),
    );
    let mut written = plan.clone();
    written.would_write = true;
    let outcome = ApplyOutcome { plan: written, wrote: true, backup_path: None, backup_created: false };
    let mut request = apply_request(false, true, false, Some(ShellKind::Zsh));
    request.json = true;
    assert_eq!(apply_after_plan(&request, Ok(plan)), ApplyStep::Write(
        plan_for_missing(ShellKind::Zsh, "/tmp/.zshrc".to_owned(), managed_block("export PATH='/a:/b'"), "/a:/b".to_owned()),
        true,
    ));
    let result = apply_after_write(&request, Ok(outcome));

    assert_eq!(result.exit_code, ExitCode::Success);
    assert!(result.stdout.contains("\"would_write\": true"));
    assert!(result.stdout.contains("\"wrote\": true"));
    assert!(result.stdout.contains("\"backup_created\": false"));
    assert!(result.stdout.contains("\"backup_path\": null"));
}

#[test]
fn apply_rejects_malformed_or_duplicate_managed_blocks() {
    let request = apply_request(true, false, false, Some(ShellKind::Bash));
    for content in [
        "# >>> patholog PATH >>>\nexport PATH='/old'\n",
        "# >>> patholog PATH >>>\nexport PATH='/old'\n# <<< patholog PATH <<<\n# >>> patholog PATH >>>\nexport PATH='/old'\n# <<< patholog PATH <<<\n",
    ] {
        let result = apply_dry_run(&request, Ok(None), &context("/a:/b", None), "bad.profile", Some(content));

        assert_eq!(result.exit_code, ExitCode::GeneralError);
        assert!(result.stderr.contains("managed block"));
    }
}

#[test]
fn apply_target_checks_modes_then_config() {
    let mut request = apply_request(true, true, false, Some(ShellKind::Zsh));
    let err = apply_target(&request, Err("bad".to_owned()), &context("/a", None)).expect_err("modes");
    assert_eq!(err.stderr, "patholog: apply cannot use --dry-run with --yes\n");
    request.yes = false;
    let err = apply_target(&request, Err("bad".to_owned()), &context("/a", None)).expect_err("config");
    assert_eq!(err.stderr, "patholog: bad\n");

    request.home = Some("/given".to_owned());
    request.drop_entries = vec!["/cli".to_owned()];
    let config = config_file("c", raw(&["/config"], &[], &[]), none());
    let target = apply_target(&request, config, &context_with_home("/a", None, "/home/me")).expect("target");
    assert_eq!(target.shell, ShellKind::Zsh);
    assert_eq!(target.policy.drop_entries, ["/config", "/cli"]);
    assert_eq!(target.home_dir, Some("/given".to_owned()));
    assert_eq!(target.user_profile_dir, Some("/given".to_owned()));
}

#[test]
fn apply_steps_follow_the_modes() {
    let plan = plan_for_missing(ShellKind::Zsh, "/h/.zshrc".to_owned(), managed_block("export PATH='/a'"), "/a".to_owned());
    match apply_after_plan(&apply_request(true, false, false, Some(ShellKind::Zsh)), Ok(plan.clone())) {
        ApplyStep::Done(result) => assert!(result.stdout.starts_with("Apply dry-run: zsh\n")),
        ApplyStep::Write(..) => panic!("dry run writes nothing"),
    }
    assert_eq!(
        apply_after_plan(&apply_request(false, true, true, Some(ShellKind::Zsh)), Ok(plan.clone())),
        ApplyStep::Write(plan.clone(), false)
    );
    match apply_after_plan(&apply_request(false, true, false, Some(ShellKind::Zsh)), Err("nope".to_owned())) {
        ApplyStep::Done(result) => assert_eq!(result.stderr, "patholog: nope\n"),
        ApplyStep::Write(..) => panic!("error writes nothing"),
    }
    let outcome = ApplyOutcome { plan, wrote: true, backup_path: None, backup_created: false };
    assert!(
        apply_after_write(&apply_request(false, true, false, Some(ShellKind::Zsh)), Ok(outcome))
            .stdout
            .contains("Backup:\n  none\n")
    );

    let steps = write_steps(ApplyAction::ReplaceBlock, true);
    assert!(steps.read_existing && steps.backup && !steps.create_new);
    let steps = write_steps(ApplyAction::CreateProfile, true);
    assert!(!steps.read_existing && !steps.backup && steps.create_new);
    let steps = write_steps(ApplyAction::AppendBlock, false);
    assert!(steps.read_existing && !steps.backup && !steps.create_new);
}

// ----- JSON shapes -----

#[test]
fn json_outputs_preserve_public_top_level_contracts() {
    let bin = temp_dir();
    let path_value = display(&bin);

    let print = run_print(PathVariable::Path, PlatformMode::Posix, true, &context(&path_value, None));
    assert_eq!(print.exit_code, ExitCode::Success);
    let print_json = parse_json(&print.stdout);
    let entries = print_json.as_array().expect("print json array");
    assert_object_keys(
        "print entry",
        entries.first().expect("print entry"),
        &["comparison_key", "display", "exists", "index", "is_dir", "is_empty", "kind", "raw"],
    );

    let mut doctor_req = doctor_request(PathVariable::Path, PlatformMode::Posix);
    doctor_req.json = true;
    let doctor = run_doctor(&doctor_req, Ok(None), &Vec::new(), &context(&joined(&bin, "missing"), None));
    assert_eq!(doctor.exit_code, ExitCode::Success);
    assert_json_object_keys("doctor", &doctor.stdout, &["diagnostics", "entries", "variable"]);

    let mut health_req = health_request(PlatformMode::Posix);
    health_req.json = true;
    let health = run_health(&health_req, Ok(None), &context(&joined(&bin, "missing"), None));
    assert_eq!(health.exit_code, ExitCode::Success);
    assert_json_object_keys(
        "health",
        &health.stdout,
        &["counts", "diagnostics", "entry_count", "healthy", "issue_count", "score", "variable", "worst_severity"],
    );

    let found = ResolutionReport {
        command: "tool".to_owned(),
        candidates: vec![ResolutionCandidate {
            entry_index: 1,
            directory: path_value.clone(),
            path: joined(&bin, "tool"),
            wins: true,
        }],
        searched_directories: vec![path_value.clone()],
        related_hints: Vec::new(),
    };
    for (label, result) in [("why", run_why(&found, true)), ("conflicts", run_conflicts(&found, true))] {
        assert_eq!(result.exit_code, ExitCode::Success);
        assert_json_object_keys(
            label,
            &result.stdout,
            &["candidates", "command", "found", "related_hints", "searched_directories", "winner"],
        );
    }

    let why_not = run_why_not(
        &WhyNotReport {
            command: "missing-tool".to_owned(),
            candidates: Vec::new(),
            searched_directories: vec![path_value.clone()],
            related_hints: Vec::new(),
            path_diagnostics: Vec::new(),
            advice: Vec::new(),
        },
        true,
    );
    assert_eq!(why_not.exit_code, ExitCode::CommandNotFound);
    assert_json_object_keys(
        "why-not",
        &why_not.stdout,
        &[
            "advice",
            "candidates",
            "command",
            "found",
            "path_diagnostics",
            "related_hints",
            "searched_directories",
            "winner",
        ],
    );

    let scan = run_scan(&ShellProfileScanReport { home: joined(&bin, "home"), profiles: Vec::new() }, true);
    assert_eq!(scan.exit_code, ExitCode::Success);
    assert_json_object_keys("scan", &scan.stdout, &["home", "profiles"]);

    let mut dry_request = apply_request(true, false, false, Some(ShellKind::Bash));
    dry_request.json = true;
    let apply_dry = apply_dry_run(&dry_request, Ok(None), &context(&path_value, None), &joined(&bin, "dry.profile"), None);
    assert_eq!(apply_dry.exit_code, ExitCode::Success);
    assert_json_object_keys(
        "apply dry-run",
        &apply_dry.stdout,
        &["action", "cleaned_path", "existing_block", "planned_block", "profile_path", "shell", "would_write"],
    );
    let plan = plan_for_missing(
        ShellKind::Bash,
        joined(&bin, "dry.profile"),
        managed_block("export PATH='/a'"),
        "/a".to_owned(),
    );
    assert_eq!(apply_plan_result(&plan, true).stdout, apply_dry_run(
        &dry_request,
        Ok(None),
        &context("/a", None),
        &joined(&bin, "dry.profile"),
        None,
    ).stdout);

    let yes = apply_outcome_result(
        &ApplyOutcome { plan, wrote: true, backup_path: None, backup_created: false },
        true,
    );
    assert_eq!(yes.exit_code, ExitCode::Success);
    assert_json_object_keys(
        "apply yes",
        &yes.stdout,
        &[
            "action",
            "backup_created",
            "backup_path",
            "cleaned_path",
            "existing_block",
            "planned_block",
            "profile_path",
            "shell",
            "would_write",
            "wrote",
        ],
    );

    let config = loaded_config(joined(&bin, "patholog.toml"), Ok((1, raw(&["/drop"], &[], &[]), none())));
    let config_print = run_config_print(config, true);
    assert_eq!(config_print.exit_code, ExitCode::Success);
    assert_json_object_keys("config print", &config_print.stdout, &["config_path", "manpath", "path", "version"]);
}

#[test]
fn written_outcome_marks_the_plan_and_reports_the_backup() {
    let plan = plan_for_missing(ShellKind::Zsh, "/h/.zshrc".to_owned(), managed_block("export PATH='/a'"), "/a".to_owned());
    let out = patholog::cli::written_outcome(plan.clone(), Some("/h/.zshrc.patholog-backup.1".to_owned()));
    assert!(out.wrote && out.plan.would_write && out.backup_created);
    assert_eq!(out.plan.profile_path, plan.profile_path);
    let out = patholog::cli::written_outcome(plan, None);
    assert!(!out.backup_created && out.backup_path.is_none());
}
