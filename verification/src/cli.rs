//! Command execution: the decisions of each command, from parsed options, the runtime
//! context and what was read from outside, to the exit status and the output texts.
use vstd::prelude::*;
use crate::clean::{clean_export_with_policy, clean_model, clean_path_with_policy, export_text};
use crate::config::{
    CONFIG_VERSION, ConfigPolicy, LoadedConfig, RawPolicy, config_from_raw, fail_on_result,
    merge_drop_entries, merge_fail_on, merge_presets, parse_fail_on, policy_result, policy_view,
    unique_extend, unique_of, version_error,
};
use crate::doctor::{
    diagnose_path_with_policy, doctor_diags, shadowed_diags, with_shadowed_diagnostics,
};
use crate::health::summarize_health;
use crate::human::{
    apply_outcome_text, apply_plan_text, config_check_text, config_print_text, conflicts_text,
    doctor_text, finish, format_apply_outcome, format_apply_plan, format_config_check,
    format_config_print, format_conflicts, format_doctor, format_health, format_print,
    format_shell_profile_scan, format_why, format_why_not, health_text, print_lines, scan_text,
    why_not_text, why_text,
};
use crate::json::{
    JsonValue, JsonView, apply_outcome_to_json, apply_plan_to_json, config_json, config_to_json,
    doctor_json_of, doctor_to_json, dumps_json, entries_json, entries_to_json, health_json,
    health_to_json, outcome_json, plan_json, pretty_json_text, resolution_json, resolution_to_json,
    scan_json, shell_profile_scan_to_json, why_not_json, why_not_to_json,
};
use crate::model::{
    ApplyAction, ApplyOutcome, ApplyPlan, Diagnostic, DiagnosticView, DoctorReport, ExitCode, HealthReport,
    IssueKind, PathEntry, PathVariable, PlatformMode, PresetKind, ResolutionCandidate,
    ResolutionReport, ShellKind, ShellProfileScanReport, WhyNotReport, diagnostic_views,
    first_winner,
};
use crate::path_env::{case_sensitive_of, parse_path, parsed, resolves_to, separator_of};
use crate::policy::{PathPolicy, drop_keys, ordering_presets_of};
use crate::text::{append, join_with, owned};

verus! {

/// Runtime inputs of a command.
#[derive(Clone, Debug, PartialEq, Eq)]
pub struct CommandContext {
    /// PATH value to parse.
    pub path_value: String,
    /// MANPATH value to parse.
    pub manpath_value: String,
    /// PATHEXT value used for Windows lookup modeling.
    pub pathext: Option<String>,
    /// Current working directory.
    pub cwd: String,
    /// HOME directory.
    pub home_dir: Option<String>,
    /// USERPROFILE directory.
    pub user_profile_dir: Option<String>,
}

/// What a command produced.
#[derive(Clone, Debug, PartialEq, Eq)]
pub struct CliResult {
    /// Process exit status.
    pub exit_code: ExitCode,
    /// Standard output text.
    pub stdout: String,
    /// Standard error text.
    pub stderr: String,
}

/// A successful result with the given output and nothing on standard error.
pub open spec fn is_success(r: CliResult, stdout: Seq<char>) -> bool {
    r.exit_code == ExitCode::Success && r.stdout@ == stdout && r.stderr@.len() == 0
}

/// The standard error text of a failure.
pub open spec fn error_text(message: Seq<char>) -> Seq<char> {
    "patholog: "@ + message + "\n"@
}

/// A failed result with the given message and nothing on standard output.
pub open spec fn is_error(r: CliResult, message: Seq<char>) -> bool {
    r.exit_code == ExitCode::GeneralError && r.stdout@.len() == 0 && r.stderr@ == error_text(
        message,
    )
}

/// The output of a JSON value: its pretty text with a final newline, with the given
/// status and nothing on standard error.
pub open spec fn is_json_output(r: CliResult, v: JsonView, code: ExitCode) -> bool {
    r.exit_code == code && r.stdout@ == pretty_json_text(v) + "\n"@ && r.stderr@.len() == 0
}

impl CliResult {
    /// A successful result.
    pub fn success(stdout: String) -> (r: CliResult)
        ensures
            is_success(r, stdout@),
    {
        CliResult { exit_code: ExitCode::Success, stdout, stderr: String::new() }
    }

    /// A failed result: the message after the program name, on standard error.
    pub fn error(message: &str) -> (r: CliResult)
        ensures
            is_error(r, message@),
    {
        let mut stderr = owned("patholog: ");
        append(&mut stderr, message);
        append(&mut stderr, "\n");
        CliResult { exit_code: ExitCode::GeneralError, stdout: String::new(), stderr }
    }

    /// A failed result carrying a usage error text as it is.
    pub fn clap_error(stderr: String) -> (r: CliResult)
        ensures
            r.exit_code == ExitCode::GeneralError,
            r.stdout@.len() == 0,
            r.stderr == stderr,
    {
        CliResult { exit_code: ExitCode::GeneralError, stdout: String::new(), stderr }
    }
}

/// The rendered JSON of a value as a result with the given status.
pub fn json_result_with(value: &JsonValue, code: ExitCode) -> (r: CliResult)
    ensures
        is_json_output(r, value@, code),
{
    match dumps_json(value) {
        Ok(stdout) => CliResult { exit_code: code, stdout, stderr: String::new() },
        Err(e) => CliResult::error(e.message.as_str()),
    }
}

/// The rendered JSON of a value as a successful result.
pub fn json_result(value: &JsonValue) -> (r: CliResult)
    ensures
        is_json_output(r, value@, ExitCode::Success),
{
    json_result_with(value, ExitCode::Success)
}

/// The result of a resolution command: the not-found status when nothing was found.
pub fn resolution_result(stdout: String, not_found: bool) -> (r: CliResult)
    ensures
        r.exit_code == (if not_found {
            ExitCode::CommandNotFound
        } else {
            ExitCode::Success
        }),
        r.stdout == stdout,
        r.stderr@.len() == 0,
{
    CliResult {
        exit_code: if not_found {
            ExitCode::CommandNotFound
        } else {
            ExitCode::Success
        },
        stdout,
        stderr: String::new(),
    }
}

/// The value of a variable in the context.
pub open spec fn value_of(context: CommandContext, variable: PathVariable) -> Seq<char> {
    match variable {
        PathVariable::Path => context.path_value@,
        PathVariable::Manpath => context.manpath_value@,
    }
}

/// The value of a variable in the context.
pub fn variable_value(context: &CommandContext, variable: PathVariable) -> (r: &str)
    ensures
        r@ == value_of(*context, variable),
{
    match variable {
        PathVariable::Path => context.path_value.as_str(),
        PathVariable::Manpath => context.manpath_value.as_str(),
    }
}

/// The configuration policy of a variable, when a configuration was loaded.
pub open spec fn config_policy_of(config: Option<LoadedConfig>, variable: PathVariable) -> Option<
    ConfigPolicy,
> {
    match config {
        Some(c) => Some(
            if variable == PathVariable::Path {
                c.config.path
            } else {
                c.config.manpath
            },
        ),
        None => None,
    }
}

/// The configuration policy of a variable, when a configuration was loaded.
pub fn config_policy(config: Option<&LoadedConfig>, variable: PathVariable) -> (r: Option<
    &ConfigPolicy,
>)
    ensures
        (match r {
            Some(p) => Some(*p),
            None => None::<ConfigPolicy>,
        }) == config_policy_of(
            match config {
                Some(c) => Some(*c),
                None => None,
            },
            variable,
        ),
{
    match config {
        Some(c) => Some(c.policy_for(variable)),
        None => None,
    }
}

/// The removal policy of a command: the configuration's entries and presets first, then
/// the command line's.
pub open spec fn merged_policy(
    p: PathPolicy,
    config_policy: Option<ConfigPolicy>,
    drop_entries: Seq<String>,
    presets: Seq<PresetKind>,
    variable: PathVariable,
) -> bool {
    p.drop_entries@ == (match config_policy {
            Some(c) => c.drop_entries@,
            None => Seq::<String>::empty(),
        }) + drop_entries && p.presets@ == (match config_policy {
            Some(c) => c.presets@,
            None => Seq::<PresetKind>::empty(),
        }) + presets && p.variable == variable
}

/// The removal policy of a command.
pub fn path_policy(
    config_policy: Option<&ConfigPolicy>,
    drop_entries: &[String],
    presets: &[PresetKind],
    variable: PathVariable,
) -> (p: PathPolicy)
    ensures
        merged_policy(
            p,
            match config_policy {
                Some(c) => Some(*c),
                None => None,
            },
            drop_entries@,
            presets@,
            variable,
        ),
{
    let drop_entries = merge_drop_entries(config_policy, drop_entries);
    let presets = merge_presets(config_policy, presets);
    PathPolicy::new(drop_entries.as_slice(), presets.as_slice(), variable)
}

/// The `PATHEXT` value of the context.
fn pathext_of(context: &CommandContext) -> (r: Option<&str>)
    ensures
        (match r {
            Some(s) => Some(s@),
            None => None::<Seq<char>>,
        }) == (match context.pathext {
            Some(p) => Some(p@),
            None => None::<Seq<char>>,
        }),
{
    match &context.pathext {
        Some(p) => Some(p.as_str()),
        None => None,
    }
}

// ----- print -----

/// Prints the entries of a variable: one numbered line per entry, or their JSON array.
pub fn run_print(
    variable: PathVariable,
    platform: PlatformMode,
    json: bool,
    context: &CommandContext,
) -> (r: CliResult)
    ensures
        exists|entries: Seq<PathEntry>, m: PlatformMode|
            {
                &&& resolves_to(platform, m)
                &&& parsed(
                    entries,
                    value_of(*context, variable),
                    separator_of(m),
                    case_sensitive_of(m),
                )
                &&& if json {
                    is_json_output(r, entries_json(entries), ExitCode::Success)
                } else {
                    is_success(r, finish(print_lines(entries)))
                }
            },
{
    let entries = parse_path(variable_value(context, variable), platform, pathext_of(context));
    if json {
        json_result(&entries_to_json(entries.as_slice()))
    } else {
        CliResult::success(format_print(entries.as_slice()))
    }
}

// ----- doctor -----

/// What `doctor` is asked to do.
#[derive(Clone, Debug, PartialEq, Eq)]
pub struct DoctorRequest {
    /// The variable to diagnose.
    pub variable: PathVariable,
    /// Platform rules.
    pub platform: PlatformMode,
    /// Whether to print JSON.
    pub json: bool,
    /// The `--fail-on` value, when given.
    pub fail_on: Option<String>,
    /// The command whose shadowed executables are also reported, when given.
    pub command: Option<String>,
    /// Entries to drop.
    pub drop_entries: Vec<String>,
    /// Presets to apply.
    pub presets: Vec<PresetKind>,
}

/// Whether some diagnostic has one of the selected kinds.
pub open spec fn selected_issue_found(selected: Seq<IssueKind>, ds: Seq<Diagnostic>) -> bool {
    exists|i: int| 0 <= i < ds.len() && selected.contains(#[trigger] ds[i].kind)
}

/// Whether some diagnostic has one of the selected kinds.
pub fn has_selected_issue(selected: &Vec<IssueKind>, ds: &Vec<Diagnostic>) -> (r: bool)
    ensures
        r == selected_issue_found(selected@, ds@),
{
    let mut i: usize = 0;
    while i < ds.len()
        invariant
            i <= ds.len(),
            forall|j: int| 0 <= j < i ==> !selected@.contains(#[trigger] ds@[j].kind),
        decreases ds.len() - i,
    {
        let mut k: usize = 0;
        let mut found = false;
        while k < selected.len()
            invariant
                k <= selected.len(),
                i < ds.len(),
                found == selected@.take(k as int).contains(ds@[i as int].kind),
            decreases selected.len() - k,
        {
            let hit = selected[k] == ds[i].kind;
            proof {
                let kind = ds@[i as int].kind;
                let t = selected@.take(k + 1);
                let p = selected@.take(k as int);
                assert(t == p.push(selected@[k as int]));
                if t.contains(kind) {
                    let j = choose|j: int| 0 <= j < t.len() && t[j] == kind;
                    if j < k {
                        assert(p[j] == kind);
                    }
                }
                if p.contains(kind) {
                    let j = choose|j: int| 0 <= j < p.len() && p[j] == kind;
                    assert(t[j] == kind);
                }
                if hit {
                    assert(t[k as int] == kind);
                }
            }
            found = found || hit;
            k += 1;
        }
        assert(selected@.take(selected.len() as int) == selected@);
        if found {
            return true;
        }
        i += 1;
    }
    false
}

/// The status of `doctor`: diagnostics found when one has a selected kind.
pub open spec fn doctor_status(selected: Seq<IssueKind>, ds: Seq<Diagnostic>) -> ExitCode {
    if selected_issue_found(selected, ds) {
        ExitCode::DiagnosticsFound
    } else {
        ExitCode::Success
    }
}

/// The output of `doctor` for a report: its text or JSON, with the status the selected
/// kinds give.
pub open spec fn doctor_outcome(
    r: CliResult,
    report: DoctorReport,
    selected: Seq<IssueKind>,
    json: bool,
) -> bool {
    let code = doctor_status(selected, report.diagnostics@);
    if json {
        is_json_output(r, doctor_json_of(report), code)
    } else {
        r.exit_code == code && r.stdout@ == doctor_text(report) && r.stderr@.len() == 0
    }
}

/// The output of `doctor` for a report.
pub fn doctor_result(report: &DoctorReport, selected: &Vec<IssueKind>, json: bool) -> (r:
    CliResult)
    ensures
        doctor_outcome(r, *report, selected@, json),
{
    let code = if has_selected_issue(selected, &report.diagnostics) {
        ExitCode::DiagnosticsFound
    } else {
        ExitCode::Success
    };
    if json {
        json_result_with(&doctor_to_json(report), code)
    } else {
        CliResult { exit_code: code, stdout: format_doctor(report), stderr: String::new() }
    }
}

/// A doctor report of a value under a policy, with extra diagnostics after its own.
pub open spec fn doctor_report_of(
    report: DoctorReport,
    value: Seq<char>,
    platform: PlatformMode,
    variable: PathVariable,
    policy: PathPolicy,
    extra: Seq<DiagnosticView>,
) -> bool {
    &&& report.variable == variable
    &&& exists|m: PlatformMode, readable: Seq<bool>|
        {
            &&& resolves_to(platform, m)
            &&& parsed(report.entries@, value, separator_of(m), case_sensitive_of(m))
            &&& crate::doctor::probed_flags(report.entries@, readable)
            &&& diagnostic_views(report.diagnostics@) == doctor_diags(
                report.entries@,
                readable,
                drop_keys(policy, case_sensitive_of(m)),
                ordering_presets_of(policy.presets@),
                variable,
            ) + extra
        }
}

/// The `--fail-on` text, empty when not given.
pub open spec fn opt_text(o: Option<String>) -> Seq<char> {
    match o {
        Some(s) => s@,
        None => Seq::<char>::empty(),
    }
}

/// The issue kinds of a configuration policy.
pub open spec fn config_fail_on(c: Option<ConfigPolicy>) -> Seq<IssueKind> {
    match c {
        Some(p) => p.fail_on@,
        None => Seq::<IssueKind>::empty(),
    }
}

/// The extra diagnostics of `doctor --command`: the shadowed executables of the command.
pub open spec fn command_diags(
    command: Option<String>,
    candidates: Seq<ResolutionCandidate>,
) -> Seq<DiagnosticView> {
    match command {
        Some(c) => shadowed_diags(c@, candidates),
        None => Seq::<DiagnosticView>::empty(),
    }
}

/// The error of `doctor --command` on another variable than PATH.
pub open spec fn doctor_command_error() -> Seq<char> {
    "doctor --command only supports --var path"@
}

/// Runs `doctor`: diagnoses the variable under the configuration's and the command line's
/// policy, adds the shadowed executables of `--command` (whose exact candidates are
/// `candidates`), and fails with the diagnostics-found status when a diagnostic has a kind
/// selected by the configuration's or the command line's `fail_on`.
pub fn run_doctor(
    request: &DoctorRequest,
    config: Result<Option<LoadedConfig>, String>,
    candidates: &Vec<ResolutionCandidate>,
    context: &CommandContext,
) -> (r: CliResult)
    ensures
        request.command is Some && request.variable != PathVariable::Path ==> is_error(
            r,
            doctor_command_error(),
        ),
        !(request.command is Some && request.variable != PathVariable::Path) ==> match config {
            Err(e) => is_error(r, e@),
            Ok(c) => {
                let cp = config_policy_of(c, request.variable);
                match fail_on_result(opt_text(request.fail_on)) {
                    Err(e) => is_error(r, e),
                    Ok(cli_kinds) => exists|report: DoctorReport, policy: PathPolicy|
                        {
                            &&& merged_policy(
                                policy,
                                cp,
                                request.drop_entries@,
                                request.presets@,
                                request.variable,
                            )
                            &&& doctor_report_of(
                                report,
                                value_of(*context, request.variable),
                                request.platform,
                                request.variable,
                                policy,
                                command_diags(request.command, candidates@),
                            )
                            &&& doctor_outcome(
                                r,
                                report,
                                unique_extend(unique_of(config_fail_on(cp)), cli_kinds),
                                request.json,
                            )
                        },
                }
            },
        },
{
    if request.command.is_some() && request.variable != PathVariable::Path {
        proof {
            reveal_strlit("doctor --command only supports --var path");
        }
        return CliResult::error("doctor --command only supports --var path");
    }
    let loaded = match config {
        Ok(c) => c,
        Err(e) => return CliResult::error(e.as_str()),
    };
    let cp = config_policy(loaded.as_ref(), request.variable);
    let policy = path_policy(
        cp,
        request.drop_entries.as_slice(),
        request.presets.as_slice(),
        request.variable,
    );
    let diagnosed = diagnose_path_with_policy(
        variable_value(context, request.variable),
        request.platform,
        pathext_of(context),
        request.variable,
        &policy,
    );
    let report = match &request.command {
        Some(command) => with_shadowed_diagnostics(diagnosed, command.as_str(), candidates),
        None => {
            assert(diagnostic_views(diagnosed.diagnostics@) + Seq::<DiagnosticView>::empty()
                == diagnostic_views(diagnosed.diagnostics@));
            diagnosed
        },
    };
    let fail_on_text = match &request.fail_on {
        Some(t) => t.as_str(),
        None => "",
    };
    proof {
        reveal_strlit("");
    }
    let cli_kinds = match parse_fail_on(fail_on_text) {
        Ok(k) => k,
        Err(e) => return CliResult::error(e.as_str()),
    };
    let selected = merge_fail_on(cp, cli_kinds.as_slice());
    let ghost cpv = config_policy_of(loaded, request.variable);
    assert(fail_on_text@ == opt_text(request.fail_on));
    assert(merged_policy(policy, cpv, request.drop_entries@, request.presets@, request.variable));
    assert(doctor_report_of(
        report,
        value_of(*context, request.variable),
        request.platform,
        request.variable,
        policy,
        command_diags(request.command, candidates@),
    ));
    assert(selected@ == unique_extend(unique_of(config_fail_on(cpv)), cli_kinds@));
    let r = doctor_result(&report, &selected, request.json);
    assert(doctor_outcome(r, report, unique_extend(unique_of(config_fail_on(cpv)), cli_kinds@), request.json));
    r
}

// ----- health -----

/// What `health` is asked to do.
#[derive(Clone, Debug, PartialEq, Eq)]
pub struct HealthRequest {
    /// The variable to score.
    pub variable: PathVariable,
    /// Platform rules.
    pub platform: PlatformMode,
    /// Whether to print JSON.
    pub json: bool,
    /// Entries to drop.
    pub drop_entries: Vec<String>,
    /// Presets to apply.
    pub presets: Vec<PresetKind>,
}

/// Runs `health`: the health summary of the doctor report of the variable; its status
/// does not depend on the diagnostics.
pub fn run_health(
    request: &HealthRequest,
    config: Result<Option<LoadedConfig>, String>,
    context: &CommandContext,
) -> (r: CliResult)
    ensures
        match config {
            Err(e) => is_error(r, e@),
            Ok(c) => exists|report: DoctorReport, policy: PathPolicy, health: HealthReport|
                {
                    &&& merged_policy(
                        policy,
                        config_policy_of(c, request.variable),
                        request.drop_entries@,
                        request.presets@,
                        request.variable,
                    )
                    &&& doctor_report_of(
                        report,
                        value_of(*context, request.variable),
                        request.platform,
                        request.variable,
                        policy,
                        Seq::<DiagnosticView>::empty(),
                    )
                    &&& crate::health::summarizes(health, report)
                    &&& if request.json {
                        is_json_output(r, health_json(health), ExitCode::Success)
                    } else {
                        is_success(r, health_text(health))
                    }
                },
        },
{
    let loaded = match config {
        Ok(c) => c,
        Err(e) => return CliResult::error(e.as_str()),
    };
    let cp = config_policy(loaded.as_ref(), request.variable);
    let policy = path_policy(
        cp,
        request.drop_entries.as_slice(),
        request.presets.as_slice(),
        request.variable,
    );
    let doctor_report = diagnose_path_with_policy(
        variable_value(context, request.variable),
        request.platform,
        pathext_of(context),
        request.variable,
        &policy,
    );
    assert(diagnostic_views(doctor_report.diagnostics@) + Seq::<DiagnosticView>::empty()
        == diagnostic_views(doctor_report.diagnostics@));
    let ghost before = doctor_report;
    let health = summarize_health(doctor_report);
    assert(crate::health::summarizes(health, before));
    let ghost cpv = config_policy_of(loaded, request.variable);
    assert(merged_policy(policy, cpv, request.drop_entries@, request.presets@, request.variable));
    assert(doctor_report_of(
        before,
        value_of(*context, request.variable),
        request.platform,
        request.variable,
        policy,
        Seq::<DiagnosticView>::empty(),
    ));
    if request.json {
        json_result(&health_to_json(&health))
    } else {
        CliResult::success(format_health(&health))
    }
}

// ----- clean -----

/// What `clean` is asked to do.
#[derive(Clone, Debug, PartialEq, Eq)]
pub struct CleanRequest {
    /// Platform rules.
    pub platform: PlatformMode,
    /// The variable to clean.
    pub variable: PathVariable,
    /// Print the cleaned value.
    pub stdout: bool,
    /// Print a shell snippet exporting the cleaned value.
    pub export: bool,
    /// The shell of the snippet.
    pub shell: Option<ShellKind>,
    /// Entries to drop.
    pub drop_entries: Vec<String>,
    /// Presets to apply.
    pub presets: Vec<PresetKind>,
}

/// The error of conflicting or missing output modes of `clean`, checked before anything is
/// read.
pub open spec fn clean_mode_error(stdout: bool, export: bool, shell: Option<ShellKind>) -> Option<
    Seq<char>,
> {
    if stdout && export {
        Some("clean output modes --stdout and --export are mutually exclusive"@)
    } else if !export && shell is Some {
        Some("clean --shell requires --export"@)
    } else if !stdout && !export {
        Some("clean requires --stdout or --export"@)
    } else {
        None
    }
}

/// The error of conflicting or missing output modes of `clean`.
pub fn check_clean_modes(stdout: bool, export: bool, shell: Option<ShellKind>) -> (r: Option<
    &'static str,
>)
    ensures
        (match r {
            Some(m) => Some(m@),
            None => None::<Seq<char>>,
        }) == clean_mode_error(stdout, export, shell),
{
    if stdout && export {
        Some("clean output modes --stdout and --export are mutually exclusive")
    } else if !export && shell.is_some() {
        Some("clean --shell requires --export")
    } else if !stdout && !export {
        Some("clean requires --stdout or --export")
    } else {
        None
    }
}

/// Runs `clean`: the cleaned value, or a shell snippet exporting it, with a final newline.
pub fn run_clean(
    request: &CleanRequest,
    config: Result<Option<LoadedConfig>, String>,
    context: &CommandContext,
) -> (r: CliResult)
    ensures
        match clean_mode_error(request.stdout, request.export, request.shell) {
            Some(m) => is_error(r, m),
            None => match config {
                Err(e) => is_error(r, e@),
                Ok(c) => if request.export && request.shell is None {
                    is_error(r, "clean --export requires --shell"@)
                } else {
                    exists|policy: PathPolicy, m: PlatformMode|
                        #![trigger drop_keys(policy, case_sensitive_of(m))]
                        {
                            let entries = clean_model(
                                value_of(*context, request.variable),
                                separator_of(m),
                                case_sensitive_of(m),
                                request.variable,
                                drop_keys(policy, case_sensitive_of(m)),
                            );
                            &&& merged_policy(
                                policy,
                                config_policy_of(c, request.variable),
                                request.drop_entries@,
                                request.presets@,
                                request.variable,
                            )
                            &&& resolves_to(request.platform, m)
                            &&& is_success(
                                r,
                                if request.export {
                                    export_text(
                                        entries,
                                        separator_of(m),
                                        request.shell.unwrap(),
                                        request.variable,
                                    ) + "\n"@
                                } else {
                                    join_with(entries, seq![separator_of(m)]) + "\n"@
                                },
                            )
                        }
                },
            },
        },
{
    match check_clean_modes(request.stdout, request.export, request.shell) {
        Some(m) => return CliResult::error(m),
        None => {},
    }
    let loaded = match config {
        Ok(c) => c,
        Err(e) => return CliResult::error(e.as_str()),
    };
    let cp = config_policy(loaded.as_ref(), request.variable);
    let ghost cpv = config_policy_of(loaded, request.variable);
    let policy = path_policy(
        cp,
        request.drop_entries.as_slice(),
        request.presets.as_slice(),
        request.variable,
    );
    assert(merged_policy(policy, cpv, request.drop_entries@, request.presets@, request.variable));
    if request.export {
        let shell = match request.shell {
            Some(s) => s,
            None => {
                proof {
                    reveal_strlit("clean --export requires --shell");
                }
                return CliResult::error("clean --export requires --shell");
            },
        };
        let mut out = clean_export_with_policy(
            variable_value(context, request.variable),
            request.platform,
            pathext_of(context),
            shell,
            request.variable,
            &policy,
        );
        append(&mut out, "\n");
        return CliResult::success(out);
    }
    let mut out = clean_path_with_policy(
        variable_value(context, request.variable),
        request.platform,
        pathext_of(context),
        request.variable,
        &policy,
    );
    append(&mut out, "\n");
    CliResult::success(out)
}

// ----- apply -----

/// The error of conflicting or missing modes of `apply`, checked before anything is read.
pub open spec fn apply_mode_error(
    dry_run: bool,
    yes: bool,
    no_backup: bool,
    shell: Option<ShellKind>,
) -> Option<Seq<char>> {
    if dry_run && yes {
        Some("apply cannot use --dry-run with --yes"@)
    } else if no_backup && !yes {
        Some("apply --no-backup requires --yes"@)
    } else if !dry_run && !yes {
        Some("apply requires --dry-run or --yes"@)
    } else if shell is None {
        Some("apply requires --shell"@)
    } else {
        None
    }
}

/// The error of conflicting or missing modes of `apply`.
pub fn check_apply_modes(dry_run: bool, yes: bool, no_backup: bool, shell: Option<ShellKind>) -> (r:
    Option<&'static str>)
    ensures
        (match r {
            Some(m) => Some(m@),
            None => None::<Seq<char>>,
        }) == apply_mode_error(dry_run, yes, no_backup, shell),
{
    if dry_run && yes {
        Some("apply cannot use --dry-run with --yes")
    } else if no_backup && !yes {
        Some("apply --no-backup requires --yes")
    } else if !dry_run && !yes {
        Some("apply requires --dry-run or --yes")
    } else if shell.is_none() {
        Some("apply requires --shell")
    } else {
        None
    }
}

/// A directory given on the command line, else the one of the context.
pub fn dir_or(given: &Option<String>, fallback: &Option<String>) -> (r: Option<String>)
    ensures
        r == (if given is Some {
            *given
        } else {
            *fallback
        }),
{
    match given {
        Some(d) => Some(d.clone()),
        None => match fallback {
            Some(d) => Some(d.clone()),
            None => None,
        },
    }
}

// ----- scan -----

/// The home directory that `scan` reads, when none is given: under Windows rules the user
/// profile directory first, else the home directory first.
pub open spec fn scan_home_of(context: CommandContext, resolved: PlatformMode) -> Option<String> {
    if resolved == PlatformMode::Windows {
        if context.user_profile_dir is Some {
            context.user_profile_dir
        } else {
            context.home_dir
        }
    } else {
        if context.home_dir is Some {
            context.home_dir
        } else {
            context.user_profile_dir
        }
    }
}

/// The home directory that `scan` reads, when none is given.
pub fn scan_home_dir(platform: PlatformMode, context: &CommandContext) -> (r: Option<String>)
    ensures
        exists|m: PlatformMode| resolves_to(platform, m) && r == scan_home_of(*context, m),
{
    let rules = crate::platform::resolve_platform_rules(platform, None);
    assert(resolves_to(platform, rules.mode));
    if rules.mode == PlatformMode::Windows {
        dir_or(&context.user_profile_dir, &context.home_dir)
    } else {
        dir_or(&context.home_dir, &context.user_profile_dir)
    }
}

/// The error of `scan` without a home directory.
pub open spec fn scan_home_error() -> Seq<char> {
    "scan requires a home directory; set HOME or pass --home"@
}

/// The home directory that `scan` reads: the one given on the command line, else the one
/// of the context for the platform rules; without either, the command fails.
pub fn scan_home(home: &Option<String>, platform: PlatformMode, context: &CommandContext) -> (r:
    Result<String, CliResult>)
    ensures
        exists|m: PlatformMode|
            resolves_to(platform, m) && match (if home is Some {
                *home
            } else {
                scan_home_of(*context, m)
            }) {
                Some(h) => r == Ok::<String, CliResult>(h),
                None => r matches Err(e) && is_error(e, scan_home_error()),
            },
{
    let rules = crate::platform::resolve_platform_rules(platform, None);
    assert(resolves_to(platform, rules.mode));
    let fallback = if rules.mode == PlatformMode::Windows {
        dir_or(&context.user_profile_dir, &context.home_dir)
    } else {
        dir_or(&context.home_dir, &context.user_profile_dir)
    };
    match dir_or(home, &fallback) {
        Some(h) => Ok(h),
        None => Err(CliResult::error("scan requires a home directory; set HOME or pass --home")),
    }
}

/// The output of `apply` for a plan that is not written.
pub fn apply_plan_result(plan: &ApplyPlan, json: bool) -> (r: CliResult)
    ensures
        json ==> is_json_output(r, plan_json(*plan), ExitCode::Success),
        !json ==> is_success(r, apply_plan_text(*plan)),
{
    if json {
        json_result(&apply_plan_to_json(plan))
    } else {
        CliResult::success(format_apply_plan(plan))
    }
}

/// The output of `apply` for a written plan.
pub fn apply_outcome_result(outcome: &ApplyOutcome, json: bool) -> (r: CliResult)
    ensures
        json ==> is_json_output(r, outcome_json(*outcome), ExitCode::Success),
        !json ==> is_success(r, apply_outcome_text(*outcome)),
{
    if json {
        json_result(&apply_outcome_to_json(outcome))
    } else {
        CliResult::success(format_apply_outcome(outcome))
    }
}

// ----- config -----

/// The name of the configuration file that `auto` looks for first.
pub const LOCAL_CONFIG_NAME: &'static str = "patholog.toml";

/// The name of the configuration file that `auto` looks for second.
pub const HIDDEN_CONFIG_NAME: &'static str = ".patholog.toml";

/// Whether a `--config` value asks for discovery in the working directory.
pub fn is_auto_config(arg: &str) -> (r: bool)
    ensures
        r == (arg@ == "auto"@),
{
    crate::text::same_text(arg, "auto")
}

/// The error of `auto` discovery that found no file.
pub open spec fn config_not_found_error() -> Seq<char> {
    "config auto did not find patholog.toml or .patholog.toml"@
}

/// The error of `auto` discovery that found no file.
pub fn config_not_found_message() -> (r: &'static str)
    ensures
        r@ == config_not_found_error(),
{
    "config auto did not find patholog.toml or .patholog.toml"
}

/// The error of a configuration file that could not be read.
pub open spec fn config_unreadable_error(path: Seq<char>, error: Seq<char>) -> Seq<char> {
    "config file is not readable: "@ + path + " ("@ + error + ")"@
}

/// The error of a configuration file that could not be read.
pub fn config_unreadable_message(path: &str, error: &str) -> (r: String)
    ensures
        r@ == config_unreadable_error(path@, error@),
{
    let mut r = owned("config file is not readable: ");
    append(&mut r, path);
    append(&mut r, " (");
    append(&mut r, error);
    append(&mut r, ")");
    r
}

/// The error of a configuration file whose syntax or keys are invalid.
pub open spec fn config_invalid_error(path: Seq<char>, error: Seq<char>) -> Seq<char> {
    "config file is invalid: "@ + path + " ("@ + error + ")"@
}

/// A loaded configuration from what its file was parsed into: the syntax error, or the
/// version and the two raw policy sections, which are then validated.
pub fn loaded_config(path: String, parsed: Result<(u64, RawPolicy, RawPolicy), String>) -> (r:
    Result<LoadedConfig, String>)
    ensures
        match parsed {
            Err(e) => r matches Err(m) && m@ == config_invalid_error(path@, e@),
            Ok((version, p, mp)) => if version != CONFIG_VERSION {
                r matches Err(m) && m@ == version_error(version)
            } else {
                match (r, policy_result(p), policy_result(mp)) {
                    (Ok(c), Ok(a), Ok(b)) => c.path == path && c.config.version == version
                        && policy_view(c.config.path) == a && policy_view(c.config.manpath) == b,
                    (Err(e), Err(s), _) => e@ == s,
                    (Err(e), Ok(_), Err(s)) => e@ == s,
                    _ => false,
                }
            },
        },
{
    match parsed {
        Err(e) => {
            let mut m = owned("config file is invalid: ");
            append(&mut m, path.as_str());
            append(&mut m, " (");
            append(&mut m, e.as_str());
            append(&mut m, ")");
            Err(m)
        },
        Ok((version, p, mp)) => match config_from_raw(version, &p, &mp) {
            Ok(config) => Ok(LoadedConfig { path, config }),
            Err(e) => Err(e),
        },
    }
}

/// Runs `config check`.
pub fn run_config_check(config: Result<LoadedConfig, String>) -> (r: CliResult)
    ensures
        match config {
            Ok(c) => is_success(r, config_check_text(c)),
            Err(e) => is_error(r, e@),
        },
{
    match config {
        Ok(c) => CliResult::success(format_config_check(&c)),
        Err(e) => CliResult::error(e.as_str()),
    }
}

/// Runs `config print`.
pub fn run_config_print(config: Result<LoadedConfig, String>, json: bool) -> (r: CliResult)
    ensures
        match config {
            Ok(c) => if json {
                is_json_output(r, config_json(c), ExitCode::Success)
            } else {
                is_success(r, config_print_text(c))
            },
            Err(e) => is_error(r, e@),
        },
{
    match config {
        Ok(c) => if json {
            json_result(&config_to_json(&c))
        } else {
            CliResult::success(format_config_print(&c))
        },
        Err(e) => CliResult::error(e.as_str()),
    }
}

// ----- resolution and scan output -----

/// The status of `why` and `conflicts`: not found without candidates.
pub open spec fn resolution_status(not_found: bool) -> ExitCode {
    if not_found {
        ExitCode::CommandNotFound
    } else {
        ExitCode::Success
    }
}

/// The output of `why` for a resolution: its text or JSON, with the not-found status when
/// there is no candidate.
pub fn run_why(report: &ResolutionReport, json: bool) -> (r: CliResult)
    ensures
        json ==> is_json_output(
            r,
            resolution_json(*report),
            resolution_status(report.candidates@.len() == 0),
        ),
        !json ==> r.exit_code == resolution_status(report.candidates@.len() == 0) && r.stdout@
            == why_text(*report) && r.stderr@.len() == 0,
{
    let not_found = report.candidates.len() == 0;
    let code = if not_found {
        ExitCode::CommandNotFound
    } else {
        ExitCode::Success
    };
    if json {
        json_result_with(&resolution_to_json(report), code)
    } else {
        resolution_result(format_why(report), not_found)
    }
}

/// The output of `conflicts` for a resolution.
pub fn run_conflicts(report: &ResolutionReport, json: bool) -> (r: CliResult)
    ensures
        json ==> is_json_output(
            r,
            resolution_json(*report),
            resolution_status(report.candidates@.len() == 0),
        ),
        !json ==> r.exit_code == resolution_status(report.candidates@.len() == 0) && r.stdout@
            == conflicts_text(*report) && r.stderr@.len() == 0,
{
    let not_found = report.candidates.len() == 0;
    let code = if not_found {
        ExitCode::CommandNotFound
    } else {
        ExitCode::Success
    };
    if json {
        json_result_with(&resolution_to_json(report), code)
    } else {
        resolution_result(format_conflicts(report), not_found)
    }
}

/// The output of `why-not` for an analysis: the not-found status unless a candidate wins.
pub fn run_why_not(report: &WhyNotReport, json: bool) -> (r: CliResult)
    ensures
        json ==> is_json_output(
            r,
            why_not_json(*report),
            resolution_status(first_winner(report.candidates@) is None),
        ),
        !json ==> r.exit_code == resolution_status(first_winner(report.candidates@) is None)
            && r.stdout@ == why_not_text(*report) && r.stderr@.len() == 0,
{
    let not_found = !report.found();
    let code = if not_found {
        ExitCode::CommandNotFound
    } else {
        ExitCode::Success
    };
    if json {
        json_result_with(&why_not_to_json(report), code)
    } else {
        resolution_result(format_why_not(report), not_found)
    }
}

/// The output of `scan` for a scan report.
pub fn run_scan(report: &ShellProfileScanReport, json: bool) -> (r: CliResult)
    ensures
        json ==> is_json_output(r, scan_json(*report), ExitCode::Success),
        !json ==> is_success(r, scan_text(*report)),
{
    if json {
        json_result(&shell_profile_scan_to_json(report))
    } else {
        CliResult::success(format_shell_profile_scan(report))
    }
}

// ----- apply steps -----

/// What `apply` is asked to do.
#[derive(Clone, Debug, PartialEq, Eq)]
pub struct ApplyRequest {
    /// Platform rules.
    pub platform: PlatformMode,
    /// Whether to print JSON.
    pub json: bool,
    /// Plan without writing.
    pub dry_run: bool,
    /// Write the profile.
    pub yes: bool,
    /// Write without a backup.
    pub no_backup: bool,
    /// The shell whose profile is edited.
    pub shell: Option<ShellKind>,
    /// Home directory given on the command line.
    pub home: Option<String>,
    /// Entries to drop.
    pub drop_entries: Vec<String>,
    /// Presets to apply.
    pub presets: Vec<PresetKind>,
}

/// What `apply` plans with, once its options are checked and its configuration read.
#[derive(Clone, Debug, PartialEq, Eq)]
pub struct ApplyTarget {
    /// The shell whose profile is edited.
    pub shell: ShellKind,
    /// The removal policy of the cleaned PATH.
    pub policy: PathPolicy,
    /// Home directory for the default profile.
    pub home_dir: Option<String>,
    /// Windows user profile directory for the default PowerShell profile.
    pub user_profile_dir: Option<String>,
}

/// Checks the options of `apply` and reads its configuration: the first mode error, the
/// configuration's error, or the shell, the PATH policy of the configuration and the
/// command line, and the directories (`--home` for both when given).
pub fn apply_target(
    request: &ApplyRequest,
    config: Result<Option<LoadedConfig>, String>,
    context: &CommandContext,
) -> (r: Result<ApplyTarget, CliResult>)
    ensures
        match apply_mode_error(request.dry_run, request.yes, request.no_backup, request.shell) {
            Some(m) => r matches Err(e) && is_error(e, m),
            None => match config {
                Err(m) => r matches Err(e) && is_error(e, m@),
                Ok(c) => r matches Ok(t) && Some(t.shell) == request.shell && merged_policy(
                    t.policy,
                    config_policy_of(c, PathVariable::Path),
                    request.drop_entries@,
                    request.presets@,
                    PathVariable::Path,
                ) && t.home_dir == (if request.home is Some {
                    request.home
                } else {
                    context.home_dir
                }) && t.user_profile_dir == (if request.home is Some {
                    request.home
                } else {
                    context.user_profile_dir
                }),
            },
        },
{
    match check_apply_modes(request.dry_run, request.yes, request.no_backup, request.shell) {
        Some(m) => return Err(CliResult::error(m)),
        None => {},
    }
    let shell = match request.shell {
        Some(s) => s,
        None => return Err(CliResult::error("apply requires --shell")),
    };
    let loaded = match config {
        Ok(c) => c,
        Err(e) => return Err(CliResult::error(e.as_str())),
    };
    let cp = config_policy(loaded.as_ref(), PathVariable::Path);
    let policy = path_policy(
        cp,
        request.drop_entries.as_slice(),
        request.presets.as_slice(),
        PathVariable::Path,
    );
    Ok(
        ApplyTarget {
            shell,
            policy,
            home_dir: dir_or(&request.home, &context.home_dir),
            user_profile_dir: dir_or(&request.home, &context.user_profile_dir),
        },
    )
}

/// What `apply` does once its plan is known.
#[derive(Clone, Debug, PartialEq, Eq)]
pub enum ApplyStep {
    /// The command is over with this result.
    Done(CliResult),
    /// The plan is to be written, with a backup or not.
    Write(ApplyPlan, bool),
}

/// The step after planning: the planning error, the plan itself for a dry run, or the
/// write of the plan, with a backup unless `--no-backup`.
pub fn apply_after_plan(request: &ApplyRequest, plan: Result<ApplyPlan, String>) -> (r: ApplyStep)
    ensures
        match plan {
            Err(m) => r matches ApplyStep::Done(e) && is_error(e, m@),
            Ok(p) => if request.dry_run {
                r matches ApplyStep::Done(out) && (request.json ==> is_json_output(
                    out,
                    plan_json(p),
                    ExitCode::Success,
                )) && (!request.json ==> is_success(out, apply_plan_text(p)))
            } else {
                r == ApplyStep::Write(p, !request.no_backup)
            },
        },
{
    match plan {
        Err(m) => ApplyStep::Done(CliResult::error(m.as_str())),
        Ok(p) => if request.dry_run {
            ApplyStep::Done(apply_plan_result(&p, request.json))
        } else {
            ApplyStep::Write(p, !request.no_backup)
        },
    }
}

/// The result of writing a plan.
pub fn apply_after_write(request: &ApplyRequest, outcome: Result<ApplyOutcome, String>) -> (r:
    CliResult)
    ensures
        match outcome {
            Err(m) => is_error(r, m@),
            Ok(o) => (request.json ==> is_json_output(r, outcome_json(o), ExitCode::Success)) && (
            !request.json ==> is_success(r, apply_outcome_text(o))),
        },
{
    match outcome {
        Err(m) => CliResult::error(m.as_str()),
        Ok(o) => apply_outcome_result(&o, request.json),
    }
}

/// The file work that writing a plan takes: whether the profile exists beforehand and its
/// text and permissions are read (append and replace), whether it is backed up first
/// (append and replace, when asked), and whether the write must create a new file.
#[derive(Clone, Copy, Debug, PartialEq, Eq, Structural)]
pub struct WriteSteps {
    /// Read the current profile text and permissions.
    pub read_existing: bool,
    /// Copy the profile to a backup first.
    pub backup: bool,
    /// Create the profile; never replace an existing file.
    pub create_new: bool,
}

/// The outcome of writing a plan: the plan marked as written, the profile written, and the
/// backup reported exactly when one was made.
pub fn written_outcome(plan: ApplyPlan, backup_path: Option<String>) -> (r: ApplyOutcome)
    ensures
        r.plan == (ApplyPlan { would_write: true, ..plan }),
        r.wrote,
        r.backup_path == backup_path,
        r.backup_created == (backup_path is Some),
{
    let mut plan = plan;
    plan.would_write = true;
    let backup_created = backup_path.is_some();
    ApplyOutcome { plan, wrote: true, backup_path, backup_created }
}

/// The file work that writing a plan takes.
pub fn write_steps(action: ApplyAction, create_backup: bool) -> (r: WriteSteps)
    ensures
        r.read_existing == (action != ApplyAction::CreateProfile),
        r.backup == (create_backup && action != ApplyAction::CreateProfile),
        r.create_new == (action == ApplyAction::CreateProfile),
{
    let create = action == ApplyAction::CreateProfile;
    WriteSteps { read_existing: !create, backup: create_backup && !create, create_new: create }
}

} // verus!
