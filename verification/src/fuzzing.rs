//! Entry points for fuzzing the read-only behaviours: parsing, cleaning, diagnosing and
//! JSON rendering of a PATH value.
use vstd::prelude::*;
use crate::clean::{clean_model, export_text};
use crate::doctor::doctor_diags;
use crate::json::{
    JsonError, doctor_json_of, doctor_to_json, dumps_json, entries_json, entries_to_json,
    pretty_json_text,
};
use crate::model::{
    DoctorReport, PathEntry, PathVariable, PlatformMode, PresetKind, ShellKind, diagnostic_views,
};
use crate::path_env::{case_sensitive_of, parsed, resolves_to, separator_of};
use crate::text::join_with;

verus! {

/// Runs PATH cleaning with injected platform rules.
pub fn clean_path(path_value: &str, platform_mode: PlatformMode, pathext: Option<&str>) -> (out:
    String)
    ensures
        exists|m: PlatformMode|
            resolves_to(platform_mode, m) && out@ == join_with(
                clean_model(
                    path_value@,
                    separator_of(m),
                    case_sensitive_of(m),
                    PathVariable::Path,
                    Seq::<Seq<char>>::empty(),
                ),
                seq![separator_of(m)],
            ),
{
    crate::clean::clean_path(path_value, platform_mode, pathext)
}

/// Runs PATH export formatting with injected platform and shell rules.
pub fn clean_export(
    path_value: &str,
    platform_mode: PlatformMode,
    pathext: Option<&str>,
    shell: ShellKind,
) -> (r: String)
    ensures
        exists|m: PlatformMode|
            resolves_to(platform_mode, m) && r@ == export_text(
                clean_model(
                    path_value@,
                    separator_of(m),
                    case_sensitive_of(m),
                    PathVariable::Path,
                    Seq::<Seq<char>>::empty(),
                ),
                separator_of(m),
                shell,
                PathVariable::Path,
            ),
{
    crate::clean::clean_export(path_value, platform_mode, pathext, shell)
}

/// Parses a PATH value with injected platform rules.
pub fn parse_path(path_value: &str, platform_mode: PlatformMode, pathext: Option<&str>) -> (out:
    Vec<PathEntry>)
    ensures
        exists|m: PlatformMode|
            resolves_to(platform_mode, m) && parsed(
                out@,
                path_value@,
                separator_of(m),
                case_sensitive_of(m),
            ),
{
    crate::path_env::parse_path(path_value, platform_mode, pathext)
}

/// Runs doctor diagnostics with injected platform rules.
pub fn diagnose_path(path_value: &str, platform_mode: PlatformMode, pathext: Option<&str>) -> (r:
    DoctorReport)
    ensures
        r.variable == PathVariable::Path,
        exists|m: PlatformMode, readable: Seq<bool>|
            resolves_to(platform_mode, m) && parsed(
                r.entries@,
                path_value@,
                separator_of(m),
                case_sensitive_of(m),
            ) && crate::doctor::probed_flags(r.entries@, readable) && diagnostic_views(r.diagnostics@)
                == doctor_diags(
                r.entries@,
                readable,
                Seq::<Seq<char>>::empty(),
                Seq::<PresetKind>::empty(),
                PathVariable::Path,
            ),
{
    crate::doctor::diagnose_path(path_value, platform_mode, pathext)
}

/// Renders parsed PATH entries as deterministic JSON.
pub fn print_json(entries: &[PathEntry]) -> (r: Result<String, JsonError>)
    ensures
        r is Ok,
        r matches Ok(s) ==> s@ == pretty_json_text(entries_json(entries@)) + "\n"@,
{
    dumps_json(&entries_to_json(entries))
}

/// Renders doctor diagnostics as deterministic JSON.
pub fn doctor_json(report: &DoctorReport) -> (r: Result<String, JsonError>)
    ensures
        r is Ok,
        r matches Ok(s) ==> s@ == pretty_json_text(doctor_json_of(*report)) + "\n"@,
{
    dumps_json(&doctor_to_json(report))
}

} // verus!
