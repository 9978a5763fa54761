//! Public data model: path-like variables, parsed entries, diagnostics and reports.
use vstd::prelude::*;

verus! {

/// Supported path-like environment variables.
#[derive(Clone, Copy, Debug, PartialEq, Eq, Structural)]
pub enum PathVariable {
    /// Executable search path.
    Path,
    /// Manual page search path.
    Manpath,
}

impl PathVariable {
    /// Stable CLI and JSON string.
    pub fn as_str(self) -> (r: &'static str)
        ensures
            r@ == path_variable_name(self),
    {
        proof {
            reveal_strlit("path");
            reveal_strlit("manpath");
        }
        match self {
            PathVariable::Path => "path",
            PathVariable::Manpath => "manpath",
        }
    }

    /// Environment variable name for POSIX shell output and process lookup.
    pub fn env_name(self) -> (r: &'static str)
        ensures
            r@ == path_variable_env_name(self),
    {
        proof {
            reveal_strlit("PATH");
            reveal_strlit("MANPATH");
        }
        match self {
            PathVariable::Path => "PATH",
            PathVariable::Manpath => "MANPATH",
        }
    }

    /// PowerShell environment variable name.
    pub fn powershell_env_name(self) -> (r: &'static str)
        ensures
            r@ == path_variable_powershell_name(self),
    {
        proof {
            reveal_strlit("Path");
            reveal_strlit("MANPATH");
        }
        match self {
            PathVariable::Path => "Path",
            PathVariable::Manpath => "MANPATH",
        }
    }
}

/// The stable name of a path-like variable.
pub open spec fn path_variable_name(v: PathVariable) -> Seq<char> {
    match v {
        PathVariable::Path => seq!['p', 'a', 't', 'h'],
        PathVariable::Manpath => seq!['m', 'a', 'n', 'p', 'a', 't', 'h'],
    }
}

/// The environment variable name of a path-like variable.
pub open spec fn path_variable_env_name(v: PathVariable) -> Seq<char> {
    match v {
        PathVariable::Path => seq!['P', 'A', 'T', 'H'],
        PathVariable::Manpath => seq!['M', 'A', 'N', 'P', 'A', 'T', 'H'],
    }
}

/// The PowerShell environment variable name of a path-like variable.
pub open spec fn path_variable_powershell_name(v: PathVariable) -> Seq<char> {
    match v {
        PathVariable::Path => seq!['P', 'a', 't', 'h'],
        PathVariable::Manpath => seq!['M', 'A', 'N', 'P', 'A', 'T', 'H'],
    }
}

/// Supported PATH parsing and command-resolution modes.
#[derive(Clone, Copy, Debug, PartialEq, Eq, Structural)]
pub enum PlatformMode {
    /// Resolve to the host platform rules at runtime.
    Auto,
    /// POSIX `PATH` semantics.
    Posix,
    /// Windows `PATH` and `PATHEXT` semantics.
    Windows,
}

/// Concrete platform rules after resolving [`PlatformMode::Auto`].
#[derive(Clone, Debug, PartialEq, Eq)]
pub struct PlatformRules {
    /// Resolved platform mode.
    pub mode: PlatformMode,
    /// PATH separator for this platform.
    pub separator: char,
    /// Whether comparison keys are case-sensitive.
    pub case_sensitive: bool,
    /// Windows executable suffixes, empty for POSIX mode.
    pub pathext: Vec<String>,
}

/// Shell syntax variants used for generated snippets.
#[derive(Clone, Copy, Debug, PartialEq, Eq, Structural)]
pub enum ShellKind {
    /// Bourne Again Shell syntax.
    Bash,
    /// fish shell syntax.
    Fish,
    /// PowerShell syntax.
    Pwsh,
    /// Z shell syntax.
    Zsh,
}

impl ShellKind {
    /// Stable shell string for human and JSON output.
    pub fn as_str(self) -> (r: &'static str)
        ensures
            r@ == shell_name(self),
    {
        proof {
            reveal_strlit("bash");
            reveal_strlit("fish");
            reveal_strlit("pwsh");
            reveal_strlit("zsh");
        }
        match self {
            ShellKind::Bash => "bash",
            ShellKind::Fish => "fish",
            ShellKind::Pwsh => "pwsh",
            ShellKind::Zsh => "zsh",
        }
    }
}

/// The stable name of a shell.
pub open spec fn shell_name(s: ShellKind) -> Seq<char> {
    match s {
        ShellKind::Bash => seq!['b', 'a', 's', 'h'],
        ShellKind::Fish => seq!['f', 'i', 's', 'h'],
        ShellKind::Pwsh => seq!['p', 'w', 's', 'h'],
        ShellKind::Zsh => seq!['z', 's', 'h'],
    }
}

/// Built-in path policy presets.
#[derive(Clone, Copy, Debug, PartialEq, Eq, Structural)]
pub enum PresetKind {
    /// Homebrew path ordering checks.
    Homebrew,
    /// Cargo user tool path checks.
    Cargo,
    /// pyenv shim path checks.
    Pyenv,
    /// Fink path removal rules.
    Fink,
}

impl PresetKind {
    /// Stable accepted strings used in CLI flags and config files.
    pub const SUPPORTED_VALUES: &'static str = "homebrew, cargo, pyenv, fink";

    /// Stable CLI string.
    pub fn as_str(self) -> (r: &'static str)
        ensures
            r@ == preset_name(self),
    {
        proof {
            reveal_strlit("homebrew");
            reveal_strlit("cargo");
            reveal_strlit("pyenv");
            reveal_strlit("fink");
        }
        match self {
            PresetKind::Homebrew => "homebrew",
            PresetKind::Cargo => "cargo",
            PresetKind::Pyenv => "pyenv",
            PresetKind::Fink => "fink",
        }
    }

    /// Parses a stable preset string.
    pub fn parse(value: &str) -> (r: Result<PresetKind, ParsePresetKindError>)
        ensures
            r matches Ok(k) ==> preset_name(k) == value@,
            r is Err <==> (forall|k: PresetKind| preset_name(k) != value@),
    {
        proof {
            reveal_strlit("homebrew");
            reveal_strlit("cargo");
            reveal_strlit("pyenv");
            reveal_strlit("fink");
            assert("homebrew"@ =~= preset_name(PresetKind::Homebrew));
            assert("cargo"@ =~= preset_name(PresetKind::Cargo));
            assert("pyenv"@ =~= preset_name(PresetKind::Pyenv));
            assert("fink"@ =~= preset_name(PresetKind::Fink));
        }
        if crate::text::same_text(value, "homebrew") {
            Ok(PresetKind::Homebrew)
        } else if crate::text::same_text(value, "cargo") {
            Ok(PresetKind::Cargo)
        } else if crate::text::same_text(value, "pyenv") {
            Ok(PresetKind::Pyenv)
        } else if crate::text::same_text(value, "fink") {
            Ok(PresetKind::Fink)
        } else {
            proof {
                assert forall|k: PresetKind| preset_name(k) != value@ by {
                    match k {
                        PresetKind::Homebrew => {},
                        PresetKind::Cargo => {},
                        PresetKind::Pyenv => {},
                        PresetKind::Fink => {},
                    }
                }
            }
            Err(ParsePresetKindError)
        }
    }
}

/// The stable name of a preset.
pub open spec fn preset_name(k: PresetKind) -> Seq<char> {
    match k {
        PresetKind::Homebrew => seq!['h', 'o', 'm', 'e', 'b', 'r', 'e', 'w'],
        PresetKind::Cargo => seq!['c', 'a', 'r', 'g', 'o'],
        PresetKind::Pyenv => seq!['p', 'y', 'e', 'n', 'v'],
        PresetKind::Fink => seq!['f', 'i', 'n', 'k'],
    }
}

impl std::str::FromStr for PresetKind {
    type Err = ParsePresetKindError;

    fn from_str(value: &str) -> (r: Result<PresetKind, ParsePresetKindError>)
        ensures
            r matches Ok(k) ==> preset_name(k) == value@,
            r is Err <==> (forall|k: PresetKind| preset_name(k) != value@),
    {
        PresetKind::parse(value)
    }
}

/// Error returned when parsing an unsupported path policy preset.
#[derive(Clone, Copy, Debug, PartialEq, Eq, Structural)]
pub struct ParsePresetKindError;

impl ParsePresetKindError {
    /// The message the error displays.
    pub fn message(&self) -> (r: String)
        ensures
            r@ == expected_one_of(PresetKind::SUPPORTED_VALUES@),
    {
        let mut r = crate::text::owned("expected one of: ");
        crate::text::append(&mut r, PresetKind::SUPPORTED_VALUES);
        proof {
            reveal_strlit("expected one of: ");
        }
        r
    }
}

/// The message of a parse error listing the accepted values.
pub open spec fn expected_one_of(values: Seq<char>) -> Seq<char> {
    seq!['e', 'x', 'p', 'e', 'c', 't', 'e', 'd', ' ', 'o', 'n', 'e', ' ', 'o', 'f', ':', ' ']
        + values
}

/// Stable diagnostic issue kinds.
#[derive(Clone, Copy, Debug, PartialEq, Eq, Structural)]
pub enum IssueKind {
    /// Duplicate PATH entries after conservative comparison-key normalization.
    Duplicate,
    /// Empty PATH entry.
    Empty,
    /// PATH entry that does not exist.
    Missing,
    /// PATH entry that exists but is not a directory.
    NotDirectory,
    /// PATH entry that exists as a directory but cannot be read.
    Unreadable,
    /// Heuristic warning about PATH entry ordering.
    SuspiciousOrder,
    /// A command candidate hidden by an earlier PATH entry.
    ShadowedCommand,
    /// PATH-like entry explicitly selected for removal.
    Unwanted,
}

impl IssueKind {
    /// Stable accepted strings used in CLI flags and config files.
    pub const SUPPORTED_VALUES: &'static str = "duplicate, empty, missing, not_directory, unreadable, suspicious_order, shadowed_command, unwanted";

    /// Stable string used in CLI flags and JSON output.
    pub fn as_str(self) -> (r: &'static str)
        ensures
            r@ == issue_name(self),
    {
        proof {
            reveal_strlit("duplicate");
            reveal_strlit("empty");
            reveal_strlit("missing");
            reveal_strlit("not_directory");
            reveal_strlit("unreadable");
            reveal_strlit("suspicious_order");
            reveal_strlit("shadowed_command");
            reveal_strlit("unwanted");
        }
        match self {
            IssueKind::Duplicate => "duplicate",
            IssueKind::Empty => "empty",
            IssueKind::Missing => "missing",
            IssueKind::NotDirectory => "not_directory",
            IssueKind::Unreadable => "unreadable",
            IssueKind::SuspiciousOrder => "suspicious_order",
            IssueKind::ShadowedCommand => "shadowed_command",
            IssueKind::Unwanted => "unwanted",
        }
    }

    /// Parses a stable issue kind string.
    pub fn parse(value: &str) -> (r: Result<IssueKind, ParseIssueKindError>)
        ensures
            r matches Ok(k) ==> issue_name(k) == value@,
            r is Err <==> (forall|k: IssueKind| issue_name(k) != value@),
    {
        let mut i: usize = 0;
        while i < 8
            invariant
                i <= 8,
                forall|j: int| 0 <= j < i ==> issue_name(#[trigger] issue_at(j)) != value@,
            decreases 8 - i,
        {
            let kind = issue_kind_at(i);
            if crate::text::same_text(kind.as_str(), value) {
                return Ok(kind);
            }
            i += 1;
        }
        proof {
            assert forall|k: IssueKind| issue_name(k) != value@ by {
                assert(issue_at(issue_position(k)) == k);
            }
        }
        Err(ParseIssueKindError)
    }
}

/// The issue kind at a position of the declaration order.
pub open spec fn issue_at(i: int) -> IssueKind {
    if i == 0 {
        IssueKind::Duplicate
    } else if i == 1 {
        IssueKind::Empty
    } else if i == 2 {
        IssueKind::Missing
    } else if i == 3 {
        IssueKind::NotDirectory
    } else if i == 4 {
        IssueKind::Unreadable
    } else if i == 5 {
        IssueKind::SuspiciousOrder
    } else if i == 6 {
        IssueKind::ShadowedCommand
    } else {
        IssueKind::Unwanted
    }
}

/// The position of an issue kind in the declaration order.
pub open spec fn issue_position(k: IssueKind) -> int {
    match k {
        IssueKind::Duplicate => 0,
        IssueKind::Empty => 1,
        IssueKind::Missing => 2,
        IssueKind::NotDirectory => 3,
        IssueKind::Unreadable => 4,
        IssueKind::SuspiciousOrder => 5,
        IssueKind::ShadowedCommand => 6,
        IssueKind::Unwanted => 7,
    }
}

/// The issue kind at a position of the declaration order.
pub fn issue_kind_at(i: usize) -> (k: IssueKind)
    requires
        i < 8,
    ensures
        k == issue_at(i as int),
        issue_position(k) == i,
{
    if i == 0 {
        IssueKind::Duplicate
    } else if i == 1 {
        IssueKind::Empty
    } else if i == 2 {
        IssueKind::Missing
    } else if i == 3 {
        IssueKind::NotDirectory
    } else if i == 4 {
        IssueKind::Unreadable
    } else if i == 5 {
        IssueKind::SuspiciousOrder
    } else if i == 6 {
        IssueKind::ShadowedCommand
    } else {
        IssueKind::Unwanted
    }
}

/// The stable name of an issue kind.
pub open spec fn issue_name(k: IssueKind) -> Seq<char> {
    match k {
        IssueKind::Duplicate => seq!['d', 'u', 'p', 'l', 'i', 'c', 'a', 't', 'e'],
        IssueKind::Empty => seq!['e', 'm', 'p', 't', 'y'],
        IssueKind::Missing => seq!['m', 'i', 's', 's', 'i', 'n', 'g'],
        IssueKind::NotDirectory => seq![
            'n', 'o', 't', '_', 'd', 'i', 'r', 'e', 'c', 't', 'o', 'r', 'y',
        ],
        IssueKind::Unreadable => seq!['u', 'n', 'r', 'e', 'a', 'd', 'a', 'b', 'l', 'e'],
        IssueKind::SuspiciousOrder => seq![
            's', 'u', 's', 'p', 'i', 'c', 'i', 'o', 'u', 's', '_', 'o', 'r', 'd', 'e', 'r',
        ],
        IssueKind::ShadowedCommand => seq![
            's', 'h', 'a', 'd', 'o', 'w', 'e', 'd', '_', 'c', 'o', 'm', 'm', 'a', 'n', 'd',
        ],
        IssueKind::Unwanted => seq!['u', 'n', 'w', 'a', 'n', 't', 'e', 'd'],
    }
}

impl std::str::FromStr for IssueKind {
    type Err = ParseIssueKindError;

    fn from_str(value: &str) -> (r: Result<IssueKind, ParseIssueKindError>)
        ensures
            r matches Ok(k) ==> issue_name(k) == value@,
            r is Err <==> (forall|k: IssueKind| issue_name(k) != value@),
    {
        IssueKind::parse(value)
    }
}

/// Error returned when parsing an unsupported diagnostic issue kind.
#[derive(Clone, Copy, Debug, PartialEq, Eq, Structural)]
pub struct ParseIssueKindError;

impl ParseIssueKindError {
    /// The message the error displays.
    pub fn message(&self) -> (r: String)
        ensures
            r@ == expected_one_of(IssueKind::SUPPORTED_VALUES@),
    {
        let mut r = crate::text::owned("expected one of: ");
        crate::text::append(&mut r, IssueKind::SUPPORTED_VALUES);
        proof {
            reveal_strlit("expected one of: ");
        }
        r
    }
}

/// A diagnostic produced by the doctor.
#[derive(Clone, Debug, PartialEq, Eq)]
pub struct Diagnostic {
    /// Stable diagnostic kind.
    pub kind: IssueKind,
    /// Human-readable diagnostic message.
    pub message: String,
    /// Primary PATH entry index, if applicable.
    pub entry_index: Option<usize>,
    /// Primary PATH entry value, if applicable.
    pub entry_value: Option<String>,
    /// Related PATH entry indexes.
    pub related_indexes: Vec<usize>,
}

/// The mathematical view of a diagnostic.
pub struct DiagnosticView {
    /// Stable diagnostic kind.
    pub kind: IssueKind,
    /// Message text.
    pub message: Seq<char>,
    /// Primary entry index, if any.
    pub entry_index: Option<usize>,
    /// Primary entry value, if any.
    pub entry_value: Option<Seq<char>>,
    /// Related entry indexes.
    pub related_indexes: Seq<usize>,
}

impl View for Diagnostic {
    type V = DiagnosticView;

    open spec fn view(&self) -> DiagnosticView {
        DiagnosticView {
            kind: self.kind,
            message: self.message@,
            entry_index: self.entry_index,
            entry_value: match self.entry_value {
                Some(v) => Some(v@),
                None => None,
            },
            related_indexes: self.related_indexes@,
        }
    }
}

/// The views of a sequence of diagnostics.
pub open spec fn diagnostic_views(ds: Seq<Diagnostic>) -> Seq<DiagnosticView> {
    ds.map_values(|d: Diagnostic| d@)
}

/// A parsed PATH entry.
#[derive(Clone, Debug, PartialEq, Eq)]
pub struct PathEntry {
    /// One-based entry index.
    pub index: usize,
    /// Original PATH entry text.
    pub raw: String,
    /// Display text; the raw value is preserved.
    pub display: String,
    /// Conservative comparison key for duplicate detection.
    pub comparison_key: String,
    /// Whether the entry exists on the native filesystem.
    pub exists: bool,
    /// Whether the entry exists and is a directory.
    pub is_dir: bool,
    /// Whether this is an empty PATH entry.
    pub is_empty: bool,
}

/// Path-like environment variable health report.
#[derive(Clone, Debug, PartialEq, Eq)]
pub struct DoctorReport {
    /// Path-like variable being diagnosed.
    pub variable: PathVariable,
    /// Parsed path-like variable entries.
    pub entries: Vec<PathEntry>,
    /// Diagnostics emitted for the entries.
    pub diagnostics: Vec<Diagnostic>,
}

/// Process exit codes.
#[derive(Clone, Copy, Debug, PartialEq, Eq, Structural)]
pub enum ExitCode {
    /// Command completed successfully.
    Success,
    /// Usage, runtime, or output failure.
    GeneralError,
    /// `doctor --fail-on` matched selected diagnostics.
    DiagnosticsFound,
    /// `why` or `conflicts` found no executable candidates.
    CommandNotFound,
}

impl ExitCode {
    /// Numeric process status code.
    pub fn code(self) -> (r: i32)
        ensures
            r == exit_status(self),
    {
        match self {
            ExitCode::Success => 0,
            ExitCode::GeneralError => 1,
            ExitCode::DiagnosticsFound => 2,
            ExitCode::CommandNotFound => 3,
        }
    }
}

/// The numeric status of an exit code.
pub open spec fn exit_status(c: ExitCode) -> i32 {
    match c {
        ExitCode::Success => 0,
        ExitCode::GeneralError => 1,
        ExitCode::DiagnosticsFound => 2,
        ExitCode::CommandNotFound => 3,
    }
}

/// Severity summary for path health diagnostics.
#[derive(Clone, Copy, Debug, PartialEq, Eq, Structural)]
pub enum HealthSeverity {
    /// No diagnostics were reported.
    NoIssues,
    /// Only warning-level diagnostics were reported.
    Warning,
    /// At least one error-level diagnostic was reported.
    Error,
}

impl HealthSeverity {
    /// Stable string used in JSON and human output.
    pub fn as_str(self) -> (r: &'static str)
        ensures
            r@ == severity_name(self),
    {
        proof {
            reveal_strlit("none");
            reveal_strlit("warning");
            reveal_strlit("error");
        }
        match self {
            HealthSeverity::NoIssues => "none",
            HealthSeverity::Warning => "warning",
            HealthSeverity::Error => "error",
        }
    }
}

/// The stable name of a severity.
pub open spec fn severity_name(s: HealthSeverity) -> Seq<char> {
    match s {
        HealthSeverity::NoIssues => seq!['n', 'o', 'n', 'e'],
        HealthSeverity::Warning => seq!['w', 'a', 'r', 'n', 'i', 'n', 'g'],
        HealthSeverity::Error => seq!['e', 'r', 'r', 'o', 'r'],
    }
}

/// Compact health summary derived from doctor diagnostics.
#[derive(Clone, Debug, PartialEq, Eq)]
pub struct HealthReport {
    /// Path-like variable being scored.
    pub variable: PathVariable,
    /// Deterministic health score in the range 0..=100.
    pub score: u8,
    /// Whether there are no diagnostics and the score is perfect.
    pub healthy: bool,
    /// Number of parsed entries.
    pub entry_count: usize,
    /// Number of diagnostics.
    pub issue_count: usize,
    /// Worst diagnostic severity.
    pub worst_severity: HealthSeverity,
    /// Diagnostic counts of the kinds that occur, in the declaration order of the kinds.
    pub counts: Vec<(IssueKind, usize)>,
    /// Diagnostics used to compute the summary.
    pub diagnostics: Vec<Diagnostic>,
}

/// A command executable found through PATH lookup.
#[derive(Clone, Debug, PartialEq, Eq)]
pub struct ResolutionCandidate {
    /// PATH entry index where the executable was found.
    pub entry_index: usize,
    /// PATH directory display value.
    pub directory: String,
    /// Full executable path.
    pub path: String,
    /// Whether this candidate is the winning executable.
    pub wins: bool,
}

/// Advisory hint for related command names that were not exact PATH matches.
#[derive(Clone, Debug, PartialEq, Eq)]
pub struct RelatedExecutableHint {
    /// Related command name.
    pub command: String,
    /// Paths found for the related command.
    pub paths: Vec<String>,
}

/// Result of command resolution.
#[derive(Clone, Debug, PartialEq, Eq)]
pub struct ResolutionReport {
    /// Requested command.
    pub command: String,
    /// Exact executable candidates.
    pub candidates: Vec<ResolutionCandidate>,
    /// PATH directories searched, in order.
    pub searched_directories: Vec<String>,
    /// Advisory related executable hints.
    pub related_hints: Vec<RelatedExecutableHint>,
}

/// A PATH-affecting line found in a shell profile.
#[derive(Clone, Debug, PartialEq, Eq)]
pub struct PathMutation {
    /// One-based line number.
    pub line: usize,
    /// Stable mutation classification.
    pub kind: String,
    /// Trimmed source line, capped for display.
    pub text: String,
}

/// Shell startup profile considered by the read-only scanner.
#[derive(Clone, Debug, PartialEq, Eq)]
pub struct ShellProfile {
    /// Shell or profile family.
    pub shell: String,
    /// Profile path display value.
    pub path: String,
    /// Whether the profile exists.
    pub exists: bool,
    /// Whether the existing profile is a regular file.
    pub is_file: bool,
    /// Whether the profile content could be read.
    pub readable: bool,
    /// PATH-affecting lines found in the profile.
    pub path_mutations: Vec<PathMutation>,
}

/// Read-only shell startup profile scan report.
#[derive(Clone, Debug, PartialEq, Eq)]
pub struct ShellProfileScanReport {
    /// Home directory used to build known profile paths.
    pub home: String,
    /// Known profiles considered by the scanner.
    pub profiles: Vec<ShellProfile>,
}

/// Result of missing-command analysis.
#[derive(Clone, Debug, PartialEq, Eq)]
pub struct WhyNotReport {
    /// Requested command.
    pub command: String,
    /// Exact executable candidates.
    pub candidates: Vec<ResolutionCandidate>,
    /// PATH directories searched, in order.
    pub searched_directories: Vec<String>,
    /// Advisory related executable hints.
    pub related_hints: Vec<RelatedExecutableHint>,
    /// PATH health diagnostics relevant to missing command lookup.
    pub path_diagnostics: Vec<Diagnostic>,
    /// Ordered advisory next checks.
    pub advice: Vec<String>,
}

/// The position of the first winning candidate, if any.
pub open spec fn first_winner(candidates: Seq<ResolutionCandidate>) -> Option<int>
    decreases candidates.len(),
{
    if candidates.len() == 0 {
        None
    } else if candidates[0].wins {
        Some(0)
    } else {
        match first_winner(candidates.drop_first()) {
            Some(i) => Some(i + 1),
            None => None,
        }
    }
}

/// Index of the first winning candidate.
pub fn winner_position(candidates: &Vec<ResolutionCandidate>) -> (r: Option<usize>)
    ensures
        r matches Some(i) ==> first_winner(candidates@) == Some(i as int) && i < candidates.len(),
        r is None ==> first_winner(candidates@) is None,
{
    let mut i: usize = 0;
    assert(candidates@.skip(0) == candidates@);
    while i < candidates.len()
        invariant
            i <= candidates.len(),
            first_winner(candidates@) == (match first_winner(candidates@.skip(i as int)) {
                Some(k) => Some(k + i),
                None => None,
            }),
        decreases candidates.len() - i,
    {
        assert(candidates@.skip(i as int).drop_first() == candidates@.skip(i + 1));
        if candidates[i].wins {
            return Some(i);
        }
        i += 1;
    }
    assert(candidates@.skip(i as int).len() == 0);
    None
}

/// The first winner is a winning candidate, and no earlier candidate wins.
pub proof fn lemma_first_winner(candidates: Seq<ResolutionCandidate>)
    ensures
        first_winner(candidates) matches Some(i) ==> 0 <= i < candidates.len()
            && candidates[i].wins && forall|j: int| 0 <= j < i ==> !candidates[j].wins,
        first_winner(candidates) is None ==> forall|j: int|
            0 <= j < candidates.len() ==> !candidates[j].wins,
    decreases candidates.len(),
{
    if candidates.len() > 0 {
        lemma_first_winner(candidates.drop_first());
        assert forall|j: int| 1 <= j < candidates.len() implies candidates[j]
            == candidates.drop_first()[j - 1] by {}
    }
}

impl WhyNotReport {
    /// Returns true when an exact executable candidate was found.
    pub fn found(&self) -> (r: bool)
        ensures
            r == (first_winner(self.candidates@) is Some),
    {
        winner_position(&self.candidates).is_some()
    }

    /// Returns the winning exact executable candidate, if any.
    pub fn winner(&self) -> (r: Option<&ResolutionCandidate>)
        ensures
            r matches Some(c) ==> first_winner(self.candidates@) matches Some(i) && *c
                == self.candidates@[i],
            r is None ==> first_winner(self.candidates@) is None,
    {
        match winner_position(&self.candidates) {
            Some(i) => Some(&self.candidates[i]),
            None => None,
        }
    }
}

/// Planned profile edit action.
#[derive(Clone, Copy, Debug, PartialEq, Eq, Structural)]
pub enum ApplyAction {
    /// The target profile does not exist and would be created.
    CreateProfile,
    /// The target profile exists without a managed block.
    AppendBlock,
    /// The target profile has one complete managed block.
    ReplaceBlock,
}

impl ApplyAction {
    /// Stable action string for human and JSON output.
    pub fn as_str(self) -> (r: &'static str)
        ensures
            r@ == action_name(self),
    {
        proof {
            reveal_strlit("create_profile");
            reveal_strlit("append_block");
            reveal_strlit("replace_block");
        }
        match self {
            ApplyAction::CreateProfile => "create_profile",
            ApplyAction::AppendBlock => "append_block",
            ApplyAction::ReplaceBlock => "replace_block",
        }
    }
}

/// The stable name of an apply action.
pub open spec fn action_name(a: ApplyAction) -> Seq<char> {
    match a {
        ApplyAction::CreateProfile => seq![
            'c', 'r', 'e', 'a', 't', 'e', '_', 'p', 'r', 'o', 'f', 'i', 'l', 'e',
        ],
        ApplyAction::AppendBlock => seq!['a', 'p', 'p', 'e', 'n', 'd', '_', 'b', 'l', 'o', 'c', 'k'],
        ApplyAction::ReplaceBlock => seq![
            'r', 'e', 'p', 'l', 'a', 'c', 'e', '_', 'b', 'l', 'o', 'c', 'k',
        ],
    }
}

/// Plan describing what an apply operation writes.
#[derive(Clone, Debug, PartialEq, Eq)]
pub struct ApplyPlan {
    /// Shell syntax used by the planned block.
    pub shell: ShellKind,
    /// Target shell profile path.
    pub profile_path: String,
    /// Planned operation.
    pub action: ApplyAction,
    /// Existing managed block when replacing one.
    pub existing_block: Option<String>,
    /// Complete managed block to write.
    pub planned_block: String,
    /// Cleaned PATH value used to render the planned block.
    pub cleaned_path: String,
    /// Whether this run writes files.
    pub would_write: bool,
}

/// Result of a written apply plan.
#[derive(Clone, Debug, PartialEq, Eq)]
pub struct ApplyOutcome {
    /// The plan that was written.
    pub plan: ApplyPlan,
    /// Whether the profile was written.
    pub wrote: bool,
    /// Backup file path, when one was created.
    pub backup_path: Option<String>,
    /// Whether a backup was created.
    pub backup_created: bool,
}

} // verus!
