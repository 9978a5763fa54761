use patholog::doctor::{diagnose_path, diagnose_path_with_policy, with_shadowed_diagnostics};
use patholog::model::{IssueKind, PathVariable, PlatformMode, PresetKind, ResolutionCandidate};
use patholog::policy::PathPolicy;

#[test]
fn ordering_diagnostic_warns_for_usr_bin_before_homebrew() {
    let report = diagnose_path("/usr/bin:/opt/homebrew/bin", PlatformMode::Posix, None);

    assert!(
        report
            .diagnostics
            .iter()
            .any(|diagnostic| diagnostic.kind == IssueKind::SuspiciousOrder
                && diagnostic.message == "/usr/bin appears before /opt/homebrew/bin")
    );
}

#[test]
fn ordering_diagnostic_warns_for_system_dir_before_user_tool_dir() {
    let report = diagnose_path("/bin:/Users/me/.cargo/bin", PlatformMode::Posix, None);

    assert!(
        report
            .diagnostics
            .iter()
            .any(|diagnostic| diagnostic.kind == IssueKind::SuspiciousOrder
                && diagnostic.message == "/bin appears before /Users/me/.cargo/bin")
    );
}

#[test]
fn manpath_diagnostics_do_not_report_path_ordering() {
    let report = diagnose_path_with_policy(
        "/bin:/Users/me/.cargo/bin",
        PlatformMode::Posix,
        None,
        PathVariable::Manpath,
        &PathPolicy::default(),
    );

    assert!(
        report
            .diagnostics
            .iter()
            .all(|diagnostic| diagnostic.kind != IssueKind::SuspiciousOrder)
    );
}

#[test]
fn doctor_reports_duplicates_empty_and_unwanted_entries() {
    let policy = PathPolicy::new(&[], &[PresetKind::Fink], PathVariable::Path);
    let report = diagnose_path_with_policy(
        "/nonexistent-a:/sw/bin::/nonexistent-a",
        PlatformMode::Posix,
        None,
        PathVariable::Path,
        &policy,
    );
    let kinds = report.diagnostics.iter().map(|d| d.kind).collect::<Vec<_>>();

    assert_eq!(report.entries.len(), 4);
    assert!(kinds.contains(&IssueKind::Duplicate));
    assert!(kinds.contains(&IssueKind::Empty));
    assert!(kinds.contains(&IssueKind::Unwanted));
    assert!(kinds.contains(&IssueKind::Missing));
    let duplicate = report
        .diagnostics
        .iter()
        .find(|d| d.kind == IssueKind::Duplicate)
        .expect("duplicate diagnostic");
    assert_eq!(duplicate.related_indexes, vec![1, 4]);
}

#[test]
fn shadowed_candidates_are_reported_after_the_winner() {
    let report = diagnose_path("", PlatformMode::Posix, None);
    let candidates = vec![
        ResolutionCandidate {
            entry_index: 1,
            directory: "/a".to_owned(),
            path: "/a/tool".to_owned(),
            wins: true,
        },
        ResolutionCandidate {
            entry_index: 2,
            directory: "/b".to_owned(),
            path: "/b/tool".to_owned(),
            wins: false,
        },
    ];
    let before = report.diagnostics.len();
    let report = with_shadowed_diagnostics(report, "tool", &candidates);

    assert_eq!(report.diagnostics.len(), before + 1);
    let last = report.diagnostics.last().expect("shadowed diagnostic");
    assert_eq!(last.kind, IssueKind::ShadowedCommand);
    assert_eq!(last.message, "tool at /b/tool is shadowed by /a/tool");
}

fn temp_dir() -> tempfile::TempDir {
    tempfile::tempdir().expect("create tempdir")
}

fn sub_dir(root: &tempfile::TempDir, name: &str) -> tempfile::TempDir {
    tempfile::Builder::new()
        .prefix(name)
        .rand_bytes(0)
        .tempdir_in(root.path())
        .expect("create directory")
}

fn file_in(root: &tempfile::TempDir, name: &str) -> tempfile::NamedTempFile {
    tempfile::Builder::new()
        .prefix(name)
        .rand_bytes(0)
        .tempfile_in(root.path())
        .expect("create file")
}

fn shown<P: AsRef<std::path::Path>>(path: P) -> String {
    path.as_ref().display().to_string()
}

#[test]
fn diagnose_path_detects_core_diagnostics() {
    let root = temp_dir();
    let bin = sub_dir(&root, "bin");
    let file = file_in(&root, "file");
    let missing = shown(root.path().join("missing"));
    let (bin, file_path) = (shown(bin.path()), shown(file.path()));

    let report = diagnose_path(&format!("{bin}:{missing}:{file_path}::{bin}"), PlatformMode::Posix, None);

    assert_eq!(
        report.diagnostics.iter().map(|diagnostic| diagnostic.kind).collect::<Vec<_>>(),
        [IssueKind::Duplicate, IssueKind::Missing, IssueKind::NotDirectory, IssueKind::Empty]
    );
}

#[test]
fn windows_duplicate_detection_is_case_insensitive() {
    let root = temp_dir();
    let tools = sub_dir(&root, "Tools");
    let tools = shown(tools.path());
    let alternate_case = tools.to_uppercase();

    let report = diagnose_path(&format!("{tools};{alternate_case}"), PlatformMode::Windows, None);

    assert!(report.diagnostics.iter().any(|diagnostic| diagnostic.kind == IssueKind::Duplicate));
}
