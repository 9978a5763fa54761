use patholog::health::summarize_health;
use patholog::model::{Diagnostic, DoctorReport, HealthSeverity, IssueKind, PathEntry, PathVariable};

#[test]
fn summarize_health_reports_perfect_score_for_clean_report() {
    let report = summarize_health(doctor_report(vec![entry(1, "/ok")], Vec::new()));

    assert_eq!(report.score, 100);
    assert!(report.healthy);
    assert_eq!(report.worst_severity, HealthSeverity::NoIssues);
}

#[test]
fn summarize_health_clamps_score_at_zero() {
    let diagnostics = (0..8)
        .map(|index| diagnostic(IssueKind::Missing, index + 1, "/missing"))
        .collect();

    let report = summarize_health(doctor_report(Vec::new(), diagnostics));

    assert_eq!(report.score, 0);
    assert!(!report.healthy);
}

#[test]
fn summarize_health_maps_warning_and_error_severity() {
    let warning = summarize_health(doctor_report(
        Vec::new(),
        vec![diagnostic(IssueKind::Duplicate, 1, "/dup")],
    ));
    let error = summarize_health(doctor_report(
        Vec::new(),
        vec![
            diagnostic(IssueKind::Duplicate, 1, "/dup"),
            diagnostic(IssueKind::Unreadable, 2, "/blocked"),
        ],
    ));

    assert_eq!(warning.worst_severity, HealthSeverity::Warning);
    assert_eq!(error.worst_severity, HealthSeverity::Error);
}

#[test]
fn summarize_health_counts_issue_kinds_by_stable_names() {
    let report = summarize_health(doctor_report(
        Vec::new(),
        vec![
            diagnostic(IssueKind::Missing, 1, "/missing"),
            diagnostic(IssueKind::Missing, 2, "/missing-too"),
            diagnostic(IssueKind::Unwanted, 3, "/drop"),
        ],
    ));
    let names = report
        .counts
        .iter()
        .map(|(kind, _count)| kind.as_str())
        .collect::<Vec<_>>();

    assert_eq!(count(&report.counts, IssueKind::Missing), 2);
    assert_eq!(count(&report.counts, IssueKind::Unwanted), 1);
    assert_eq!(names, ["missing", "unwanted"]);
}

#[test]
fn summarize_health_scores_each_kind_exactly() {
    let one = |kind| summarize_health(doctor_report(Vec::new(), vec![diagnostic(kind, 1, "/x")]));
    assert_eq!(one(IssueKind::Missing).score, 85);
    assert_eq!(one(IssueKind::Empty).score, 85);
    assert_eq!(one(IssueKind::Duplicate).score, 95);
    assert_eq!(one(IssueKind::Unwanted).score, 95);
    let report = summarize_health(doctor_report(
        vec![entry(1, "/a"), entry(2, "/b")],
        vec![diagnostic(IssueKind::Duplicate, 1, "/a"), diagnostic(IssueKind::Missing, 2, "/b")],
    ));
    assert_eq!(report.score, 80);
    assert_eq!(report.entry_count, 2);
    assert_eq!(report.issue_count, 2);
    assert_eq!(report.diagnostics.len(), 2);
    assert_eq!(report.variable, PathVariable::Path);
}

fn count(counts: &[(IssueKind, usize)], kind: IssueKind) -> usize {
    counts
        .iter()
        .find(|(k, _)| *k == kind)
        .map(|(_, n)| *n)
        .expect("kind counted")
}

fn doctor_report(entries: Vec<PathEntry>, diagnostics: Vec<Diagnostic>) -> DoctorReport {
    DoctorReport {
        variable: PathVariable::Path,
        entries,
        diagnostics,
    }
}

fn entry(index: usize, raw: &str) -> PathEntry {
    PathEntry {
        index,
        raw: raw.to_owned(),
        display: raw.to_owned(),
        comparison_key: raw.to_owned(),
        exists: true,
        is_dir: true,
        is_empty: false,
    }
}

fn diagnostic(kind: IssueKind, index: usize, value: &str) -> Diagnostic {
    Diagnostic {
        kind,
        message: format!("{value} has an issue"),
        entry_index: Some(index),
        entry_value: Some(value.to_owned()),
        related_indexes: vec![index],
    }
}
