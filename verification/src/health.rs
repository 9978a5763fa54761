//! Health summaries: a 0..=100 score, worst severity and per-kind counts.
use vstd::prelude::*;
use crate::model::{
    Diagnostic, DoctorReport, HealthReport, HealthSeverity, IssueKind, issue_at, issue_kind_at,
    issue_position,
};

verus! {

/// The severity of a diagnostic kind: entry-state problems are errors, the rest warnings.
pub open spec fn severity_of(kind: IssueKind) -> HealthSeverity {
    match kind {
        IssueKind::Empty | IssueKind::Missing | IssueKind::NotDirectory | IssueKind::Unreadable => {
            HealthSeverity::Error
        },
        _ => HealthSeverity::Warning,
    }
}

/// The rank of a severity: none < warning < error.
pub open spec fn rank(s: HealthSeverity) -> int {
    match s {
        HealthSeverity::NoIssues => 0,
        HealthSeverity::Warning => 1,
        HealthSeverity::Error => 2,
    }
}

/// The score penalty of a diagnostic kind: 15 for an error, 5 for a warning.
pub open spec fn penalty_of(kind: IssueKind) -> nat {
    match severity_of(kind) {
        HealthSeverity::Error => 15,
        HealthSeverity::Warning => 5,
        HealthSeverity::NoIssues => 0,
    }
}

/// The worst severity among the diagnostics (none when there are none).
pub open spec fn worst_of(ds: Seq<Diagnostic>) -> HealthSeverity
    decreases ds.len(),
{
    if ds.len() == 0 {
        HealthSeverity::NoIssues
    } else {
        let w = worst_of(ds.drop_last());
        let s = severity_of(ds.last().kind);
        if rank(s) > rank(w) {
            s
        } else {
            w
        }
    }
}

/// The sum of the penalties of the diagnostics.
pub open spec fn total_penalty(ds: Seq<Diagnostic>) -> nat
    decreases ds.len(),
{
    if ds.len() == 0 {
        0
    } else {
        total_penalty(ds.drop_last()) + penalty_of(ds.last().kind)
    }
}

/// The score: 100 less the total penalty, never below zero.
pub open spec fn score_of(ds: Seq<Diagnostic>) -> int {
    if total_penalty(ds) >= 100 {
        0
    } else {
        100 - total_penalty(ds)
    }
}

/// The number of diagnostics of a kind.
pub open spec fn count_of(ds: Seq<Diagnostic>, kind: IssueKind) -> nat
    decreases ds.len(),
{
    if ds.len() == 0 {
        0
    } else {
        count_of(ds.drop_last(), kind) + (if ds.last().kind == kind {
            1nat
        } else {
            0nat
        })
    }
}

/// The per-kind counts of the kinds that occur, in declaration order of the kinds,
/// among the first `n` kinds.
pub open spec fn counts_upto(ds: Seq<Diagnostic>, n: int) -> Seq<(IssueKind, usize)>
    decreases n,
{
    if n <= 0 {
        Seq::<(IssueKind, usize)>::empty()
    } else {
        let acc = counts_upto(ds, n - 1);
        let k = issue_at(n - 1);
        if count_of(ds, k) > 0 {
            acc.push((k, count_of(ds, k) as usize))
        } else {
            acc
        }
    }
}

/// The per-kind counts of the kinds that occur, in declaration order of the kinds.
pub open spec fn counts_of(ds: Seq<Diagnostic>) -> Seq<(IssueKind, usize)> {
    counts_upto(ds, 8)
}

/// The health summary of a doctor report: its counts, worst severity and score.
pub open spec fn summarizes(h: HealthReport, report: DoctorReport) -> bool {
    &&& h.variable == report.variable
    &&& h.entry_count == report.entries.len()
    &&& h.issue_count == report.diagnostics.len()
    &&& h.diagnostics@ == report.diagnostics@
    &&& h.worst_severity == worst_of(report.diagnostics@)
    &&& h.score == score_of(report.diagnostics@)
    &&& h.counts@ == counts_of(report.diagnostics@)
    &&& h.healthy == (report.diagnostics.len() == 0)
}

/// The severity of a diagnostic kind.
pub fn severity_for(kind: IssueKind) -> (s: HealthSeverity)
    ensures
        s == severity_of(kind),
{
    match kind {
        IssueKind::Empty | IssueKind::Missing | IssueKind::NotDirectory | IssueKind::Unreadable => {
            HealthSeverity::Error
        },
        _ => HealthSeverity::Warning,
    }
}

/// The score penalty of a diagnostic kind.
pub fn penalty_for(kind: IssueKind) -> (p: u8)
    ensures
        p == penalty_of(kind),
{
    match severity_for(kind) {
        HealthSeverity::Error => 15,
        HealthSeverity::Warning => 5,
        HealthSeverity::NoIssues => 0,
    }
}

/// The number of diagnostics of a kind.
fn count_kind(ds: &Vec<Diagnostic>, kind: IssueKind) -> (n: usize)
    ensures
        n == count_of(ds@, kind),
{
    let mut n: usize = 0;
    let mut i: usize = 0;
    while i < ds.len()
        invariant
            i <= ds.len(),
            n == count_of(ds@.take(i as int), kind),
            n <= i,
        decreases ds.len() - i,
    {
        assert(ds@.take(i + 1).drop_last() == ds@.take(i as int));
        if ds[i].kind == kind {
            n += 1;
        }
        i += 1;
    }
    assert(ds@.take(ds.len() as int) == ds@);
    n
}

/// The per-kind counts of the kinds that occur, in declaration order of the kinds.
pub fn count_diagnostics(ds: &Vec<Diagnostic>) -> (out: Vec<(IssueKind, usize)>)
    ensures
        out@ == counts_of(ds@),
{
    let mut out: Vec<(IssueKind, usize)> = Vec::new();
    let mut i: usize = 0;
    while i < 8
        invariant
            i <= 8,
            out@ == counts_upto(ds@, i as int),
        decreases 8 - i,
    {
        let kind = issue_kind_at(i);
        let n = count_kind(ds, kind);
        if n > 0 {
            out.push((kind, n));
        }
        i += 1;
    }
    out
}

/// Each diagnostic costs at least five points.
pub proof fn lemma_penalty_floor(ds: Seq<Diagnostic>)
    ensures
        total_penalty(ds) >= 5 * ds.len(),
        ds.len() == 0 <==> worst_of(ds) == HealthSeverity::NoIssues,
    decreases ds.len(),
{
    if ds.len() > 0 {
        lemma_penalty_floor(ds.drop_last());
    }
}

/// The health summary of a doctor report.
pub fn summarize_health(report: DoctorReport) -> (h: HealthReport)
    ensures
        h.variable == report.variable,
        h.entry_count == report.entries.len(),
        h.issue_count == report.diagnostics.len(),
        h.diagnostics@ == report.diagnostics@,
        h.worst_severity == worst_of(report.diagnostics@),
        h.score == score_of(report.diagnostics@),
        h.counts@ == counts_of(report.diagnostics@),
        h.healthy == (report.diagnostics.len() == 0),
        h.score <= 100,
        h.score == 100 <==> report.diagnostics.len() == 0,
{
    let entry_count = report.entries.len();
    let issue_count = report.diagnostics.len();
    let counts = count_diagnostics(&report.diagnostics);
    let mut worst = HealthSeverity::NoIssues;
    let mut penalty: u8 = 0;
    let mut i: usize = 0;
    while i < report.diagnostics.len()
        invariant
            i <= report.diagnostics.len(),
            worst == worst_of(report.diagnostics@.take(i as int)),
            penalty == (if total_penalty(report.diagnostics@.take(i as int)) >= 255 {
                255
            } else {
                total_penalty(report.diagnostics@.take(i as int))
            }),
        decreases report.diagnostics.len() - i,
    {
        assert(report.diagnostics@.take(i + 1).drop_last() == report.diagnostics@.take(i as int));
        let kind = report.diagnostics[i].kind;
        let s = severity_for(kind);
        let better = match (s, worst) {
            (HealthSeverity::Error, HealthSeverity::Error) => false,
            (HealthSeverity::Error, _) => true,
            (HealthSeverity::Warning, HealthSeverity::NoIssues) => true,
            _ => false,
        };
        if better {
            worst = s;
        }
        penalty = penalty.saturating_add(penalty_for(kind));
        i += 1;
    }
    assert(report.diagnostics@.take(report.diagnostics.len() as int) == report.diagnostics@);
    let score = 100u8.saturating_sub(penalty);
    proof {
        lemma_penalty_floor(report.diagnostics@);
    }
    let healthy = score == 100 && issue_count == 0;
    HealthReport {
        variable: report.variable,
        score,
        healthy,
        entry_count,
        issue_count,
        worst_severity: worst,
        counts,
        diagnostics: report.diagnostics,
    }
}

} // verus!

verus! {

/// The sum of the recorded counts.
pub open spec fn count_total(counts: Seq<(IssueKind, usize)>) -> int
    decreases counts.len(),
{
    if counts.len() == 0 {
        0
    } else {
        count_total(counts.drop_last()) + counts.last().1
    }
}

/// The number of diagnostics of the first `n` kinds of the declaration order.
pub open spec fn kinds_total(ds: Seq<Diagnostic>, n: int) -> int
    decreases n,
{
    if n <= 0 {
        0
    } else {
        kinds_total(ds, n - 1) + count_of(ds, issue_at(n - 1))
    }
}

/// A kind never has more diagnostics than there are.
proof fn lemma_count_bound(ds: Seq<Diagnostic>, kind: IssueKind)
    ensures
        count_of(ds, kind) <= ds.len(),
    decreases ds.len(),
{
    if ds.len() > 0 {
        lemma_count_bound(ds.drop_last(), kind);
    }
}

/// The recorded counts of the first `n` kinds add up to their diagnostics.
proof fn lemma_counts_upto_total(ds: Seq<Diagnostic>, n: int)
    requires
        ds.len() <= usize::MAX,
    ensures
        count_total(counts_upto(ds, n)) == kinds_total(ds, n),
    decreases n,
{
    if n > 0 {
        lemma_counts_upto_total(ds, n - 1);
        let k = issue_at(n - 1);
        lemma_count_bound(ds, k);
        let acc = counts_upto(ds, n - 1);
        if count_of(ds, k) > 0 {
            let pushed = acc.push((k, count_of(ds, k) as usize));
            assert(pushed.drop_last() == acc);
        }
    }
}

/// Each diagnostic is counted under its kind: the first `n` kinds hold those whose kind
/// comes before position `n`.
proof fn lemma_kinds_total_step(ds: Seq<Diagnostic>, n: int)
    requires
        ds.len() > 0,
        0 <= n <= 8,
    ensures
        kinds_total(ds, n) == kinds_total(ds.drop_last(), n) + (if issue_position(ds.last().kind)
            < n {
            1int
        } else {
            0int
        }),
    decreases n,
{
    if n > 0 {
        lemma_kinds_total_step(ds, n - 1);
        let k = issue_at(n - 1);
        assert((ds.last().kind == k) == (issue_position(ds.last().kind) == n - 1));
    }
}

/// All eight kinds together count every diagnostic once.
proof fn lemma_kinds_total_all(ds: Seq<Diagnostic>)
    ensures
        kinds_total(ds, 8) == ds.len(),
    decreases ds.len(),
{
    if ds.len() > 0 {
        lemma_kinds_total_all(ds.drop_last());
        lemma_kinds_total_step(ds, 8);
        assert(0 <= issue_position(ds.last().kind) < 8);
    } else {
        reveal_with_fuel(kinds_total, 9);
        reveal_with_fuel(count_of, 2);
    }
}

/// The health counts account for every diagnostic exactly once: they add up to the
/// number of issues, each recorded kind has at least one diagnostic, and no kind is
/// recorded twice.
pub proof fn law_health_counts_add_up(ds: Seq<Diagnostic>)
    requires
        ds.len() <= usize::MAX,
    ensures
        count_total(counts_of(ds)) == ds.len(),
        forall|i: int| 0 <= i < counts_of(ds).len() ==> (#[trigger] counts_of(ds)[i]).1 > 0,
        forall|i: int, j: int|
            0 <= i < j < counts_of(ds).len() ==> (#[trigger] counts_of(ds)[i]).0 != (
            #[trigger] counts_of(ds)[j]).0,
{
    lemma_counts_upto_total(ds, 8);
    lemma_kinds_total_all(ds);
    lemma_counts_upto_shape(ds, 8);
}

/// The counts of the first `n` kinds are positive and list kinds in increasing position.
proof fn lemma_counts_upto_shape(ds: Seq<Diagnostic>, n: int)
    requires
        ds.len() <= usize::MAX,
        n <= 8,
    ensures
        forall|i: int| 0 <= i < counts_upto(ds, n).len() ==> (#[trigger] counts_upto(ds, n)[i]).1 > 0,
        forall|i: int|
            0 <= i < counts_upto(ds, n).len() ==> issue_position(
                (#[trigger] counts_upto(ds, n)[i]).0,
            ) < n,
        forall|i: int, j: int|
            0 <= i < j < counts_upto(ds, n).len() ==> issue_position(
                (#[trigger] counts_upto(ds, n)[i]).0,
            ) < issue_position((#[trigger] counts_upto(ds, n)[j]).0),
    decreases n,
{
    if n > 0 {
        lemma_counts_upto_shape(ds, n - 1);
        let k = issue_at(n - 1);
        lemma_count_bound(ds, k);
        let acc = counts_upto(ds, n - 1);
        assert(issue_position(k) == n - 1);
        if count_of(ds, k) > 0 {
            let c = counts_upto(ds, n);
            assert(c == acc.push((k, count_of(ds, k) as usize)));
            assert forall|i: int, j: int| 0 <= i < j < c.len() implies issue_position(
                (#[trigger] c[i]).0,
            ) < issue_position((#[trigger] c[j]).0) by {
                assert(c[i] == acc[i]);
                if j < acc.len() {
                    assert(c[j] == acc[j]);
                }
            }
            assert forall|i: int| 0 <= i < c.len() implies (#[trigger] c[i]).1 > 0 && issue_position(
                c[i].0,
            ) < n by {
                if i < acc.len() {
                    assert(c[i] == acc[i]);
                }
            }
        }
    }
}

} // verus!

verus! {

/// Whether a diagnostic kind is an error: an empty, missing, non-directory or unreadable
/// entry.
pub open spec fn is_error_kind(kind: IssueKind) -> bool {
    kind == IssueKind::Empty || kind == IssueKind::Missing || kind == IssueKind::NotDirectory
        || kind == IssueKind::Unreadable
}

/// The number of error diagnostics.
pub open spec fn error_count(ds: Seq<Diagnostic>) -> nat
    decreases ds.len(),
{
    if ds.len() == 0 {
        0
    } else {
        error_count(ds.drop_last()) + (if is_error_kind(ds.last().kind) {
            1nat
        } else {
            0nat
        })
    }
}

/// The health score and severity in words: the penalty is 15 for each error diagnostic and
/// 5 for each other one, the score is 100 less the penalty but never below zero, and the
/// worst severity is an error when some diagnostic is an error kind, a warning when there
/// are diagnostics but none of an error kind, and none without diagnostics.
pub proof fn law_health_score_and_severity(ds: Seq<Diagnostic>)
    ensures
        error_count(ds) <= ds.len(),
        total_penalty(ds) == 15 * error_count(ds) + 5 * (ds.len() - error_count(ds)),
        score_of(ds) == (if 15 * error_count(ds) + 5 * (ds.len() - error_count(ds)) >= 100 {
            0
        } else {
            100 - (15 * error_count(ds) + 5 * (ds.len() - error_count(ds)))
        }),
        worst_of(ds) == (if exists|i: int| 0 <= i < ds.len() && is_error_kind(#[trigger] ds[i].kind) {
            HealthSeverity::Error
        } else if ds.len() > 0 {
            HealthSeverity::Warning
        } else {
            HealthSeverity::NoIssues
        }),
    decreases ds.len(),
{
    if ds.len() > 0 {
        let init = ds.drop_last();
        law_health_score_and_severity(init);
        assert forall|i: int| 0 <= i < init.len() implies init[i] == ds[i] by {}
        if exists|i: int| 0 <= i < init.len() && is_error_kind(#[trigger] init[i].kind) {
            let i = choose|i: int| 0 <= i < init.len() && is_error_kind(#[trigger] init[i].kind);
            assert(is_error_kind(ds[i].kind));
        }
        if is_error_kind(ds.last().kind) {
            assert(is_error_kind(ds[ds.len() - 1].kind));
        }
        if exists|i: int| 0 <= i < ds.len() && is_error_kind(#[trigger] ds[i].kind) {
            let i = choose|i: int| 0 <= i < ds.len() && is_error_kind(#[trigger] ds[i].kind);
            if i < init.len() {
                assert(is_error_kind(init[i].kind));
            }
        }
    }
}

} // verus!
