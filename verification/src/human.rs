//! Human-readable report rendering.
use vstd::prelude::*;
use crate::config::{ConfigPolicy, LoadedConfig};
use crate::model::{
    ApplyAction, ApplyOutcome, ApplyPlan, Diagnostic, DiagnosticView, DoctorReport, HealthReport,
    IssueKind, PathEntry, PresetKind, PathMutation, RelatedExecutableHint, ResolutionCandidate,
    ResolutionReport, ShellProfile, ShellProfileScanReport, WhyNotReport, action_name,
    diagnostic_views, first_winner, issue_name, path_variable_env_name, preset_name,
    severity_name, shell_name, winner_position,
};
use crate::text::{
    append, decimal, decimal_text, decimal_text_u64, join_text, join_with, lines_of, owned,
    text_lines, views,
};

verus! {

/// Lines joined by newlines, with a final newline.
pub open spec fn finish(lines: Seq<Seq<char>>) -> Seq<char> {
    join_with(lines, "\n"@) + "\n"@
}

/// Lines joined by newlines, with a final newline.
pub fn finish_lines(lines: &Vec<String>) -> (r: String)
    ensures
        r@ == finish(views(lines@)),
{
    let mut r = join_text(lines, "\n");
    append(&mut r, "\n");
    r
}

/// Appends lines.
pub fn push_lines(lines: &mut Vec<String>, more: Vec<String>)
    ensures
        views(final(lines)@) == views(old(lines)@) + views(more@),
{
    let ghost added = more@;
    let mut more = more;
    lines.append(&mut more);
    assert(views(lines@) =~= views(old(lines)@) + views(added));
}

/// Appends one line.
pub fn push_line(lines: &mut Vec<String>, line: String)
    ensures
        views(final(lines)@) == views(old(lines)@).push(line@),
{
    let ghost before = views(lines@);
    lines.push(line);
    assert(views(lines@) == before.push(line@));
}

/// Concatenation of two string slices.
fn concat2(a: &str, b: &str) -> (r: String)
    ensures
        r@ == a@ + b@,
{
    let mut r = owned(a);
    append(&mut r, b);
    r
}

/// Concatenation of three string slices.
fn concat3(a: &str, b: &str, c: &str) -> (r: String)
    ensures
        r@ == a@ + b@ + c@,
{
    let mut r = owned(a);
    append(&mut r, b);
    append(&mut r, c);
    r
}

/// `true` or `false`, as `Display` writes a boolean.
pub open spec fn bool_text(b: bool) -> Seq<char> {
    if b {
        "true"@
    } else {
        "false"@
    }
}

fn bool_str(b: bool) -> (r: &'static str)
    ensures
        r@ == bool_text(b),
{
    if b {
        "true"
    } else {
        "false"
    }
}

// ----- print -----

/// The print line of an entry.
pub open spec fn print_line(e: PathEntry) -> Seq<char> {
    decimal(e.index as nat) + "  "@ + (if e.is_empty {
        "<empty>"@
    } else {
        e.display@
    })
}

/// The print lines of the entries.
pub open spec fn print_lines(es: Seq<PathEntry>) -> Seq<Seq<char>> {
    es.map_values(|e: PathEntry| print_line(e))
}

/// One line per entry: its index and its value, `<empty>` for an empty entry.
pub fn format_print(entries: &[PathEntry]) -> (r: String)
    ensures
        r@ == finish(print_lines(entries@)),
{
    let mut lines: Vec<String> = Vec::new();
    let mut i: usize = 0;
    while i < entries.len()
        invariant
            i <= entries.len(),
            views(lines@) == print_lines(entries@.take(i as int)),
        decreases entries.len() - i,
    {
        let e = &entries[i];
        let mut line = decimal_text(e.index);
        append(&mut line, "  ");
        if e.is_empty {
            append(&mut line, "<empty>");
        } else {
            append(&mut line, e.display.as_str());
        }
        push_line(&mut lines, line);
        assert(print_lines(entries@.take(i + 1)) == print_lines(entries@.take(i as int)).push(
            print_line(entries@[i as int]),
        ));
        i += 1;
    }
    assert(entries@.take(entries.len() as int) == entries@);
    finish_lines(&lines)
}

// ----- doctor -----

/// How a diagnostic group renders its members.
#[derive(Clone, Copy, Debug, PartialEq, Eq, Structural)]
pub enum LineStyle {
    /// Value, count and related entries.
    Duplicate,
    /// Entry index and value.
    Indexed,
    /// Entry index and `<empty>`.
    EmptyEntry,
    /// The message.
    Message,
}

/// The index of a diagnostic, zero when it has none.
pub open spec fn index_or_zero(d: DiagnosticView) -> nat {
    match d.entry_index {
        Some(i) => i as nat,
        None => 0,
    }
}

/// The value of a diagnostic, empty when it has none.
pub open spec fn value_or_empty(d: DiagnosticView) -> Seq<char> {
    match d.entry_value {
        Some(v) => v,
        None => Seq::<char>::empty(),
    }
}

/// Decimal texts of indexes.
pub open spec fn decimals(xs: Seq<usize>) -> Seq<Seq<char>> {
    xs.map_values(|x: usize| decimal(x as nat))
}

/// The doctor line of a diagnostic in a style.
pub open spec fn styled_line(d: DiagnosticView, style: LineStyle) -> Seq<char> {
    match style {
        LineStyle::Duplicate => "  "@ + value_or_empty(d) + " ("@ + decimal(
            d.related_indexes.len(),
        ) + "x; entries "@ + join_with(decimals(d.related_indexes), ", "@) + ")"@,
        LineStyle::Indexed => "  "@ + decimal(index_or_zero(d)) + "  "@ + value_or_empty(d),
        LineStyle::EmptyEntry => "  "@ + decimal(index_or_zero(d)) + "  <empty>"@,
        LineStyle::Message => "  "@ + d.message,
    }
}

/// The lines of the diagnostics of a kind, in order.
pub open spec fn kind_lines(ds: Seq<DiagnosticView>, kind: IssueKind, style: LineStyle) -> Seq<
    Seq<char>,
>
    decreases ds.len(),
{
    if ds.len() == 0 {
        Seq::<Seq<char>>::empty()
    } else {
        let acc = kind_lines(ds.drop_last(), kind, style);
        if ds.last().kind == kind {
            acc.push(styled_line(ds.last(), style))
        } else {
            acc
        }
    }
}

/// A group: nothing when no diagnostic has the kind, else a blank line, the heading and
/// the member lines.
pub open spec fn group_lines(
    ds: Seq<DiagnosticView>,
    heading: Seq<char>,
    kind: IssueKind,
    style: LineStyle,
) -> Seq<Seq<char>> {
    let m = kind_lines(ds, kind, style);
    if m.len() == 0 {
        Seq::<Seq<char>>::empty()
    } else {
        seq![Seq::<char>::empty(), heading] + m
    }
}

/// The doctor report text: the entry count, then "No issues found." or the groups in a
/// fixed order.
pub open spec fn doctor_text(report: DoctorReport) -> Seq<char> {
    let ds = diagnostic_views(report.diagnostics@);
    let head = seq![
        path_variable_env_name(report.variable) + " entries: "@ + decimal(
            report.entries@.len(),
        ),
    ];
    if ds.len() == 0 {
        finish(head + seq![Seq::<char>::empty(), "No issues found."@])
    } else {
        finish(
            head + group_lines(ds, "Duplicates:"@, IssueKind::Duplicate, LineStyle::Duplicate)
                + group_lines(ds, "Missing directories:"@, IssueKind::Missing, LineStyle::Indexed)
                + group_lines(ds, "Non-directories:"@, IssueKind::NotDirectory, LineStyle::Indexed)
                + group_lines(
                ds,
                "Unreadable directories:"@,
                IssueKind::Unreadable,
                LineStyle::Indexed,
            ) + group_lines(ds, "Unwanted entries:"@, IssueKind::Unwanted, LineStyle::Indexed)
                + group_lines(ds, "Empty entries:"@, IssueKind::Empty, LineStyle::EmptyEntry)
                + group_lines(
                ds,
                "Ordering warnings:"@,
                IssueKind::SuspiciousOrder,
                LineStyle::Message,
            ) + group_lines(
                ds,
                "Shadowed commands:"@,
                IssueKind::ShadowedCommand,
                LineStyle::Message,
            ),
        )
    }
}

/// Decimal texts of indexes.
fn decimal_list(xs: &Vec<usize>) -> (r: Vec<String>)
    ensures
        views(r@) == decimals(xs@),
{
    let mut r: Vec<String> = Vec::new();
    let mut i: usize = 0;
    while i < xs.len()
        invariant
            i <= xs.len(),
            views(r@) == decimals(xs@.take(i as int)),
        decreases xs.len() - i,
    {
        push_line(&mut r, decimal_text(xs[i]));
        assert(decimals(xs@.take(i + 1)) == decimals(xs@.take(i as int)).push(
            decimal(xs@[i as int] as nat),
        ));
        i += 1;
    }
    assert(xs@.take(xs.len() as int) == xs@);
    r
}

/// The value of a diagnostic, empty when it has none.
fn value_text(d: &Diagnostic) -> (r: String)
    ensures
        r@ == value_or_empty(d@),
{
    match &d.entry_value {
        Some(v) => v.clone(),
        None => String::new(),
    }
}

/// The index of a diagnostic, zero when it has none.
fn index_value(d: &Diagnostic) -> (r: usize)
    ensures
        r == index_or_zero(d@),
{
    match d.entry_index {
        Some(i) => i,
        None => 0,
    }
}

/// The doctor line of a diagnostic in a style.
fn styled(d: &Diagnostic, style: LineStyle) -> (r: String)
    ensures
        r@ == styled_line(d@, style),
{
    match style {
        LineStyle::Duplicate => {
            let mut r = owned("  ");
            append(&mut r, value_text(d).as_str());
            append(&mut r, " (");
            append(&mut r, decimal_text(d.related_indexes.len()).as_str());
            append(&mut r, "x; entries ");
            append(&mut r, join_text(&decimal_list(&d.related_indexes), ", ").as_str());
            append(&mut r, ")");
            r
        },
        LineStyle::Indexed => {
            let mut r = owned("  ");
            append(&mut r, decimal_text(index_value(d)).as_str());
            append(&mut r, "  ");
            append(&mut r, value_text(d).as_str());
            r
        },
        LineStyle::EmptyEntry => {
            let mut r = owned("  ");
            append(&mut r, decimal_text(index_value(d)).as_str());
            append(&mut r, "  <empty>");
            r
        },
        LineStyle::Message => concat2("  ", d.message.as_str()),
    }
}

/// The lines of the diagnostics of a kind.
fn kind_line_list(ds: &Vec<Diagnostic>, kind: IssueKind, style: LineStyle) -> (r: Vec<String>)
    ensures
        views(r@) == kind_lines(diagnostic_views(ds@), kind, style),
{
    let mut r: Vec<String> = Vec::new();
    let mut i: usize = 0;
    while i < ds.len()
        invariant
            i <= ds.len(),
            views(r@) == kind_lines(diagnostic_views(ds@).take(i as int), kind, style),
        decreases ds.len() - i,
    {
        let ghost t = diagnostic_views(ds@).take(i + 1);
        assert(t.drop_last() == diagnostic_views(ds@).take(i as int));
        assert(t.last() == ds@[i as int]@);
        if ds[i].kind == kind {
            push_line(&mut r, styled(&ds[i], style));
        }
        i += 1;
    }
    assert(diagnostic_views(ds@).take(ds.len() as int) == diagnostic_views(ds@));
    r
}

/// Appends a diagnostic group.
fn append_diagnostic_group(
    lines: &mut Vec<String>,
    heading: &str,
    ds: &Vec<Diagnostic>,
    kind: IssueKind,
    style: LineStyle,
)
    ensures
        views(final(lines)@) == views(old(lines)@) + group_lines(
            diagnostic_views(ds@),
            heading@,
            kind,
            style,
        ),
{
    let matching = kind_line_list(ds, kind, style);
    if matching.len() == 0 {
        assert(views(lines@) + Seq::<Seq<char>>::empty() == views(lines@));
        return;
    }
    let ghost before = views(lines@);
    push_line(lines, String::new());
    push_line(lines, owned(heading));
    push_lines(lines, matching);
    assert(views(lines@) == before + (seq![Seq::<char>::empty(), heading@] + views(matching@)));
}

/// The doctor report text.
pub fn format_doctor(report: &DoctorReport) -> (r: String)
    ensures
        r@ == doctor_text(*report),
{
    let ghost ds = diagnostic_views(report.diagnostics@);
    let mut lines: Vec<String> = Vec::new();
    let mut head = owned(report.variable.env_name());
    append(&mut head, " entries: ");
    append(&mut head, decimal_text(report.entries.len()).as_str());
    push_line(&mut lines, head);
    let ghost h = views(lines@);
    assert(h == seq![
        path_variable_env_name(report.variable) + " entries: "@ + decimal(
            report.entries@.len(),
        ),
    ]);
    if report.diagnostics.len() == 0 {
        push_line(&mut lines, String::new());
        push_line(&mut lines, owned("No issues found."));
        assert(ds.len() == 0);
        assert(views(lines@) == h + seq![Seq::<char>::empty(), "No issues found."@]);
        return finish_lines(&lines);
    }
    let ds_ref = &report.diagnostics;
    append_diagnostic_group(&mut lines, "Duplicates:", ds_ref, IssueKind::Duplicate, LineStyle::Duplicate);
    let ghost g1 = group_lines(ds, "Duplicates:"@, IssueKind::Duplicate, LineStyle::Duplicate);
    assert(views(lines@) == h + g1);
    append_diagnostic_group(&mut lines, "Missing directories:", ds_ref, IssueKind::Missing, LineStyle::Indexed);
    let ghost g2 = group_lines(ds, "Missing directories:"@, IssueKind::Missing, LineStyle::Indexed);
    assert(views(lines@) == h + g1 + g2);
    append_diagnostic_group(&mut lines, "Non-directories:", ds_ref, IssueKind::NotDirectory, LineStyle::Indexed);
    let ghost g3 = group_lines(ds, "Non-directories:"@, IssueKind::NotDirectory, LineStyle::Indexed);
    assert(views(lines@) == h + g1 + g2 + g3);
    append_diagnostic_group(&mut lines, "Unreadable directories:", ds_ref, IssueKind::Unreadable, LineStyle::Indexed);
    let ghost g4 = group_lines(ds, "Unreadable directories:"@, IssueKind::Unreadable, LineStyle::Indexed);
    assert(views(lines@) == h + g1 + g2 + g3 + g4);
    append_diagnostic_group(&mut lines, "Unwanted entries:", ds_ref, IssueKind::Unwanted, LineStyle::Indexed);
    let ghost g5 = group_lines(ds, "Unwanted entries:"@, IssueKind::Unwanted, LineStyle::Indexed);
    assert(views(lines@) == h + g1 + g2 + g3 + g4 + g5);
    append_diagnostic_group(&mut lines, "Empty entries:", ds_ref, IssueKind::Empty, LineStyle::EmptyEntry);
    let ghost g6 = group_lines(ds, "Empty entries:"@, IssueKind::Empty, LineStyle::EmptyEntry);
    assert(views(lines@) == h + g1 + g2 + g3 + g4 + g5 + g6);
    append_diagnostic_group(&mut lines, "Ordering warnings:", ds_ref, IssueKind::SuspiciousOrder, LineStyle::Message);
    let ghost g7 = group_lines(ds, "Ordering warnings:"@, IssueKind::SuspiciousOrder, LineStyle::Message);
    assert(views(lines@) == h + g1 + g2 + g3 + g4 + g5 + g6 + g7);
    append_diagnostic_group(&mut lines, "Shadowed commands:", ds_ref, IssueKind::ShadowedCommand, LineStyle::Message);
    let ghost g8 = group_lines(ds, "Shadowed commands:"@, IssueKind::ShadowedCommand, LineStyle::Message);
    assert(views(lines@) == h + g1 + g2 + g3 + g4 + g5 + g6 + g7 + g8);
    assert(ds.len() != 0);
    finish_lines(&lines)
}

// ----- health -----

/// The order in which the health counts are listed.
pub open spec fn count_order_at(i: int) -> IssueKind {
    if i == 0 {
        IssueKind::Missing
    } else if i == 1 {
        IssueKind::NotDirectory
    } else if i == 2 {
        IssueKind::Unreadable
    } else if i == 3 {
        IssueKind::Empty
    } else if i == 4 {
        IssueKind::Duplicate
    } else if i == 5 {
        IssueKind::Unwanted
    } else if i == 6 {
        IssueKind::SuspiciousOrder
    } else {
        IssueKind::ShadowedCommand
    }
}

fn count_order_kind(i: usize) -> (k: IssueKind)
    ensures
        k == count_order_at(i as int),
{
    if i == 0 {
        IssueKind::Missing
    } else if i == 1 {
        IssueKind::NotDirectory
    } else if i == 2 {
        IssueKind::Unreadable
    } else if i == 3 {
        IssueKind::Empty
    } else if i == 4 {
        IssueKind::Duplicate
    } else if i == 5 {
        IssueKind::Unwanted
    } else if i == 6 {
        IssueKind::SuspiciousOrder
    } else {
        IssueKind::ShadowedCommand
    }
}

/// The count recorded for a kind: the first pair with that kind.
pub open spec fn count_lookup(counts: Seq<(IssueKind, usize)>, kind: IssueKind) -> Option<usize>
    decreases counts.len(),
{
    if counts.len() == 0 {
        None
    } else if counts[0].0 == kind {
        Some(counts[0].1)
    } else {
        count_lookup(counts.drop_first(), kind)
    }
}

/// The count recorded for a kind.
fn find_count(counts: &Vec<(IssueKind, usize)>, kind: IssueKind) -> (r: Option<usize>)
    ensures
        r == count_lookup(counts@, kind),
{
    let mut i: usize = 0;
    assert(counts@.skip(0) == counts@);
    while i < counts.len()
        invariant
            i <= counts.len(),
            count_lookup(counts@, kind) == count_lookup(counts@.skip(i as int), kind),
        decreases counts.len() - i,
    {
        assert(counts@.skip(i as int).drop_first() == counts@.skip(i + 1));
        if counts[i].0 == kind {
            return Some(counts[i].1);
        }
        i += 1;
    }
    None
}

/// The count line of a kind.
pub open spec fn count_line(kind: IssueKind, n: usize) -> Seq<char> {
    "  "@ + issue_name(kind) + "  "@ + decimal(n as nat)
}

/// The count lines of the first `n` kinds of the listing order.
pub open spec fn count_lines(counts: Seq<(IssueKind, usize)>, n: int) -> Seq<Seq<char>>
    decreases n,
{
    if n <= 0 {
        Seq::<Seq<char>>::empty()
    } else {
        let acc = count_lines(counts, n - 1);
        match count_lookup(counts, count_order_at(n - 1)) {
            Some(c) => acc.push(count_line(count_order_at(n - 1), c)),
            None => acc,
        }
    }
}

/// The status word of a health report.
pub open spec fn status_text(healthy: bool) -> Seq<char> {
    if healthy {
        "healthy"@
    } else {
        "issues found"@
    }
}

/// The health report text: score, status, entry and issue counts, worst severity and,
/// when any are recorded, the per-kind counts in a fixed order.
pub open spec fn health_text(report: HealthReport) -> Seq<char> {
    let head = seq![
        path_variable_env_name(report.variable) + " health: "@ + decimal(report.score as nat)
            + "/100"@,
        "Status: "@ + status_text(report.healthy),
        "Entries: "@ + decimal(report.entry_count as nat),
        "Issues: "@ + decimal(report.issue_count as nat),
        "Worst severity: "@ + severity_name(report.worst_severity),
    ];
    if report.counts@.len() == 0 {
        finish(head)
    } else {
        finish(head + seq![Seq::<char>::empty(), "Counts:"@] + count_lines(report.counts@, 8))
    }
}

/// The health report text.
pub fn format_health(report: &HealthReport) -> (r: String)
    ensures
        r@ == health_text(*report),
{
    let mut lines: Vec<String> = Vec::new();
    let mut l1 = owned(report.variable.env_name());
    append(&mut l1, " health: ");
    append(&mut l1, decimal_text(report.score as usize).as_str());
    append(&mut l1, "/100");
    push_line(&mut lines, l1);
    let status = if report.healthy {
        "healthy"
    } else {
        "issues found"
    };
    proof {
        reveal_strlit("healthy");
        reveal_strlit("issues found");
    }
    push_line(&mut lines, concat2("Status: ", status));
    let mut l3 = owned("Entries: ");
    append(&mut l3, decimal_text(report.entry_count).as_str());
    push_line(&mut lines, l3);
    let mut l4 = owned("Issues: ");
    append(&mut l4, decimal_text(report.issue_count).as_str());
    push_line(&mut lines, l4);
    push_line(&mut lines, concat2("Worst severity: ", report.worst_severity.as_str()));
    let ghost head = views(lines@);
    assert(status@ == status_text(report.healthy));
    assert(head == seq![
        path_variable_env_name(report.variable) + " health: "@ + decimal(report.score as nat)
            + "/100"@,
        "Status: "@ + status_text(report.healthy),
        "Entries: "@ + decimal(report.entry_count as nat),
        "Issues: "@ + decimal(report.issue_count as nat),
        "Worst severity: "@ + severity_name(report.worst_severity),
    ]);
    if report.counts.len() == 0 {
        return finish_lines(&lines);
    }
    push_line(&mut lines, String::new());
    push_line(&mut lines, owned("Counts:"));
    let ghost mid = views(lines@);
    assert(mid == head + seq![Seq::<char>::empty(), "Counts:"@]);
    let mut i: usize = 0;
    while i < 8
        invariant
            i <= 8,
            views(lines@) == mid + count_lines(report.counts@, i as int),
        decreases 8 - i,
    {
        let kind = count_order_kind(i);
        match find_count(&report.counts, kind) {
            Some(n) => {
                let mut line = owned("  ");
                append(&mut line, kind.as_str());
                append(&mut line, "  ");
                append(&mut line, decimal_text(n).as_str());
                push_line(&mut lines, line);
            },
            None => {},
        }
        i += 1;
    }
    finish_lines(&lines)
}

// ----- resolution -----

/// The numbered lines of the searched directories, counting from one.
pub open spec fn searched_lines(dirs: Seq<Seq<char>>) -> Seq<Seq<char>> {
    Seq::new(dirs.len(), |i: int| "  "@ + decimal((i + 1) as nat) + "  "@ + dirs[i])
}

/// The numbered lines of the searched directories.
fn searched_line_list(dirs: &Vec<String>) -> (r: Vec<String>)
    ensures
        views(r@) == searched_lines(views(dirs@)),
{
    let mut r: Vec<String> = Vec::new();
    let mut i: usize = 0;
    while i < dirs.len()
        invariant
            i <= dirs.len(),
            views(r@) == searched_lines(views(dirs@).take(i as int)),
        decreases dirs.len() - i,
    {
        let mut line = owned("  ");
        append(&mut line, decimal_text(i + 1).as_str());
        append(&mut line, "  ");
        append(&mut line, dirs[i].as_str());
        push_line(&mut r, line);
        assert(searched_lines(views(dirs@).take(i + 1)) == searched_lines(
            views(dirs@).take(i as int),
        ).push("  "@ + decimal((i + 1) as nat) + "  "@ + dirs@[i as int]@));
        i += 1;
    }
    assert(views(dirs@).take(dirs.len() as int) == views(dirs@));
    r
}

/// The lines of one related-executable hint: its command, then its paths.
pub open spec fn hint_block(h: RelatedExecutableHint) -> Seq<Seq<char>> {
    seq!["  "@ + h.command@] + h.paths@.map_values(|p: String| "    "@ + p@)
}

/// The lines of the hints, in order.
pub open spec fn hints_body(hs: Seq<RelatedExecutableHint>) -> Seq<Seq<char>>
    decreases hs.len(),
{
    if hs.len() == 0 {
        Seq::<Seq<char>>::empty()
    } else {
        hints_body(hs.drop_last()) + hint_block(hs.last())
    }
}

/// The related-executable section: nothing without hints.
pub open spec fn hint_lines(hs: Seq<RelatedExecutableHint>) -> Seq<Seq<char>> {
    if hs.len() == 0 {
        Seq::<Seq<char>>::empty()
    } else {
        seq![Seq::<char>::empty(), "Related executables, not PATH matches:"@] + hints_body(hs)
    }
}

/// Appends the lines of one hint.
fn append_hint(lines: &mut Vec<String>, h: &RelatedExecutableHint)
    ensures
        views(final(lines)@) == views(old(lines)@) + hint_block(*h),
{
    let ghost before = views(lines@);
    push_line(lines, concat2("  ", h.command.as_str()));
    let mut j: usize = 0;
    while j < h.paths.len()
        invariant
            j <= h.paths.len(),
            views(lines@) == before + (seq!["  "@ + h.command@] + h.paths@.take(j as int).map_values(
                |p: String| "    "@ + p@,
            )),
        decreases h.paths.len() - j,
    {
        push_line(lines, concat2("    ", h.paths[j].as_str()));
        assert(h.paths@.take(j + 1).map_values(|p: String| "    "@ + p@) == h.paths@.take(
            j as int,
        ).map_values(|p: String| "    "@ + p@).push("    "@ + h.paths@[j as int]@));
        j += 1;
    }
    assert(h.paths@.take(h.paths.len() as int) == h.paths@);
}

/// Appends the related-executable section.
fn append_related_hints(lines: &mut Vec<String>, hs: &Vec<RelatedExecutableHint>)
    ensures
        views(final(lines)@) == views(old(lines)@) + hint_lines(hs@),
{
    if hs.len() == 0 {
        assert(views(lines@) + Seq::<Seq<char>>::empty() == views(lines@));
        return;
    }
    let ghost before = views(lines@);
    push_line(lines, String::new());
    push_line(lines, owned("Related executables, not PATH matches:"));
    let ghost mid = views(lines@);
    let mut i: usize = 0;
    while i < hs.len()
        invariant
            i <= hs.len(),
            mid == before + seq![Seq::<char>::empty(), "Related executables, not PATH matches:"@],
            views(lines@) == mid + hints_body(hs@.take(i as int)),
        decreases hs.len() - i,
    {
        append_hint(lines, &hs[i]);
        assert(hs@.take(i + 1).drop_last() == hs@.take(i as int));
        i += 1;
    }
    assert(hs@.take(hs.len() as int) == hs@);
}

/// The lines of the candidates that do not win, in order.
pub open spec fn other_match_lines(cs: Seq<ResolutionCandidate>) -> Seq<Seq<char>>
    decreases cs.len(),
{
    if cs.len() == 0 {
        Seq::<Seq<char>>::empty()
    } else {
        let acc = other_match_lines(cs.drop_last());
        if !cs.last().wins {
            acc.push("  "@ + decimal(cs.last().entry_index as nat) + "  "@ + cs.last().path@)
        } else {
            acc
        }
    }
}

/// The other-matches section: `none` when every candidate wins or there is none.
pub open spec fn others_section(cs: Seq<ResolutionCandidate>) -> Seq<Seq<char>> {
    if other_match_lines(cs).len() == 0 {
        seq!["  none"@]
    } else {
        other_match_lines(cs)
    }
}

/// The why report text: the winning executable and the other matches, or the searched
/// directories and the related executables when nothing wins.
pub open spec fn why_text(report: ResolutionReport) -> Seq<char> {
    let head = seq!["Command: "@ + report.command@, Seq::<char>::empty()];
    match first_winner(report.candidates@) {
        None => finish(
            head + seq!["Not found in PATH."@, Seq::<char>::empty(), "Searched directories:"@]
                + searched_lines(views(report.searched_directories@)) + hint_lines(
                report.related_hints@,
            ),
        ),
        Some(w) => {
            let c = report.candidates@[w];
            finish(
                head + seq![
                    "Resolved to:"@,
                    "  "@ + c.path@,
                    Seq::<char>::empty(),
                    "Why:"@,
                    "  entry "@ + decimal(c.entry_index as nat) + " ("@ + c.directory@
                        + ") appears before all other matching PATH entries."@,
                    Seq::<char>::empty(),
                    "Other matches:"@,
                ] + others_section(report.candidates@),
            )
        },
    }
}

/// The lines of the candidates that do not win.
fn other_match_list(cs: &Vec<ResolutionCandidate>) -> (r: Vec<String>)
    ensures
        views(r@) == other_match_lines(cs@),
{
    let mut r: Vec<String> = Vec::new();
    let mut i: usize = 0;
    while i < cs.len()
        invariant
            i <= cs.len(),
            views(r@) == other_match_lines(cs@.take(i as int)),
        decreases cs.len() - i,
    {
        assert(cs@.take(i + 1).drop_last() == cs@.take(i as int));
        if !cs[i].wins {
            let mut line = owned("  ");
            append(&mut line, decimal_text(cs[i].entry_index).as_str());
            append(&mut line, "  ");
            append(&mut line, cs[i].path.as_str());
            push_line(&mut r, line);
        }
        i += 1;
    }
    assert(cs@.take(cs.len() as int) == cs@);
    r
}

/// The why report text.
pub fn format_why(report: &ResolutionReport) -> (r: String)
    ensures
        r@ == why_text(*report),
{
    let mut lines: Vec<String> = Vec::new();
    push_line(&mut lines, concat2("Command: ", report.command.as_str()));
    push_line(&mut lines, String::new());
    let ghost head = views(lines@);
    assert(head == seq!["Command: "@ + report.command@, Seq::<char>::empty()]);
    match winner_position(&report.candidates) {
        None => {
            push_line(&mut lines, owned("Not found in PATH."));
            push_line(&mut lines, String::new());
            push_line(&mut lines, owned("Searched directories:"));
            push_lines(&mut lines, searched_line_list(&report.searched_directories));
            append_related_hints(&mut lines, &report.related_hints);
            assert(views(lines@) == head + seq![
                "Not found in PATH."@,
                Seq::<char>::empty(),
                "Searched directories:"@,
            ] + searched_lines(views(report.searched_directories@)) + hint_lines(
                report.related_hints@,
            ));
            finish_lines(&lines)
        },
        Some(w) => {
            let c = &report.candidates[w];
            push_line(&mut lines, owned("Resolved to:"));
            push_line(&mut lines, concat2("  ", c.path.as_str()));
            push_line(&mut lines, String::new());
            push_line(&mut lines, owned("Why:"));
            let mut why = owned("  entry ");
            append(&mut why, decimal_text(c.entry_index).as_str());
            append(&mut why, " (");
            append(&mut why, c.directory.as_str());
            append(&mut why, ") appears before all other matching PATH entries.");
            push_line(&mut lines, why);
            push_line(&mut lines, String::new());
            push_line(&mut lines, owned("Other matches:"));
            let ghost fixed = views(lines@);
            assert(fixed == head + seq![
                "Resolved to:"@,
                "  "@ + c.path@,
                Seq::<char>::empty(),
                "Why:"@,
                "  entry "@ + decimal(c.entry_index as nat) + " ("@ + c.directory@
                    + ") appears before all other matching PATH entries."@,
                Seq::<char>::empty(),
                "Other matches:"@,
            ]);
            let others = other_match_list(&report.candidates);
            if others.len() == 0 {
                push_line(&mut lines, owned("  none"));
            } else {
                push_lines(&mut lines, others);
            }
            assert(views(lines@) == fixed + others_section(report.candidates@));
            assert(first_winner(report.candidates@) == Some(w as int));
            finish_lines(&lines)
        },
    }
}

/// The conflicts line of a candidate: index, a `*` for the winner, and the path.
pub open spec fn conflict_line(c: ResolutionCandidate) -> Seq<char> {
    decimal(c.entry_index as nat) + (if c.wins {
        "*"@
    } else {
        " "@
    }) + " "@ + c.path@
}

/// The conflicts text: one line per candidate, or a no-match line.
pub open spec fn conflicts_text(report: ResolutionReport) -> Seq<char> {
    if report.candidates@.len() == 0 {
        "No matches for "@ + report.command@ + "\n"@
    } else {
        finish(report.candidates@.map_values(|c: ResolutionCandidate| conflict_line(c)))
    }
}

/// The conflicts text.
pub fn format_conflicts(report: &ResolutionReport) -> (r: String)
    ensures
        r@ == conflicts_text(*report),
{
    if report.candidates.len() == 0 {
        return concat3("No matches for ", report.command.as_str(), "\n");
    }
    let cs = &report.candidates;
    let mut lines: Vec<String> = Vec::new();
    let mut i: usize = 0;
    while i < cs.len()
        invariant
            i <= cs.len(),
            views(lines@) == cs@.take(i as int).map_values(|c: ResolutionCandidate| conflict_line(c)),
        decreases cs.len() - i,
    {
        let mut line = decimal_text(cs[i].entry_index);
        if cs[i].wins {
            append(&mut line, "*");
        } else {
            append(&mut line, " ");
        }
        append(&mut line, " ");
        append(&mut line, cs[i].path.as_str());
        push_line(&mut lines, line);
        assert(cs@.take(i + 1).map_values(|c: ResolutionCandidate| conflict_line(c)) == cs@.take(
            i as int,
        ).map_values(|c: ResolutionCandidate| conflict_line(c)).push(conflict_line(cs@[i as int])));
        i += 1;
    }
    assert(cs@.take(cs.len() as int) == cs@);
    finish_lines(&lines)
}

// ----- why-not -----

/// The why-not line of a diagnostic: kind, then index and value or the message.
pub open spec fn why_not_line(d: DiagnosticView) -> Seq<char> {
    match d.kind {
        IssueKind::Empty => "  empty  "@ + decimal(index_or_zero(d)) + "  <empty>"@,
        IssueKind::Missing | IssueKind::NotDirectory | IssueKind::Unreadable => "  "@ + issue_name(
            d.kind,
        ) + "  "@ + decimal(index_or_zero(d)) + "  "@ + value_or_empty(d),
        _ => "  "@ + issue_name(d.kind) + "  "@ + d.message,
    }
}

/// The why-not line of a diagnostic.
pub fn format_diagnostic(d: &Diagnostic) -> (r: String)
    ensures
        r@ == why_not_line(d@),
{
    match d.kind {
        IssueKind::Empty => {
            let mut r = owned("  empty  ");
            append(&mut r, decimal_text(index_value(d)).as_str());
            append(&mut r, "  <empty>");
            r
        },
        IssueKind::Missing | IssueKind::NotDirectory | IssueKind::Unreadable => {
            let mut r = owned("  ");
            append(&mut r, d.kind.as_str());
            append(&mut r, "  ");
            append(&mut r, decimal_text(index_value(d)).as_str());
            append(&mut r, "  ");
            append(&mut r, value_text(d).as_str());
            r
        },
        _ => {
            let mut r = owned("  ");
            append(&mut r, d.kind.as_str());
            append(&mut r, "  ");
            append(&mut r, d.message.as_str());
            r
        },
    }
}

/// The diagnostics section: nothing without diagnostics.
pub open spec fn diagnostic_section(ds: Seq<DiagnosticView>) -> Seq<Seq<char>> {
    if ds.len() == 0 {
        Seq::<Seq<char>>::empty()
    } else {
        seq![Seq::<char>::empty(), "PATH diagnostics:"@] + ds.map_values(
            |d: DiagnosticView| why_not_line(d),
        )
    }
}

/// The advice section: nothing without advice.
pub open spec fn advice_section(advice: Seq<Seq<char>>) -> Seq<Seq<char>> {
    if advice.len() == 0 {
        Seq::<Seq<char>>::empty()
    } else {
        seq![Seq::<char>::empty(), "Advice:"@] + advice.map_values(|a: Seq<char>| "  "@ + a)
    }
}

/// The why-not report text: where the command is when it is available, else the searched
/// directories, the diagnostics, the related executables and the advice.
pub open spec fn why_not_text(report: WhyNotReport) -> Seq<char> {
    let head = seq!["Command: "@ + report.command@, Seq::<char>::empty()];
    match first_winner(report.candidates@) {
        Some(w) => finish(
            head + seq![
                "Available in PATH:"@,
                "  "@ + report.candidates@[w].path@,
                Seq::<char>::empty(),
                "Status:"@,
                "  The exact command is already available."@,
            ],
        ),
        None => finish(
            head + seq!["Not found in PATH."@, Seq::<char>::empty(), "Searched directories:"@]
                + searched_lines(views(report.searched_directories@)) + diagnostic_section(
                diagnostic_views(report.path_diagnostics@),
            ) + hint_lines(report.related_hints@) + advice_section(views(report.advice@)),
        ),
    }
}

/// Appends the diagnostics section.
fn append_path_diagnostics(lines: &mut Vec<String>, ds: &Vec<Diagnostic>)
    ensures
        views(final(lines)@) == views(old(lines)@) + diagnostic_section(diagnostic_views(ds@)),
{
    if ds.len() == 0 {
        assert(views(lines@) + Seq::<Seq<char>>::empty() == views(lines@));
        return;
    }
    let ghost before = views(lines@);
    push_line(lines, String::new());
    push_line(lines, owned("PATH diagnostics:"));
    let ghost mid = views(lines@);
    let mut i: usize = 0;
    while i < ds.len()
        invariant
            i <= ds.len(),
            mid == before + seq![Seq::<char>::empty(), "PATH diagnostics:"@],
            views(lines@) == mid + diagnostic_views(ds@).take(i as int).map_values(
                |d: DiagnosticView| why_not_line(d),
            ),
        decreases ds.len() - i,
    {
        push_line(lines, format_diagnostic(&ds[i]));
        assert(diagnostic_views(ds@).take(i + 1).map_values(|d: DiagnosticView| why_not_line(d))
            == diagnostic_views(ds@).take(i as int).map_values(
            |d: DiagnosticView| why_not_line(d),
        ).push(why_not_line(ds@[i as int]@)));
        i += 1;
    }
    assert(diagnostic_views(ds@).take(ds.len() as int) == diagnostic_views(ds@));
}

/// Appends the advice section.
fn append_advice(lines: &mut Vec<String>, advice: &Vec<String>)
    ensures
        views(final(lines)@) == views(old(lines)@) + advice_section(views(advice@)),
{
    if advice.len() == 0 {
        assert(views(lines@) + Seq::<Seq<char>>::empty() == views(lines@));
        return;
    }
    let ghost before = views(lines@);
    push_line(lines, String::new());
    push_line(lines, owned("Advice:"));
    let ghost mid = views(lines@);
    let mut i: usize = 0;
    while i < advice.len()
        invariant
            i <= advice.len(),
            mid == before + seq![Seq::<char>::empty(), "Advice:"@],
            views(lines@) == mid + views(advice@).take(i as int).map_values(
                |a: Seq<char>| "  "@ + a,
            ),
        decreases advice.len() - i,
    {
        push_line(lines, concat2("  ", advice[i].as_str()));
        assert(views(advice@).take(i + 1).map_values(|a: Seq<char>| "  "@ + a) == views(
            advice@,
        ).take(i as int).map_values(|a: Seq<char>| "  "@ + a).push("  "@ + advice@[i as int]@));
        i += 1;
    }
    assert(views(advice@).take(advice.len() as int) == views(advice@));
}

/// The why-not report text.
pub fn format_why_not(report: &WhyNotReport) -> (r: String)
    ensures
        r@ == why_not_text(*report),
{
    let mut lines: Vec<String> = Vec::new();
    push_line(&mut lines, concat2("Command: ", report.command.as_str()));
    push_line(&mut lines, String::new());
    let ghost head = views(lines@);
    assert(head == seq!["Command: "@ + report.command@, Seq::<char>::empty()]);
    match report.winner() {
        Some(c) => {
            push_line(&mut lines, owned("Available in PATH:"));
            push_line(&mut lines, concat2("  ", c.path.as_str()));
            push_line(&mut lines, String::new());
            push_line(&mut lines, owned("Status:"));
            push_line(&mut lines, owned("  The exact command is already available."));
            assert(views(lines@) == head + seq![
                "Available in PATH:"@,
                "  "@ + c.path@,
                Seq::<char>::empty(),
                "Status:"@,
                "  The exact command is already available."@,
            ]);
            finish_lines(&lines)
        },
        None => {
            push_line(&mut lines, owned("Not found in PATH."));
            push_line(&mut lines, String::new());
            push_line(&mut lines, owned("Searched directories:"));
            push_lines(&mut lines, searched_line_list(&report.searched_directories));
            append_path_diagnostics(&mut lines, &report.path_diagnostics);
            append_related_hints(&mut lines, &report.related_hints);
            append_advice(&mut lines, &report.advice);
            assert(views(lines@) == head + seq![
                "Not found in PATH."@,
                Seq::<char>::empty(),
                "Searched directories:"@,
            ] + searched_lines(views(report.searched_directories@)) + diagnostic_section(
                diagnostic_views(report.path_diagnostics@),
            ) + hint_lines(report.related_hints@) + advice_section(views(report.advice@)));
            finish_lines(&lines)
        },
    }
}

// ----- shell profile scan -----

/// The heading line of a profile: its path and shell.
pub open spec fn profile_line(p: ShellProfile) -> Seq<char> {
    "  "@ + p.path@ + " ("@ + p.shell@ + ")"@
}

/// The line of a PATH change.
pub open spec fn mutation_line(m: PathMutation) -> Seq<char> {
    "    line "@ + decimal(m.line as nat) + "  "@ + m.kind@ + "  "@ + m.text@
}

/// The lines of a profile with PATH changes: its heading, then its changes.
pub open spec fn profile_block(p: ShellProfile) -> Seq<Seq<char>> {
    seq![profile_line(p)] + p.path_mutations@.map_values(|m: PathMutation| mutation_line(m))
}

/// The blocks of the profiles that change PATH, in order.
pub open spec fn mutation_sections(ps: Seq<ShellProfile>) -> Seq<Seq<char>>
    decreases ps.len(),
{
    if ps.len() == 0 {
        Seq::<Seq<char>>::empty()
    } else {
        let acc = mutation_sections(ps.drop_last());
        if ps.last().path_mutations@.len() > 0 {
            acc + profile_block(ps.last())
        } else {
            acc
        }
    }
}

/// Whether a profile exists as a file that could not be read.
pub open spec fn is_unreadable(p: ShellProfile) -> bool {
    p.exists && p.is_file && !p.readable
}

/// The lines of the unreadable profiles, in order.
pub open spec fn unreadable_lines(ps: Seq<ShellProfile>) -> Seq<Seq<char>>
    decreases ps.len(),
{
    if ps.len() == 0 {
        Seq::<Seq<char>>::empty()
    } else {
        let acc = unreadable_lines(ps.drop_last());
        if is_unreadable(ps.last()) {
            acc.push(profile_line(ps.last()))
        } else {
            acc
        }
    }
}

/// The scan report text: the PATH changes of each profile and the unreadable profiles,
/// or a line saying that no profile changes PATH.
pub open spec fn scan_text(report: ShellProfileScanReport) -> Seq<char> {
    let head = seq!["Shell profile scan: "@ + report.home@];
    let muts = mutation_sections(report.profiles@);
    let unread = unreadable_lines(report.profiles@);
    if muts.len() == 0 && unread.len() == 0 {
        finish(head + seq![Seq::<char>::empty(), "No PATH changes found in readable shell profiles."@])
    } else {
        finish(
            head + (if muts.len() == 0 {
                Seq::<Seq<char>>::empty()
            } else {
                seq![Seq::<char>::empty(), "PATH changes:"@] + muts
            }) + (if unread.len() == 0 {
                Seq::<Seq<char>>::empty()
            } else {
                seq![Seq::<char>::empty(), "Unreadable profiles:"@] + unread
            }),
        )
    }
}

/// The heading line of a profile.
fn profile_text(p: &ShellProfile) -> (r: String)
    ensures
        r@ == profile_line(*p),
{
    let mut r = concat2("  ", p.path.as_str());
    append(&mut r, " (");
    append(&mut r, p.shell.as_str());
    append(&mut r, ")");
    r
}

/// Appends the block of a profile.
fn append_profile_mutations(lines: &mut Vec<String>, p: &ShellProfile)
    ensures
        views(final(lines)@) == views(old(lines)@) + profile_block(*p),
{
    let ghost before = views(lines@);
    push_line(lines, profile_text(p));
    let ms = &p.path_mutations;
    let mut j: usize = 0;
    while j < ms.len()
        invariant
            j <= ms.len(),
            ms@ == p.path_mutations@,
            views(lines@) == before + (seq![profile_line(*p)] + ms@.take(j as int).map_values(
                |m: PathMutation| mutation_line(m),
            )),
        decreases ms.len() - j,
    {
        let m = &ms[j];
        let mut line = owned("    line ");
        append(&mut line, decimal_text(m.line).as_str());
        append(&mut line, "  ");
        append(&mut line, m.kind.as_str());
        append(&mut line, "  ");
        append(&mut line, m.text.as_str());
        push_line(lines, line);
        assert(ms@.take(j + 1).map_values(|m: PathMutation| mutation_line(m)) == ms@.take(
            j as int,
        ).map_values(|m: PathMutation| mutation_line(m)).push(mutation_line(ms@[j as int])));
        j += 1;
    }
    assert(ms@.take(ms.len() as int) == ms@);
}

/// The blocks of the profiles that change PATH.
fn mutation_section_list(ps: &Vec<ShellProfile>) -> (r: Vec<String>)
    ensures
        views(r@) == mutation_sections(ps@),
{
    let mut r: Vec<String> = Vec::new();
    let mut i: usize = 0;
    while i < ps.len()
        invariant
            i <= ps.len(),
            views(r@) == mutation_sections(ps@.take(i as int)),
        decreases ps.len() - i,
    {
        assert(ps@.take(i + 1).drop_last() == ps@.take(i as int));
        if ps[i].path_mutations.len() > 0 {
            append_profile_mutations(&mut r, &ps[i]);
        }
        i += 1;
    }
    assert(ps@.take(ps.len() as int) == ps@);
    r
}

/// The lines of the unreadable profiles.
fn unreadable_list(ps: &Vec<ShellProfile>) -> (r: Vec<String>)
    ensures
        views(r@) == unreadable_lines(ps@),
{
    let mut r: Vec<String> = Vec::new();
    let mut i: usize = 0;
    while i < ps.len()
        invariant
            i <= ps.len(),
            views(r@) == unreadable_lines(ps@.take(i as int)),
        decreases ps.len() - i,
    {
        assert(ps@.take(i + 1).drop_last() == ps@.take(i as int));
        let p = &ps[i];
        if p.exists && p.is_file && !p.readable {
            push_line(&mut r, profile_text(p));
        }
        i += 1;
    }
    assert(ps@.take(ps.len() as int) == ps@);
    r
}

/// The scan report text.
pub fn format_shell_profile_scan(report: &ShellProfileScanReport) -> (r: String)
    ensures
        r@ == scan_text(*report),
{
    let mut lines: Vec<String> = Vec::new();
    push_line(&mut lines, concat2("Shell profile scan: ", report.home.as_str()));
    let ghost head = views(lines@);
    let muts = mutation_section_list(&report.profiles);
    let unread = unreadable_list(&report.profiles);
    assert(head == seq!["Shell profile scan: "@ + report.home@]);
    assert(views(muts@).len() == muts@.len());
    assert(views(unread@).len() == unread@.len());
    if muts.len() == 0 && unread.len() == 0 {
        push_line(&mut lines, String::new());
        push_line(&mut lines, owned("No PATH changes found in readable shell profiles."));
        assert(views(lines@) == head + seq![
            Seq::<char>::empty(),
            "No PATH changes found in readable shell profiles."@,
        ]);
        return finish_lines(&lines);
    }
    let ghost muts_v = views(muts@);
    let ghost unread_v = views(unread@);
    if muts.len() > 0 {
        push_line(&mut lines, String::new());
        push_line(&mut lines, owned("PATH changes:"));
        push_lines(&mut lines, muts);
    }
    let ghost after_muts = views(lines@);
    assert(after_muts == head + (if muts_v.len() == 0 {
        Seq::<Seq<char>>::empty()
    } else {
        seq![Seq::<char>::empty(), "PATH changes:"@] + muts_v
    }));
    if unread.len() > 0 {
        push_line(&mut lines, String::new());
        push_line(&mut lines, owned("Unreadable profiles:"));
        push_lines(&mut lines, unread);
    }
    assert(views(lines@) == after_muts + (if unread_v.len() == 0 {
        Seq::<Seq<char>>::empty()
    } else {
        seq![Seq::<char>::empty(), "Unreadable profiles:"@] + unread_v
    }));
    finish_lines(&lines)
}

// ----- apply -----

/// The dry-run text of an apply plan.
pub open spec fn apply_plan_text(plan: ApplyPlan) -> Seq<char> {
    finish(
        seq![
            "Apply dry-run: "@ + shell_name(plan.shell),
            Seq::<char>::empty(),
            "Target profile:"@,
            "  "@ + plan.profile_path@,
            "Action:"@,
            "  "@ + action_name(plan.action),
            "Would write:"@,
            "  "@ + bool_text(plan.would_write),
            Seq::<char>::empty(),
            "Cleaned PATH:"@,
            "  "@ + plan.cleaned_path@,
            Seq::<char>::empty(),
            "Planned block:"@,
        ] + text_lines(plan.planned_block@),
    )
}

/// The dry-run text of an apply plan.
pub fn format_apply_plan(plan: &ApplyPlan) -> (r: String)
    ensures
        r@ == apply_plan_text(*plan),
{
    let mut lines: Vec<String> = Vec::new();
    push_line(&mut lines, concat2("Apply dry-run: ", plan.shell.as_str()));
    push_line(&mut lines, String::new());
    push_line(&mut lines, owned("Target profile:"));
    push_line(&mut lines, concat2("  ", plan.profile_path.as_str()));
    push_line(&mut lines, owned("Action:"));
    push_line(&mut lines, concat2("  ", plan.action.as_str()));
    push_line(&mut lines, owned("Would write:"));
    push_line(&mut lines, concat2("  ", bool_str(plan.would_write)));
    push_line(&mut lines, String::new());
    push_line(&mut lines, owned("Cleaned PATH:"));
    push_line(&mut lines, concat2("  ", plan.cleaned_path.as_str()));
    push_line(&mut lines, String::new());
    push_line(&mut lines, owned("Planned block:"));
    assert(views(lines@) == seq![
        "Apply dry-run: "@ + shell_name(plan.shell),
        Seq::<char>::empty(),
        "Target profile:"@,
        "  "@ + plan.profile_path@,
        "Action:"@,
        "  "@ + action_name(plan.action),
        "Would write:"@,
        "  "@ + bool_text(plan.would_write),
        Seq::<char>::empty(),
        "Cleaned PATH:"@,
        "  "@ + plan.cleaned_path@,
        Seq::<char>::empty(),
        "Planned block:"@,
    ]);
    push_lines(&mut lines, lines_of(plan.planned_block.as_str()));
    finish_lines(&lines)
}

/// The backup line of a written plan: the backup path when one was made, `none` when
/// the profile was created, and `disabled` otherwise.
pub open spec fn backup_line_text(outcome: ApplyOutcome) -> Seq<char> {
    match outcome.backup_path {
        Some(p) => if outcome.backup_created {
            "  "@ + p@
        } else {
            "  disabled"@
        },
        None => if !outcome.backup_created && outcome.plan.action == ApplyAction::CreateProfile {
            "  none"@
        } else {
            "  disabled"@
        },
    }
}

/// The backup line of a written plan.
fn backup_line(outcome: &ApplyOutcome) -> (r: String)
    ensures
        r@ == backup_line_text(*outcome),
{
    match &outcome.backup_path {
        Some(p) => if outcome.backup_created {
            concat2("  ", p.as_str())
        } else {
            owned("  disabled")
        },
        None => if !outcome.backup_created && outcome.plan.action == ApplyAction::CreateProfile {
            owned("  none")
        } else {
            owned("  disabled")
        },
    }
}

/// The text of a written apply plan.
pub open spec fn apply_outcome_text(outcome: ApplyOutcome) -> Seq<char> {
    finish(
        seq![
            "Apply: "@ + shell_name(outcome.plan.shell),
            Seq::<char>::empty(),
            "Target profile:"@,
            "  "@ + outcome.plan.profile_path@,
            "Action:"@,
            "  "@ + action_name(outcome.plan.action),
            "Wrote:"@,
            "  "@ + bool_text(outcome.wrote),
            "Backup:"@,
            backup_line_text(outcome),
            Seq::<char>::empty(),
            "Cleaned PATH:"@,
            "  "@ + outcome.plan.cleaned_path@,
            Seq::<char>::empty(),
            "Written block:"@,
        ] + text_lines(outcome.plan.planned_block@),
    )
}

/// The text of a written apply plan.
pub fn format_apply_outcome(outcome: &ApplyOutcome) -> (r: String)
    ensures
        r@ == apply_outcome_text(*outcome),
{
    let plan = &outcome.plan;
    let mut lines: Vec<String> = Vec::new();
    push_line(&mut lines, concat2("Apply: ", plan.shell.as_str()));
    push_line(&mut lines, String::new());
    push_line(&mut lines, owned("Target profile:"));
    push_line(&mut lines, concat2("  ", plan.profile_path.as_str()));
    push_line(&mut lines, owned("Action:"));
    push_line(&mut lines, concat2("  ", plan.action.as_str()));
    push_line(&mut lines, owned("Wrote:"));
    push_line(&mut lines, concat2("  ", bool_str(outcome.wrote)));
    push_line(&mut lines, owned("Backup:"));
    push_line(&mut lines, backup_line(outcome));
    push_line(&mut lines, String::new());
    push_line(&mut lines, owned("Cleaned PATH:"));
    push_line(&mut lines, concat2("  ", plan.cleaned_path.as_str()));
    push_line(&mut lines, String::new());
    push_line(&mut lines, owned("Written block:"));
    assert(views(lines@) == seq![
        "Apply: "@ + shell_name(outcome.plan.shell),
        Seq::<char>::empty(),
        "Target profile:"@,
        "  "@ + outcome.plan.profile_path@,
        "Action:"@,
        "  "@ + action_name(outcome.plan.action),
        "Wrote:"@,
        "  "@ + bool_text(outcome.wrote),
        "Backup:"@,
        backup_line_text(*outcome),
        Seq::<char>::empty(),
        "Cleaned PATH:"@,
        "  "@ + outcome.plan.cleaned_path@,
        Seq::<char>::empty(),
        "Written block:"@,
    ]);
    push_lines(&mut lines, lines_of(plan.planned_block.as_str()));
    finish_lines(&lines)
}

// ----- config -----

/// A list joined with commas, or `none` when empty.
pub open spec fn list_text(items: Seq<Seq<char>>) -> Seq<char> {
    if items.len() == 0 {
        "none"@
    } else {
        join_with(items, ", "@)
    }
}

/// A list joined with commas, or `none` when empty.
fn format_list(items: &Vec<String>) -> (r: String)
    ensures
        r@ == list_text(views(items@)),
{
    if items.len() == 0 {
        owned("none")
    } else {
        join_text(items, ", ")
    }
}

/// The names of presets.
pub open spec fn preset_names(ps: Seq<PresetKind>) -> Seq<Seq<char>> {
    ps.map_values(|p: PresetKind| preset_name(p))
}

/// The names of issue kinds.
pub open spec fn issue_names(ks: Seq<IssueKind>) -> Seq<Seq<char>> {
    ks.map_values(|k: IssueKind| issue_name(k))
}

fn preset_name_list(ps: &Vec<PresetKind>) -> (r: Vec<String>)
    ensures
        views(r@) == preset_names(ps@),
{
    let mut r: Vec<String> = Vec::new();
    let mut i: usize = 0;
    while i < ps.len()
        invariant
            i <= ps.len(),
            views(r@) == preset_names(ps@.take(i as int)),
        decreases ps.len() - i,
    {
        push_line(&mut r, owned(ps[i].as_str()));
        assert(preset_names(ps@.take(i + 1)) == preset_names(ps@.take(i as int)).push(
            preset_name(ps@[i as int]),
        ));
        i += 1;
    }
    assert(ps@.take(ps.len() as int) == ps@);
    r
}

fn issue_name_list(ks: &Vec<IssueKind>) -> (r: Vec<String>)
    ensures
        views(r@) == issue_names(ks@),
{
    let mut r: Vec<String> = Vec::new();
    let mut i: usize = 0;
    while i < ks.len()
        invariant
            i <= ks.len(),
            views(r@) == issue_names(ks@.take(i as int)),
        decreases ks.len() - i,
    {
        push_line(&mut r, owned(ks[i].as_str()));
        assert(issue_names(ks@.take(i + 1)) == issue_names(ks@.take(i as int)).push(
            issue_name(ks@[i as int]),
        ));
        i += 1;
    }
    assert(ks@.take(ks.len() as int) == ks@);
    r
}

/// The check text of a configuration.
pub open spec fn config_check_text(config: LoadedConfig) -> Seq<char> {
    finish(seq!["Config OK: "@ + config.path@])
}

/// The check text of a configuration.
pub fn format_config_check(config: &LoadedConfig) -> (r: String)
    ensures
        r@ == config_check_text(*config),
{
    let mut lines: Vec<String> = Vec::new();
    push_line(&mut lines, concat2("Config OK: ", config.path.as_str()));
    assert(views(lines@) == seq!["Config OK: "@ + config.path@]);
    finish_lines(&lines)
}

/// The lines of one policy section.
pub open spec fn policy_lines(p: ConfigPolicy) -> Seq<Seq<char>> {
    seq![
        "  drop: "@ + list_text(views(p.drop_entries@)),
        "  preset: "@ + list_text(preset_names(p.presets@)),
        "  fail_on: "@ + list_text(issue_names(p.fail_on@)),
    ]
}

/// The printed text of a configuration.
pub open spec fn config_print_text(config: LoadedConfig) -> Seq<char> {
    finish(
        seq![
            "Config: "@ + config.path@,
            "Version: "@ + decimal(config.config.version as nat),
            Seq::<char>::empty(),
            "PATH:"@,
        ] + policy_lines(config.config.path) + seq![Seq::<char>::empty(), "MANPATH:"@]
            + policy_lines(config.config.manpath),
    )
}

/// Appends the lines of one policy section.
fn append_policy(lines: &mut Vec<String>, p: &ConfigPolicy)
    ensures
        views(final(lines)@) == views(old(lines)@) + policy_lines(*p),
{
    let ghost before = views(lines@);
    push_line(lines, concat2("  drop: ", format_list(&p.drop_entries).as_str()));
    push_line(lines, concat2("  preset: ", format_list(&preset_name_list(&p.presets)).as_str()));
    push_line(lines, concat2("  fail_on: ", format_list(&issue_name_list(&p.fail_on)).as_str()));
    assert(views(lines@) == before + policy_lines(*p));
}

/// The printed text of a configuration.
pub fn format_config_print(config: &LoadedConfig) -> (r: String)
    ensures
        r@ == config_print_text(*config),
{
    let mut lines: Vec<String> = Vec::new();
    push_line(&mut lines, concat2("Config: ", config.path.as_str()));
    push_line(&mut lines, concat2("Version: ", decimal_text_u64(config.config.version).as_str()));
    push_line(&mut lines, String::new());
    push_line(&mut lines, owned("PATH:"));
    let ghost head = views(lines@);
    assert(head == seq![
        "Config: "@ + config.path@,
        "Version: "@ + decimal(config.config.version as nat),
        Seq::<char>::empty(),
        "PATH:"@,
    ]);
    append_policy(&mut lines, &config.config.path);
    push_line(&mut lines, String::new());
    push_line(&mut lines, owned("MANPATH:"));
    append_policy(&mut lines, &config.config.manpath);
    assert(views(lines@) == head + policy_lines(config.config.path) + seq![
        Seq::<char>::empty(),
        "MANPATH:"@,
    ] + policy_lines(config.config.manpath));
    finish_lines(&lines)
}

} // verus!

verus! {

/// Joined by a separator, two or more parts start with the first and the separator.
proof fn lemma_join_prefix(parts: Seq<Seq<char>>, sep: Seq<char>)
    requires
        parts.len() >= 2,
    ensures
        crate::text::starts_with(join_with(parts, sep), parts[0] + sep),
    decreases parts.len(),
{
    let p = parts[0] + sep;
    if parts.len() == 2 {
        assert(parts.drop_last() =~= seq![parts[0]]);
        assert(join_with(parts.drop_last(), sep) == parts[0]);
        assert((parts[0] + sep + parts.last()).subrange(0, p.len() as int) =~= p);
    } else {
        lemma_join_prefix(parts.drop_last(), sep);
        assert(parts.drop_last()[0] == parts[0]);
        let j = join_with(parts.drop_last(), sep);
        assert((j + sep + parts.last()).subrange(0, p.len() as int) =~= j.subrange(
            0,
            p.len() as int,
        ));
    }
}

/// A finished text starts with its first line and a newline.
proof fn lemma_finish_first_line(lines: Seq<Seq<char>>)
    requires
        lines.len() >= 1,
    ensures
        crate::text::starts_with(finish(lines), lines[0] + "\n"@),
{
    let p = lines[0] + "\n"@;
    let j = join_with(lines, "\n"@);
    assert(finish(lines) == j + "\n"@);
    if lines.len() == 1 {
        assert(j == lines[0]);
        assert(finish(lines) =~= p);
        assert(finish(lines).subrange(0, p.len() as int) =~= p);
    } else {
        lemma_join_prefix(lines, "\n"@);
        assert((j + "\n"@).subrange(0, p.len() as int) =~= j.subrange(0, p.len() as int));
    }
}

/// Whether a diagnostic has a kind.
pub open spec fn of_kind(kind: IssueKind) -> spec_fn(DiagnosticView) -> bool {
    |d: DiagnosticView| d.kind == kind
}

/// The doctor line of a diagnostic in a style.
pub open spec fn line_in(style: LineStyle) -> spec_fn(DiagnosticView) -> Seq<char> {
    |d: DiagnosticView| styled_line(d, style)
}

/// The lines of a kind are those of its diagnostics, in input order.
proof fn lemma_kind_lines_filter(ds: Seq<DiagnosticView>, kind: IssueKind, style: LineStyle)
    ensures
        kind_lines(ds, kind, style) == ds.filter(of_kind(kind)).map_values(line_in(style)),
    decreases ds.len(),
{
    reveal(Seq::filter);
    if ds.len() > 0 {
        lemma_kind_lines_filter(ds.drop_last(), kind, style);
        let f = ds.drop_last().filter(of_kind(kind));
        assert(ds.filter(of_kind(kind)) == (if of_kind(kind)(ds.last()) {
            f.push(ds.last())
        } else {
            f
        }));
        assert(f.push(ds.last()).map_values(line_in(style)) =~= f.map_values(line_in(style)).push(
            styled_line(ds.last(), style),
        ));
    } else {
        assert(ds.filter(of_kind(kind)) == ds);
        assert(kind_lines(ds, kind, style) =~= ds.filter(of_kind(kind)).map_values(line_in(style)));
    }
}

/// A kind has lines exactly when some diagnostic has that kind.
proof fn lemma_kind_lines_nonempty(ds: Seq<DiagnosticView>, kind: IssueKind, style: LineStyle)
    ensures
        kind_lines(ds, kind, style).len() > 0 <==> exists|i: int|
            0 <= i < ds.len() && (#[trigger] ds[i]).kind == kind,
    decreases ds.len(),
{
    if ds.len() > 0 {
        lemma_kind_lines_nonempty(ds.drop_last(), kind, style);
        if exists|i: int| 0 <= i < ds.len() && (#[trigger] ds[i]).kind == kind {
            let i = choose|i: int| 0 <= i < ds.len() && (#[trigger] ds[i]).kind == kind;
            if i < ds.len() - 1 {
                assert(ds.drop_last()[i] == ds[i]);
            }
        }
        if exists|i: int| 0 <= i < ds.drop_last().len() && (#[trigger] ds.drop_last()[i]).kind
            == kind {
            let i = choose|i: int|
                0 <= i < ds.drop_last().len() && (#[trigger] ds.drop_last()[i]).kind == kind;
            assert(ds[i] == ds.drop_last()[i]);
        }
    }
}

/// The doctor report text in words: it ends with a newline and starts with the line
/// `<VARIABLE> entries: <count>`; without diagnostics the rest is a blank line and
/// `No issues found.`; otherwise each kind's group (a blank line, its heading, then one
/// line per diagnostic of the kind in input order) stands in the fixed order duplicates,
/// missing, non-directories, unreadable, unwanted, empty, ordering, shadowed, and appears
/// exactly when some diagnostic has that kind.
pub proof fn law_doctor_text_shape(report: DoctorReport)
    ensures
        ({
            let text = doctor_text(report);
            &&& text.len() > 0 && text.last() == '\n'
            &&& crate::text::starts_with(
                text,
                path_variable_env_name(report.variable) + " entries: "@ + decimal(
                    report.entries@.len(),
                ) + "\n"@,
            )
        }),
        diagnostic_views(report.diagnostics@).len() == 0 ==> doctor_text(report)
            == path_variable_env_name(report.variable) + " entries: "@ + decimal(
            report.entries@.len(),
        ) + "\n\nNo issues found.\n"@,
        forall|kind: IssueKind, style: LineStyle|
            #[trigger] kind_lines(diagnostic_views(report.diagnostics@), kind, style)
                == diagnostic_views(report.diagnostics@).filter(of_kind(kind)).map_values(
                line_in(style),
            ),
        forall|kind: IssueKind, heading: Seq<char>, style: LineStyle|
            (#[trigger] group_lines(diagnostic_views(report.diagnostics@), heading, kind, style)).len()
                > 0 <==> exists|i: int|
                0 <= i < report.diagnostics@.len() && (#[trigger] report.diagnostics@[i]).kind
                    == kind,
{
    let ds = diagnostic_views(report.diagnostics@);
    let header = path_variable_env_name(report.variable) + " entries: "@ + decimal(
        report.entries@.len(),
    );
    let text = doctor_text(report);
    assert forall|kind: IssueKind, style: LineStyle|
        #[trigger] kind_lines(ds, kind, style) == ds.filter(of_kind(kind)).map_values(
            line_in(style),
        ) by {
        lemma_kind_lines_filter(ds, kind, style);
    }
    assert forall|kind: IssueKind, heading: Seq<char>, style: LineStyle|
        (#[trigger] group_lines(ds, heading, kind, style)).len() > 0 <==> exists|i: int|
            0 <= i < report.diagnostics@.len() && (#[trigger] report.diagnostics@[i]).kind
                == kind by {
        lemma_kind_lines_nonempty(ds, kind, style);
        if exists|i: int| 0 <= i < ds.len() && (#[trigger] ds[i]).kind == kind {
            let i = choose|i: int| 0 <= i < ds.len() && (#[trigger] ds[i]).kind == kind;
            assert(report.diagnostics@[i]@ == ds[i]);
        }
        if exists|i: int|
            0 <= i < report.diagnostics@.len() && (#[trigger] report.diagnostics@[i]).kind == kind {
            let i = choose|i: int|
                0 <= i < report.diagnostics@.len() && (#[trigger] report.diagnostics@[i]).kind
                    == kind;
            assert(ds[i] == report.diagnostics@[i]@);
        }
    }
    let lines = if ds.len() == 0 {
        seq![header] + seq![Seq::<char>::empty(), "No issues found."@]
    } else {
        seq![header] + group_lines(ds, "Duplicates:"@, IssueKind::Duplicate, LineStyle::Duplicate)
            + group_lines(ds, "Missing directories:"@, IssueKind::Missing, LineStyle::Indexed)
            + group_lines(ds, "Non-directories:"@, IssueKind::NotDirectory, LineStyle::Indexed)
            + group_lines(
            ds,
            "Unreadable directories:"@,
            IssueKind::Unreadable,
            LineStyle::Indexed,
        ) + group_lines(ds, "Unwanted entries:"@, IssueKind::Unwanted, LineStyle::Indexed)
            + group_lines(ds, "Empty entries:"@, IssueKind::Empty, LineStyle::EmptyEntry)
            + group_lines(ds, "Ordering warnings:"@, IssueKind::SuspiciousOrder, LineStyle::Message)
            + group_lines(
            ds,
            "Shadowed commands:"@,
            IssueKind::ShadowedCommand,
            LineStyle::Message,
        )
    };
    assert(text == finish(lines));
    assert(lines[0] == header);
    lemma_finish_first_line(lines);
    reveal_strlit("\n");
    assert(text == join_with(lines, "\n"@) + "\n"@);
    assert(text.last() == '\n');
    if ds.len() == 0 {
        reveal_strlit("No issues found.");
        reveal_strlit("\n\nNo issues found.\n");
        reveal_strlit("\n");
        let l3 = seq![header, Seq::<char>::empty(), "No issues found."@];
        assert(lines =~= l3);
        assert(l3.drop_last().drop_last() =~= seq![header]);
        assert(l3.drop_last().last() == Seq::<char>::empty());
        assert(join_with(seq![header], "\n"@) == header);
        assert(join_with(l3.drop_last(), "\n"@) == header + "\n"@ + Seq::<char>::empty());
        assert(finish(l3) =~= header + "\n\nNo issues found.\n"@);
    }
}

} // verus!

verus! {

/// Whether a candidate does not win.
pub open spec fn loses() -> spec_fn(ResolutionCandidate) -> bool {
    |c: ResolutionCandidate| !c.wins
}

/// The other-matches line of a candidate: its entry index and its path, each after two
/// spaces.
pub open spec fn other_line() -> spec_fn(ResolutionCandidate) -> Seq<char> {
    |c: ResolutionCandidate| "  "@ + decimal(c.entry_index as nat) + "  "@ + c.path@
}

/// The lines of the losing candidates are their other-matches lines, in order.
proof fn lemma_other_lines_filter(cs: Seq<ResolutionCandidate>)
    ensures
        other_match_lines(cs) == cs.filter(loses()).map_values(other_line()),
    decreases cs.len(),
{
    reveal(Seq::filter);
    if cs.len() > 0 {
        lemma_other_lines_filter(cs.drop_last());
        let f = cs.drop_last().filter(loses());
        assert(cs.filter(loses()) == (if loses()(cs.last()) {
            f.push(cs.last())
        } else {
            f
        }));
        assert(f.push(cs.last()).map_values(other_line()) =~= f.map_values(other_line()).push(
            other_line()(cs.last()),
        ));
    } else {
        assert(cs.filter(loses()) == cs);
        assert(other_match_lines(cs) =~= cs.filter(loses()).map_values(other_line()));
    }
}

/// There are lines of losing candidates exactly when some candidate loses.
proof fn lemma_other_lines_nonempty(cs: Seq<ResolutionCandidate>)
    ensures
        other_match_lines(cs).len() > 0 <==> exists|i: int|
            0 <= i < cs.len() && !(#[trigger] cs[i]).wins,
    decreases cs.len(),
{
    if cs.len() > 0 {
        lemma_other_lines_nonempty(cs.drop_last());
        if exists|i: int| 0 <= i < cs.len() && !(#[trigger] cs[i]).wins {
            let i = choose|i: int| 0 <= i < cs.len() && !(#[trigger] cs[i]).wins;
            if i < cs.len() - 1 {
                assert(cs.drop_last()[i] == cs[i]);
            }
        }
        if exists|i: int| 0 <= i < cs.drop_last().len() && !(#[trigger] cs.drop_last()[i]).wins {
            let i = choose|i: int|
                0 <= i < cs.drop_last().len() && !(#[trigger] cs.drop_last()[i]).wins;
            assert(cs[i] == cs.drop_last()[i]);
        }
    }
}

/// The Other matches section of the why report lists every candidate that does not win,
/// in order, one line `  <entry index>  <path>` each; it is the single line `  none`
/// exactly when every candidate wins.
pub proof fn law_other_matches_list_every_losing_candidate(cs: Seq<ResolutionCandidate>)
    ensures
        (forall|k: int| 0 <= k < cs.len() ==> (#[trigger] cs[k]).wins) ==> others_section(cs)
            == seq!["  none"@],
        (exists|k: int| 0 <= k < cs.len() && !(#[trigger] cs[k]).wins) ==> others_section(cs)
            == cs.filter(loses()).map_values(other_line()),
        (exists|k: int| 0 <= k < cs.len() && !(#[trigger] cs[k]).wins) ==> others_section(
            cs,
        ).len() == cs.filter(loses()).len() && others_section(cs).len() > 0,
{
    lemma_other_lines_filter(cs);
    lemma_other_lines_nonempty(cs);
}

/// Whether a profile changes PATH.
pub open spec fn changes_path() -> spec_fn(ShellProfile) -> bool {
    |p: ShellProfile| p.path_mutations@.len() > 0
}

/// The lines a profile brings to the PATH changes section: its heading line, then one line
/// per change, in order.
pub open spec fn heading_and_changes() -> spec_fn(ShellProfile) -> Seq<Seq<char>> {
    |p: ShellProfile|
        seq![profile_line(p)] + p.path_mutations@.map_values(|m: PathMutation| mutation_line(m))
}

/// The PATH changes section built from the back.
proof fn lemma_mutation_sections_alt(ps: Seq<ShellProfile>)
    ensures
        mutation_sections(ps) == ps.filter(changes_path()).map_values(
            heading_and_changes(),
        ).flatten_alt(),
    decreases ps.len(),
{
    reveal(Seq::filter);
    if ps.len() > 0 {
        lemma_mutation_sections_alt(ps.drop_last());
        let f = ps.drop_last().filter(changes_path());
        assert(ps.filter(changes_path()) == (if changes_path()(ps.last()) {
            f.push(ps.last())
        } else {
            f
        }));
        if changes_path()(ps.last()) {
            let m = f.push(ps.last()).map_values(heading_and_changes());
            assert(m =~= f.map_values(heading_and_changes()).push(
                heading_and_changes()(ps.last()),
            ));
            assert(m.drop_last() == f.map_values(heading_and_changes()));
            assert(m.last() == heading_and_changes()(ps.last()));
            assert(profile_block(ps.last()) == heading_and_changes()(ps.last()));
        }
    } else {
        assert(ps.filter(changes_path()) == ps);
        assert(ps.filter(changes_path()).map_values(heading_and_changes()).len() == 0);
    }
}

/// The PATH changes section of the scan report holds, for every profile that changes PATH
/// and in profile order, its heading line followed by one line per change; profiles without
/// changes bring nothing to it.
pub proof fn law_path_changes_cover_every_changing_profile(ps: Seq<ShellProfile>)
    ensures
        mutation_sections(ps) == ps.filter(changes_path()).map_values(
            heading_and_changes(),
        ).flatten(),
{
    lemma_mutation_sections_alt(ps);
    ps.filter(changes_path()).map_values(
        heading_and_changes(),
    ).lemma_flatten_and_flatten_alt_are_equivalent();
}

} // verus!
