//! JSON output: the JSON value of each report, and its pretty rendering.
use vstd::prelude::*;
use crate::config::{ConfigPolicy, LoadedConfig};
use crate::human::{issue_names, preset_names};
use crate::model::{
    ApplyOutcome, ApplyPlan, Diagnostic, DiagnosticView, DoctorReport, HealthReport, IssueKind,
    PathEntry, PathMutation, RelatedExecutableHint, ResolutionCandidate, ResolutionReport,
    ShellProfile, ShellProfileScanReport, WhyNotReport, action_name, diagnostic_views,
    first_winner, issue_name, path_variable_name, severity_name, shell_name, winner_position,
};
use crate::text::{append, owned, views};

verus! {

/// A JSON value as the reports build it.
#[derive(Debug)]
pub enum JsonValue {
    /// `null`.
    Null,
    /// `true` or `false`.
    Bool(bool),
    /// A non-negative integer.
    Number(u64),
    /// A string.
    Str(String),
    /// An array.
    Array(Vec<JsonValue>),
    /// An object: its members in insertion order.
    Object(Vec<(String, JsonValue)>),
}

/// The mathematical view of a JSON value.
#[verifier::ext_equal]
pub enum JsonView {
    /// `null`.
    Null,
    /// `true` or `false`.
    Bool(bool),
    /// A non-negative integer.
    Number(nat),
    /// A string.
    Str(Seq<char>),
    /// An array.
    Array(Seq<JsonView>),
    /// An object: its members in insertion order.
    Object(Seq<(Seq<char>, JsonView)>),
}

/// The view of a JSON value.
pub open spec fn json_view(v: JsonValue) -> JsonView
    decreases v,
{
    match v {
        JsonValue::Null => JsonView::Null,
        JsonValue::Bool(b) => JsonView::Bool(b),
        JsonValue::Number(n) => JsonView::Number(n as nat),
        JsonValue::Str(s) => JsonView::Str(s@),
        JsonValue::Array(items) => JsonView::Array(item_views(items@)),
        JsonValue::Object(members) => JsonView::Object(member_views(members@)),
    }
}

/// The views of array items.
pub open spec fn item_views(items: Seq<JsonValue>) -> Seq<JsonView>
    decreases items,
{
    if items.len() == 0 {
        Seq::<JsonView>::empty()
    } else {
        item_views(items.drop_last()).push(json_view(items.last()))
    }
}

/// The views of object members.
pub open spec fn member_views(members: Seq<(String, JsonValue)>) -> Seq<(Seq<char>, JsonView)>
    decreases members,
{
    if members.len() == 0 {
        Seq::<(Seq<char>, JsonView)>::empty()
    } else {
        member_views(members.drop_last()).push(
            (members.last().0@, json_view(members.last().1)),
        )
    }
}

impl View for JsonValue {
    type V = JsonView;

    open spec fn view(&self) -> JsonView {
        json_view(*self)
    }
}

/// Appends a member to an object under construction.
pub fn push_member(members: &mut Vec<(String, JsonValue)>, key: &str, value: JsonValue)
    ensures
        member_views(final(members)@) == member_views(old(members)@).push((key@, value@)),
{
    let ghost before = members@;
    members.push((owned(key), value));
    assert(members@.drop_last() == before);
}

/// Appends an item to an array under construction.
pub fn push_item(items: &mut Vec<JsonValue>, value: JsonValue)
    ensures
        item_views(final(items)@) == item_views(old(items)@).push(value@),
{
    let ghost before = items@;
    items.push(value);
    assert(items@.drop_last() == before);
}

/// A JSON array of strings.
pub open spec fn strings_json(ss: Seq<Seq<char>>) -> JsonView {
    JsonView::Array(ss.map_values(|s: Seq<char>| JsonView::Str(s)))
}

/// A JSON array of indexes.
pub open spec fn numbers_json(xs: Seq<usize>) -> JsonView {
    JsonView::Array(xs.map_values(|x: usize| JsonView::Number(x as nat)))
}

/// An index, or `null`.
pub open spec fn opt_number_json(o: Option<usize>) -> JsonView {
    match o {
        Some(x) => JsonView::Number(x as nat),
        None => JsonView::Null,
    }
}

/// A string, or `null`.
pub open spec fn opt_str_json(o: Option<Seq<char>>) -> JsonView {
    match o {
        Some(s) => JsonView::Str(s),
        None => JsonView::Null,
    }
}

/// A JSON number from an index.
pub fn number_value(x: usize) -> (r: JsonValue)
    ensures
        r@ == JsonView::Number(x as nat),
{
    JsonValue::Number(x as u64)
}

/// A JSON string from a text.
pub fn str_value(s: &str) -> (r: JsonValue)
    ensures
        r@ == JsonView::Str(s@),
{
    JsonValue::Str(owned(s))
}

/// A JSON array of strings.
pub fn strings_value(ss: &Vec<String>) -> (r: JsonValue)
    ensures
        r@ == strings_json(views(ss@)),
{
    let mut items: Vec<JsonValue> = Vec::new();
    assert(item_views(items@) == Seq::<JsonView>::empty());
    let mut i: usize = 0;
    while i < ss.len()
        invariant
            i <= ss.len(),
            item_views(items@) == views(ss@).take(i as int).map_values(
                |s: Seq<char>| JsonView::Str(s),
            ),
        decreases ss.len() - i,
    {
        push_item(&mut items, str_value(ss[i].as_str()));
        assert(views(ss@).take(i + 1).map_values(|s: Seq<char>| JsonView::Str(s)) == views(
            ss@,
        ).take(i as int).map_values(|s: Seq<char>| JsonView::Str(s)).push(
            JsonView::Str(ss@[i as int]@),
        ));
        i += 1;
    }
    assert(views(ss@).take(ss.len() as int) == views(ss@));
    JsonValue::Array(items)
}

/// A JSON array of indexes.
pub fn numbers_value(xs: &Vec<usize>) -> (r: JsonValue)
    ensures
        r@ == numbers_json(xs@),
{
    let mut items: Vec<JsonValue> = Vec::new();
    assert(item_views(items@) == Seq::<JsonView>::empty());
    let mut i: usize = 0;
    while i < xs.len()
        invariant
            i <= xs.len(),
            item_views(items@) == xs@.take(i as int).map_values(
                |x: usize| JsonView::Number(x as nat),
            ),
        decreases xs.len() - i,
    {
        push_item(&mut items, number_value(xs[i]));
        assert(xs@.take(i + 1).map_values(|x: usize| JsonView::Number(x as nat)) == xs@.take(
            i as int,
        ).map_values(|x: usize| JsonView::Number(x as nat)).push(
            JsonView::Number(xs@[i as int] as nat),
        ));
        i += 1;
    }
    assert(xs@.take(xs.len() as int) == xs@);
    JsonValue::Array(items)
}

/// An index, or `null`.
pub fn opt_number_value(o: Option<usize>) -> (r: JsonValue)
    ensures
        r@ == opt_number_json(o),
{
    match o {
        Some(x) => number_value(x),
        None => JsonValue::Null,
    }
}

/// A string, or `null`.
pub fn opt_str_value(o: &Option<String>) -> (r: JsonValue)
    ensures
        r@ == opt_str_json(
            match *o {
                Some(s) => Some(s@),
                None => None,
            },
        ),
{
    match o {
        Some(s) => str_value(s.as_str()),
        None => JsonValue::Null,
    }
}

// ----- entries -----

/// The kind of an entry: `empty`, `missing`, `not_directory` or `directory`.
pub open spec fn entry_kind_name(e: PathEntry) -> Seq<char> {
    if e.is_empty {
        "empty"@
    } else if !e.exists {
        "missing"@
    } else if !e.is_dir {
        "not_directory"@
    } else {
        "directory"@
    }
}

/// The kind of an entry.
pub fn entry_kind(e: &PathEntry) -> (r: &'static str)
    ensures
        r@ == entry_kind_name(*e),
{
    proof {
        reveal_strlit("empty");
        reveal_strlit("missing");
        reveal_strlit("not_directory");
        reveal_strlit("directory");
    }
    if e.is_empty {
        "empty"
    } else if !e.exists {
        "missing"
    } else if !e.is_dir {
        "not_directory"
    } else {
        "directory"
    }
}

/// The JSON object of an entry.
pub open spec fn entry_json(e: PathEntry) -> JsonView {
    JsonView::Object(entry_members(e))
}

/// The members of the JSON object of an entry.
pub open spec fn entry_members(e: PathEntry) -> Seq<(Seq<char>, JsonView)> {
        seq![
            ("index"@, JsonView::Number(e.index as nat)),
            ("raw"@, JsonView::Str(e.raw@)),
            ("display"@, JsonView::Str(e.display@)),
            ("comparison_key"@, JsonView::Str(e.comparison_key@)),
            ("kind"@, JsonView::Str(entry_kind_name(e))),
            ("exists"@, JsonView::Bool(e.exists)),
            ("is_dir"@, JsonView::Bool(e.is_dir)),
            ("is_empty"@, JsonView::Bool(e.is_empty)),
        ]
}

/// The JSON object of an entry.
pub fn entry_to_json(e: &PathEntry) -> (r: JsonValue)
    ensures
        r@ == entry_json(*e),
{
    let mut m: Vec<(String, JsonValue)> = Vec::new();
    assert(member_views(m@) == Seq::<(Seq<char>, JsonView)>::empty());
    push_member(&mut m, "index", number_value(e.index));
    push_member(&mut m, "raw", str_value(e.raw.as_str()));
    push_member(&mut m, "display", str_value(e.display.as_str()));
    push_member(&mut m, "comparison_key", str_value(e.comparison_key.as_str()));
    push_member(&mut m, "kind", str_value(entry_kind(e)));
    push_member(&mut m, "exists", JsonValue::Bool(e.exists));
    push_member(&mut m, "is_dir", JsonValue::Bool(e.is_dir));
    push_member(&mut m, "is_empty", JsonValue::Bool(e.is_empty));
    assert(member_views(m@) =~= entry_members(*e));
    JsonValue::Object(m)
}

/// The JSON array of entries.
pub open spec fn entries_json(es: Seq<PathEntry>) -> JsonView {
    JsonView::Array(es.map_values(|e: PathEntry| entry_json(e)))
}

/// The JSON array of entries.
pub fn entries_to_json(entries: &[PathEntry]) -> (r: JsonValue)
    ensures
        r@ == entries_json(entries@),
{
    let mut items: Vec<JsonValue> = Vec::new();
    assert(item_views(items@) == Seq::<JsonView>::empty());
    let mut i: usize = 0;
    while i < entries.len()
        invariant
            i <= entries.len(),
            item_views(items@) == entries@.take(i as int).map_values(|e: PathEntry| entry_json(e)),
        decreases entries.len() - i,
    {
        push_item(&mut items, entry_to_json(&entries[i]));
        assert(entries@.take(i + 1).map_values(|e: PathEntry| entry_json(e)) == entries@.take(
            i as int,
        ).map_values(|e: PathEntry| entry_json(e)).push(entry_json(entries@[i as int])));
        i += 1;
    }
    assert(entries@.take(entries.len() as int) == entries@);
    JsonValue::Array(items)
}

// ----- diagnostics and doctor -----

/// The JSON object of a diagnostic.
pub open spec fn diagnostic_json(d: DiagnosticView) -> JsonView {
    JsonView::Object(diagnostic_members(d))
}

/// The members of the JSON object of a diagnostic.
pub open spec fn diagnostic_members(d: DiagnosticView) -> Seq<(Seq<char>, JsonView)> {
        seq![
            ("kind"@, JsonView::Str(issue_name(d.kind))),
            ("message"@, JsonView::Str(d.message)),
            ("entry_index"@, opt_number_json(d.entry_index)),
            ("entry_value"@, opt_str_json(d.entry_value)),
            ("related_indexes"@, numbers_json(d.related_indexes)),
        ]
}

/// The JSON object of a diagnostic.
pub fn diagnostic_to_json(d: &Diagnostic) -> (r: JsonValue)
    ensures
        r@ == diagnostic_json(d@),
{
    let mut m: Vec<(String, JsonValue)> = Vec::new();
    assert(member_views(m@) == Seq::<(Seq<char>, JsonView)>::empty());
    push_member(&mut m, "kind", str_value(d.kind.as_str()));
    push_member(&mut m, "message", str_value(d.message.as_str()));
    push_member(&mut m, "entry_index", opt_number_value(d.entry_index));
    push_member(&mut m, "entry_value", opt_str_value(&d.entry_value));
    push_member(&mut m, "related_indexes", numbers_value(&d.related_indexes));
    assert(member_views(m@) =~= diagnostic_members(d@));
    JsonValue::Object(m)
}

/// The JSON array of diagnostics.
pub open spec fn diagnostics_json(ds: Seq<DiagnosticView>) -> JsonView {
    JsonView::Array(ds.map_values(|d: DiagnosticView| diagnostic_json(d)))
}

/// The JSON array of diagnostics.
pub fn diagnostics_to_json(ds: &Vec<Diagnostic>) -> (r: JsonValue)
    ensures
        r@ == diagnostics_json(diagnostic_views(ds@)),
{
    let ghost dv = diagnostic_views(ds@);
    let mut items: Vec<JsonValue> = Vec::new();
    assert(item_views(items@) == Seq::<JsonView>::empty());
    let mut i: usize = 0;
    while i < ds.len()
        invariant
            i <= ds.len(),
            dv == diagnostic_views(ds@),
            item_views(items@) == dv.take(i as int).map_values(
                |d: DiagnosticView| diagnostic_json(d),
            ),
        decreases ds.len() - i,
    {
        push_item(&mut items, diagnostic_to_json(&ds[i]));
        assert(dv.take(i + 1).map_values(|d: DiagnosticView| diagnostic_json(d)) == dv.take(
            i as int,
        ).map_values(|d: DiagnosticView| diagnostic_json(d)).push(diagnostic_json(dv[i as int])));
        i += 1;
    }
    assert(dv.take(ds.len() as int) == dv);
    JsonValue::Array(items)
}

/// The JSON object of a doctor report.
pub open spec fn doctor_json_of(report: DoctorReport) -> JsonView {
    JsonView::Object(doctor_members(report))
}

/// The members of the JSON object of a doctor report.
pub open spec fn doctor_members(report: DoctorReport) -> Seq<(Seq<char>, JsonView)> {
        seq![
            ("variable"@, JsonView::Str(path_variable_name(report.variable))),
            ("entries"@, entries_json(report.entries@)),
            ("diagnostics"@, diagnostics_json(diagnostic_views(report.diagnostics@))),
        ]
}

/// The JSON object of a doctor report.
pub fn doctor_to_json(report: &DoctorReport) -> (r: JsonValue)
    ensures
        r@ == doctor_json_of(*report),
{
    let mut m: Vec<(String, JsonValue)> = Vec::new();
    assert(member_views(m@) == Seq::<(Seq<char>, JsonView)>::empty());
    push_member(&mut m, "variable", str_value(report.variable.as_str()));
    push_member(&mut m, "entries", entries_to_json(report.entries.as_slice()));
    push_member(&mut m, "diagnostics", diagnostics_to_json(&report.diagnostics));
    assert(member_views(m@) =~= doctor_members(*report));
    JsonValue::Object(m)
}

/// Builds a JSON array from the values of a list, in order.
pub open spec fn array_of<T>(xs: Seq<T>, f: spec_fn(T) -> JsonView) -> JsonView {
    JsonView::Array(xs.map_values(f))
}

// ----- resolution -----

/// The members of the JSON object of a candidate.
pub open spec fn candidate_members(c: ResolutionCandidate) -> Seq<(Seq<char>, JsonView)> {
    seq![
        ("entry_index"@, JsonView::Number(c.entry_index as nat)),
        ("directory"@, JsonView::Str(c.directory@)),
        ("path"@, JsonView::Str(c.path@)),
        ("wins"@, JsonView::Bool(c.wins)),
    ]
}

/// The JSON object of a candidate.
pub open spec fn candidate_json(c: ResolutionCandidate) -> JsonView {
    JsonView::Object(candidate_members(c))
}

/// The JSON object of a candidate.
pub fn candidate_to_json(c: &ResolutionCandidate) -> (r: JsonValue)
    ensures
        r@ == candidate_json(*c),
{
    let mut m: Vec<(String, JsonValue)> = Vec::new();
    assert(member_views(m@) == Seq::<(Seq<char>, JsonView)>::empty());
    push_member(&mut m, "entry_index", number_value(c.entry_index));
    push_member(&mut m, "directory", str_value(c.directory.as_str()));
    push_member(&mut m, "path", str_value(c.path.as_str()));
    push_member(&mut m, "wins", JsonValue::Bool(c.wins));
    assert(member_views(m@) =~= candidate_members(*c));
    JsonValue::Object(m)
}

/// The JSON array of candidates.
pub fn candidates_to_json(cs: &Vec<ResolutionCandidate>) -> (r: JsonValue)
    ensures
        r@ == array_of(cs@, |c: ResolutionCandidate| candidate_json(c)),
{
    let mut items: Vec<JsonValue> = Vec::new();
    assert(item_views(items@) == Seq::<JsonView>::empty());
    let mut i: usize = 0;
    while i < cs.len()
        invariant
            i <= cs.len(),
            item_views(items@) == cs@.take(i as int).map_values(
                |c: ResolutionCandidate| candidate_json(c),
            ),
        decreases cs.len() - i,
    {
        push_item(&mut items, candidate_to_json(&cs[i]));
        assert(cs@.take(i + 1).map_values(|c: ResolutionCandidate| candidate_json(c)) == cs@.take(
            i as int,
        ).map_values(|c: ResolutionCandidate| candidate_json(c)).push(candidate_json(cs@[i as int])));
        i += 1;
    }
    assert(cs@.take(cs.len() as int) == cs@);
    JsonValue::Array(items)
}

/// The members of the JSON object of a related-executable hint.
pub open spec fn hint_members(h: RelatedExecutableHint) -> Seq<(Seq<char>, JsonView)> {
    seq![("command"@, JsonView::Str(h.command@)), ("paths"@, strings_json(views(h.paths@)))]
}

/// The JSON object of a related-executable hint.
pub open spec fn hint_json(h: RelatedExecutableHint) -> JsonView {
    JsonView::Object(hint_members(h))
}

/// The JSON array of related-executable hints.
pub fn hints_to_json(hs: &Vec<RelatedExecutableHint>) -> (r: JsonValue)
    ensures
        r@ == array_of(hs@, |h: RelatedExecutableHint| hint_json(h)),
{
    let mut items: Vec<JsonValue> = Vec::new();
    assert(item_views(items@) == Seq::<JsonView>::empty());
    let mut i: usize = 0;
    while i < hs.len()
        invariant
            i <= hs.len(),
            item_views(items@) == hs@.take(i as int).map_values(
                |h: RelatedExecutableHint| hint_json(h),
            ),
        decreases hs.len() - i,
    {
        let h = &hs[i];
        let mut m: Vec<(String, JsonValue)> = Vec::new();
        assert(member_views(m@) == Seq::<(Seq<char>, JsonView)>::empty());
        push_member(&mut m, "command", str_value(h.command.as_str()));
        push_member(&mut m, "paths", strings_value(&h.paths));
        assert(member_views(m@) =~= hint_members(*h));
        push_item(&mut items, JsonValue::Object(m));
        assert(hs@.take(i + 1).map_values(|h: RelatedExecutableHint| hint_json(h)) == hs@.take(
            i as int,
        ).map_values(|h: RelatedExecutableHint| hint_json(h)).push(hint_json(hs@[i as int])));
        i += 1;
    }
    assert(hs@.take(hs.len() as int) == hs@);
    JsonValue::Array(items)
}

/// The winning candidate, or `null`.
pub open spec fn winner_json(cs: Seq<ResolutionCandidate>) -> JsonView {
    match first_winner(cs) {
        Some(w) => candidate_json(cs[w]),
        None => JsonView::Null,
    }
}

/// The winning candidate, or `null`.
fn winner_to_json(cs: &Vec<ResolutionCandidate>) -> (r: JsonValue)
    ensures
        r@ == winner_json(cs@),
{
    match winner_position(cs) {
        Some(w) => candidate_to_json(&cs[w]),
        None => JsonValue::Null,
    }
}

/// The members of the JSON object of a resolution report.
pub open spec fn resolution_members(report: ResolutionReport) -> Seq<(Seq<char>, JsonView)> {
    seq![
        ("command"@, JsonView::Str(report.command@)),
        ("found"@, JsonView::Bool(first_winner(report.candidates@) is Some)),
        ("winner"@, winner_json(report.candidates@)),
        ("candidates"@, array_of(report.candidates@, |c: ResolutionCandidate| candidate_json(c))),
        ("searched_directories"@, strings_json(views(report.searched_directories@))),
        ("related_hints"@, array_of(report.related_hints@, |h: RelatedExecutableHint| hint_json(h))),
    ]
}

/// The JSON object of a resolution report.
pub open spec fn resolution_json(report: ResolutionReport) -> JsonView {
    JsonView::Object(resolution_members(report))
}

/// The JSON object of a resolution report.
pub fn resolution_to_json(report: &ResolutionReport) -> (r: JsonValue)
    ensures
        r@ == resolution_json(*report),
{
    let mut m: Vec<(String, JsonValue)> = Vec::new();
    assert(member_views(m@) == Seq::<(Seq<char>, JsonView)>::empty());
    push_member(&mut m, "command", str_value(report.command.as_str()));
    push_member(&mut m, "found", JsonValue::Bool(winner_position(&report.candidates).is_some()));
    push_member(&mut m, "winner", winner_to_json(&report.candidates));
    push_member(&mut m, "candidates", candidates_to_json(&report.candidates));
    push_member(&mut m, "searched_directories", strings_value(&report.searched_directories));
    push_member(&mut m, "related_hints", hints_to_json(&report.related_hints));
    assert(member_views(m@) =~= resolution_members(*report));
    JsonValue::Object(m)
}

/// The members of the JSON object of a why-not report.
pub open spec fn why_not_members(report: WhyNotReport) -> Seq<(Seq<char>, JsonView)> {
    seq![
        ("command"@, JsonView::Str(report.command@)),
        ("found"@, JsonView::Bool(first_winner(report.candidates@) is Some)),
        ("winner"@, winner_json(report.candidates@)),
        ("candidates"@, array_of(report.candidates@, |c: ResolutionCandidate| candidate_json(c))),
        ("searched_directories"@, strings_json(views(report.searched_directories@))),
        ("related_hints"@, array_of(report.related_hints@, |h: RelatedExecutableHint| hint_json(h))),
        ("path_diagnostics"@, diagnostics_json(diagnostic_views(report.path_diagnostics@))),
        ("advice"@, strings_json(views(report.advice@))),
    ]
}

/// The JSON object of a why-not report.
pub open spec fn why_not_json(report: WhyNotReport) -> JsonView {
    JsonView::Object(why_not_members(report))
}

/// The JSON object of a why-not report.
pub fn why_not_to_json(report: &WhyNotReport) -> (r: JsonValue)
    ensures
        r@ == why_not_json(*report),
{
    let mut m: Vec<(String, JsonValue)> = Vec::new();
    assert(member_views(m@) == Seq::<(Seq<char>, JsonView)>::empty());
    push_member(&mut m, "command", str_value(report.command.as_str()));
    push_member(&mut m, "found", JsonValue::Bool(report.found()));
    push_member(&mut m, "winner", winner_to_json(&report.candidates));
    push_member(&mut m, "candidates", candidates_to_json(&report.candidates));
    push_member(&mut m, "searched_directories", strings_value(&report.searched_directories));
    push_member(&mut m, "related_hints", hints_to_json(&report.related_hints));
    push_member(&mut m, "path_diagnostics", diagnostics_to_json(&report.path_diagnostics));
    push_member(&mut m, "advice", strings_value(&report.advice));
    assert(member_views(m@) =~= why_not_members(*report));
    JsonValue::Object(m)
}

// ----- health -----

/// The counts object: each recorded kind's name with its count, in the recorded order.
pub open spec fn count_members(counts: Seq<(IssueKind, usize)>) -> Seq<(Seq<char>, JsonView)> {
    counts.map_values(|c: (IssueKind, usize)| (issue_name(c.0), JsonView::Number(c.1 as nat)))
}

/// The members of the JSON object of a health report.
pub open spec fn health_members(report: HealthReport) -> Seq<(Seq<char>, JsonView)> {
    seq![
        ("variable"@, JsonView::Str(path_variable_name(report.variable))),
        ("score"@, JsonView::Number(report.score as nat)),
        ("healthy"@, JsonView::Bool(report.healthy)),
        ("entry_count"@, JsonView::Number(report.entry_count as nat)),
        ("issue_count"@, JsonView::Number(report.issue_count as nat)),
        ("worst_severity"@, JsonView::Str(severity_name(report.worst_severity))),
        ("counts"@, JsonView::Object(count_members(report.counts@))),
        ("diagnostics"@, diagnostics_json(diagnostic_views(report.diagnostics@))),
    ]
}

/// The JSON object of a health report.
pub open spec fn health_json(report: HealthReport) -> JsonView {
    JsonView::Object(health_members(report))
}

/// The JSON object of a health report.
pub fn health_to_json(report: &HealthReport) -> (r: JsonValue)
    ensures
        r@ == health_json(*report),
{
    let cs = &report.counts;
    let mut counts: Vec<(String, JsonValue)> = Vec::new();
    assert(member_views(counts@) == Seq::<(Seq<char>, JsonView)>::empty());
    let mut i: usize = 0;
    while i < cs.len()
        invariant
            i <= cs.len(),
            member_views(counts@) == count_members(cs@.take(i as int)),
        decreases cs.len() - i,
    {
        let (kind, n) = cs[i];
        push_member(&mut counts, kind.as_str(), number_value(n));
        assert(count_members(cs@.take(i + 1)) == count_members(cs@.take(i as int)).push(
            (issue_name(kind), JsonView::Number(n as nat)),
        ));
        i += 1;
    }
    assert(cs@.take(cs.len() as int) == cs@);
    let mut m: Vec<(String, JsonValue)> = Vec::new();
    assert(member_views(m@) == Seq::<(Seq<char>, JsonView)>::empty());
    push_member(&mut m, "variable", str_value(report.variable.as_str()));
    push_member(&mut m, "score", JsonValue::Number(report.score as u64));
    push_member(&mut m, "healthy", JsonValue::Bool(report.healthy));
    push_member(&mut m, "entry_count", number_value(report.entry_count));
    push_member(&mut m, "issue_count", number_value(report.issue_count));
    push_member(&mut m, "worst_severity", str_value(report.worst_severity.as_str()));
    push_member(&mut m, "counts", JsonValue::Object(counts));
    push_member(&mut m, "diagnostics", diagnostics_to_json(&report.diagnostics));
    assert(member_views(m@) =~= health_members(*report));
    JsonValue::Object(m)
}

// ----- shell profile scan -----

/// The members of the JSON object of a PATH change.
pub open spec fn mutation_members(mu: PathMutation) -> Seq<(Seq<char>, JsonView)> {
    seq![
        ("line"@, JsonView::Number(mu.line as nat)),
        ("kind"@, JsonView::Str(mu.kind@)),
        ("text"@, JsonView::Str(mu.text@)),
    ]
}

/// The JSON object of a PATH change.
pub open spec fn mutation_json(mu: PathMutation) -> JsonView {
    JsonView::Object(mutation_members(mu))
}

/// The members of the JSON object of a profile.
pub open spec fn profile_members(p: ShellProfile) -> Seq<(Seq<char>, JsonView)> {
    seq![
        ("shell"@, JsonView::Str(p.shell@)),
        ("path"@, JsonView::Str(p.path@)),
        ("exists"@, JsonView::Bool(p.exists)),
        ("is_file"@, JsonView::Bool(p.is_file)),
        ("readable"@, JsonView::Bool(p.readable)),
        ("path_mutations"@, array_of(p.path_mutations@, |mu: PathMutation| mutation_json(mu))),
    ]
}

/// The JSON object of a profile.
pub open spec fn profile_json(p: ShellProfile) -> JsonView {
    JsonView::Object(profile_members(p))
}

/// The JSON object of a profile.
fn profile_to_json(p: &ShellProfile) -> (r: JsonValue)
    ensures
        r@ == profile_json(*p),
{
    let ms = &p.path_mutations;
    let mut items: Vec<JsonValue> = Vec::new();
    assert(item_views(items@) == Seq::<JsonView>::empty());
    let mut i: usize = 0;
    while i < ms.len()
        invariant
            i <= ms.len(),
            item_views(items@) == ms@.take(i as int).map_values(|mu: PathMutation| mutation_json(mu)),
        decreases ms.len() - i,
    {
        let mu = &ms[i];
        let mut o: Vec<(String, JsonValue)> = Vec::new();
        assert(member_views(o@) == Seq::<(Seq<char>, JsonView)>::empty());
        push_member(&mut o, "line", number_value(mu.line));
        push_member(&mut o, "kind", str_value(mu.kind.as_str()));
        push_member(&mut o, "text", str_value(mu.text.as_str()));
        assert(member_views(o@) =~= mutation_members(*mu));
        push_item(&mut items, JsonValue::Object(o));
        assert(ms@.take(i + 1).map_values(|mu: PathMutation| mutation_json(mu)) == ms@.take(
            i as int,
        ).map_values(|mu: PathMutation| mutation_json(mu)).push(mutation_json(ms@[i as int])));
        i += 1;
    }
    assert(ms@.take(ms.len() as int) == ms@);
    let mut m: Vec<(String, JsonValue)> = Vec::new();
    assert(member_views(m@) == Seq::<(Seq<char>, JsonView)>::empty());
    push_member(&mut m, "shell", str_value(p.shell.as_str()));
    push_member(&mut m, "path", str_value(p.path.as_str()));
    push_member(&mut m, "exists", JsonValue::Bool(p.exists));
    push_member(&mut m, "is_file", JsonValue::Bool(p.is_file));
    push_member(&mut m, "readable", JsonValue::Bool(p.readable));
    push_member(&mut m, "path_mutations", JsonValue::Array(items));
    assert(member_views(m@) =~= profile_members(*p));
    JsonValue::Object(m)
}

/// The members of the JSON object of a scan report.
pub open spec fn scan_members(report: ShellProfileScanReport) -> Seq<(Seq<char>, JsonView)> {
    seq![
        ("home"@, JsonView::Str(report.home@)),
        ("profiles"@, array_of(report.profiles@, |p: ShellProfile| profile_json(p))),
    ]
}

/// The JSON object of a scan report.
pub open spec fn scan_json(report: ShellProfileScanReport) -> JsonView {
    JsonView::Object(scan_members(report))
}

/// The JSON object of a scan report.
pub fn shell_profile_scan_to_json(report: &ShellProfileScanReport) -> (r: JsonValue)
    ensures
        r@ == scan_json(*report),
{
    let ps = &report.profiles;
    let mut items: Vec<JsonValue> = Vec::new();
    assert(item_views(items@) == Seq::<JsonView>::empty());
    let mut i: usize = 0;
    while i < ps.len()
        invariant
            i <= ps.len(),
            item_views(items@) == ps@.take(i as int).map_values(|p: ShellProfile| profile_json(p)),
        decreases ps.len() - i,
    {
        push_item(&mut items, profile_to_json(&ps[i]));
        assert(ps@.take(i + 1).map_values(|p: ShellProfile| profile_json(p)) == ps@.take(
            i as int,
        ).map_values(|p: ShellProfile| profile_json(p)).push(profile_json(ps@[i as int])));
        i += 1;
    }
    assert(ps@.take(ps.len() as int) == ps@);
    let mut m: Vec<(String, JsonValue)> = Vec::new();
    assert(member_views(m@) == Seq::<(Seq<char>, JsonView)>::empty());
    push_member(&mut m, "home", str_value(report.home.as_str()));
    push_member(&mut m, "profiles", JsonValue::Array(items));
    assert(member_views(m@) =~= scan_members(*report));
    JsonValue::Object(m)
}

// ----- apply -----

/// The members of the JSON object of an apply plan.
pub open spec fn plan_members(plan: ApplyPlan) -> Seq<(Seq<char>, JsonView)> {
    seq![
        ("shell"@, JsonView::Str(shell_name(plan.shell))),
        ("profile_path"@, JsonView::Str(plan.profile_path@)),
        ("action"@, JsonView::Str(action_name(plan.action))),
        ("existing_block"@, opt_str_json(
            match plan.existing_block {
                Some(b) => Some(b@),
                None => None,
            },
        )),
        ("planned_block"@, JsonView::Str(plan.planned_block@)),
        ("cleaned_path"@, JsonView::Str(plan.cleaned_path@)),
        ("would_write"@, JsonView::Bool(plan.would_write)),
    ]
}

/// The JSON object of an apply plan.
pub open spec fn plan_json(plan: ApplyPlan) -> JsonView {
    JsonView::Object(plan_members(plan))
}

fn plan_member_list(plan: &ApplyPlan) -> (m: Vec<(String, JsonValue)>)
    ensures
        member_views(m@) == plan_members(*plan),
{
    let mut m: Vec<(String, JsonValue)> = Vec::new();
    assert(member_views(m@) == Seq::<(Seq<char>, JsonView)>::empty());
    push_member(&mut m, "shell", str_value(plan.shell.as_str()));
    push_member(&mut m, "profile_path", str_value(plan.profile_path.as_str()));
    push_member(&mut m, "action", str_value(plan.action.as_str()));
    push_member(&mut m, "existing_block", opt_str_value(&plan.existing_block));
    push_member(&mut m, "planned_block", str_value(plan.planned_block.as_str()));
    push_member(&mut m, "cleaned_path", str_value(plan.cleaned_path.as_str()));
    push_member(&mut m, "would_write", JsonValue::Bool(plan.would_write));
    assert(member_views(m@) =~= plan_members(*plan));
    m
}

/// The JSON object of an apply plan.
pub fn apply_plan_to_json(plan: &ApplyPlan) -> (r: JsonValue)
    ensures
        r@ == plan_json(*plan),
{
    JsonValue::Object(plan_member_list(plan))
}

/// The JSON object of a written plan: the plan's members, then what was written.
pub open spec fn outcome_json(outcome: ApplyOutcome) -> JsonView {
    JsonView::Object(
        plan_members(outcome.plan) + seq![
            ("wrote"@, JsonView::Bool(outcome.wrote)),
            ("backup_path"@, opt_str_json(
                match outcome.backup_path {
                    Some(b) => Some(b@),
                    None => None,
                },
            )),
            ("backup_created"@, JsonView::Bool(outcome.backup_created)),
        ],
    )
}

/// The JSON object of a written plan.
pub fn apply_outcome_to_json(outcome: &ApplyOutcome) -> (r: JsonValue)
    ensures
        r@ == outcome_json(*outcome),
{
    let mut m = plan_member_list(&outcome.plan);
    let ghost base = member_views(m@);
    push_member(&mut m, "wrote", JsonValue::Bool(outcome.wrote));
    push_member(&mut m, "backup_path", opt_str_value(&outcome.backup_path));
    push_member(&mut m, "backup_created", JsonValue::Bool(outcome.backup_created));
    assert(member_views(m@) =~= base + seq![
        ("wrote"@, JsonView::Bool(outcome.wrote)),
        ("backup_path"@, opt_str_json(
            match outcome.backup_path {
                Some(b) => Some(b@),
                None => None,
            },
        )),
        ("backup_created"@, JsonView::Bool(outcome.backup_created)),
    ]);
    JsonValue::Object(m)
}

// ----- config -----

/// The members of the JSON object of a policy section.
pub open spec fn policy_members(p: ConfigPolicy) -> Seq<(Seq<char>, JsonView)> {
    seq![
        ("drop"@, strings_json(views(p.drop_entries@))),
        ("preset"@, strings_json(preset_names(p.presets@))),
        ("fail_on"@, strings_json(issue_names(p.fail_on@))),
    ]
}

/// The JSON object of a policy section.
fn policy_to_json(p: &ConfigPolicy) -> (r: JsonValue)
    ensures
        r@ == JsonView::Object(policy_members(*p)),
{
    let mut presets: Vec<String> = Vec::new();
    let mut i: usize = 0;
    while i < p.presets.len()
        invariant
            i <= p.presets.len(),
            views(presets@) == preset_names(p.presets@.take(i as int)),
        decreases p.presets.len() - i,
    {
        let ghost before = views(presets@);
        presets.push(owned(p.presets[i].as_str()));
        assert(views(presets@) == before.push(crate::model::preset_name(p.presets@[i as int])));
        assert(preset_names(p.presets@.take(i + 1)) == preset_names(p.presets@.take(i as int)).push(
            crate::model::preset_name(p.presets@[i as int]),
        ));
        i += 1;
    }
    assert(p.presets@.take(p.presets.len() as int) == p.presets@);
    let mut kinds: Vec<String> = Vec::new();
    let mut j: usize = 0;
    while j < p.fail_on.len()
        invariant
            j <= p.fail_on.len(),
            views(kinds@) == issue_names(p.fail_on@.take(j as int)),
        decreases p.fail_on.len() - j,
    {
        let ghost before = views(kinds@);
        kinds.push(owned(p.fail_on[j].as_str()));
        assert(views(kinds@) == before.push(issue_name(p.fail_on@[j as int])));
        assert(issue_names(p.fail_on@.take(j + 1)) == issue_names(p.fail_on@.take(j as int)).push(
            issue_name(p.fail_on@[j as int]),
        ));
        j += 1;
    }
    assert(p.fail_on@.take(p.fail_on.len() as int) == p.fail_on@);
    let mut m: Vec<(String, JsonValue)> = Vec::new();
    assert(member_views(m@) == Seq::<(Seq<char>, JsonView)>::empty());
    push_member(&mut m, "drop", strings_value(&p.drop_entries));
    push_member(&mut m, "preset", strings_value(&presets));
    push_member(&mut m, "fail_on", strings_value(&kinds));
    assert(member_views(m@) =~= policy_members(*p));
    JsonValue::Object(m)
}

/// The members of the JSON object of a configuration.
pub open spec fn config_members(config: LoadedConfig) -> Seq<(Seq<char>, JsonView)> {
    seq![
        ("config_path"@, JsonView::Str(config.path@)),
        ("version"@, JsonView::Number(config.config.version as nat)),
        ("path"@, JsonView::Object(policy_members(config.config.path))),
        ("manpath"@, JsonView::Object(policy_members(config.config.manpath))),
    ]
}

/// The JSON object of a configuration.
pub open spec fn config_json(config: LoadedConfig) -> JsonView {
    JsonView::Object(config_members(config))
}

/// The JSON object of a configuration.
pub fn config_to_json(config: &LoadedConfig) -> (r: JsonValue)
    ensures
        r@ == config_json(*config),
{
    let mut m: Vec<(String, JsonValue)> = Vec::new();
    assert(member_views(m@) == Seq::<(Seq<char>, JsonView)>::empty());
    push_member(&mut m, "config_path", str_value(config.path.as_str()));
    push_member(&mut m, "version", JsonValue::Number(config.config.version));
    push_member(&mut m, "path", policy_to_json(&config.config.path));
    push_member(&mut m, "manpath", policy_to_json(&config.config.manpath));
    assert(member_views(m@) =~= config_members(*config));
    JsonValue::Object(m)
}

// ----- rendering -----

/// serde_json's error type, carried opaquely.
#[verifier::external_type_specification]
#[verifier::external_body]
pub struct ExSerdeJsonError(serde_json::Error);

/// serde_json's value type, carried opaquely.
#[verifier::external_type_specification]
#[verifier::external_body]
pub struct ExSerdeJsonValue(serde_json::Value);

/// The text that `serde_json::to_string_pretty` writes for a JSON value (object members
/// in key order, two-space indentation, no final newline).
pub uninterp spec fn pretty_json_text(v: JsonView) -> Seq<char>;

/// An error met while rendering JSON.
#[derive(Clone, Debug, PartialEq, Eq)]
pub struct JsonError {
    /// The error text.
    pub message: String,
}

/// The value as serde_json's own, variant for variant; object members are collected into
/// serde_json's map.
#[verifier::external_body]
fn serde_value(value: &JsonValue) -> serde_json::Value {
    match value {
        JsonValue::Null => serde_json::Value::Null,
        JsonValue::Bool(b) => serde_json::Value::Bool(*b),
        JsonValue::Number(n) => serde_json::Value::from(*n),
        JsonValue::Str(s) => serde_json::Value::String(s.clone()),
        JsonValue::Array(items) => serde_json::Value::Array(items.iter().map(serde_value).collect()),
        JsonValue::Object(members) => serde_json::Value::Object(
            members.iter().map(|(k, v)| (k.clone(), serde_value(v))).collect(),
        ),
    }
}

/// Renders a JSON value with `serde_json::to_string_pretty`; what it writes is named
/// `pretty_json_text` of the value. The call succeeds: serde_json documents its failures
/// as a `Serialize` impl that fails or a map with non-string keys, and a
/// `serde_json::Value` has string keys only and an impl that only forwards to the
/// serializer, which here writes into memory.
#[verifier::external_body]
fn pretty_json(value: &JsonValue) -> (r: Result<String, serde_json::Error>)
    ensures
        r is Ok,
        r matches Ok(s) ==> s@ == pretty_json_text(value@),
{
    serde_json::to_string_pretty(&serde_value(value))
}

/// The text of a serde_json error, as its `Display` writes it.
#[verifier::external_body]
fn json_error_text(error: &serde_json::Error) -> String {
    error.to_string()
}

/// The rendered text with a final newline, or the rendering error.
pub fn finish_json(rendered: Result<String, serde_json::Error>) -> (r: Result<String, JsonError>)
    ensures
        rendered is Ok <==> r is Ok,
        rendered matches Ok(s) ==> r matches Ok(t) && t@ == s@ + "\n"@,
{
    match rendered {
        Ok(s) => {
            let mut t = s;
            append(&mut t, "\n");
            Ok(t)
        },
        Err(e) => Err(JsonError { message: json_error_text(&e) }),
    }
}

/// The pretty JSON text of a value with a final newline.
pub fn dumps_json(value: &JsonValue) -> (r: Result<String, JsonError>)
    ensures
        r is Ok,
        r matches Ok(s) ==> s@ == pretty_json_text(value@) + "\n"@,
{
    finish_json(pretty_json(value))
}

} // verus!
