//! Configuration policies: validation of raw configuration values, merging with
//! command-line values, and `--fail-on` parsing.
use vstd::prelude::*;
use crate::model::{
    IssueKind, ParseIssueKindError, ParsePresetKindError, PathVariable, PresetKind,
    expected_one_of, issue_name, preset_name,
};
use crate::text::{
    append, decimal, decimal_text_u64, debug_quoted, debug_string, owned, split_on,
    split_text, trim, trim_text, views,
};

verus! {

/// The configuration format version this library reads.
pub const CONFIG_VERSION: u64 = 1;

/// The policy of one variable in a configuration file.
#[derive(Clone, Debug, PartialEq, Eq)]
pub struct ConfigPolicy {
    /// Entries to drop, each once, in first-seen order.
    pub drop_entries: Vec<String>,
    /// Presets, each once, in first-seen order.
    pub presets: Vec<PresetKind>,
    /// Issue kinds that fail `doctor`, each once, in first-seen order.
    pub fail_on: Vec<IssueKind>,
}

/// A validated configuration.
#[derive(Clone, Debug, PartialEq, Eq)]
pub struct PathologConfig {
    /// Format version.
    pub version: u64,
    /// PATH policy.
    pub path: ConfigPolicy,
    /// MANPATH policy.
    pub manpath: ConfigPolicy,
}

/// A validated configuration and the file it came from.
#[derive(Clone, Debug, PartialEq, Eq)]
pub struct LoadedConfig {
    /// Display form of the configuration file path.
    pub path: String,
    /// The configuration.
    pub config: PathologConfig,
}

/// The values of one policy section as read from a configuration file.
#[derive(Clone, Debug, PartialEq, Eq)]
pub struct RawPolicy {
    /// `drop` values.
    pub drop_entries: Vec<String>,
    /// `preset` values.
    pub presets: Vec<String>,
    /// `fail_on` values.
    pub fail_on: Vec<String>,
}

impl PathologConfig {
    /// The policy of a variable.
    pub fn policy_for(&self, variable: PathVariable) -> (r: &ConfigPolicy)
        ensures
            *r == (if variable == PathVariable::Path {
                self.path
            } else {
                self.manpath
            }),
    {
        match variable {
            PathVariable::Path => &self.path,
            PathVariable::Manpath => &self.manpath,
        }
    }
}

impl LoadedConfig {
    /// The policy of a variable.
    pub fn policy_for(&self, variable: PathVariable) -> (r: &ConfigPolicy)
        ensures
            *r == (if variable == PathVariable::Path {
                self.config.path
            } else {
                self.config.manpath
            }),
    {
        self.config.policy_for(variable)
    }
}

/// `x` appended unless already present.
pub open spec fn push_unique_spec<T>(acc: Seq<T>, x: T) -> Seq<T> {
    if acc.contains(x) {
        acc
    } else {
        acc.push(x)
    }
}

/// The values, each once, in first-seen order.
pub open spec fn unique_of<T>(xs: Seq<T>) -> Seq<T>
    decreases xs.len(),
{
    if xs.len() == 0 {
        Seq::<T>::empty()
    } else {
        push_unique_spec(unique_of(xs.drop_last()), xs.last())
    }
}

/// `xs` with the values of `ys` appended, each new one once, in order.
pub open spec fn unique_extend<T>(xs: Seq<T>, ys: Seq<T>) -> Seq<T>
    decreases ys.len(),
{
    if ys.len() == 0 {
        xs
    } else {
        push_unique_spec(unique_extend(xs, ys.drop_last()), ys.last())
    }
}

/// Appends an issue kind unless present.
pub fn push_unique(entries: &mut Vec<IssueKind>, entry: IssueKind)
    ensures
        final(entries)@ == push_unique_spec(old(entries)@, entry),
{
    let mut i: usize = 0;
    while i < entries.len()
        invariant
            i <= entries.len(),
            forall|j: int| 0 <= j < i ==> entries@[j] != entry,
        decreases entries.len() - i,
    {
        if entries[i] == entry {
            return;
        }
        i += 1;
    }
    entries.push(entry);
}

/// Appends a preset unless present.
pub fn push_unique_preset(entries: &mut Vec<PresetKind>, entry: PresetKind)
    ensures
        final(entries)@ == push_unique_spec(old(entries)@, entry),
{
    if !crate::policy::contains_preset(entries, entry) {
        entries.push(entry);
    }
}

/// Appends a string unless an equal one is present.
pub fn push_unique_string(entries: &mut Vec<String>, entry: String)
    ensures
        views(final(entries)@) == push_unique_spec(views(old(entries)@), entry@),
{
    if !crate::text::contains_text(entries, entry.as_str()) {
        let ghost before = views(entries@);
        entries.push(entry);
        assert(views(entries@) == before.push(entry@));
    }
}

/// The preset a name denotes, if any.
pub open spec fn preset_named(s: Seq<char>) -> Option<PresetKind> {
    if exists|k: PresetKind| preset_name(k) == s {
        Some(choose|k: PresetKind| preset_name(k) == s)
    } else {
        None
    }
}

/// The issue kind a name denotes, if any.
pub open spec fn issue_named(s: Seq<char>) -> Option<IssueKind> {
    if exists|k: IssueKind| issue_name(k) == s {
        Some(choose|k: IssueKind| issue_name(k) == s)
    } else {
        None
    }
}

/// Preset names are distinct.
pub proof fn lemma_preset_names_distinct(a: PresetKind, b: PresetKind)
    ensures
        preset_name(a) == preset_name(b) ==> a == b,
{
    if preset_name(a) == preset_name(b) && a != b {
        assert(preset_name(a)[0] != preset_name(b)[0] || preset_name(a).len() != preset_name(
            b,
        ).len());
    }
}

/// Issue kind names are distinct.
pub proof fn lemma_issue_names_distinct(a: IssueKind, b: IssueKind)
    ensures
        issue_name(a) == issue_name(b) ==> a == b,
{
    if issue_name(a) == issue_name(b) && a != b {
        assert(issue_name(a)[0] != issue_name(b)[0] || issue_name(a)[1] != issue_name(b)[1]
            || issue_name(a).len() != issue_name(b).len());
    }
}

/// The error for an unsupported preset name.
pub open spec fn preset_error(s: Seq<char>) -> Seq<char> {
    "unsupported preset "@ + debug_quoted(s) + "; "@ + expected_one_of(PresetKind::SUPPORTED_VALUES@)
}

/// The error for an unsupported issue kind name.
pub open spec fn issue_error(s: Seq<char>) -> Seq<char> {
    "unsupported issue kind "@ + debug_quoted(s) + "; "@ + expected_one_of(
        IssueKind::SUPPORTED_VALUES@,
    )
}

/// The presets named, each once in first-seen order, or the error of the first
/// unsupported name.
pub open spec fn parse_presets(names: Seq<Seq<char>>) -> Result<Seq<PresetKind>, Seq<char>>
    decreases names.len(),
{
    if names.len() == 0 {
        Ok(Seq::<PresetKind>::empty())
    } else {
        match parse_presets(names.drop_last()) {
            Err(e) => Err(e),
            Ok(acc) => match preset_named(names.last()) {
                Some(k) => Ok(push_unique_spec(acc, k)),
                None => Err(preset_error(names.last())),
            },
        }
    }
}

/// The issue kinds named, each once in first-seen order, or the error of the first
/// unsupported name.
pub open spec fn parse_issues(names: Seq<Seq<char>>) -> Result<Seq<IssueKind>, Seq<char>>
    decreases names.len(),
{
    if names.len() == 0 {
        Ok(Seq::<IssueKind>::empty())
    } else {
        match parse_issues(names.drop_last()) {
            Err(e) => Err(e),
            Ok(acc) => match issue_named(names.last()) {
                Some(k) => Ok(push_unique_spec(acc, k)),
                None => Err(issue_error(names.last())),
            },
        }
    }
}

/// An error once present stays.
proof fn lemma_parse_presets_err(names: Seq<Seq<char>>, n: int)
    requires
        0 <= n <= names.len(),
        parse_presets(names.take(n)) is Err,
    ensures
        parse_presets(names) == parse_presets(names.take(n)),
    decreases names.len() - n,
{
    if n < names.len() {
        assert(names.take(n + 1).drop_last() == names.take(n));
        lemma_parse_presets_err(names, n + 1);
    } else {
        assert(names.take(n) == names);
    }
}

/// An error once present stays.
proof fn lemma_parse_issues_err(names: Seq<Seq<char>>, n: int)
    requires
        0 <= n <= names.len(),
        parse_issues(names.take(n)) is Err,
    ensures
        parse_issues(names) == parse_issues(names.take(n)),
    decreases names.len() - n,
{
    if n < names.len() {
        assert(names.take(n + 1).drop_last() == names.take(n));
        lemma_parse_issues_err(names, n + 1);
    } else {
        assert(names.take(n) == names);
    }
}

/// The error message for an unsupported preset name.
fn unsupported_preset_message(name: &str, error: ParsePresetKindError) -> (m: String)
    ensures
        m@ == preset_error(name@),
{
    let mut m = owned("unsupported preset ");
    append(&mut m, debug_string(name).as_str());
    append(&mut m, "; ");
    append(&mut m, error.message().as_str());
    m
}

/// The error message for an unsupported issue kind name.
fn unsupported_issue_message(name: &str, error: ParseIssueKindError) -> (m: String)
    ensures
        m@ == issue_error(name@),
{
    let mut m = owned("unsupported issue kind ");
    append(&mut m, debug_string(name).as_str());
    append(&mut m, "; ");
    append(&mut m, error.message().as_str());
    m
}

/// Parses the preset names of a policy section.
pub fn parse_preset_names(names: &Vec<String>) -> (r: Result<Vec<PresetKind>, String>)
    ensures
        match (r, parse_presets(views(names@))) {
            (Ok(v), Ok(s)) => v@ == s,
            (Err(e), Err(s)) => e@ == s,
            _ => false,
        },
{
    let mut presets: Vec<PresetKind> = Vec::new();
    let mut i: usize = 0;
    while i < names.len()
        invariant
            i <= names.len(),
            parse_presets(views(names@).take(i as int)) == Ok::<Seq<PresetKind>, Seq<char>>(
                presets@,
            ),
        decreases names.len() - i,
    {
        let ghost t = views(names@).take(i + 1);
        assert(t.drop_last() == views(names@).take(i as int));
        assert(t.last() == names@[i as int]@);
        match PresetKind::parse(names[i].as_str()) {
            Ok(kind) => {
                proof {
                    assert forall|k: PresetKind| preset_name(k) == names@[i as int]@ implies k
                        == kind by {
                        lemma_preset_names_distinct(k, kind);
                    }
                }
                push_unique_preset(&mut presets, kind);
            },
            Err(error) => {
                let m = unsupported_preset_message(names[i].as_str(), error);
                proof {
                    lemma_parse_presets_err(views(names@), i + 1);
                }
                return Err(m);
            },
        }
        i += 1;
    }
    assert(views(names@).take(names.len() as int) == views(names@));
    Ok(presets)
}

/// Parses the issue kind names of a policy section.
pub fn parse_issue_names(names: &Vec<String>) -> (r: Result<Vec<IssueKind>, String>)
    ensures
        match (r, parse_issues(views(names@))) {
            (Ok(v), Ok(s)) => v@ == s,
            (Err(e), Err(s)) => e@ == s,
            _ => false,
        },
{
    let mut kinds: Vec<IssueKind> = Vec::new();
    let mut i: usize = 0;
    while i < names.len()
        invariant
            i <= names.len(),
            parse_issues(views(names@).take(i as int)) == Ok::<Seq<IssueKind>, Seq<char>>(
                kinds@,
            ),
        decreases names.len() - i,
    {
        let ghost t = views(names@).take(i + 1);
        assert(t.drop_last() == views(names@).take(i as int));
        assert(t.last() == names@[i as int]@);
        match IssueKind::parse(names[i].as_str()) {
            Ok(kind) => {
                proof {
                    assert forall|k: IssueKind| issue_name(k) == names@[i as int]@ implies k
                        == kind by {
                        lemma_issue_names_distinct(k, kind);
                    }
                }
                push_unique(&mut kinds, kind);
            },
            Err(error) => {
                let m = unsupported_issue_message(names[i].as_str(), error);
                proof {
                    lemma_parse_issues_err(views(names@), i + 1);
                }
                return Err(m);
            },
        }
        i += 1;
    }
    assert(views(names@).take(names.len() as int) == views(names@));
    Ok(kinds)
}

/// The drop entries, each once in first-seen order.
pub fn unique_strings(values: &Vec<String>) -> (out: Vec<String>)
    ensures
        views(out@) == unique_of(views(values@)),
{
    let mut out: Vec<String> = Vec::new();
    let mut i: usize = 0;
    while i < values.len()
        invariant
            i <= values.len(),
            views(out@) == unique_of(views(values@).take(i as int)),
        decreases values.len() - i,
    {
        let ghost t = views(values@).take(i + 1);
        assert(t.drop_last() == views(values@).take(i as int));
        assert(t.last() == values@[i as int]@);
        push_unique_string(&mut out, values[i].clone());
        i += 1;
    }
    assert(views(values@).take(values.len() as int) == views(values@));
    out
}

/// The policy a raw section validates to: drop entries each once, presets and fail-on
/// kinds parsed and each once, or the error of the first unsupported preset, else of the
/// first unsupported issue kind.
pub open spec fn policy_result(raw: RawPolicy) -> Result<(Seq<Seq<char>>, Seq<PresetKind>, Seq<IssueKind>), Seq<char>> {
    match parse_presets(views(raw.presets@)) {
        Err(e) => Err(e),
        Ok(p) => match parse_issues(views(raw.fail_on@)) {
            Err(e) => Err(e),
            Ok(f) => Ok((unique_of(views(raw.drop_entries@)), p, f)),
        },
    }
}

/// The view of a configuration policy.
pub open spec fn policy_view(p: ConfigPolicy) -> (Seq<Seq<char>>, Seq<PresetKind>, Seq<IssueKind>) {
    (views(p.drop_entries@), p.presets@, p.fail_on@)
}

/// Validates a raw policy section.
pub fn config_policy_from_raw(raw: &RawPolicy) -> (r: Result<ConfigPolicy, String>)
    ensures
        match (r, policy_result(*raw)) {
            (Ok(p), Ok(s)) => policy_view(p) == s,
            (Err(e), Err(s)) => e@ == s,
            _ => false,
        },
{
    let drop_entries = unique_strings(&raw.drop_entries);
    let presets = match parse_preset_names(&raw.presets) {
        Ok(p) => p,
        Err(e) => return Err(e),
    };
    let fail_on = match parse_issue_names(&raw.fail_on) {
        Ok(f) => f,
        Err(e) => return Err(e),
    };
    Ok(ConfigPolicy { drop_entries, presets, fail_on })
}

/// The error for an unsupported configuration version.
pub open spec fn version_error(version: u64) -> Seq<char> {
    "config file uses unsupported version "@ + decimal(version as nat) + "; expected 1"@
}

/// Validates a raw configuration: the version must be 1, then the PATH section, then the
/// MANPATH section.
pub fn config_from_raw(version: u64, path: &RawPolicy, manpath: &RawPolicy) -> (r: Result<
    PathologConfig,
    String,
>)
    ensures
        version != CONFIG_VERSION ==> (r matches Err(e) && e@ == version_error(version)),
        version == CONFIG_VERSION ==> match (r, policy_result(*path), policy_result(*manpath)) {
            (Ok(c), Ok(p), Ok(m)) => c.version == version && policy_view(c.path) == p
                && policy_view(c.manpath) == m,
            (Err(e), Err(s), _) => e@ == s,
            (Err(e), Ok(_), Err(s)) => e@ == s,
            _ => false,
        },
{
    if version != CONFIG_VERSION {
        let mut m = owned("config file uses unsupported version ");
        append(&mut m, decimal_text_u64(version).as_str());
        append(&mut m, "; expected 1");
        return Err(m);
    }
    let path = match config_policy_from_raw(path) {
        Ok(p) => p,
        Err(e) => return Err(e),
    };
    let manpath = match config_policy_from_raw(manpath) {
        Ok(p) => p,
        Err(e) => return Err(e),
    };
    Ok(PathologConfig { version, path, manpath })
}

/// Configuration drop entries followed by command-line ones.
pub fn merge_drop_entries(config_policy: Option<&ConfigPolicy>, cli_entries: &[String]) -> (out:
    Vec<String>)
    ensures
        out@ == (match config_policy {
            Some(p) => p.drop_entries@,
            None => Seq::<String>::empty(),
        }) + cli_entries@,
{
    let mut entries = match config_policy {
        Some(p) => crate::policy::copy_strings(p.drop_entries.as_slice()),
        None => Vec::new(),
    };
    let mut more = crate::policy::copy_strings(cli_entries);
    entries.append(&mut more);
    entries
}

/// Configuration presets followed by command-line ones.
pub fn merge_presets(config_policy: Option<&ConfigPolicy>, cli_presets: &[PresetKind]) -> (out:
    Vec<PresetKind>)
    ensures
        out@ == (match config_policy {
            Some(p) => p.presets@,
            None => Seq::<PresetKind>::empty(),
        }) + cli_presets@,
{
    let mut presets: Vec<PresetKind> = Vec::new();
    match config_policy {
        Some(p) => {
            let mut i: usize = 0;
            while i < p.presets.len()
                invariant
                    i <= p.presets.len(),
                    presets@ == p.presets@.take(i as int),
                decreases p.presets.len() - i,
            {
                presets.push(p.presets[i]);
                assert(p.presets@.take(i + 1) == p.presets@.take(i as int).push(p.presets@[i as int]));
                i += 1;
            }
            assert(p.presets@.take(p.presets.len() as int) == p.presets@);
        },
        None => {},
    }
    let ghost base = presets@;
    let mut j: usize = 0;
    while j < cli_presets.len()
        invariant
            j <= cli_presets.len(),
            presets@ == base + cli_presets@.take(j as int),
        decreases cli_presets.len() - j,
    {
        presets.push(cli_presets[j]);
        assert(cli_presets@.take(j + 1) == cli_presets@.take(j as int).push(cli_presets@[j as int]));
        j += 1;
    }
    assert(cli_presets@.take(cli_presets.len() as int) == cli_presets@);
    presets
}

/// Configuration fail-on kinds followed by command-line ones, each once, in first-seen
/// order.
pub fn merge_fail_on(config_policy: Option<&ConfigPolicy>, cli_fail_on: &[IssueKind]) -> (out:
    Vec<IssueKind>)
    ensures
        out@ == unique_extend(
            unique_of(
                match config_policy {
                    Some(p) => p.fail_on@,
                    None => Seq::<IssueKind>::empty(),
                },
            ),
            cli_fail_on@,
        ),
{
    let mut fail_on: Vec<IssueKind> = Vec::new();
    match config_policy {
        Some(p) => {
            let mut i: usize = 0;
            while i < p.fail_on.len()
                invariant
                    i <= p.fail_on.len(),
                    fail_on@ == unique_of(p.fail_on@.take(i as int)),
                decreases p.fail_on.len() - i,
            {
                assert(p.fail_on@.take(i + 1).drop_last() == p.fail_on@.take(i as int));
                push_unique(&mut fail_on, p.fail_on[i]);
                i += 1;
            }
            assert(p.fail_on@.take(p.fail_on.len() as int) == p.fail_on@);
        },
        None => {},
    }
    let ghost base = fail_on@;
    let mut j: usize = 0;
    assert(cli_fail_on@.take(0) == Seq::<IssueKind>::empty());
    while j < cli_fail_on.len()
        invariant
            j <= cli_fail_on.len(),
            fail_on@ == unique_extend(base, cli_fail_on@.take(j as int)),
        decreases cli_fail_on.len() - j,
    {
        assert(cli_fail_on@.take(j + 1).drop_last() == cli_fail_on@.take(j as int));
        push_unique(&mut fail_on, cli_fail_on[j]);
        j += 1;
    }
    assert(cli_fail_on@.take(cli_fail_on.len() as int) == cli_fail_on@);
    fail_on
}

/// The comma-separated `--fail-on` value: pieces trimmed, empty pieces ignored, each kind
/// once in first-seen order, or the error of the first unsupported name.
pub open spec fn fail_on_result(value: Seq<char>) -> Result<Seq<IssueKind>, Seq<char>> {
    if value.len() == 0 {
        Ok(Seq::<IssueKind>::empty())
    } else {
        parse_issues(trimmed_nonempty(split_on(value, ',')))
    }
}

/// The trimmed non-empty pieces, in order.
pub open spec fn trimmed_nonempty(pieces: Seq<Seq<char>>) -> Seq<Seq<char>>
    decreases pieces.len(),
{
    if pieces.len() == 0 {
        Seq::<Seq<char>>::empty()
    } else {
        let acc = trimmed_nonempty(pieces.drop_last());
        let t = trim(pieces.last());
        if t.len() == 0 {
            acc
        } else {
            acc.push(t)
        }
    }
}

/// Parses a `--fail-on` value.
pub fn parse_fail_on(value: &str) -> (r: Result<Vec<IssueKind>, String>)
    ensures
        match (r, fail_on_result(value@)) {
            (Ok(v), Ok(s)) => v@ == s,
            (Err(e), Err(s)) => e@ == s,
            _ => false,
        },
{
    if value.is_empty() {
        return Ok(Vec::new());
    }
    let pieces = split_text(value, ',');
    let mut names: Vec<String> = Vec::new();
    let mut i: usize = 0;
    while i < pieces.len()
        invariant
            i <= pieces.len(),
            views(pieces@) == split_on(value@, ','),
            views(names@) == trimmed_nonempty(views(pieces@).take(i as int)),
        decreases pieces.len() - i,
    {
        let ghost t = views(pieces@).take(i + 1);
        assert(t.drop_last() == views(pieces@).take(i as int));
        assert(t.last() == pieces@[i as int]@);
        let trimmed = trim_text(pieces[i].as_str());
        if !trimmed.as_str().is_empty() {
            let ghost before = views(names@);
            names.push(trimmed);
            assert(views(names@) == before.push(trim(pieces@[i as int]@)));
        }
        i += 1;
    }
    assert(views(pieces@).take(pieces.len() as int) == views(pieces@));
    parse_issue_names(&names)
}

} // verus!

verus! {

/// Appending a value unless present keeps a sequence free of duplicates.
pub proof fn lemma_push_unique_distinct<T>(acc: Seq<T>, x: T)
    requires
        acc.no_duplicates(),
    ensures
        push_unique_spec(acc, x).no_duplicates(),
{
    if !acc.contains(x) {
        let r = acc.push(x);
        assert forall|i: int, j: int| 0 <= i < r.len() && 0 <= j < r.len() && i != j implies r[i]
            != r[j] by {
            if i < acc.len() && j < acc.len() {
                assert(r[i] == acc[i] && r[j] == acc[j]);
            } else if i < acc.len() {
                assert(r[i] == acc[i]);
            } else {
                assert(r[j] == acc[j]);
            }
        }
    }
}

/// `unique_of` and `unique_extend` never repeat a value.
pub proof fn lemma_unique_distinct<T>(xs: Seq<T>, ys: Seq<T>)
    ensures
        unique_of(xs).no_duplicates(),
        unique_of(xs).no_duplicates() ==> unique_extend(unique_of(xs), ys).no_duplicates(),
    decreases xs.len() + ys.len(),
{
    if xs.len() > 0 {
        lemma_unique_distinct(xs.drop_last(), Seq::<T>::empty());
        lemma_push_unique_distinct(unique_of(xs.drop_last()), xs.last());
    }
    if ys.len() > 0 {
        lemma_unique_distinct(xs, ys.drop_last());
        lemma_push_unique_distinct(unique_extend(unique_of(xs), ys.drop_last()), ys.last());
    }
}

/// The kinds that `parse_issues` accepts are each named once.
proof fn lemma_parse_issues_distinct(names: Seq<Seq<char>>)
    ensures
        parse_issues(names) matches Ok(ks) ==> ks.no_duplicates(),
    decreases names.len(),
{
    if names.len() > 0 {
        lemma_parse_issues_distinct(names.drop_last());
        if let Ok(acc) = parse_issues(names.drop_last()) {
            if let Some(k) = issue_named(names.last()) {
                lemma_push_unique_distinct(acc, k);
            }
        }
    }
}

/// The presets that `parse_presets` accepts are each named once.
proof fn lemma_parse_presets_distinct(names: Seq<Seq<char>>)
    ensures
        parse_presets(names) matches Ok(ps) ==> ps.no_duplicates(),
    decreases names.len(),
{
    if names.len() > 0 {
        lemma_parse_presets_distinct(names.drop_last());
        if let Ok(acc) = parse_presets(names.drop_last()) {
            if let Some(k) = preset_named(names.last()) {
                lemma_push_unique_distinct(acc, k);
            }
        }
    }
}

/// Every selection the library builds lists each value once: the kinds of a `--fail-on`
/// value, the kinds selected by a configuration and the command line together, and the
/// drop entries, presets and kinds of a validated configuration section.
pub proof fn law_selections_are_distinct(
    fail_on: Seq<char>,
    config_kinds: Seq<IssueKind>,
    cli_kinds: Seq<IssueKind>,
    raw: RawPolicy,
)
    ensures
        fail_on_result(fail_on) matches Ok(ks) ==> ks.no_duplicates(),
        unique_extend(unique_of(config_kinds), cli_kinds).no_duplicates(),
        policy_result(raw) matches Ok((d, p, f)) ==> d.no_duplicates() && p.no_duplicates()
            && f.no_duplicates(),
{
    lemma_parse_issues_distinct(trimmed_nonempty(split_on(fail_on, ',')));
    lemma_unique_distinct(config_kinds, cli_kinds);
    lemma_parse_issues_distinct(views(raw.fail_on@));
    lemma_parse_presets_distinct(views(raw.presets@));
    lemma_unique_distinct(views(raw.drop_entries@), Seq::<Seq<char>>::empty());
}

} // verus!

verus! {

/// Every issue kind and every preset is read back from its stable name, so the names that
/// the reports print are accepted by `--fail-on`, `--preset` and configuration files.
pub proof fn law_kind_names_round_trip(kind: IssueKind, preset: PresetKind)
    ensures
        issue_named(issue_name(kind)) == Some(kind),
        preset_named(preset_name(preset)) == Some(preset),
{
    let k = choose|k: IssueKind| issue_name(k) == issue_name(kind);
    lemma_issue_names_distinct(k, kind);
    let p = choose|p: PresetKind| preset_name(p) == preset_name(preset);
    lemma_preset_names_distinct(p, preset);
}

} // verus!

verus! {

/// The issue kinds that names denote (for known names).
pub open spec fn kinds_named(names: Seq<Seq<char>>) -> Seq<IssueKind> {
    names.map_values(|n: Seq<char>| issue_named(n).unwrap())
}

/// The presets that names denote (for known names).
pub open spec fn presets_named(names: Seq<Seq<char>>) -> Seq<PresetKind> {
    names.map_values(|n: Seq<char>| preset_named(n).unwrap())
}

/// The items of a `--fail-on` value: its comma-separated pieces, trimmed, blank ones left out.
pub open spec fn fail_on_items(value: Seq<char>) -> Seq<Seq<char>> {
    if value.len() == 0 {
        Seq::<Seq<char>>::empty()
    } else {
        trimmed_nonempty(split_on(value, ','))
    }
}

/// A value occurs among the unique values exactly when it occurs among all of them.
proof fn lemma_unique_contains<T>(xs: Seq<T>, x: T)
    ensures
        unique_of(xs).contains(x) <==> xs.contains(x),
    decreases xs.len(),
{
    if xs.len() > 0 {
        lemma_unique_contains(xs.drop_last(), x);
        let acc = unique_of(xs.drop_last());
        if xs.drop_last().contains(x) {
            let k = choose|k: int| 0 <= k < xs.drop_last().len() && xs.drop_last()[k] == x;
            assert(xs[k] == x);
        }
        if xs.contains(x) && xs.last() != x {
            let k = choose|k: int| 0 <= k < xs.len() && xs[k] == x;
            assert(xs.drop_last()[k] == x);
        }
        if acc.contains(x) {
            let k = choose|k: int| 0 <= k < acc.len() && acc[k] == x;
            assert(push_unique_spec(acc, xs.last())[k] == x);
        }
        if push_unique_spec(acc, xs.last()).contains(x) && !acc.contains(x) {
            let k = choose|k: int|
                0 <= k < push_unique_spec(acc, xs.last()).len() && push_unique_spec(
                    acc,
                    xs.last(),
                )[k] == x;
            assert(k == acc.len());
        }
        if xs.last() == x {
            assert(xs[xs.len() - 1] == x);
            if !acc.contains(x) {
                assert(push_unique_spec(acc, xs.last())[acc.len() as int] == x);
            }
        }
    }
}

/// Reading issue kinds: the error of the first unknown name, when there is one; otherwise
/// the kinds named, each once, in first-seen order.
proof fn lemma_parse_issues_shape(names: Seq<Seq<char>>)
    ensures
        parse_issues(names) is Err <==> exists|i: int|
            0 <= i < names.len() && (#[trigger] issue_named(names[i])) is None,
        parse_issues(names) matches Err(e) ==> exists|i: int|
            0 <= i < names.len() && (#[trigger] issue_named(names[i])) is None && e == issue_error(
                names[i],
            ) && forall|j: int| 0 <= j < i ==> (#[trigger] issue_named(names[j])) is Some,
        parse_issues(names) matches Ok(ks) ==> ks == unique_of(kinds_named(names)),
    decreases names.len(),
{
    if names.len() > 0 {
        let init = names.drop_last();
        lemma_parse_issues_shape(init);
        assert(kinds_named(names).drop_last() =~= kinds_named(init));
        assert(kinds_named(names).last() == issue_named(names.last()).unwrap());
        assert forall|i: int| 0 <= i < init.len() implies init[i] == names[i] by {}
        if exists|i: int| 0 <= i < init.len() && (#[trigger] issue_named(init[i])) is None {
            let i = choose|i: int| 0 <= i < init.len() && (#[trigger] issue_named(init[i])) is None;
            assert(issue_named(names[i]) is None);
        }
        if parse_issues(init) is Ok && issue_named(names.last()) is None {
            assert(issue_named(names[names.len() - 1]) is None);
            assert forall|j: int| 0 <= j < names.len() - 1 implies (#[trigger] issue_named(
                names[j],
            )) is Some by {
                assert(names[j] == init[j]);
            }
        }
        if parse_issues(init) is Ok && issue_named(names.last()) is Some {
            assert forall|i: int| 0 <= i < names.len() implies (#[trigger] issue_named(
                names[i],
            )) is Some by {
                if i < init.len() {
                    assert(names[i] == init[i]);
                }
            }
        }
        if let Err(e) = parse_issues(init) {
            let i = choose|i: int|
                0 <= i < init.len() && (#[trigger] issue_named(init[i])) is None && e == issue_error(
                    init[i],
                ) && forall|j: int| 0 <= j < i ==> (#[trigger] issue_named(init[j])) is Some;
            assert(names[i] == init[i]);
            assert forall|j: int| 0 <= j < i implies (#[trigger] issue_named(names[j])) is Some by {
                assert(names[j] == init[j]);
            }
        }
    }
}

/// Reading presets: the error of the first unknown name, when there is one; otherwise the
/// presets named, each once, in first-seen order.
proof fn lemma_parse_presets_shape(names: Seq<Seq<char>>)
    ensures
        parse_presets(names) is Err <==> exists|i: int|
            0 <= i < names.len() && (#[trigger] preset_named(names[i])) is None,
        parse_presets(names) matches Ok(ps) ==> ps == unique_of(presets_named(names)),
    decreases names.len(),
{
    if names.len() > 0 {
        let init = names.drop_last();
        lemma_parse_presets_shape(init);
        assert(presets_named(names).drop_last() =~= presets_named(init));
        assert(presets_named(names).last() == preset_named(names.last()).unwrap());
        if exists|i: int| 0 <= i < init.len() && (#[trigger] preset_named(init[i])) is None {
            let i = choose|i: int| 0 <= i < init.len() && (#[trigger] preset_named(init[i])) is None;
            assert(names[i] == init[i]);
        }
        if parse_presets(init) is Ok && preset_named(names.last()) is None {
            assert(preset_named(names[names.len() - 1]) is None);
        }
        if parse_presets(init) is Ok && preset_named(names.last()) is Some {
            assert forall|i: int| 0 <= i < names.len() implies (#[trigger] preset_named(
                names[i],
            )) is Some by {
                if i < init.len() {
                    assert(names[i] == init[i]);
                }
            }
        }
    }
}

/// `--fail-on` parsing: the value fails exactly when one of its items (comma-separated,
/// trimmed, blank ones left out) is not a known issue kind, with the error of the first
/// such item; otherwise it gives the kinds named, each once, in first-seen order, and a
/// kind is selected exactly when some item names it.
pub proof fn law_fail_on_parsing(value: Seq<char>)
    ensures
        fail_on_result(value) is Err <==> exists|i: int|
            0 <= i < fail_on_items(value).len() && (#[trigger] issue_named(fail_on_items(value)[i]))
                is None,
        fail_on_result(value) matches Err(e) ==> exists|i: int|
            0 <= i < fail_on_items(value).len() && (#[trigger] issue_named(fail_on_items(value)[i]))
                is None && e == issue_error(fail_on_items(value)[i]),
        fail_on_result(value) matches Ok(ks) ==> ks == unique_of(kinds_named(fail_on_items(value)))
            && ks.no_duplicates() && forall|k: IssueKind|
            ks.contains(k) <==> kinds_named(fail_on_items(value)).contains(k),
{
    let items = fail_on_items(value);
    lemma_parse_issues_shape(items);
    lemma_parse_issues_distinct(items);
    assert(value.len() == 0 ==> parse_issues(items) == Ok::<Seq<IssueKind>, Seq<char>>(
        Seq::<IssueKind>::empty(),
    ));
    assert(fail_on_result(value) == parse_issues(items));
    assert forall|k: IssueKind| #![trigger unique_of(kinds_named(items)).contains(k)]
        unique_of(kinds_named(items)).contains(k) <==> kinds_named(items).contains(k) by {
        lemma_unique_contains(kinds_named(items), k);
    }
}

/// Validating a configuration section: it fails exactly when a preset or an issue kind is
/// not known (presets are checked first); otherwise the drop entries, the presets and the
/// issue kinds are each kept once, in first-seen order.
pub proof fn law_config_policy_validation(raw: RawPolicy)
    ensures
        policy_result(raw) is Err <==> (exists|i: int|
            0 <= i < raw.presets@.len() && (#[trigger] preset_named(raw.presets@[i]@)) is None)
            || (exists|i: int|
            0 <= i < raw.fail_on@.len() && (#[trigger] issue_named(raw.fail_on@[i]@)) is None),
        policy_result(raw) matches Ok((d, p, f)) ==> {
            &&& d == unique_of(views(raw.drop_entries@))
            &&& p == unique_of(presets_named(views(raw.presets@)))
            &&& f == unique_of(kinds_named(views(raw.fail_on@)))
            &&& d.no_duplicates() && p.no_duplicates() && f.no_duplicates()
        },
{
    let ps = views(raw.presets@);
    let fs = views(raw.fail_on@);
    lemma_parse_presets_shape(ps);
    lemma_parse_issues_shape(fs);
    lemma_parse_presets_distinct(ps);
    lemma_parse_issues_distinct(fs);
    lemma_unique_distinct(views(raw.drop_entries@), Seq::<Seq<char>>::empty());
    assert forall|i: int| 0 <= i < raw.presets@.len() implies raw.presets@[i]@ == ps[i] by {}
    assert forall|i: int| 0 <= i < raw.fail_on@.len() implies raw.fail_on@[i]@ == fs[i] by {}
    if exists|i: int| 0 <= i < raw.presets@.len() && (#[trigger] preset_named(raw.presets@[i]@))
        is None {
        let i = choose|i: int|
            0 <= i < raw.presets@.len() && (#[trigger] preset_named(raw.presets@[i]@)) is None;
        assert(preset_named(ps[i]) is None);
    }
    if exists|i: int| 0 <= i < raw.fail_on@.len() && (#[trigger] issue_named(raw.fail_on@[i]@))
        is None {
        let i = choose|i: int|
            0 <= i < raw.fail_on@.len() && (#[trigger] issue_named(raw.fail_on@[i]@)) is None;
        assert(issue_named(fs[i]) is None);
    }
    if exists|i: int| 0 <= i < ps.len() && (#[trigger] preset_named(ps[i])) is None {
        let i = choose|i: int| 0 <= i < ps.len() && (#[trigger] preset_named(ps[i])) is None;
        assert(preset_named(raw.presets@[i]@) is None);
    }
    if exists|i: int| 0 <= i < fs.len() && (#[trigger] issue_named(fs[i])) is None {
        let i = choose|i: int| 0 <= i < fs.len() && (#[trigger] issue_named(fs[i])) is None;
        assert(issue_named(raw.fail_on@[i]@) is None);
    }
}

} // verus!
