//! Doctor diagnostics: duplicates, entry state, unwanted entries, ordering heuristics
//! and shadowed commands.
use vstd::prelude::*;
use crate::model::{
    Diagnostic, DiagnosticView, DoctorReport, IssueKind, PathEntry, PathVariable, PlatformMode,
    PlatformRules, PresetKind, ResolutionCandidate, diagnostic_views,
};
use crate::normalize::keys;
use crate::path_env::{
    case_sensitive_of, parse_path_with_rules, parsed, resolves_to, separator_of,
};
use crate::platform::resolve_platform_rules;
use crate::policy::{PathPolicy, drop_keys, ordering_presets_of};
use crate::text::{
    append, contains_text, decimal, decimal_text, ends_with, owned, same_text, text_ends_with,
    views,
};

verus! {

/// A diagnostic view about one entry with no related indexes.
pub open spec fn entry_diag(kind: IssueKind, message: Seq<char>, e: PathEntry) -> DiagnosticView {
    DiagnosticView {
        kind,
        message,
        entry_index: Some(e.index),
        entry_value: Some(e.display@),
        related_indexes: Seq::<usize>::empty(),
    }
}

/// A diagnostic about one entry.
fn entry_diagnostic(kind: IssueKind, message: String, e: &PathEntry) -> (d: Diagnostic)
    ensures
        d@ == entry_diag(kind, message@, *e),
{
    Diagnostic {
        kind,
        message,
        entry_index: Some(e.index),
        entry_value: Some(e.display.clone()),
        related_indexes: Vec::new(),
    }
}

// ----- Entry state -----

/// The state diagnostic of an entry, if any: empty, missing, not a directory, or (for a
/// directory that `readable` says cannot be listed) unreadable.
pub open spec fn state_diag(e: PathEntry, readable: bool) -> Option<DiagnosticView> {
    if e.is_empty {
        Some(entry_diag(IssueKind::Empty, "entry "@ + decimal(e.index as nat) + " is empty"@, e))
    } else if !e.exists {
        Some(entry_diag(IssueKind::Missing, e.display@ + " does not exist"@, e))
    } else if !e.is_dir {
        Some(entry_diag(IssueKind::NotDirectory, e.display@ + " is not a directory"@, e))
    } else if !readable {
        Some(entry_diag(IssueKind::Unreadable, e.display@ + " cannot be read"@, e))
    } else {
        None
    }
}

/// The state diagnostics of the entries, in order.
pub open spec fn state_diags(entries: Seq<PathEntry>, readable: Seq<bool>) -> Seq<DiagnosticView>
    decreases entries.len(),
{
    if entries.len() == 0 {
        Seq::<DiagnosticView>::empty()
    } else {
        let acc = state_diags(entries.drop_last(), readable);
        match state_diag(entries.last(), readable[entries.len() - 1]) {
            Some(d) => acc.push(d),
            None => acc,
        }
    }
}

/// Whether a directory can be listed (`std::path::Path::read_dir` succeeds). Nothing is
/// stated of the answer: it depends on the filesystem and permissions.
#[verifier::external_body]
fn directory_is_readable(raw: &String) -> bool {
    std::path::Path::new(raw).read_dir().is_ok()
}

/// `r` is an answer that listing the directory `raw` gave (`directory_is_readable`): it is
/// tied to that probe, and to nothing else, as the answer depends on the filesystem.
pub closed spec fn listing_answer(raw: String, r: bool) -> bool {
    call_ensures(directory_is_readable, (&raw,), r)
}

/// Flags for the entries as the doctor reads them: for each existing, non-empty directory
/// an answer of listing it; `true` for any other entry, which is never listed.
pub open spec fn probed_flags(entries: Seq<PathEntry>, readable: Seq<bool>) -> bool {
    &&& readable.len() == entries.len()
    &&& forall|i: int|
        0 <= i < entries.len() ==> if entries[i].exists && entries[i].is_dir && !entries[i].is_empty {
            listing_answer(entries[i].raw, #[trigger] readable[i])
        } else {
            readable[i]
        }
}

/// The state diagnostics of the entries, given which of them can be listed.
pub fn state_diagnostics_with(entries: &Vec<PathEntry>, readable: &Vec<bool>) -> (out: Vec<
    Diagnostic,
>)
    requires
        readable.len() == entries.len(),
    ensures
        diagnostic_views(out@) == state_diags(entries@, readable@),
{
    let mut out: Vec<Diagnostic> = Vec::new();
    let mut i: usize = 0;
    while i < entries.len()
        invariant
            i <= entries.len(),
            readable.len() == entries.len(),
            diagnostic_views(out@) == state_diags(entries@.take(i as int), readable@),
        decreases entries.len() - i,
    {
        let ghost t = entries@.take(i + 1);
        assert(t.drop_last() == entries@.take(i as int));
        assert(t.last() == entries@[i as int]);
        let e = &entries[i];
        let ghost before = diagnostic_views(out@);
        if e.is_empty {
            let mut m = owned("entry ");
            append(&mut m, decimal_text(e.index).as_str());
            append(&mut m, " is empty");
            out.push(entry_diagnostic(IssueKind::Empty, m, e));
        } else if !e.exists {
            let mut m = e.display.clone();
            append(&mut m, " does not exist");
            out.push(entry_diagnostic(IssueKind::Missing, m, e));
        } else if !e.is_dir {
            let mut m = e.display.clone();
            append(&mut m, " is not a directory");
            out.push(entry_diagnostic(IssueKind::NotDirectory, m, e));
        } else if !readable[i] {
            let mut m = e.display.clone();
            append(&mut m, " cannot be read");
            out.push(entry_diagnostic(IssueKind::Unreadable, m, e));
        }
        assert(diagnostic_views(out@) == match state_diag(entries@[i as int], readable@[i as int]) {
            Some(d) => before.push(d),
            None => before,
        });
        i += 1;
    }
    assert(entries@.take(entries.len() as int) == entries@);
    out
}

/// Whether each entry is a directory that can be listed; other entries are not probed.
pub fn readable_flags(entries: &Vec<PathEntry>) -> (out: Vec<bool>)
    ensures
        probed_flags(entries@, out@),
        out.len() == entries.len(),
        forall|i: int|
            0 <= i < entries.len() && !(entries@[i].exists && entries@[i].is_dir
                && !entries@[i].is_empty) ==> #[trigger] out@[i],
        forall|i: int|
            0 <= i < entries.len() && entries@[i].exists && entries@[i].is_dir
                && !entries@[i].is_empty ==> listing_answer(entries@[i].raw, #[trigger] out@[i]),
{
    let mut out: Vec<bool> = Vec::new();
    let mut i: usize = 0;
    while i < entries.len()
        invariant
            i <= entries.len(),
            out.len() == i,
            forall|k: int|
                0 <= k < i && !(entries@[k].exists && entries@[k].is_dir && !entries@[k].is_empty)
                    ==> #[trigger] out@[k],
            forall|k: int|
                0 <= k < i && entries@[k].exists && entries@[k].is_dir && !entries@[k].is_empty
                    ==> listing_answer(entries@[k].raw, #[trigger] out@[k]),
        decreases entries.len() - i,
    {
        let e = &entries[i];
        if e.exists && e.is_dir && !e.is_empty {
            out.push(directory_is_readable(&e.raw));
        } else {
            out.push(true);
        }
        i += 1;
    }
    out
}

/// The state diagnostics of the entries, probing directories for readability.
pub fn state_diagnostics(entries: &Vec<PathEntry>) -> (out: Vec<Diagnostic>)
    ensures
        exists|readable: Seq<bool>|
            probed_flags(entries@, readable) && diagnostic_views(out@) == state_diags(
                entries@,
                readable,
            ),
{
    let readable = readable_flags(entries);
    state_diagnostics_with(entries, &readable)
}

// ----- Unwanted entries -----

/// The unwanted-entry diagnostic of an entry.
pub open spec fn unwanted_diag(e: PathEntry) -> DiagnosticView {
    DiagnosticView {
        kind: IssueKind::Unwanted,
        message: e.display@ + " is marked for removal"@,
        entry_index: Some(e.index),
        entry_value: Some(e.display@),
        related_indexes: seq![e.index],
    }
}

/// The unwanted-entry diagnostics of the entries the keys remove, in order.
pub open spec fn unwanted_diags(entries: Seq<PathEntry>, keys: Seq<Seq<char>>) -> Seq<DiagnosticView>
    decreases entries.len(),
{
    if entries.len() == 0 {
        Seq::<DiagnosticView>::empty()
    } else {
        let acc = unwanted_diags(entries.drop_last(), keys);
        let e = entries.last();
        if !e.is_empty && keys.contains(e.comparison_key@) {
            acc.push(unwanted_diag(e))
        } else {
            acc
        }
    }
}

/// The unwanted-entry diagnostics of the entries a policy removes under concrete rules.
pub fn unwanted_diagnostics(entries: &Vec<PathEntry>, policy: &PathPolicy, rules: &PlatformRules) -> (out:
    Vec<Diagnostic>)
    ensures
        diagnostic_views(out@) == unwanted_diags(entries@, drop_keys(*policy, rules.case_sensitive)),
{
    if policy.is_empty() {
        proof {
            crate::clean::lemma_empty_policy_keys(*policy, rules.case_sensitive);
            lemma_unwanted_none(entries@);
        }
        return Vec::new();
    }
    let compiled = policy.compile_with_rules(rules);
    let mut out: Vec<Diagnostic> = Vec::new();
    let mut i: usize = 0;
    while i < entries.len()
        invariant
            i <= entries.len(),
            views(compiled.keys@) == drop_keys(*policy, rules.case_sensitive),
            diagnostic_views(out@) == unwanted_diags(entries@.take(i as int), views(compiled.keys@)),
        decreases entries.len() - i,
    {
        let ghost t = entries@.take(i + 1);
        assert(t.drop_last() == entries@.take(i as int));
        assert(t.last() == entries@[i as int]);
        let e = &entries[i];
        if compiled.matches_entry(e) {
            let mut m = e.display.clone();
            append(&mut m, " is marked for removal");
            let mut related: Vec<usize> = Vec::new();
            related.push(e.index);
            let d = Diagnostic {
                kind: IssueKind::Unwanted,
                message: m,
                entry_index: Some(e.index),
                entry_value: Some(e.display.clone()),
                related_indexes: related,
            };
            let ghost before = diagnostic_views(out@);
            out.push(d);
            assert(related@ == seq![e.index]);
            assert(diagnostic_views(out@) == before.push(unwanted_diag(entries@[i as int])));
        }
        i += 1;
    }
    assert(entries@.take(entries.len() as int) == entries@);
    out
}

/// No key removes nothing.
proof fn lemma_unwanted_none(entries: Seq<PathEntry>)
    ensures
        unwanted_diags(entries, Seq::<Seq<char>>::empty()) == Seq::<DiagnosticView>::empty(),
    decreases entries.len(),
{
    if entries.len() > 0 {
        lemma_unwanted_none(entries.drop_last());
    }
}

// ----- Ordering heuristics -----

/// The position of the first entry satisfying `p`.
pub open spec fn first_where(es: Seq<PathEntry>, p: spec_fn(PathEntry) -> bool) -> Option<int>
    decreases es.len(),
{
    if es.len() == 0 {
        None
    } else if p(es[0]) {
        Some(0)
    } else {
        match first_where(es.drop_first(), p) {
            Some(i) => Some(i + 1),
            None => None,
        }
    }
}

/// The standard system binary directories.
pub open spec fn system_dirs() -> Seq<Seq<char>> {
    seq!["/bin"@, "/usr/bin"@, "/usr/sbin"@, "/sbin"@]
}

/// The Homebrew binary directories.
pub open spec fn homebrew_dirs() -> Seq<Seq<char>> {
    seq!["/opt/homebrew/bin"@, "/usr/local/bin"@]
}

/// The suffixes of per-user tool directories.
pub open spec fn user_tool_suffixes() -> Seq<Seq<char>> {
    seq!["/.cargo/bin"@, "/.local/bin"@, "/.pyenv/shims"@]
}

/// A non-empty entry whose raw text is one of `values`.
pub open spec fn raw_in(values: Seq<Seq<char>>) -> spec_fn(PathEntry) -> bool {
    |e: PathEntry| !e.is_empty && values.contains(e.raw@)
}

/// A non-empty entry whose raw text ends with one of `suffixes`.
pub open spec fn suffix_in(suffixes: Seq<Seq<char>>) -> spec_fn(PathEntry) -> bool {
    |e: PathEntry| !e.is_empty && exists|k: int| 0 <= k < suffixes.len() && ends_with(e.raw@, #[trigger] suffixes[k])
}

/// The "`first` appears before `later`" ordering diagnostic.
pub open spec fn order_diag(first: PathEntry, later: PathEntry) -> DiagnosticView {
    DiagnosticView {
        kind: IssueKind::SuspiciousOrder,
        message: first.display@ + " appears before "@ + later.display@,
        entry_index: Some(first.index),
        entry_value: Some(first.display@),
        related_indexes: seq![first.index, later.index],
    }
}

/// The `/usr/bin` before `/opt/homebrew/bin` diagnostic.
pub open spec fn homebrew_order_diag(usr_bin: PathEntry, homebrew: PathEntry) -> DiagnosticView {
    DiagnosticView {
        kind: IssueKind::SuspiciousOrder,
        message: "/usr/bin appears before /opt/homebrew/bin"@,
        entry_index: Some(usr_bin.index),
        entry_value: Some(usr_bin.display@),
        related_indexes: seq![usr_bin.index, homebrew.index],
    }
}

/// The diagnostic when the entry found by `p` comes (by index) before the one found by `q`.
pub open spec fn before_diag(
    es: Seq<PathEntry>,
    p: spec_fn(PathEntry) -> bool,
    q: spec_fn(PathEntry) -> bool,
) -> Option<DiagnosticView> {
    match (first_where(es, p), first_where(es, q)) {
        (Some(i), Some(j)) => if es[i].index < es[j].index {
            Some(order_diag(es[i], es[j]))
        } else {
            None
        },
        _ => None,
    }
}

/// The built-in ordering warnings of a PATH: `/usr/bin` before `/opt/homebrew/bin`, then a
/// system directory before a per-user tool directory.
pub open spec fn ordering_diags(es: Seq<PathEntry>) -> Seq<DiagnosticView> {
    let usr = first_where(es, raw_in(seq!["/usr/bin"@]));
    let brew = first_where(es, raw_in(seq!["/opt/homebrew/bin"@]));
    let first = match (usr, brew) {
        (Some(i), Some(j)) => if es[i].index < es[j].index {
            seq![homebrew_order_diag(es[i], es[j])]
        } else {
            Seq::<DiagnosticView>::empty()
        },
        _ => Seq::<DiagnosticView>::empty(),
    };
    match before_diag(es, raw_in(system_dirs()), suffix_in(user_tool_suffixes())) {
        Some(d) => first.push(d),
        None => first,
    }
}

/// Shifts an optional position by `k`.
pub open spec fn shift(o: Option<int>, k: int) -> Option<int> {
    match o {
        Some(i) => Some(i + k),
        None => None,
    }
}

/// Whether the list holds `s`.
fn in_list(list: &Vec<String>, s: &str) -> (r: bool)
    ensures
        r == views(list@).contains(s@),
{
    contains_text(list, s)
}

/// Whether `s` ends with one of the suffixes.
fn ends_with_any(s: &str, suffixes: &Vec<String>) -> (r: bool)
    ensures
        r == exists|k: int| 0 <= k < suffixes.len() && ends_with(s@, #[trigger] views(suffixes@)[k]),
{
    let mut i: usize = 0;
    while i < suffixes.len()
        invariant
            i <= suffixes.len(),
            forall|k: int| 0 <= k < i ==> !ends_with(s@, #[trigger] views(suffixes@)[k]),
        decreases suffixes.len() - i,
    {
        if text_ends_with(s, suffixes[i].as_str()) {
            assert(ends_with(s@, views(suffixes@)[i as int]));
            return true;
        }
        i += 1;
    }
    false
}

/// Position of the first non-empty entry whose raw text is in `values`.
fn find_raw_in(entries: &Vec<PathEntry>, values: &Vec<String>) -> (r: Option<usize>)
    ensures
        match r {
            Some(i) => first_where(entries@, raw_in(views(values@))) == Some(i as int) && i
                < entries.len(),
            None => first_where(entries@, raw_in(views(values@))) is None,
        },
{
    let ghost p = raw_in(views(values@));
    let mut i: usize = 0;
    assert(entries@.skip(0) == entries@);
    while i < entries.len()
        invariant
            i <= entries.len(),
            p == raw_in(views(values@)),
            first_where(entries@, p) == shift(first_where(entries@.skip(i as int), p), i as int),
        decreases entries.len() - i,
    {
        assert(entries@.skip(i as int).drop_first() == entries@.skip(i + 1));
        assert(entries@.skip(i as int)[0] == entries@[i as int]);
        if !entries[i].is_empty && in_list(values, entries[i].raw.as_str()) {
            return Some(i);
        }
        i += 1;
    }
    None
}

/// Position of the first non-empty entry whose raw text ends with one of `suffixes`.
fn find_suffix_in(entries: &Vec<PathEntry>, suffixes: &Vec<String>) -> (r: Option<usize>)
    ensures
        match r {
            Some(i) => first_where(entries@, suffix_in(views(suffixes@))) == Some(i as int) && i
                < entries.len(),
            None => first_where(entries@, suffix_in(views(suffixes@))) is None,
        },
{
    let ghost p = suffix_in(views(suffixes@));
    let mut i: usize = 0;
    assert(entries@.skip(0) == entries@);
    while i < entries.len()
        invariant
            i <= entries.len(),
            p == suffix_in(views(suffixes@)),
            first_where(entries@, p) == shift(first_where(entries@.skip(i as int), p), i as int),
        decreases entries.len() - i,
    {
        assert(entries@.skip(i as int).drop_first() == entries@.skip(i + 1));
        assert(entries@.skip(i as int)[0] == entries@[i as int]);
        if !entries[i].is_empty && ends_with_any(entries[i].raw.as_str(), suffixes) {
            return Some(i);
        }
        i += 1;
    }
    None
}

/// Strings built from literals.
fn strings1(a: &str) -> (r: Vec<String>)
    ensures
        views(r@) == seq![a@],
{
    let mut r = Vec::new();
    r.push(owned(a));
    assert(views(r@) =~= seq![a@]);
    r
}

fn system_dir_list() -> (r: Vec<String>)
    ensures
        views(r@) == system_dirs(),
{
    let mut r = Vec::new();
    r.push(owned("/bin"));
    r.push(owned("/usr/bin"));
    r.push(owned("/usr/sbin"));
    r.push(owned("/sbin"));
    assert(views(r@) =~= system_dirs());
    r
}

fn homebrew_dir_list() -> (r: Vec<String>)
    ensures
        views(r@) == homebrew_dirs(),
{
    let mut r = Vec::new();
    r.push(owned("/opt/homebrew/bin"));
    r.push(owned("/usr/local/bin"));
    assert(views(r@) =~= homebrew_dirs());
    r
}

fn user_tool_suffix_list() -> (r: Vec<String>)
    ensures
        views(r@) == user_tool_suffixes(),
{
    let mut r = Vec::new();
    r.push(owned("/.cargo/bin"));
    r.push(owned("/.local/bin"));
    r.push(owned("/.pyenv/shims"));
    assert(views(r@) =~= user_tool_suffixes());
    r
}

/// The "`first` appears before `later`" ordering diagnostic.
fn user_tool_order_diagnostic(first: &PathEntry, later: &PathEntry) -> (d: Diagnostic)
    ensures
        d@ == order_diag(*first, *later),
{
    let mut m = first.display.clone();
    append(&mut m, " appears before ");
    append(&mut m, later.display.as_str());
    let mut related: Vec<usize> = Vec::new();
    related.push(first.index);
    related.push(later.index);
    assert(related@ == seq![first.index, later.index]);
    Diagnostic {
        kind: IssueKind::SuspiciousOrder,
        message: m,
        entry_index: Some(first.index),
        entry_value: Some(first.display.clone()),
        related_indexes: related,
    }
}

/// The built-in ordering warnings of a PATH.
pub fn ordering_diagnostics(entries: &Vec<PathEntry>) -> (out: Vec<Diagnostic>)
    ensures
        diagnostic_views(out@) == ordering_diags(entries@),
{
    let mut out: Vec<Diagnostic> = Vec::new();
    let usr = find_raw_in(entries, &strings1("/usr/bin"));
    let brew = find_raw_in(entries, &strings1("/opt/homebrew/bin"));
    match (usr, brew) {
        (Some(i), Some(j)) => {
            if entries[i].index < entries[j].index {
                let mut m = owned("/usr/bin appears before /opt/homebrew/bin");
                let mut related: Vec<usize> = Vec::new();
                related.push(entries[i].index);
                related.push(entries[j].index);
                assert(related@ == seq![entries@[i as int].index, entries@[j as int].index]);
                out.push(
                    Diagnostic {
                        kind: IssueKind::SuspiciousOrder,
                        message: m,
                        entry_index: Some(entries[i].index),
                        entry_value: Some(entries[i].display.clone()),
                        related_indexes: related,
                    },
                );
                assert(diagnostic_views(out@) =~= seq![
                    homebrew_order_diag(entries@[i as int], entries@[j as int]),
                ]);
            }
        },
        _ => {},
    }
    let ghost first = diagnostic_views(out@);
    let system = find_raw_in(entries, &system_dir_list());
    let tool = find_suffix_in(entries, &user_tool_suffix_list());
    match (system, tool) {
        (Some(i), Some(j)) => {
            if entries[i].index < entries[j].index {
                out.push(user_tool_order_diagnostic(&entries[i], &entries[j]));
                assert(diagnostic_views(out@) == first.push(
                    order_diag(entries@[i as int], entries@[j as int]),
                ));
            }
        },
        _ => {},
    }
    out
}

/// The warning of one ordering preset, if its directory comes after a system directory.
pub open spec fn preset_diag(es: Seq<PathEntry>, preset: PresetKind) -> Option<DiagnosticView> {
    match preset {
        PresetKind::Homebrew => before_diag(es, raw_in(system_dirs()), raw_in(homebrew_dirs())),
        PresetKind::Cargo => before_diag(es, raw_in(system_dirs()), suffix_in(seq!["/.cargo/bin"@])),
        PresetKind::Pyenv => before_diag(
            es,
            raw_in(system_dirs()),
            suffix_in(seq!["/.pyenv/shims"@]),
        ),
        PresetKind::Fink => None,
    }
}

/// The warnings of the ordering presets, preset by preset.
pub open spec fn preset_diags(es: Seq<PathEntry>, presets: Seq<PresetKind>) -> Seq<DiagnosticView>
    decreases presets.len(),
{
    if presets.len() == 0 {
        Seq::<DiagnosticView>::empty()
    } else {
        let acc = preset_diags(es, presets.drop_last());
        match preset_diag(es, presets.last()) {
            Some(d) => acc.push(d),
            None => acc,
        }
    }
}

/// The ordering warning for a system directory before the entry found among `later`.
fn system_before(entries: &Vec<PathEntry>, later: Option<usize>, system: Option<usize>) -> (r:
    Option<Diagnostic>)
    requires
        later matches Some(j) ==> j < entries.len(),
        system matches Some(i) ==> i < entries.len(),
    ensures
        match (system, later) {
            (Some(i), Some(j)) => if entries@[i as int].index < entries@[j as int].index {
                r matches Some(d) && d@ == order_diag(entries@[i as int], entries@[j as int])
            } else {
                r is None
            },
            _ => r is None,
        },
{
    match (system, later) {
        (Some(i), Some(j)) => if entries[i].index < entries[j].index {
            Some(user_tool_order_diagnostic(&entries[i], &entries[j]))
        } else {
            None
        },
        _ => None,
    }
}

/// The warnings of the ordering presets a policy selects.
pub fn preset_diagnostics(entries: &Vec<PathEntry>, policy: &PathPolicy) -> (out: Vec<Diagnostic>)
    ensures
        diagnostic_views(out@) == preset_diags(entries@, ordering_presets_of(policy.presets@)),
{
    let presets = policy.ordering_presets();
    let mut out: Vec<Diagnostic> = Vec::new();
    let system = find_raw_in(entries, &system_dir_list());
    let mut i: usize = 0;
    while i < presets.len()
        invariant
            i <= presets.len(),
            system matches Some(s) ==> s < entries.len(),
            match system {
                Some(s) => first_where(entries@, raw_in(system_dirs())) == Some(s as int),
                None => first_where(entries@, raw_in(system_dirs())) is None,
            },
            diagnostic_views(out@) == preset_diags(entries@, presets@.take(i as int)),
        decreases presets.len() - i,
    {
        let ghost t = presets@.take(i + 1);
        assert(t.drop_last() == presets@.take(i as int));
        assert(t.last() == presets@[i as int]);
        let found = match presets[i] {
            PresetKind::Homebrew => {
                let later = find_raw_in(entries, &homebrew_dir_list());
                system_before(entries, later, system)
            },
            PresetKind::Cargo => {
                let later = find_suffix_in(entries, &strings1("/.cargo/bin"));
                system_before(entries, later, system)
            },
            PresetKind::Pyenv => {
                let later = find_suffix_in(entries, &strings1("/.pyenv/shims"));
                system_before(entries, later, system)
            },
            PresetKind::Fink => None,
        };
        let ghost before = diagnostic_views(out@);
        match found {
            Some(d) => {
                out.push(d);
            },
            None => {},
        }
        assert(diagnostic_views(out@) == match preset_diag(entries@, presets@[i as int]) {
            Some(d) => before.push(d),
            None => before,
        });
        i += 1;
    }
    assert(presets@.take(presets.len() as int) == presets@);
    out
}

// ----- Duplicates -----

/// The positions of the non-empty entries with comparison key `k`, in order.
pub open spec fn members(es: Seq<PathEntry>, k: Seq<char>) -> Seq<PathEntry>
    decreases es.len(),
{
    if es.len() == 0 {
        Seq::<PathEntry>::empty()
    } else {
        let acc = members(es.drop_last(), k);
        let e = es.last();
        if !e.is_empty && e.comparison_key@ == k {
            acc.push(e)
        } else {
            acc
        }
    }
}

/// The distinct comparison keys of the non-empty entries, in first-seen order.
pub open spec fn group_keys(es: Seq<PathEntry>) -> Seq<Seq<char>>
    decreases es.len(),
{
    if es.len() == 0 {
        Seq::<Seq<char>>::empty()
    } else {
        let acc = group_keys(es.drop_last());
        let e = es.last();
        if !e.is_empty && !acc.contains(e.comparison_key@) {
            acc.push(e.comparison_key@)
        } else {
            acc
        }
    }
}

/// The duplicate diagnostic of a group of entries sharing a key.
pub open spec fn duplicate_diag(group: Seq<PathEntry>) -> DiagnosticView {
    DiagnosticView {
        kind: IssueKind::Duplicate,
        message: group[0].display@ + " appears "@ + decimal(group.len()) + " times"@,
        entry_index: Some(group[0].index),
        entry_value: Some(group[0].display@),
        related_indexes: group.map_values(|e: PathEntry| e.index),
    }
}

/// The duplicate diagnostics of the groups keyed by `ks`, for groups of two or more.
pub open spec fn duplicate_diags_for(es: Seq<PathEntry>, ks: Seq<Seq<char>>) -> Seq<DiagnosticView>
    decreases ks.len(),
{
    if ks.len() == 0 {
        Seq::<DiagnosticView>::empty()
    } else {
        let acc = duplicate_diags_for(es, ks.drop_last());
        let g = members(es, ks.last());
        if g.len() >= 2 {
            acc.push(duplicate_diag(g))
        } else {
            acc
        }
    }
}

/// The duplicate diagnostics of the entries: one per comparison key shared by two or more
/// non-empty entries, in first-seen order of the keys.
pub open spec fn duplicate_diags(es: Seq<PathEntry>) -> Seq<DiagnosticView> {
    duplicate_diags_for(es, group_keys(es))
}

/// The entries at the given positions.
pub open spec fn at_positions(es: Seq<PathEntry>, ps: Seq<usize>) -> Seq<PathEntry> {
    ps.map_values(|p: usize| es[p as int])
}

/// Position of the group with key `k`.
fn find_group(group_keys_exec: &Vec<String>, k: &str) -> (r: Option<usize>)
    ensures
        match r {
            Some(g) => g < group_keys_exec.len() && group_keys_exec@[g as int]@ == k@,
            None => !views(group_keys_exec@).contains(k@),
        },
{
    let mut g: usize = 0;
    while g < group_keys_exec.len()
        invariant
            g <= group_keys_exec.len(),
            forall|j: int| 0 <= j < g ==> group_keys_exec@[j]@ != k@,
        decreases group_keys_exec.len() - g,
    {
        if same_text(group_keys_exec[g].as_str(), k) {
            return Some(g);
        }
        g += 1;
    }
    assert(!views(group_keys_exec@).contains(k@)) by {
        if views(group_keys_exec@).contains(k@) {
            let j = choose|j: int| 0 <= j < views(group_keys_exec@).len() && views(group_keys_exec@)[j] == k@;
            assert(group_keys_exec@[j]@ == k@);
        }
    }
    None
}

/// Members of a key not yet seen are none.
proof fn lemma_members_absent(es: Seq<PathEntry>, k: Seq<char>)
    requires
        !group_keys(es).contains(k),
    ensures
        members(es, k) == Seq::<PathEntry>::empty(),
    decreases es.len(),
{
    if es.len() > 0 {
        let acc = group_keys(es.drop_last());
        let e = es.last();
        if !e.is_empty && !acc.contains(e.comparison_key@) {
            assert(group_keys(es) == acc.push(e.comparison_key@));
            assert(!acc.contains(k)) by {
                if acc.contains(k) {
                    let j = choose|j: int| 0 <= j < acc.len() && acc[j] == k;
                    assert(acc.push(e.comparison_key@)[j] == k);
                }
            }
            if e.comparison_key@ == k {
                assert(group_keys(es)[acc.len() as int] == k);
            }
        }
        lemma_members_absent(es.drop_last(), k);
    }
}

/// Duplicate groups built over the first `n` entries.
pub open spec fn groups_ok(
    es: Seq<PathEntry>,
    gk: Seq<Seq<char>>,
    gp: Seq<Seq<usize>>,
) -> bool {
    &&& gk == group_keys(es)
    &&& gp.len() == gk.len()
    &&& forall|g: int|
        0 <= g < gp.len() ==> #[trigger] at_positions(es, gp[g]) == members(es, gk[g]) && forall|
            j: int,
        | 0 <= j < gp[g].len() ==> gp[g][j] < es.len()
}

/// The duplicate diagnostics of the entries.
pub fn duplicate_diagnostics(entries: &Vec<PathEntry>) -> (out: Vec<Diagnostic>)
    ensures
        diagnostic_views(out@) == duplicate_diags(entries@),
{
    let mut gk: Vec<String> = Vec::new();
    let mut gp: Vec<Vec<usize>> = Vec::new();
    let mut i: usize = 0;
    assert(entries@.take(0) == Seq::<PathEntry>::empty());
    assert(views(gk@) == Seq::<Seq<char>>::empty());
    assert(gp@.map_values(|v: Vec<usize>| v@) == Seq::<Seq<usize>>::empty());
    while i < entries.len()
        invariant
            i <= entries.len(),
            groups_ok(entries@.take(i as int), views(gk@), gp@.map_values(|v: Vec<usize>| v@)),
        decreases entries.len() - i,
    {
        let ghost t = entries@.take(i + 1);
        let ghost prev = entries@.take(i as int);
        assert(t.drop_last() == prev);
        assert(t.last() == entries@[i as int]);
        let ghost old_gk = views(gk@);
        let ghost old_gp = gp@.map_values(|v: Vec<usize>| v@);
        let e = &entries[i];
        proof {
            assert forall|g: int| 0 <= g < old_gp.len() implies at_positions(t, old_gp[g])
                == at_positions(prev, old_gp[g]) by {
                assert forall|j: int| 0 <= j < old_gp[g].len() implies t[old_gp[g][j] as int]
                    == prev[old_gp[g][j] as int] by {
                    assert(at_positions(prev, old_gp[g]) == members(prev, old_gk[g]));
                }
                assert(at_positions(t, old_gp[g]) =~= at_positions(prev, old_gp[g]));
            }
        }
        if !e.is_empty {
            match find_group(&gk, e.comparison_key.as_str()) {
                Some(g) => {
                    let mut members_g = gp[g].clone();
                    members_g.push(i);
                    gp.set(g, members_g);
                    proof {
                        let new_gp = gp@.map_values(|v: Vec<usize>| v@);
                        assert(new_gp[g as int] == old_gp[g as int].push(i));
                        assert(at_positions(t, new_gp[g as int]) =~= at_positions(
                            t,
                            old_gp[g as int],
                        ).push(entries@[i as int]));
                        assert forall|h: int| 0 <= h < new_gp.len() implies #[trigger] at_positions(
                            t,
                            new_gp[h],
                        ) == members(t, views(gk@)[h]) && forall|j: int|
                            0 <= j < new_gp[h].len() ==> new_gp[h][j] < t.len() by {
                            if h != g {
                                assert(new_gp[h] == old_gp[h]);
                                assert(old_gk[h] != old_gk[g as int]) by {
                                    lemma_group_keys_distinct(prev, h, g as int);
                                }
                            }
                        }
                    }
                },
                None => {
                    gk.push(e.comparison_key.clone());
                    let mut members_new: Vec<usize> = Vec::new();
                    members_new.push(i);
                    gp.push(members_new);
                    proof {
                        let new_gp = gp@.map_values(|v: Vec<usize>| v@);
                        lemma_members_absent(prev, e.comparison_key@);
                        assert(views(gk@) == old_gk.push(e.comparison_key@));
                        assert(new_gp == old_gp.push(seq![i]));
                        assert(at_positions(t, seq![i]) =~= seq![entries@[i as int]]);
                        assert forall|h: int| 0 <= h < new_gp.len() implies #[trigger] at_positions(
                            t,
                            new_gp[h],
                        ) == members(t, views(gk@)[h]) && forall|j: int|
                            0 <= j < new_gp[h].len() ==> new_gp[h][j] < t.len() by {
                            if h < old_gp.len() {
                                assert(old_gk[h] != e.comparison_key@);
                            }
                        }
                    }
                },
            }
        } else {
            proof {
                assert forall|h: int| 0 <= h < old_gp.len() implies #[trigger] at_positions(
                    t,
                    old_gp[h],
                ) == members(t, old_gk[h]) && forall|j: int|
                    0 <= j < old_gp[h].len() ==> old_gp[h][j] < t.len() by {}
            }
        }
        i += 1;
    }
    assert(entries@.take(entries.len() as int) == entries@);
    let ghost all_gp = gp@.map_values(|v: Vec<usize>| v@);
    let mut out: Vec<Diagnostic> = Vec::new();
    let mut g: usize = 0;
    while g < gp.len()
        invariant
            g <= gp.len(),
            gk.len() == gp.len(),
            all_gp == gp@.map_values(|v: Vec<usize>| v@),
            groups_ok(entries@, views(gk@), all_gp),
            diagnostic_views(out@) == duplicate_diags_for(entries@, views(gk@).take(g as int)),
        decreases gp.len() - g,
    {
        let ghost t = views(gk@).take(g + 1);
        assert(t.drop_last() == views(gk@).take(g as int));
        assert(t.last() == views(gk@)[g as int]);
        let positions = &gp[g];
        assert(at_positions(entries@, all_gp[g as int]) == members(entries@, views(gk@)[g as int]));
        if positions.len() >= 2 {
            let first = &entries[positions[0]];
            let mut m = first.display.clone();
            append(&mut m, " appears ");
            append(&mut m, decimal_text(positions.len()).as_str());
            append(&mut m, " times");
            let mut related: Vec<usize> = Vec::new();
            let mut k: usize = 0;
            while k < positions.len()
                invariant
                    k <= positions.len(),
                    forall|j: int| 0 <= j < positions.len() ==> positions@[j] < entries.len(),
                    related@ == positions@.take(k as int).map_values(|p: usize| entries@[p as int].index),
                decreases positions.len() - k,
            {
                related.push(entries[positions[k]].index);
                assert(positions@.take(k + 1) == positions@.take(k as int).push(positions@[k as int]));
                k += 1;
            }
            assert(positions@.take(positions.len() as int) == positions@);
            let ghost grp = members(entries@, views(gk@)[g as int]);
            assert(related@ == grp.map_values(|e: PathEntry| e.index));
            let d = Diagnostic {
                kind: IssueKind::Duplicate,
                message: m,
                entry_index: Some(first.index),
                entry_value: Some(first.display.clone()),
                related_indexes: related,
            };
            let ghost before = diagnostic_views(out@);
            out.push(d);
            assert(grp[0] == entries@[positions@[0] as int]);
            assert(diagnostic_views(out@) == before.push(duplicate_diag(grp)));
        }
        g += 1;
    }
    assert(views(gk@).take(gk.len() as int) == views(gk@));
    out
}

/// The keys of `group_keys` are distinct.
proof fn lemma_group_keys_distinct(es: Seq<PathEntry>, a: int, b: int)
    requires
        0 <= a < group_keys(es).len(),
        0 <= b < group_keys(es).len(),
        a != b,
    ensures
        group_keys(es)[a] != group_keys(es)[b],
    decreases es.len(),
{
    let acc = group_keys(es.drop_last());
    let e = es.last();
    if !e.is_empty && !acc.contains(e.comparison_key@) {
        if a < acc.len() && b < acc.len() {
            lemma_group_keys_distinct(es.drop_last(), a, b);
        } else if a == acc.len() {
            assert(group_keys(es)[b] == acc[b]);
        } else {
            assert(group_keys(es)[a] == acc[a]);
        }
    } else {
        lemma_group_keys_distinct(es.drop_last(), a, b);
    }
}

// ----- Shadowed commands -----

/// The shadowed-command diagnostic of a candidate hidden by the winner.
pub open spec fn shadowed_diag(
    command: Seq<char>,
    winner: ResolutionCandidate,
    candidate: ResolutionCandidate,
) -> DiagnosticView {
    DiagnosticView {
        kind: IssueKind::ShadowedCommand,
        message: command + " at "@ + candidate.path@ + " is shadowed by "@ + winner.path@,
        entry_index: Some(candidate.entry_index),
        entry_value: Some(candidate.path@),
        related_indexes: seq![winner.entry_index, candidate.entry_index],
    }
}

/// The shadowed-command diagnostics of the non-winning candidates after the winner.
pub open spec fn shadowed_diags_from(
    command: Seq<char>,
    winner: ResolutionCandidate,
    cs: Seq<ResolutionCandidate>,
) -> Seq<DiagnosticView>
    decreases cs.len(),
{
    if cs.len() == 0 {
        Seq::<DiagnosticView>::empty()
    } else {
        let acc = shadowed_diags_from(command, winner, cs.drop_last());
        let c = cs.last();
        if !c.wins && c.entry_index > winner.entry_index {
            acc.push(shadowed_diag(command, winner, c))
        } else {
            acc
        }
    }
}

/// The shadowed-command diagnostics of a resolution: none without a winner, else one per
/// non-winning candidate found in a later PATH entry than the winner.
pub open spec fn shadowed_diags(command: Seq<char>, cs: Seq<ResolutionCandidate>) -> Seq<
    DiagnosticView,
> {
    match crate::model::first_winner(cs) {
        Some(w) => shadowed_diags_from(command, cs[w], cs),
        None => Seq::<DiagnosticView>::empty(),
    }
}

/// The shadowed-command diagnostics of a resolution.
pub fn shadowed_diagnostics(command: &str, candidates: &Vec<ResolutionCandidate>) -> (out: Vec<
    Diagnostic,
>)
    ensures
        diagnostic_views(out@) == shadowed_diags(command@, candidates@),
{
    let w = match crate::model::winner_position(candidates) {
        Some(w) => w,
        None => return Vec::new(),
    };
    let winner = &candidates[w];
    let mut out: Vec<Diagnostic> = Vec::new();
    let mut i: usize = 0;
    while i < candidates.len()
        invariant
            i <= candidates.len(),
            w < candidates.len(),
            *winner == candidates@[w as int],
            diagnostic_views(out@) == shadowed_diags_from(
                command@,
                *winner,
                candidates@.take(i as int),
            ),
        decreases candidates.len() - i,
    {
        let ghost t = candidates@.take(i + 1);
        assert(t.drop_last() == candidates@.take(i as int));
        assert(t.last() == candidates@[i as int]);
        let c = &candidates[i];
        if !c.wins && c.entry_index > winner.entry_index {
            let mut m = owned(command);
            append(&mut m, " at ");
            append(&mut m, c.path.as_str());
            append(&mut m, " is shadowed by ");
            append(&mut m, winner.path.as_str());
            let mut related: Vec<usize> = Vec::new();
            related.push(winner.entry_index);
            related.push(c.entry_index);
            assert(related@ == seq![winner.entry_index, c.entry_index]);
            let ghost before = diagnostic_views(out@);
            out.push(
                Diagnostic {
                    kind: IssueKind::ShadowedCommand,
                    message: m,
                    entry_index: Some(c.entry_index),
                    entry_value: Some(c.path.clone()),
                    related_indexes: related,
                },
            );
            assert(diagnostic_views(out@) == before.push(shadowed_diag(command@, *winner, *c)));
        }
        i += 1;
    }
    assert(candidates@.take(candidates.len() as int) == candidates@);
    out
}

} // verus!

verus! {

/// The diagnostics of the entries of a variable, in report order: duplicates, entry
/// state (given which directories can be listed), unwanted entries, and for PATH the
/// built-in ordering warnings followed by those of the selected ordering presets.
pub open spec fn doctor_diags(
    entries: Seq<PathEntry>,
    readable: Seq<bool>,
    keys: Seq<Seq<char>>,
    presets: Seq<PresetKind>,
    variable: PathVariable,
) -> Seq<DiagnosticView> {
    duplicate_diags(entries) + state_diags(entries, readable) + unwanted_diags(entries, keys) + (
    if variable == PathVariable::Path {
        ordering_diags(entries) + preset_diags(entries, presets)
    } else {
        Seq::<DiagnosticView>::empty()
    })
}

/// Appends diagnostics.
pub fn extend_diagnostics(out: &mut Vec<Diagnostic>, more: Vec<Diagnostic>)
    ensures
        diagnostic_views(final(out)@) == diagnostic_views(old(out)@) + diagnostic_views(more@),
{
    let ghost added = more@;
    let mut more = more;
    out.append(&mut more);
    assert(diagnostic_views(out@) =~= diagnostic_views(old(out)@) + diagnostic_views(added));
}

/// The doctor report of parsed entries, given which directories can be listed.
pub fn diagnose_entries(
    entries: Vec<PathEntry>,
    readable: &Vec<bool>,
    rules: &PlatformRules,
    variable: PathVariable,
    policy: &PathPolicy,
) -> (r: DoctorReport)
    requires
        readable.len() == entries.len(),
    ensures
        r.variable == variable,
        r.entries@ == entries@,
        diagnostic_views(r.diagnostics@) == doctor_diags(
            entries@,
            readable@,
            drop_keys(*policy, rules.case_sensitive),
            ordering_presets_of(policy.presets@),
            variable,
        ),
{
    let mut diagnostics = duplicate_diagnostics(&entries);
    extend_diagnostics(&mut diagnostics, state_diagnostics_with(&entries, readable));
    extend_diagnostics(&mut diagnostics, unwanted_diagnostics(&entries, policy, rules));
    if variable == PathVariable::Path {
        extend_diagnostics(&mut diagnostics, ordering_diagnostics(&entries));
        extend_diagnostics(&mut diagnostics, preset_diagnostics(&entries, policy));
    } else {
        assert(diagnostic_views(diagnostics@) + Seq::<DiagnosticView>::empty()
            == diagnostic_views(diagnostics@));
    }
    DoctorReport { variable, entries, diagnostics }
}

/// The doctor report of a path-like value under a policy.
pub fn diagnose_path_with_policy(
    path_value: &str,
    platform_mode: PlatformMode,
    pathext: Option<&str>,
    variable: PathVariable,
    policy: &PathPolicy,
) -> (r: DoctorReport)
    ensures
        r.variable == variable,
        exists|m: PlatformMode, readable: Seq<bool>|
            resolves_to(platform_mode, m) && parsed(
                r.entries@,
                path_value@,
                separator_of(m),
                case_sensitive_of(m),
            ) && probed_flags(r.entries@, readable) && diagnostic_views(r.diagnostics@)
                == doctor_diags(
                r.entries@,
                readable,
                drop_keys(*policy, case_sensitive_of(m)),
                ordering_presets_of(policy.presets@),
                variable,
            ),
{
    let rules = resolve_platform_rules(platform_mode, pathext);
    let entries = parse_path_with_rules(path_value, &rules);
    let readable = readable_flags(&entries);
    let r = diagnose_entries(entries, &readable, &rules, variable, policy);
    assert(resolves_to(platform_mode, rules.mode));
    assert(separator_of(rules.mode) == rules.separator);
    assert(case_sensitive_of(rules.mode) == rules.case_sensitive);
    assert(parsed(r.entries@, path_value@, separator_of(rules.mode), case_sensitive_of(rules.mode)));
    assert(diagnostic_views(r.diagnostics@) == doctor_diags(
        r.entries@,
        readable@,
        drop_keys(*policy, case_sensitive_of(rules.mode)),
        ordering_presets_of(policy.presets@),
        variable,
    ));
    r
}

/// The PATH doctor report with no removal policy.
pub fn diagnose_path(path_value: &str, platform_mode: PlatformMode, pathext: Option<&str>) -> (r:
    DoctorReport)
    ensures
        r.variable == PathVariable::Path,
        exists|m: PlatformMode, readable: Seq<bool>|
            resolves_to(platform_mode, m) && parsed(
                r.entries@,
                path_value@,
                separator_of(m),
                case_sensitive_of(m),
            ) && probed_flags(r.entries@, readable) && diagnostic_views(r.diagnostics@)
                == doctor_diags(
                r.entries@,
                readable,
                Seq::<Seq<char>>::empty(),
                Seq::<PresetKind>::empty(),
                PathVariable::Path,
            ),
{
    let policy = PathPolicy::default();
    proof {
        crate::clean::lemma_empty_policy_keys(policy, true);
        crate::clean::lemma_empty_policy_keys(policy, false);
        assert(ordering_presets_of(policy.presets@) == Seq::<PresetKind>::empty());
    }
    diagnose_path_with_policy(path_value, platform_mode, pathext, PathVariable::Path, &policy)
}

/// A doctor report extended with the shadowed-command diagnostics of a resolution.
pub fn with_shadowed_diagnostics(
    report: DoctorReport,
    command: &str,
    candidates: &Vec<ResolutionCandidate>,
) -> (r: DoctorReport)
    ensures
        r.variable == report.variable,
        r.entries@ == report.entries@,
        diagnostic_views(r.diagnostics@) == diagnostic_views(report.diagnostics@) + shadowed_diags(
            command@,
            candidates@,
        ),
{
    let mut report = report;
    extend_diagnostics(&mut report.diagnostics, shadowed_diagnostics(command, candidates));
    report
}

} // verus!

verus! {

/// Duplicate diagnostics are all of the duplicate kind.
proof fn lemma_duplicate_kinds(es: Seq<PathEntry>, ks: Seq<Seq<char>>)
    ensures
        forall|i: int|
            0 <= i < duplicate_diags_for(es, ks).len() ==> (#[trigger] duplicate_diags_for(
                es,
                ks,
            )[i]).kind == IssueKind::Duplicate,
    decreases ks.len(),
{
    if ks.len() > 0 {
        lemma_duplicate_kinds(es, ks.drop_last());
        let acc = duplicate_diags_for(es, ks.drop_last());
        let d = duplicate_diags_for(es, ks);
        assert forall|i: int| 0 <= i < d.len() implies (#[trigger] d[i]).kind
            == IssueKind::Duplicate by {
            if i < acc.len() {
                assert(d[i] == acc[i]);
            }
        }
    }
}

/// State diagnostics are about empty, missing, non-directory or unreadable entries.
proof fn lemma_state_kinds(entries: Seq<PathEntry>, readable: Seq<bool>)
    ensures
        forall|i: int|
            0 <= i < state_diags(entries, readable).len() ==> {
                let k = (#[trigger] state_diags(entries, readable)[i]).kind;
                k == IssueKind::Empty || k == IssueKind::Missing || k == IssueKind::NotDirectory
                    || k == IssueKind::Unreadable
            },
    decreases entries.len(),
{
    if entries.len() > 0 {
        lemma_state_kinds(entries.drop_last(), readable);
        let acc = state_diags(entries.drop_last(), readable);
        let d = state_diags(entries, readable);
        assert forall|i: int| 0 <= i < d.len() implies {
            let k = (#[trigger] d[i]).kind;
            k == IssueKind::Empty || k == IssueKind::Missing || k == IssueKind::NotDirectory || k
                == IssueKind::Unreadable
        } by {
            if i < acc.len() {
                assert(d[i] == acc[i]);
            }
        }
    }
}

/// Unwanted-entry diagnostics are all of the unwanted kind.
proof fn lemma_unwanted_kinds(entries: Seq<PathEntry>, keys: Seq<Seq<char>>)
    ensures
        forall|i: int|
            0 <= i < unwanted_diags(entries, keys).len() ==> (#[trigger] unwanted_diags(
                entries,
                keys,
            )[i]).kind == IssueKind::Unwanted,
    decreases entries.len(),
{
    if entries.len() > 0 {
        lemma_unwanted_kinds(entries.drop_last(), keys);
        let acc = unwanted_diags(entries.drop_last(), keys);
        let d = unwanted_diags(entries, keys);
        assert forall|i: int| 0 <= i < d.len() implies (#[trigger] d[i]).kind
            == IssueKind::Unwanted by {
            if i < acc.len() {
                assert(d[i] == acc[i]);
            }
        }
    }
}

/// Ordering warnings are about PATH only: the diagnostics of any other variable never
/// include one, and no diagnostic of `doctor` reports a shadowed command unless the
/// command's resolution is added.
pub proof fn law_ordering_warnings_only_for_path(
    entries: Seq<PathEntry>,
    readable: Seq<bool>,
    keys: Seq<Seq<char>>,
    presets: Seq<PresetKind>,
    variable: PathVariable,
)
    ensures
        forall|i: int|
            0 <= i < doctor_diags(entries, readable, keys, presets, variable).len() ==> (
            #[trigger] doctor_diags(entries, readable, keys, presets, variable)[i]).kind
                != IssueKind::ShadowedCommand,
        variable == PathVariable::Manpath ==> forall|i: int|
            0 <= i < doctor_diags(entries, readable, keys, presets, variable).len() ==> (
            #[trigger] doctor_diags(entries, readable, keys, presets, variable)[i]).kind
                != IssueKind::SuspiciousOrder,
{
    let dup = duplicate_diags(entries);
    let st = state_diags(entries, readable);
    let un = unwanted_diags(entries, keys);
    lemma_duplicate_kinds(entries, group_keys(entries));
    lemma_state_kinds(entries, readable);
    lemma_unwanted_kinds(entries, keys);
    lemma_ordering_kinds(entries);
    lemma_preset_kinds(entries, presets);
    let all = doctor_diags(entries, readable, keys, presets, variable);
    let ord = ordering_diags(entries);
    let pre = preset_diags(entries, presets);
    let extra = if variable == PathVariable::Path {
        ord + pre
    } else {
        Seq::<DiagnosticView>::empty()
    };
    assert forall|i: int| 0 <= i < extra.len() implies (#[trigger] extra[i]).kind
        == IssueKind::SuspiciousOrder by {
        if i < ord.len() {
            assert(extra[i] == ord[i]);
        } else {
            assert(extra[i] == pre[i - ord.len()]);
        }
    }
    assert(all == dup + st + un + extra);
    assert forall|i: int| 0 <= i < all.len() implies (#[trigger] all[i]).kind
        != IssueKind::ShadowedCommand && (variable == PathVariable::Manpath ==> all[i].kind
        != IssueKind::SuspiciousOrder) by {
        let a = dup.len() as int;
        let b = a + st.len();
        let c = b + un.len();
        if i < a {
            assert(all[i] == dup[i]);
        } else if i < b {
            assert(all[i] == st[i - a]);
        } else if i < c {
            assert(all[i] == un[i - b]);
        } else {
            assert(all[i] == extra[i - c]);
        }
    }
}

/// The warnings of the ordering presets are of the suspicious-order kind.
proof fn lemma_preset_kinds(entries: Seq<PathEntry>, presets: Seq<PresetKind>)
    ensures
        forall|i: int|
            0 <= i < preset_diags(entries, presets).len() ==> (#[trigger] preset_diags(
                entries,
                presets,
            )[i]).kind == IssueKind::SuspiciousOrder,
    decreases presets.len(),
{
    if presets.len() > 0 {
        lemma_preset_kinds(entries, presets.drop_last());
        let acc = preset_diags(entries, presets.drop_last());
        let d = preset_diags(entries, presets);
        assert forall|i: int| 0 <= i < d.len() implies (#[trigger] d[i]).kind
            == IssueKind::SuspiciousOrder by {
            if i < acc.len() {
                assert(d[i] == acc[i]);
            }
        }
    }
}

/// The built-in ordering warnings are of the suspicious-order kind.
proof fn lemma_ordering_kinds(entries: Seq<PathEntry>)
    ensures
        forall|i: int|
            0 <= i < ordering_diags(entries).len() ==> (#[trigger] ordering_diags(entries)[i]).kind
                == IssueKind::SuspiciousOrder,
{
}

} // verus!

verus! {

/// The place of a diagnostic kind in the doctor report: duplicates, then entry states,
/// then unwanted entries, then ordering warnings, then shadowed commands.
pub open spec fn report_rank(kind: IssueKind) -> int {
    match kind {
        IssueKind::Duplicate => 0,
        IssueKind::Empty | IssueKind::Missing | IssueKind::NotDirectory | IssueKind::Unreadable => 1,
        IssueKind::Unwanted => 2,
        IssueKind::SuspiciousOrder => 3,
        IssueKind::ShadowedCommand => 4,
    }
}

/// The doctor diagnostics come grouped in report order: every duplicate before every
/// entry-state diagnostic (empty, missing, not a directory, unreadable), those before the
/// unwanted entries, and those before the ordering warnings.
pub proof fn law_doctor_diagnostics_in_report_order(
    entries: Seq<PathEntry>,
    readable: Seq<bool>,
    keys: Seq<Seq<char>>,
    presets: Seq<PresetKind>,
    variable: PathVariable,
)
    ensures
        forall|i: int, j: int|
            0 <= i < j < doctor_diags(entries, readable, keys, presets, variable).len() ==> report_rank(
                (#[trigger] doctor_diags(entries, readable, keys, presets, variable)[i]).kind,
            ) <= report_rank(
                (#[trigger] doctor_diags(entries, readable, keys, presets, variable)[j]).kind,
            ),
{
    let dup = duplicate_diags(entries);
    let st = state_diags(entries, readable);
    let un = unwanted_diags(entries, keys);
    lemma_duplicate_kinds(entries, group_keys(entries));
    lemma_state_kinds(entries, readable);
    lemma_unwanted_kinds(entries, keys);
    lemma_ordering_kinds(entries);
    lemma_preset_kinds(entries, presets);
    let ord = ordering_diags(entries);
    let pre = preset_diags(entries, presets);
    let extra = if variable == PathVariable::Path {
        ord + pre
    } else {
        Seq::<DiagnosticView>::empty()
    };
    let all = doctor_diags(entries, readable, keys, presets, variable);
    assert(all == dup + st + un + extra);
    let a = dup.len() as int;
    let b = a + st.len();
    let c = b + un.len();
    assert forall|i: int| 0 <= i < all.len() implies report_rank((#[trigger] all[i]).kind) == (if i
        < a {
        0int
    } else if i < b {
        1int
    } else if i < c {
        2int
    } else {
        3int
    }) by {
        if i < a {
            assert(all[i] == dup[i]);
        } else if i < b {
            assert(all[i] == st[i - a]);
        } else if i < c {
            assert(all[i] == un[i - b]);
        } else {
            assert(all[i] == extra[i - c]);
            if i - c < ord.len() {
                assert(extra[i - c] == ord[i - c]);
            } else {
                assert(extra[i - c] == pre[i - c - ord.len()]);
            }
        }
    }
}

} // verus!

verus! {

/// The first position whose entry satisfies `p` is the one found.
proof fn lemma_first_where_is(es: Seq<PathEntry>, p: spec_fn(PathEntry) -> bool, i: int)
    requires
        0 <= i < es.len(),
        p(es[i]),
        forall|k: int| 0 <= k < i ==> !p(#[trigger] es[k]),
    ensures
        first_where(es, p) == Some(i),
    decreases i,
{
    if i > 0 {
        assert(!p(es[0]));
        assert forall|k: int| 0 <= k < i - 1 implies !p(#[trigger] es.drop_first()[k]) by {
            assert(es.drop_first()[k] == es[k + 1]);
        }
        lemma_first_where_is(es.drop_first(), p, i - 1);
    }
}

/// A found position is in range.
proof fn lemma_first_where_bounds(es: Seq<PathEntry>, p: spec_fn(PathEntry) -> bool)
    ensures
        first_where(es, p) matches Some(i) ==> 0 <= i < es.len() && p(es[i]),
    decreases es.len(),
{
    if es.len() > 0 && !p(es[0]) {
        lemma_first_where_bounds(es.drop_first(), p);
        if let Some(i) = first_where(es.drop_first(), p) {
            assert(es.drop_first()[i] == es[i + 1]);
        }
    }
}

/// `i` is the first position whose entry satisfies `p`.
pub open spec fn first_at(es: Seq<PathEntry>, p: spec_fn(PathEntry) -> bool, i: int) -> bool {
    &&& 0 <= i < es.len()
    &&& p(es[i])
    &&& forall|k: int| 0 <= k < i ==> !p(#[trigger] es[k])
}

/// The position found is the first one satisfying `p`; none is found when no entry does.
proof fn lemma_first_where_first(es: Seq<PathEntry>, p: spec_fn(PathEntry) -> bool)
    ensures
        first_where(es, p) matches Some(i) ==> first_at(es, p, i),
        first_where(es, p) is None ==> forall|k: int| 0 <= k < es.len() ==> !p(#[trigger] es[k]),
    decreases es.len(),
{
    if es.len() > 0 && !p(es[0]) {
        let rest = es.drop_first();
        lemma_first_where_first(rest, p);
        match first_where(rest, p) {
            Some(i) => {
                assert(es[i + 1] == rest[i]);
                assert forall|k: int| 0 <= k < i + 1 implies !p(#[trigger] es[k]) by {
                    if k > 0 {
                        assert(es[k] == rest[k - 1]);
                    }
                }
            },
            None => {
                assert forall|k: int| 0 <= k < es.len() implies !p(#[trigger] es[k]) by {
                    if k > 0 {
                        assert(es[k] == rest[k - 1]);
                    }
                }
            },
        }
    }
}

/// When the first non-empty `/usr/bin` entry does not come (by index) before the first
/// non-empty `/opt/homebrew/bin` entry, or one of them is missing, no `/usr/bin` warning is
/// given: the only ordering warning left is the one for the first system directory before
/// the first user tool directory, naming those two entries, given when the system
/// directory comes first.
pub proof fn law_no_homebrew_warning_unless_usr_bin_first(es: Seq<PathEntry>)
    requires
        forall|i: int, j: int|
            first_at(es, raw_in(seq!["/usr/bin"@]), i) && first_at(
                es,
                raw_in(seq!["/opt/homebrew/bin"@]),
                j,
            ) ==> es[i].index >= es[j].index,
    ensures
        ordering_diags(es).len() <= 1,
        forall|k: int|
            0 <= k < ordering_diags(es).len() ==> exists|a: int, b: int|
                first_at(es, raw_in(system_dirs()), a) && first_at(
                    es,
                    suffix_in(user_tool_suffixes()),
                    b,
                ) && es[a].index < es[b].index && #[trigger] ordering_diags(es)[k] == order_diag(
                    es[a],
                    es[b],
                ),
{
    let usr_p = raw_in(seq!["/usr/bin"@]);
    let brew_p = raw_in(seq!["/opt/homebrew/bin"@]);
    let sys_p = raw_in(system_dirs());
    let tool_p = suffix_in(user_tool_suffixes());
    lemma_first_where_first(es, usr_p);
    lemma_first_where_first(es, brew_p);
    lemma_first_where_first(es, sys_p);
    lemma_first_where_first(es, tool_p);
    if let (Some(i), Some(j)) = (first_where(es, usr_p), first_where(es, brew_p)) {
        assert(es[i].index >= es[j].index);
    }
    let rest = before_diag(es, sys_p, tool_p);
    assert(ordering_diags(es) == match rest {
        Some(d) => Seq::<DiagnosticView>::empty().push(d),
        None => Seq::<DiagnosticView>::empty(),
    });
    if let Some(d) = rest {
        let a = first_where(es, sys_p)->0;
        let b = first_where(es, tool_p)->0;
        assert(ordering_diags(es)[0] == order_diag(es[a], es[b]));
    }
}

/// Every ordering warning points forward: it names two entries, the earlier one first (its
/// related indexes are strictly increasing), and its entry is the earlier one. The
/// `/usr/bin`-before-`/opt/homebrew/bin` warning is given when the first non-empty
/// `/usr/bin` entry has a smaller index than the first non-empty `/opt/homebrew/bin`
/// entry, naming those two entries.
pub proof fn law_ordering_warnings_point_forward(
    es: Seq<PathEntry>,
    presets: Seq<PresetKind>,
    i: int,
    j: int,
)
    ensures
        forall|k: int|
            0 <= k < ordering_diags(es).len() ==> {
                let d = #[trigger] ordering_diags(es)[k];
                &&& d.kind == IssueKind::SuspiciousOrder
                &&& d.related_indexes.len() == 2
                &&& d.related_indexes[0] < d.related_indexes[1]
                &&& d.entry_index == Some(d.related_indexes[0])
            },
        forall|k: int|
            0 <= k < preset_diags(es, presets).len() ==> {
                let d = #[trigger] preset_diags(es, presets)[k];
                &&& d.kind == IssueKind::SuspiciousOrder
                &&& d.related_indexes.len() == 2
                &&& d.related_indexes[0] < d.related_indexes[1]
                &&& d.entry_index == Some(d.related_indexes[0])
            },
        ({
            let is_usr = |e: PathEntry| !e.is_empty && e.raw@ == "/usr/bin"@;
            let is_brew = |e: PathEntry| !e.is_empty && e.raw@ == "/opt/homebrew/bin"@;
            (0 <= i < es.len() && 0 <= j < es.len() && is_usr(es[i]) && is_brew(es[j]) && (forall|
                k: int,
            | 0 <= k < i ==> !is_usr(#[trigger] es[k])) && (forall|k: int|
                0 <= k < j ==> !is_brew(#[trigger] es[k])) && es[i].index < es[j].index) ==> {
                let d = ordering_diags(es)[0];
                &&& ordering_diags(es).len() >= 1
                &&& d.message == "/usr/bin appears before /opt/homebrew/bin"@
                &&& d.related_indexes == seq![es[i].index, es[j].index]
            }
        }),
{
    let usr = first_where(es, raw_in(seq!["/usr/bin"@]));
    let brew = first_where(es, raw_in(seq!["/opt/homebrew/bin"@]));
    lemma_first_where_bounds(es, raw_in(seq!["/usr/bin"@]));
    lemma_first_where_bounds(es, raw_in(seq!["/opt/homebrew/bin"@]));
    lemma_preset_forward(es, presets);
    let is_usr = |e: PathEntry| !e.is_empty && e.raw@ == "/usr/bin"@;
    let is_brew = |e: PathEntry| !e.is_empty && e.raw@ == "/opt/homebrew/bin"@;
    assert forall|e: PathEntry| #[trigger] raw_in(seq!["/usr/bin"@])(e) == is_usr(e) by {
        assert(seq!["/usr/bin"@].contains(e.raw@) ==> seq!["/usr/bin"@][0] == e.raw@);
        if e.raw@ == "/usr/bin"@ {
            assert(seq!["/usr/bin"@][0] == e.raw@);
        }
    }
    assert forall|e: PathEntry| #[trigger] raw_in(seq!["/opt/homebrew/bin"@])(e) == is_brew(e) by {
        assert(seq!["/opt/homebrew/bin"@].contains(e.raw@) ==> seq!["/opt/homebrew/bin"@][0]
            == e.raw@);
        if e.raw@ == "/opt/homebrew/bin"@ {
            assert(seq!["/opt/homebrew/bin"@][0] == e.raw@);
        }
    }
    if 0 <= i < es.len() && 0 <= j < es.len() && is_usr(es[i]) && is_brew(es[j]) && (forall|k: int|
        0 <= k < i ==> !is_usr(#[trigger] es[k])) && (forall|k: int|
        0 <= k < j ==> !is_brew(#[trigger] es[k])) && es[i].index < es[j].index {
        assert forall|k: int| 0 <= k < i implies !raw_in(seq!["/usr/bin"@])(#[trigger] es[k]) by {
            assert(!is_usr(es[k]));
        }
        assert forall|k: int| 0 <= k < j implies !raw_in(seq!["/opt/homebrew/bin"@])(
            #[trigger] es[k],
        ) by {
            assert(!is_brew(es[k]));
        }
        lemma_first_where_is(es, raw_in(seq!["/usr/bin"@]), i);
        lemma_first_where_is(es, raw_in(seq!["/opt/homebrew/bin"@]), j);
    }
}

/// The warnings of the ordering presets point forward.
proof fn lemma_preset_forward(es: Seq<PathEntry>, presets: Seq<PresetKind>)
    ensures
        forall|k: int|
            0 <= k < preset_diags(es, presets).len() ==> {
                let d = #[trigger] preset_diags(es, presets)[k];
                &&& d.kind == IssueKind::SuspiciousOrder
                &&& d.related_indexes.len() == 2
                &&& d.related_indexes[0] < d.related_indexes[1]
                &&& d.entry_index == Some(d.related_indexes[0])
            },
    decreases presets.len(),
{
    if presets.len() > 0 {
        lemma_preset_forward(es, presets.drop_last());
        let acc = preset_diags(es, presets.drop_last());
        let all = preset_diags(es, presets);
        assert forall|k: int| 0 <= k < all.len() implies {
            let d = #[trigger] all[k];
            &&& d.kind == IssueKind::SuspiciousOrder
            &&& d.related_indexes.len() == 2
            &&& d.related_indexes[0] < d.related_indexes[1]
            &&& d.entry_index == Some(d.related_indexes[0])
        } by {
            if k < acc.len() {
                assert(all[k] == acc[k]);
            }
        }
    }
}

/// Whether `ds` holds an unreadable-directory diagnostic about the entry with index `x`.
pub open spec fn reports_unreadable(ds: Seq<DiagnosticView>, x: usize) -> bool {
    exists|k: int|
        0 <= k < ds.len() && (#[trigger] ds[k]).kind == IssueKind::Unreadable
            && ds[k].entry_index == Some(x)
}

/// Adding one diagnostic adds at most the report it makes.
proof fn lemma_reports_unreadable_push(ds: Seq<DiagnosticView>, d: DiagnosticView, x: usize)
    ensures
        reports_unreadable(ds.push(d), x) <==> (reports_unreadable(ds, x) || (d.kind
            == IssueKind::Unreadable && d.entry_index == Some(x))),
{
    let all = ds.push(d);
    if reports_unreadable(all, x) {
        let k = choose|k: int|
            0 <= k < all.len() && (#[trigger] all[k]).kind == IssueKind::Unreadable
                && all[k].entry_index == Some(x);
        if k < ds.len() {
            assert(ds[k] == all[k]);
        }
    }
    if reports_unreadable(ds, x) {
        let k = choose|k: int|
            0 <= k < ds.len() && (#[trigger] ds[k]).kind == IssueKind::Unreadable
                && ds[k].entry_index == Some(x);
        assert(all[k] == ds[k]);
    }
    if d.kind == IssueKind::Unreadable && d.entry_index == Some(x) {
        assert(all[ds.len() as int] == d);
    }
}

/// Every state diagnostic is about an entry with index in `1..=n`; the entry at place `i`
/// is reported unreadable exactly when it is an existing, non-empty directory whose flag is
/// `false`.
proof fn lemma_state_diag_entries(entries: Seq<PathEntry>, readable: Seq<bool>)
    requires
        readable.len() >= entries.len(),
        forall|j: int| 0 <= j < entries.len() ==> (#[trigger] entries[j]).index == j + 1,
    ensures
        forall|i: int|
            #![trigger entries[i]]
            0 <= i < entries.len() ==> (reports_unreadable(
                state_diags(entries, readable),
                (i + 1) as usize,
            ) <==> (!entries[i].is_empty && entries[i].exists && entries[i].is_dir
                && !readable[i])),
        forall|x: usize|
            #![trigger reports_unreadable(state_diags(entries, readable), x)]
            x < 1 || x > entries.len() ==> !reports_unreadable(state_diags(entries, readable), x),
    decreases entries.len(),
{
    if entries.len() > 0 {
        let n = entries.len() as int;
        let init = entries.drop_last();
        assert forall|j: int| 0 <= j < init.len() implies (#[trigger] init[j]).index == j + 1 by {
            assert(init[j] == entries[j]);
        }
        lemma_state_diag_entries(init, readable);
        let acc = state_diags(init, readable);
        let sd = state_diags(entries, readable);
        let last = entries.last();
        assert(last == entries[n - 1]);
        assert(last.index == n);
        let bad = !last.is_empty && last.exists && last.is_dir && !readable[n - 1];
        match state_diag(last, readable[n - 1]) {
            Some(d) => {
                assert(sd == acc.push(d));
                assert(d.entry_index == Some(last.index));
                assert(d.kind == IssueKind::Unreadable <==> bad);
                assert forall|x: usize| #[trigger]
                    reports_unreadable(sd, x) <==> (reports_unreadable(acc, x) || (bad && x
                        == last.index)) by {
                    lemma_reports_unreadable_push(acc, d, x);
                }
            },
            None => {
                assert(sd == acc);
                assert(!bad);
            },
        }
        assert forall|i: int| 0 <= i < entries.len() implies (reports_unreadable(
            sd,
            (i + 1) as usize,
        ) <==> (!(#[trigger] entries[i]).is_empty && entries[i].exists && entries[i].is_dir
            && !readable[i])) by {
            if i < n - 1 {
                assert(init[i] == entries[i]);
                assert(reports_unreadable(acc, (i + 1) as usize) <==> (!init[i].is_empty
                    && init[i].exists && init[i].is_dir && !readable[i]));
            } else {
                assert(!reports_unreadable(acc, (i + 1) as usize));
            }
        }
        assert forall|x: usize| x < 1 || x > entries.len() implies !#[trigger] reports_unreadable(
            sd,
            x,
        ) by {
            assert(!reports_unreadable(acc, x));
        }
    }
}

/// An existing, non-empty directory entry is reported unreadable exactly when the answer
/// of listing it was "no"; no other entry is ever reported unreadable. (`probed_flags`
/// ties each such flag to the listing probe of that entry's path.)
pub proof fn law_unreadable_exactly_when_listing_fails(entries: Seq<PathEntry>, readable: Seq<bool>)
    requires
        probed_flags(entries, readable),
        forall|j: int| 0 <= j < entries.len() ==> (#[trigger] entries[j]).index == j + 1,
    ensures
        forall|i: int|
            #![trigger entries[i]]
            0 <= i < entries.len() ==> (reports_unreadable(
                state_diags(entries, readable),
                (i + 1) as usize,
            ) <==> (!entries[i].is_empty && entries[i].exists && entries[i].is_dir
                && !readable[i])),
        forall|i: int|
            0 <= i < entries.len() && !entries[i].is_empty && entries[i].exists && entries[i].is_dir
                ==> listing_answer(entries[i].raw, #[trigger] readable[i]),
{
    lemma_state_diag_entries(entries, readable);
}

} // verus!
