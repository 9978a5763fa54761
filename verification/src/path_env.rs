//! Parsing of path-like variable values into entries.
use vstd::prelude::*;
use crate::model::{PathEntry, PlatformMode, PlatformRules};
use crate::normalize::{comparison_key, key_of};
use crate::platform::resolve_platform_rules;
use crate::text::{owned, split_on, split_text, views};

verus! {

/// The PATH separator of a resolved mode.
pub open spec fn separator_of(mode: PlatformMode) -> char {
    if mode == PlatformMode::Windows {
        ';'
    } else {
        ':'
    }
}

/// Whether comparison keys are case-sensitive under a resolved mode.
pub open spec fn case_sensitive_of(mode: PlatformMode) -> bool {
    mode != PlatformMode::Windows
}

/// What a resolved mode is, given the requested one: the requested mode itself, or
/// either concrete mode for `Auto`.
pub open spec fn resolves_to(requested: PlatformMode, resolved: PlatformMode) -> bool {
    resolved != PlatformMode::Auto && (requested != PlatformMode::Auto ==> resolved == requested)
}

/// `e` is the entry parsed from the piece `raw` at one-based position `index`. Whether
/// it exists or is a directory is read from the filesystem: only an empty entry is known
/// to be neither, and a directory always exists.
pub open spec fn entry_for(e: PathEntry, index: int, raw: Seq<char>, case_sensitive: bool) -> bool {
    &&& e.index == index
    &&& e.raw@ == raw
    &&& e.display@ == raw
    &&& e.comparison_key@ == key_of(raw, case_sensitive)
    &&& e.is_empty == (raw.len() == 0)
    &&& raw.len() == 0 ==> !e.exists && !e.is_dir
    &&& e.is_dir ==> e.exists
}

/// `entries` are the entries parsed from `value` split at `sep`, in order.
pub open spec fn parsed(
    entries: Seq<PathEntry>,
    value: Seq<char>,
    sep: char,
    case_sensitive: bool,
) -> bool {
    &&& entries.len() == split_on(value, sep).len()
    &&& forall|i: int|
        0 <= i < entries.len() ==> entry_for(
            #[trigger] entries[i],
            i + 1,
            split_on(value, sep)[i],
            case_sensitive,
        )
}

/// Whether a path exists (`std::path::Path::exists`). Nothing is stated of the answer:
/// it depends on the filesystem.
#[verifier::external_body]
fn path_exists(raw: &str) -> bool {
    std::path::Path::new(raw).exists()
}

/// Whether a path is a directory (`std::path::Path::is_dir`). Nothing is stated of the
/// answer: it depends on the filesystem.
#[verifier::external_body]
fn path_is_dir(raw: &str) -> bool {
    std::path::Path::new(raw).is_dir()
}

/// The entry for the piece `raw` at one-based position `index`, given what the
/// filesystem reported for it.
pub fn build_entry(
    index: usize,
    raw: &str,
    rules: &PlatformRules,
    exists: bool,
    is_dir: bool,
) -> (e: PathEntry)
    ensures
        e.index == index,
        e.raw@ == raw@,
        e.display@ == raw@,
        e.comparison_key@ == key_of(raw@, rules.case_sensitive),
        e.is_empty == (raw@.len() == 0),
        e.exists == (raw@.len() > 0 && exists),
        e.is_dir == (raw@.len() > 0 && exists && is_dir),
{
    if raw.is_empty() {
        return PathEntry {
            index,
            raw: String::new(),
            display: String::new(),
            comparison_key: String::new(),
            exists: false,
            is_dir: false,
            is_empty: true,
        };
    }
    PathEntry {
        index,
        raw: owned(raw),
        display: owned(raw),
        comparison_key: comparison_key(raw, rules),
        exists,
        is_dir: exists && is_dir,
        is_empty: false,
    }
}

/// Parses a path-like value under concrete rules, probing the filesystem for each
/// non-empty entry.
pub fn parse_path_with_rules(path_value: &str, rules: &PlatformRules) -> (out: Vec<PathEntry>)
    ensures
        parsed(out@, path_value@, rules.separator, rules.case_sensitive),
{
    let pieces = split_text(path_value, rules.separator);
    let mut out: Vec<PathEntry> = Vec::new();
    let mut i: usize = 0;
    while i < pieces.len()
        invariant
            i <= pieces.len(),
            views(pieces@) == split_on(path_value@, rules.separator),
            out.len() == i,
            forall|j: int|
                0 <= j < i ==> entry_for(
                    #[trigger] out@[j],
                    j + 1,
                    split_on(path_value@, rules.separator)[j],
                    rules.case_sensitive,
                ),
        decreases pieces.len() - i,
    {
        let raw = pieces[i].as_str();
        assert(raw@ == split_on(path_value@, rules.separator)[i as int]);
        let (exists, is_dir) = if raw.is_empty() {
            (false, false)
        } else {
            let exists = path_exists(raw);
            (exists, exists && path_is_dir(raw))
        };
        let entry = build_entry(i + 1, raw, rules, exists, is_dir);
        out.push(entry);
        i += 1;
    }
    out
}

/// Parses a path-like value under the rules of a platform mode.
pub fn parse_path(path_value: &str, platform_mode: PlatformMode, pathext: Option<&str>) -> (out:
    Vec<PathEntry>)
    ensures
        exists|m: PlatformMode|
            resolves_to(platform_mode, m) && parsed(
                out@,
                path_value@,
                separator_of(m),
                case_sensitive_of(m),
            ),
{
    let rules = resolve_platform_rules(platform_mode, pathext);
    let out = parse_path_with_rules(path_value, &rules);
    assert(resolves_to(platform_mode, rules.mode));
    out
}

} // verus!

verus! {

/// Parsing loses nothing: joined with the separator, the raw texts of the entries give the
/// value back; the entries are numbered from one in order, display their raw text, and are
/// empty exactly when it is.
pub proof fn law_parse_round_trip(
    entries: Seq<PathEntry>,
    value: Seq<char>,
    sep: char,
    case_sensitive: bool,
)
    requires
        parsed(entries, value, sep, case_sensitive),
    ensures
        crate::text::join_with(entries.map_values(|e: PathEntry| e.raw@), seq![sep]) == value,
        forall|i: int|
            0 <= i < entries.len() ==> {
                &&& (#[trigger] entries[i]).index == i + 1
                &&& entries[i].display@ == entries[i].raw@
                &&& entries[i].is_empty == (entries[i].raw@.len() == 0)
            },
{
    crate::text::lemma_join_split(value, sep);
    let raws = entries.map_values(|e: PathEntry| e.raw@);
    assert(raws =~= split_on(value, sep)) by {
        assert forall|i: int| 0 <= i < raws.len() implies raws[i] == split_on(value, sep)[i] by {
            assert(entry_for(entries[i], i + 1, split_on(value, sep)[i], case_sensitive));
        }
    }
}

} // verus!
