//! Platform rules: PATH separator, case sensitivity and executable suffixes.
use vstd::prelude::*;
use crate::model::{PlatformMode, PlatformRules};
use crate::text::{
    append, chars_of, contains_text, owned, split_on, split_text, to_uppercase,
    trim, trim_text, uppercase_of, views,
};

verus! {

/// The executable suffixes used when no `PATHEXT` value names any.
pub open spec fn default_pathext() -> Seq<Seq<char>> {
    seq![seq!['.', 'E', 'X', 'E'], seq!['.', 'C', 'M', 'D'], seq!['.', 'B', 'A', 'T']]
}

/// One `PATHEXT` piece added to the suffixes collected so far: trimmed, given a leading
/// dot, upper-cased, and kept only when it is new.
pub open spec fn pathext_step(acc: Seq<Seq<char>>, piece: Seq<char>) -> Seq<Seq<char>> {
    let t = trim(piece);
    if t.len() == 0 {
        acc
    } else {
        let ext = uppercase_of(if t[0] == '.' { t } else { seq!['.'] + t });
        if acc.contains(ext) {
            acc
        } else {
            acc.push(ext)
        }
    }
}

/// The suffixes collected from the `PATHEXT` pieces, in first-seen order.
pub open spec fn pathext_fold(pieces: Seq<Seq<char>>) -> Seq<Seq<char>>
    decreases pieces.len(),
{
    if pieces.len() == 0 {
        Seq::<Seq<char>>::empty()
    } else {
        pathext_step(pathext_fold(pieces.drop_last()), pieces.last())
    }
}

/// The Windows executable suffixes a `PATHEXT` value selects.
pub open spec fn pathext_list(value: Option<Seq<char>>) -> Seq<Seq<char>> {
    match value {
        None => default_pathext(),
        Some(v) => if v.len() == 0 {
            default_pathext()
        } else {
            let found = pathext_fold(split_on(v, ';'));
            if found.len() == 0 {
                default_pathext()
            } else {
                found
            }
        },
    }
}

/// The view of an optional string slice.
pub open spec fn opt_view(value: Option<&str>) -> Option<Seq<char>> {
    match value {
        Some(s) => Some(s@),
        None => None,
    }
}

/// The rules of a concrete (non-auto) mode.
pub open spec fn rules_of(r: PlatformRules, mode: PlatformMode, pathext: Option<Seq<char>>) -> bool {
    match mode {
        PlatformMode::Windows => {
            &&& r.mode == PlatformMode::Windows
            &&& r.separator == ';'
            &&& !r.case_sensitive
            &&& views(r.pathext@) == pathext_list(pathext)
        },
        _ => {
            &&& r.mode == PlatformMode::Posix
            &&& r.separator == ':'
            &&& r.case_sensitive
            &&& r.pathext@.len() == 0
        },
    }
}

/// Whether the host uses Windows path conventions (`std::path::MAIN_SEPARATOR` is a
/// backslash). The contract states nothing: the answer depends on the machine.
#[verifier::external_body]
fn host_uses_windows_rules() -> bool {
    std::path::MAIN_SEPARATOR == '\\'
}

/// Resolves a platform mode, with `Auto` taken from the host, into concrete rules.
pub fn resolve_platform_rules(mode: PlatformMode, pathext: Option<&str>) -> (r: PlatformRules)
    ensures
        r.mode != PlatformMode::Auto,
        mode != PlatformMode::Auto ==> r.mode == mode,
        rules_of(r, r.mode, opt_view(pathext)),
{
    let resolved = match mode {
        PlatformMode::Auto => if host_uses_windows_rules() {
            PlatformMode::Windows
        } else {
            PlatformMode::Posix
        },
        other => other,
    };
    rules_for_mode(resolved, pathext)
}

/// The rules of a resolved mode; `Auto` is read as POSIX.
pub fn rules_for_mode(mode: PlatformMode, pathext: Option<&str>) -> (r: PlatformRules)
    ensures
        r.mode == (if mode == PlatformMode::Windows {
            PlatformMode::Windows
        } else {
            PlatformMode::Posix
        }),
        rules_of(r, mode, opt_view(pathext)),
{
    match mode {
        PlatformMode::Windows => PlatformRules {
            mode: PlatformMode::Windows,
            separator: ';',
            case_sensitive: false,
            pathext: parse_pathext(pathext),
        },
        _ => PlatformRules {
            mode: PlatformMode::Posix,
            separator: ':',
            case_sensitive: true,
            pathext: Vec::new(),
        },
    }
}

/// The default Windows executable suffixes.
pub fn default_windows_pathext() -> (r: Vec<String>)
    ensures
        views(r@) == default_pathext(),
        forall|i: int| 0 <= i < r@.len() ==> (#[trigger] r@[i])@.len() > 0 && r@[i]@[0] == '.',
{
    let mut r = Vec::new();
    r.push(owned(".EXE"));
    r.push(owned(".CMD"));
    r.push(owned(".BAT"));
    proof {
        reveal_strlit(".EXE");
        reveal_strlit(".CMD");
        reveal_strlit(".BAT");
        assert(".EXE"@ =~= seq!['.', 'E', 'X', 'E']);
        assert(".CMD"@ =~= seq!['.', 'C', 'M', 'D']);
        assert(".BAT"@ =~= seq!['.', 'B', 'A', 'T']);
        assert(views(r@) =~= default_pathext());
        assert(r@.len() == 3);
        assert(r@[0]@ == ".EXE"@ && r@[1]@ == ".CMD"@ && r@[2]@ == ".BAT"@);
    }
    r
}

/// The Windows executable suffixes named by a `PATHEXT` value.
pub fn parse_pathext(value: Option<&str>) -> (r: Vec<String>)
    ensures
        views(r@) == pathext_list(opt_view(value)),
        forall|i: int| 0 <= i < r@.len() ==> (#[trigger] r@[i])@.len() > 0 && r@[i]@[0] == '.',
{
    let value = match value {
        None => return default_windows_pathext(),
        Some(v) => v,
    };
    if value.is_empty() {
        return default_windows_pathext();
    }
    let pieces = split_text(value, ';');
    let mut extensions: Vec<String> = Vec::new();
    let mut i: usize = 0;
    while i < pieces.len()
        invariant
            i <= pieces.len(),
            views(pieces@) == split_on(value@, ';'),
            views(extensions@) == pathext_fold(views(pieces@).take(i as int)),
            forall|k: int|
                0 <= k < extensions@.len() ==> (#[trigger] extensions@[k])@.len() > 0
                    && extensions@[k]@[0] == '.',
        decreases pieces.len() - i,
    {
        assert(views(pieces@).take(i + 1).drop_last() == views(pieces@).take(i as int));
        assert(views(pieces@).take(i + 1).last() == pieces@[i as int]@);
        let extension = trim_text(pieces[i].as_str());
        let ghost acc = views(extensions@);
        if !extension.as_str().is_empty() {
            let chars = chars_of(extension.as_str());
            let dotted = if chars[0] == '.' {
                extension
            } else {
                let mut d = owned(".");
                append(&mut d, extension.as_str());
                proof {
                    reveal_strlit(".");
                    assert("."@ =~= seq!['.']);
                }
                d
            };
            assert(dotted@ == (if extension@[0] == '.' { extension@ } else { seq!['.'] + extension@ }));
            let upper = to_uppercase(dotted.as_str());
            assert(upper@ == uppercase_of(dotted@));
            if !contains_text(&extensions, upper.as_str()) {
                let ghost before = views(extensions@);
                extensions.push(upper);
                assert(views(extensions@) == before.push(upper@));
            }
        }
        assert(views(extensions@) == pathext_step(acc, pieces@[i as int]@));
        i += 1;
    }
    assert(views(pieces@).take(pieces.len() as int) == views(pieces@));
    if extensions.len() == 0 {
        default_windows_pathext()
    } else {
        extensions
    }
}

} // verus!

verus! {

/// The suffixes collected so far never repeat one.
proof fn lemma_pathext_fold_distinct(pieces: Seq<Seq<char>>)
    ensures
        pathext_fold(pieces).no_duplicates(),
    decreases pieces.len(),
{
    if pieces.len() > 0 {
        lemma_pathext_fold_distinct(pieces.drop_last());
        let acc = pathext_fold(pieces.drop_last());
        let t = trim(pieces.last());
        if t.len() > 0 {
            let ext = uppercase_of(if t[0] == '.' { t } else { seq!['.'] + t });
            if !acc.contains(ext) {
                let r = acc.push(ext);
                assert forall|i: int, j: int| 0 <= i < r.len() && 0 <= j < r.len() && i != j
                    implies r[i] != r[j] by {
                    if i == acc.len() as int {
                        assert(r[j] == acc[j]);
                    } else if j == acc.len() as int {
                        assert(r[i] == acc[i]);
                    }
                }
            }
        }
    }
}

/// The executable suffixes of any `PATHEXT` value are never empty and never repeat one:
/// the defaults stand in for a value that names none.
pub proof fn law_pathext_is_nonempty_and_distinct(value: Option<Seq<char>>)
    ensures
        pathext_list(value).len() > 0,
        pathext_list(value).no_duplicates(),
{
    let d = default_pathext();
    assert(d.no_duplicates()) by {
        assert(d[0][1] != d[1][1] && d[0][1] != d[2][1] && d[1][1] != d[2][1]);
    }
    if let Some(v) = value {
        if v.len() > 0 {
            lemma_pathext_fold_distinct(split_on(v, ';'));
        }
    }
}

} // verus!
