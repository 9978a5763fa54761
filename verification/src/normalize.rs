//! Comparison keys for PATH entries and first-occurrence deduplication.
use vstd::prelude::*;
use crate::model::{PathEntry, PlatformRules};
use crate::text::{
    append, chars_of, contains_text, join_text, join_with, lowercase_of, owned, replace_char,
    replace_text, same_text, split_on, split_text, string_of, substring, to_lowercase, views,
};

verus! {

/// The segments left after resolving `.` and `..` over the pieces of a path, in order.
/// Empty and `.` pieces vanish; `..` removes the previous kept segment unless that is
/// itself `..`; a leading `..` is kept only for a relative (unrooted) path.
pub open spec fn fold_segments(parts: Seq<Seq<char>>, rooted: bool) -> Seq<Seq<char>>
    decreases parts.len(),
{
    if parts.len() == 0 {
        Seq::<Seq<char>>::empty()
    } else {
        let acc = fold_segments(parts.drop_last(), rooted);
        let p = parts.last();
        if p.len() == 0 || p == seq!['.'] {
            acc
        } else if p == seq!['.', '.'] {
            if acc.len() > 0 && acc.last() != seq!['.', '.'] {
                acc.drop_last()
            } else if !rooted {
                acc.push(p)
            } else {
                acc
            }
        } else {
            acc.push(p)
        }
    }
}

/// The lexically normalized form of a POSIX path.
pub open spec fn posix_key(raw: Seq<char>) -> Seq<char> {
    let absolute = raw.len() > 0 && raw[0] == '/';
    let joined = join_with(fold_segments(split_on(raw, '/'), absolute), seq!['/']);
    if absolute {
        if joined.len() == 0 {
            seq!['/']
        } else {
            seq!['/'] + joined
        }
    } else if joined.len() == 0 {
        seq!['.']
    } else {
        joined
    }
}

/// Whether a character is an ASCII letter.
pub open spec fn ascii_alpha(c: char) -> bool {
    ('a' <= c && c <= 'z') || ('A' <= c && c <= 'Z')
}

/// Whether a (slash-converted) Windows path starts with a drive prefix such as `C:`.
pub open spec fn has_drive(path: Seq<char>) -> bool {
    path.len() >= 2 && ascii_alpha(path[0]) && path[1] == ':'
}

/// The lexically normalized form of a Windows path, before case folding.
pub open spec fn windows_key(raw: Seq<char>) -> Seq<char> {
    let path = replace_char(raw, '/', seq!['\\']);
    let drive = has_drive(path);
    let prefix = if drive { path.take(2) } else { Seq::<char>::empty() };
    let rest = if drive { path.skip(2) } else { path };
    let rooted = rest.len() > 0 && rest[0] == '\\';
    let joined = join_with(fold_segments(split_on(rest, '\\'), rooted), seq!['\\']);
    if rooted {
        prefix + seq!['\\'] + joined
    } else if joined.len() == 0 {
        if drive {
            prefix
        } else {
            seq!['.']
        }
    } else {
        prefix + joined
    }
}

/// The comparison key of a PATH entry under the given case sensitivity.
pub open spec fn key_of(raw: Seq<char>, case_sensitive: bool) -> Seq<char> {
    if raw.len() == 0 {
        Seq::<char>::empty()
    } else if case_sensitive {
        posix_key(raw)
    } else {
        lowercase_of(windows_key(raw))
    }
}

/// Resolves `.` and `..` over the pieces of a path.
fn fold_parts(parts: &Vec<String>, rooted: bool) -> (out: Vec<String>)
    ensures
        views(out@) == fold_segments(views(parts@), rooted),
{
    let mut stack: Vec<String> = Vec::new();
    let mut i: usize = 0;
    proof {
        reveal_strlit(".");
        reveal_strlit("..");
        assert("."@ =~= seq!['.']);
        assert(".."@ =~= seq!['.', '.']);
    }
    while i < parts.len()
        invariant
            i <= parts.len(),
            "."@ == seq!['.'],
            ".."@ == seq!['.', '.'],
            views(stack@) == fold_segments(views(parts@).take(i as int), rooted),
        decreases parts.len() - i,
    {
        let ghost t = views(parts@).take(i + 1);
        assert(t.drop_last() == views(parts@).take(i as int));
        assert(t.last() == parts@[i as int]@);
        let part = parts[i].as_str();
        if part.is_empty() || same_text(part, ".") {
        } else if same_text(part, "..") {
            let n = stack.len();
            if n > 0 && !same_text(stack[n - 1].as_str(), "..") {
                let ghost before = views(stack@);
                stack.pop();
                assert(views(stack@) == before.drop_last());
            } else if !rooted {
                let ghost before = views(stack@);
                stack.push(owned(part));
                assert(views(stack@) == before.push(part@));
            }
        } else {
            let ghost before = views(stack@);
            stack.push(owned(part));
            assert(views(stack@) == before.push(part@));
        }
        i += 1;
    }
    assert(views(parts@).take(parts.len() as int) == views(parts@));
    stack
}

/// The lexically normalized form of a POSIX path.
pub fn normalize_posix(raw: &str) -> (out: String)
    ensures
        out@ == posix_key(raw@),
{
    let chars = chars_of(raw);
    let absolute = chars.len() > 0 && chars[0] == '/';
    let parts = split_text(raw, '/');
    let kept = fold_parts(&parts, absolute);
    let joined = join_text(&kept, "/");
    proof {
        reveal_strlit("/");
        reveal_strlit(".");
        assert("/"@ =~= seq!['/']);
        assert("."@ =~= seq!['.']);
    }
    if absolute {
        if joined.as_str().is_empty() {
            owned("/")
        } else {
            let mut out = owned("/");
            append(&mut out, joined.as_str());
            out
        }
    } else if joined.as_str().is_empty() {
        owned(".")
    } else {
        joined
    }
}

/// The lexically normalized form of a Windows path, before case folding.
pub fn normalize_windows(raw: &str) -> (out: String)
    ensures
        out@ == windows_key(raw@),
{
    proof {
        reveal_strlit("\\");
        reveal_strlit(".");
        assert("\\"@ =~= seq!['\\']);
        assert("."@ =~= seq!['.']);
    }
    let path = replace_text(raw, '/', "\\");
    let chars = chars_of(path.as_str());
    let drive = chars.len() >= 2 && is_ascii_alpha(chars[0]) && chars[1] == ':';
    let prefix = if drive {
        substring(&chars, 0, 2)
    } else {
        String::new()
    };
    let rest = if drive {
        substring(&chars, 2, chars.len())
    } else {
        string_of(chars.as_slice())
    };
    assert(chars@.subrange(0, 2) == chars@.take(2));
    assert(chars@.subrange(2, chars@.len() as int) == chars@.skip(2));
    let rest_chars = chars_of(rest.as_str());
    let rooted = rest_chars.len() > 0 && rest_chars[0] == '\\';
    let parts = split_text(rest.as_str(), '\\');
    let kept = fold_parts(&parts, rooted);
    let joined = join_text(&kept, "\\");
    if rooted {
        let mut out = prefix;
        append(&mut out, "\\");
        append(&mut out, joined.as_str());
        out
    } else if joined.as_str().is_empty() {
        if drive {
            prefix
        } else {
            owned(".")
        }
    } else {
        let mut out = prefix;
        append(&mut out, joined.as_str());
        out
    }
}

/// Whether a character is an ASCII letter.
pub fn is_ascii_alpha(c: char) -> (r: bool)
    ensures
        r == ascii_alpha(c),
{
    ('a' <= c && c <= 'z') || ('A' <= c && c <= 'Z')
}

/// The comparison key of a PATH entry: empty for an empty entry, the POSIX normal form
/// under case-sensitive rules, else the lower-cased Windows normal form.
pub fn comparison_key(raw: &str, rules: &PlatformRules) -> (out: String)
    ensures
        out@ == key_of(raw@, rules.case_sensitive),
{
    if raw.is_empty() {
        return String::new();
    }
    if rules.case_sensitive {
        return normalize_posix(raw);
    }
    let normalized = normalize_windows(raw);
    to_lowercase(normalized.as_str())
}

/// The non-empty entries whose comparison key no earlier kept entry has, in order.
pub open spec fn first_unique(entries: Seq<PathEntry>) -> Seq<PathEntry>
    decreases entries.len(),
{
    if entries.len() == 0 {
        Seq::<PathEntry>::empty()
    } else {
        let acc = first_unique(entries.drop_last());
        let e = entries.last();
        if e.is_empty || keys(acc).contains(e.comparison_key@) {
            acc
        } else {
            acc.push(e)
        }
    }
}

/// The comparison keys of a sequence of entries.
pub open spec fn keys(entries: Seq<PathEntry>) -> Seq<Seq<char>> {
    entries.map_values(|e: PathEntry| e.comparison_key@)
}

/// A field-by-field copy of an entry.
pub fn copy_entry(e: &PathEntry) -> (out: PathEntry)
    ensures
        out == *e,
{
    PathEntry {
        index: e.index,
        raw: e.raw.clone(),
        display: e.display.clone(),
        comparison_key: e.comparison_key.clone(),
        exists: e.exists,
        is_dir: e.is_dir,
        is_empty: e.is_empty,
    }
}

/// The non-empty entries whose comparison key has not been seen earlier, in order.
pub fn first_unique_entries(entries: &Vec<PathEntry>) -> (out: Vec<PathEntry>)
    ensures
        out@ == first_unique(entries@),
{
    let mut output: Vec<PathEntry> = Vec::new();
    let mut seen: Vec<String> = Vec::new();
    let mut i: usize = 0;
    while i < entries.len()
        invariant
            i <= entries.len(),
            output@ == first_unique(entries@.take(i as int)),
            views(seen@) == keys(output@),
        decreases entries.len() - i,
    {
        let ghost t = entries@.take(i + 1);
        assert(t.drop_last() == entries@.take(i as int));
        assert(t.last() == entries@[i as int]);
        let entry = &entries[i];
        if !entry.is_empty && !contains_text(&seen, entry.comparison_key.as_str()) {
            let ghost before_seen = views(seen@);
            let ghost before_out = output@;
            seen.push(entry.comparison_key.clone());
            output.push(copy_entry(entry));
            assert(views(seen@) == before_seen.push(entry.comparison_key@));
            assert(keys(output@) == keys(before_out).push(entry.comparison_key@));
        }
        i += 1;
    }
    assert(entries@.take(entries.len() as int) == entries@);
    output
}

} // verus!

verus! {

/// Resolved segments: none empty, `.` or holding a slash; `..` only at the front, and
/// none at all under a root.
pub open spec fn resolved_segments(segs: Seq<Seq<char>>, rooted: bool) -> bool {
    &&& forall|i: int|
        0 <= i < segs.len() ==> (#[trigger] segs[i]).len() > 0 && segs[i] != seq!['.']
            && !segs[i].contains('/')
    &&& forall|i: int, j: int|
        0 <= i < j < segs.len() && #[trigger] segs[j] == seq!['.', '.'] ==> #[trigger] segs[i]
            == seq!['.', '.']
    &&& rooted ==> forall|i: int| 0 <= i < segs.len() ==> #[trigger] segs[i] != seq!['.', '.']
}

/// Folding pieces without slashes gives resolved segments.
proof fn lemma_fold_resolved(parts: Seq<Seq<char>>, rooted: bool)
    requires
        forall|i: int| 0 <= i < parts.len() ==> !(#[trigger] parts[i]).contains('/'),
    ensures
        resolved_segments(fold_segments(parts, rooted), rooted),
    decreases parts.len(),
{
    if parts.len() > 0 {
        let init = parts.drop_last();
        assert forall|i: int| 0 <= i < init.len() implies !(#[trigger] init[i]).contains('/') by {
            assert(init[i] == parts[i]);
        }
        lemma_fold_resolved(init, rooted);
        let acc = fold_segments(init, rooted);
        let p = parts.last();
        assert(!p.contains('/')) by {
            assert(parts[parts.len() - 1] == p);
        }
        if p.len() == 0 || p == seq!['.'] {
        } else if p == seq!['.', '.'] {
            if acc.len() > 0 && acc.last() != seq!['.', '.'] {
                let d = acc.drop_last();
                assert forall|i: int| 0 <= i < d.len() implies (#[trigger] d[i]).len() > 0 && d[i]
                    != seq!['.'] && !d[i].contains('/') by {
                    assert(d[i] == acc[i]);
                }
                assert forall|i: int, j: int|
                    0 <= i < j < d.len() && #[trigger] d[j] == seq!['.', '.'] implies #[trigger] d[i]
                        == seq!['.', '.'] by {
                    assert(d[j] == acc[j] && d[i] == acc[i]);
                }
                assert(rooted ==> forall|i: int| 0 <= i < d.len() ==> #[trigger] d[i] != seq![
                    '.',
                    '.',
                ]) by {
                    if rooted {
                        assert forall|i: int| 0 <= i < d.len() implies #[trigger] d[i] != seq![
                            '.',
                            '.',
                        ] by {
                            assert(d[i] == acc[i]);
                        }
                    }
                }
            } else if !rooted {
                let r = acc.push(p);
                assert(seq!['.', '.'].contains('/') == false) by {
                    if seq!['.', '.'].contains('/') {
                        let k = choose|k: int| 0 <= k < 2 && seq!['.', '.'][k] == '/';
                    }
                }
                assert forall|i: int| 0 <= i < r.len() implies (#[trigger] r[i]).len() > 0 && r[i]
                    != seq!['.'] && !r[i].contains('/') by {
                    if i < acc.len() {
                        assert(r[i] == acc[i]);
                    }
                }
                assert forall|i: int, j: int|
                    0 <= i < j < r.len() && #[trigger] r[j] == seq!['.', '.'] implies #[trigger] r[i]
                        == seq!['.', '.'] by {
                    assert(r[i] == acc[i]);
                    if acc.len() > 0 {
                        assert(acc.last() == seq!['.', '.']);
                        if i < acc.len() - 1 {
                            assert(acc[acc.len() - 1] == seq!['.', '.']);
                        }
                    }
                }
            }
        } else {
            let r = acc.push(p);
            assert(p != seq!['.', '.']);
            assert forall|i: int| 0 <= i < r.len() implies (#[trigger] r[i]).len() > 0 && r[i]
                != seq!['.'] && !r[i].contains('/') by {
                if i < acc.len() {
                    assert(r[i] == acc[i]);
                }
            }
            assert forall|i: int, j: int|
                0 <= i < j < r.len() && #[trigger] r[j] == seq!['.', '.'] implies #[trigger] r[i]
                    == seq!['.', '.'] by {
                assert(r[i] == acc[i]);
                assert(r[j] == acc[j]);
            }
            assert(rooted ==> forall|i: int| 0 <= i < r.len() ==> #[trigger] r[i] != seq!['.', '.'])
                by {
                if rooted {
                    assert forall|i: int| 0 <= i < r.len() implies #[trigger] r[i] != seq![
                        '.',
                        '.',
                    ] by {
                        if i < acc.len() {
                            assert(r[i] == acc[i]);
                        }
                    }
                }
            }
        }
    }
}

/// Resolved segments fold to themselves.
proof fn lemma_fold_fixed(segs: Seq<Seq<char>>, rooted: bool)
    requires
        resolved_segments(segs, rooted),
    ensures
        fold_segments(segs, rooted) == segs,
    decreases segs.len(),
{
    if segs.len() > 0 {
        let init = segs.drop_last();
        assert(resolved_segments(init, rooted)) by {
            assert forall|i: int| 0 <= i < init.len() implies (#[trigger] init[i]).len() > 0
                && init[i] != seq!['.'] && !init[i].contains('/') by {
                assert(init[i] == segs[i]);
            }
            assert forall|i: int, j: int|
                0 <= i < j < init.len() && #[trigger] init[j] == seq!['.', '.'] implies #[trigger] init[i]
                    == seq!['.', '.'] by {
                assert(init[i] == segs[i] && init[j] == segs[j]);
            }
            if rooted {
                assert forall|i: int| 0 <= i < init.len() implies #[trigger] init[i] != seq![
                    '.',
                    '.',
                ] by {
                    assert(init[i] == segs[i]);
                }
            }
        }
        lemma_fold_fixed(init, rooted);
        let p = segs.last();
        assert(p == segs[segs.len() - 1]);
        assert(p.len() > 0 && p != seq!['.']);
        if p == seq!['.', '.'] {
            assert(!rooted);
            if init.len() > 0 {
                assert(init.last() == segs[segs.len() - 2]);
            }
        }
        assert(init.push(p) =~= segs);
    }
}

/// A leading empty piece changes no fold.
proof fn lemma_fold_leading_empty(segs: Seq<Seq<char>>, rooted: bool)
    ensures
        fold_segments(seq![Seq::<char>::empty()] + segs, rooted) == fold_segments(segs, rooted),
    decreases segs.len(),
{
    let e = seq![Seq::<char>::empty()];
    if segs.len() == 0 {
        assert(e + segs =~= e);
        assert(e.drop_last() =~= Seq::<Seq<char>>::empty());
        assert(fold_segments(Seq::<Seq<char>>::empty(), rooted) == Seq::<Seq<char>>::empty());
        assert(e.last().len() == 0);
        assert(fold_segments(e, rooted) == fold_segments(e.drop_last(), rooted));
    } else {
        lemma_fold_leading_empty(segs.drop_last(), rooted);
        assert((e + segs).drop_last() =~= e + segs.drop_last());
        assert((e + segs).last() == segs.last());
    }
}

/// A join starts with its first part.
proof fn lemma_join_first(parts: Seq<Seq<char>>, sep: Seq<char>)
    requires
        parts.len() >= 1,
    ensures
        join_with(parts, sep).len() >= parts[0].len(),
        forall|k: int| 0 <= k < parts[0].len() ==> #[trigger] join_with(parts, sep)[k] == parts[0][k],
    decreases parts.len(),
{
    if parts.len() > 1 {
        lemma_join_first(parts.drop_last(), sep);
        assert(parts.drop_last()[0] == parts[0]);
        let j = join_with(parts.drop_last(), sep);
        assert forall|k: int| 0 <= k < parts[0].len() implies #[trigger] join_with(parts, sep)[k]
            == parts[0][k] by {
            assert((j + sep + parts.last())[k] == j[k]);
        }
    }
}

/// POSIX normalization is idempotent: normalizing a normalized path changes nothing.
/// The normalized path is never empty, and it starts with `/` exactly when the input does.
pub proof fn law_posix_key_idempotent(raw: Seq<char>)
    ensures
        posix_key(posix_key(raw)) == posix_key(raw),
        posix_key(raw).len() > 0,
        (posix_key(raw)[0] == '/') == (raw.len() > 0 && raw[0] == '/'),
{
    let absolute = raw.len() > 0 && raw[0] == '/';
    crate::text::lemma_split_pieces_plain(raw, '/');
    let segs = fold_segments(split_on(raw, '/'), absolute);
    lemma_fold_resolved(split_on(raw, '/'), absolute);
    let joined = join_with(segs, seq!['/']);
    let key = posix_key(raw);
    let e = Seq::<char>::empty();
    if segs.len() > 0 {
        lemma_join_first(segs, seq!['/']);
        assert(segs[0].len() > 0);
        assert(joined[0] == segs[0][0]);
        assert(!segs[0].contains('/'));
        assert(segs[0][0] != '/');
    }
    if absolute {
        if segs.len() == 0 {
            assert(key == seq!['/']);
            let two = seq![e, e];
            assert(two.drop_last() =~= seq![e]);
            assert(join_with(seq![e], seq!['/']) == e);
            assert(join_with(two, seq!['/']) =~= seq!['/']);
            crate::text::lemma_split_join(two, '/');
            assert(fold_segments(two, true) == Seq::<Seq<char>>::empty()) by {
                lemma_fold_leading_empty(seq![e], true);
                lemma_fold_leading_empty(Seq::<Seq<char>>::empty(), true);
                assert(seq![e] + seq![e] =~= two);
                assert(seq![e] + Seq::<Seq<char>>::empty() =~= seq![e]);
                assert(fold_segments(Seq::<Seq<char>>::empty(), true) == Seq::<Seq<char>>::empty());
            }
            assert(posix_key(key) == seq!['/']);
        } else {
            assert(key == seq!['/'] + joined);
            let parts = seq![e] + segs;
            assert(parts.drop_last() =~= seq![e] + segs.drop_last());
            assert forall|i: int| 0 <= i < parts.len() implies !(#[trigger] parts[i]).contains('/') by {
                if i > 0 {
                    assert(parts[i] == segs[i - 1]);
                }
            }
            lemma_join_leading_empty(segs);
            crate::text::lemma_split_join(parts, '/');
            lemma_fold_leading_empty(segs, true);
            lemma_fold_fixed(segs, true);
            assert(key[0] == '/');
            assert(split_on(key, '/') == parts);
            assert(fold_segments(split_on(key, '/'), true) == segs);
            assert(posix_key(key) == key);
        }
    } else {
        if segs.len() == 0 {
            assert(key == seq!['.']);
            assert(split_on(seq!['.'], '/') =~= seq![seq!['.']]) by {
                assert(seq!['.'].drop_last() =~= e);
                assert(split_on(e, '/') == seq![e]);
                assert(e.push('.') =~= seq!['.']);
            }
            assert(seq![seq!['.']].drop_last() =~= Seq::<Seq<char>>::empty());
            assert(fold_segments(Seq::<Seq<char>>::empty(), false) == Seq::<Seq<char>>::empty());
            assert(fold_segments(seq![seq!['.']], false) == Seq::<Seq<char>>::empty());
            assert(join_with(Seq::<Seq<char>>::empty(), seq!['/']) == e);
            assert(key[0] != '/');
            assert(posix_key(key) == key);
        } else {
            assert(key == joined);
            crate::text::lemma_split_join(segs, '/');
            lemma_fold_fixed(segs, false);
            assert(key.len() > 0 && key[0] != '/');
            assert(split_on(key, '/') == segs);
            assert(fold_segments(split_on(key, '/'), false) == segs);
            let j2 = join_with(fold_segments(split_on(key, '/'), false), seq!['/']);
            assert(j2 == joined);
            assert(!(key.len() > 0 && key[0] == '/'));
            assert(posix_key(key) == j2);
        }
    }
}

/// A leading empty part joins to a leading separator.
proof fn lemma_join_leading_empty(segs: Seq<Seq<char>>)
    requires
        segs.len() >= 1,
    ensures
        join_with(seq![Seq::<char>::empty()] + segs, seq!['/']) == seq!['/'] + join_with(
            segs,
            seq!['/'],
        ),
    decreases segs.len(),
{
    let e = Seq::<char>::empty();
    let parts = seq![e] + segs;
    if segs.len() == 1 {
        assert(parts.drop_last() =~= seq![e]);
        assert(parts.last() == segs[0]);
        assert(join_with(seq![e], seq!['/']) == e);
        assert(join_with(segs, seq!['/']) == segs[0]);
        assert(join_with(parts, seq!['/']) =~= seq!['/'] + segs[0]);
    } else {
        lemma_join_leading_empty(segs.drop_last());
        assert(parts.drop_last() =~= seq![e] + segs.drop_last());
        assert(parts.last() == segs.last());
        assert(join_with(parts, seq!['/']) =~= seq!['/'] + join_with(segs, seq!['/']));
    }
}

} // verus!
