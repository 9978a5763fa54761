//! Cleaning of path-like values: removal by policy, then first-occurrence
//! deduplication, rendered as a value or as a shell export snippet.
use vstd::prelude::*;
use crate::model::{
    PathEntry, PathVariable, PlatformMode, PlatformRules, ShellKind, path_variable_env_name,
    path_variable_powershell_name,
};
use crate::normalize::{first_unique, first_unique_entries, key_of, keys};
use crate::path_env::{
    case_sensitive_of, entry_for, parse_path_with_rules, resolves_to, separator_of,
};
use crate::platform::resolve_platform_rules;
use crate::policy::{CompiledPolicy, PathPolicy, drop_keys, drops_raw};
use crate::text::{
    append, chars_of, contains_text, join_text, join_with, owned, push_char, replace_char,
    replace_text, split_on, views,
};

verus! {

/// The comparison keys of the non-empty pieces, in order.
pub open spec fn nonempty_keys(pieces: Seq<Seq<char>>, case_sensitive: bool) -> Seq<Seq<char>>
    decreases pieces.len(),
{
    if pieces.len() == 0 {
        Seq::<Seq<char>>::empty()
    } else {
        let acc = nonempty_keys(pieces.drop_last(), case_sensitive);
        if pieces.last().len() == 0 {
            acc
        } else {
            acc.push(key_of(pieces.last(), case_sensitive))
        }
    }
}

/// First-occurrence deduplication of pieces by comparison key. A non-empty piece is
/// kept when no earlier kept piece has its key; empty pieces are kept only when
/// `keep_empty` holds (MANPATH, where they stand for the default search path).
pub open spec fn dedupe(pieces: Seq<Seq<char>>, case_sensitive: bool, keep_empty: bool) -> Seq<
    Seq<char>,
>
    decreases pieces.len(),
{
    if pieces.len() == 0 {
        Seq::<Seq<char>>::empty()
    } else {
        let acc = dedupe(pieces.drop_last(), case_sensitive, keep_empty);
        let p = pieces.last();
        if p.len() == 0 {
            if keep_empty {
                acc.push(p)
            } else {
                acc
            }
        } else if nonempty_keys(acc, case_sensitive).contains(key_of(p, case_sensitive)) {
            acc
        } else {
            acc.push(p)
        }
    }
}

/// The pieces the drop keys do not remove, in order.
pub open spec fn undropped(pieces: Seq<Seq<char>>, keys: Seq<Seq<char>>, case_sensitive: bool) -> Seq<
    Seq<char>,
>
    decreases pieces.len(),
{
    if pieces.len() == 0 {
        Seq::<Seq<char>>::empty()
    } else {
        let acc = undropped(pieces.drop_last(), keys, case_sensitive);
        if drops_raw(keys, pieces.last(), case_sensitive) {
            acc
        } else {
            acc.push(pieces.last())
        }
    }
}

/// The entries of a cleaned value: the pieces of `value` at `sep` that the drop keys keep,
/// deduplicated by comparison key (empty pieces kept only for MANPATH).
pub open spec fn clean_model(
    value: Seq<char>,
    sep: char,
    case_sensitive: bool,
    variable: PathVariable,
    keys: Seq<Seq<char>>,
) -> Seq<Seq<char>> {
    dedupe(
        undropped(split_on(value, sep), keys, case_sensitive),
        case_sensitive,
        variable == PathVariable::Manpath,
    )
}

/// The raw texts of a sequence of entries.
pub open spec fn raws(entries: Seq<PathEntry>) -> Seq<Seq<char>> {
    entries.map_values(|e: PathEntry| e.raw@)
}

/// An entry whose key and emptiness follow from its raw text.
pub open spec fn consistent(e: PathEntry, case_sensitive: bool) -> bool {
    &&& e.comparison_key@ == key_of(e.raw@, case_sensitive)
    &&& e.is_empty == (e.raw@.len() == 0)
}

/// A cleaned value: its entries and the separator that joins them.
#[derive(Clone, Debug, PartialEq, Eq)]
pub struct CleanedPath {
    /// Kept entries, in order.
    pub entries: Vec<String>,
    /// The platform separator.
    pub separator: char,
}

impl CleanedPath {
    /// The entries joined with the separator.
    pub fn raw_path(&self) -> (r: String)
        ensures
            r@ == join_with(views(self.entries@), seq![self.separator]),
    {
        let mut sep = String::new();
        push_char(&mut sep, self.separator);
        join_text(&self.entries, sep.as_str())
    }
}

/// First-occurrence deduplication over consistent entries is deduplication of their raw
/// texts, and the kept keys are the keys of the kept non-empty texts.
pub proof fn lemma_first_unique_raws(entries: Seq<PathEntry>, case_sensitive: bool)
    requires
        forall|i: int| 0 <= i < entries.len() ==> consistent(#[trigger] entries[i], case_sensitive),
    ensures
        raws(first_unique(entries)) == dedupe(raws(entries), case_sensitive, false),
        keys(first_unique(entries)) == nonempty_keys(
            dedupe(raws(entries), case_sensitive, false),
            case_sensitive,
        ),
    decreases entries.len(),
{
    if entries.len() > 0 {
        let init = entries.drop_last();
        assert forall|i: int| 0 <= i < init.len() implies consistent(#[trigger] init[i], case_sensitive) by {
            assert(init[i] == entries[i]);
        }
        lemma_first_unique_raws(init, case_sensitive);
        assert(raws(entries).drop_last() == raws(init));
        let e = entries.last();
        assert(consistent(entries[entries.len() - 1], case_sensitive));
        assert(raws(entries).last() == e.raw@);
        let acc = first_unique(init);
        let d = dedupe(raws(init), case_sensitive, false);
        if !e.is_empty && !keys(acc).contains(e.comparison_key@) {
            assert(raws(acc.push(e)) == raws(acc).push(e.raw@));
            assert(keys(acc.push(e)) == keys(acc).push(e.comparison_key@));
            assert(d.push(e.raw@).drop_last() == d);
        }
    }
}

/// Removes the entries the compiled policy selects.
fn kept_entries(entries: &Vec<PathEntry>, compiled: &CompiledPolicy, case_sensitive: bool) -> (out:
    Vec<PathEntry>)
    requires
        forall|i: int|
            0 <= i < entries.len() ==> consistent(#[trigger] entries@[i], case_sensitive),
    ensures
        raws(out@) == undropped(raws(entries@), views(compiled.keys@), case_sensitive),
        forall|i: int| 0 <= i < out.len() ==> consistent(#[trigger] out@[i], case_sensitive),
{
    let mut out: Vec<PathEntry> = Vec::new();
    let mut i: usize = 0;
    while i < entries.len()
        invariant
            i <= entries.len(),
            forall|k: int|
                0 <= k < entries.len() ==> consistent(#[trigger] entries@[k], case_sensitive),
            raws(out@) == undropped(
                raws(entries@).take(i as int),
                views(compiled.keys@),
                case_sensitive,
            ),
            forall|k: int| 0 <= k < out.len() ==> consistent(#[trigger] out@[k], case_sensitive),
        decreases entries.len() - i,
    {
        let ghost t = raws(entries@).take(i + 1);
        assert(t.drop_last() == raws(entries@).take(i as int));
        assert(t.last() == entries@[i as int].raw@);
        assert(consistent(entries@[i as int], case_sensitive));
        if !compiled.matches_entry(&entries[i]) {
            let ghost before = out@;
            out.push(crate::normalize::copy_entry(&entries[i]));
            assert(raws(out@) == raws(before).push(entries@[i as int].raw@));
        }
        i += 1;
    }
    assert(raws(entries@).take(entries.len() as int) == raws(entries@));
    out
}

/// The raw texts of the entries.
fn raw_texts(entries: &Vec<PathEntry>) -> (out: Vec<String>)
    ensures
        views(out@) == raws(entries@),
{
    let mut out: Vec<String> = Vec::new();
    let mut i: usize = 0;
    while i < entries.len()
        invariant
            i <= entries.len(),
            views(out@) == raws(entries@.take(i as int)),
        decreases entries.len() - i,
    {
        let ghost before = views(out@);
        out.push(entries[i].raw.clone());
        assert(raws(entries@.take(i + 1)) == raws(entries@.take(i as int)).push(
            entries@[i as int].raw@,
        ));
        i += 1;
    }
    assert(entries@.take(entries.len() as int) == entries@);
    out
}

/// MANPATH deduplication: empty entries are kept as default-path placeholders, later
/// duplicates of non-empty entries are dropped.
fn first_unique_manpath_entries(entries: &Vec<PathEntry>, case_sensitive: bool) -> (out: Vec<
    String,
>)
    requires
        forall|i: int|
            0 <= i < entries.len() ==> consistent(#[trigger] entries@[i], case_sensitive),
    ensures
        views(out@) == dedupe(raws(entries@), case_sensitive, true),
{
    let mut output: Vec<String> = Vec::new();
    let mut seen: Vec<String> = Vec::new();
    let mut i: usize = 0;
    while i < entries.len()
        invariant
            i <= entries.len(),
            forall|k: int|
                0 <= k < entries.len() ==> consistent(#[trigger] entries@[k], case_sensitive),
            views(output@) == dedupe(raws(entries@).take(i as int), case_sensitive, true),
            views(seen@) == nonempty_keys(views(output@), case_sensitive),
        decreases entries.len() - i,
    {
        let ghost t = raws(entries@).take(i + 1);
        assert(t.drop_last() == raws(entries@).take(i as int));
        assert(t.last() == entries@[i as int].raw@);
        assert(consistent(entries@[i as int], case_sensitive));
        let entry = &entries[i];
        let ghost before_out = views(output@);
        let ghost before_seen = views(seen@);
        if entry.is_empty {
            output.push(entry.raw.clone());
            assert(views(output@) == before_out.push(entry.raw@));
            assert(views(output@).drop_last() == before_out);
        } else if !contains_text(&seen, entry.comparison_key.as_str()) {
            seen.push(entry.comparison_key.clone());
            output.push(entry.raw.clone());
            assert(views(output@) == before_out.push(entry.raw@));
            assert(views(output@).drop_last() == before_out);
            assert(views(seen@) == before_seen.push(entry.comparison_key@));
        }
        i += 1;
    }
    assert(raws(entries@).take(entries.len() as int) == raws(entries@));
    output
}

/// The kept entries of a variable: first occurrences, with MANPATH empty placeholders.
fn cleaned_entries(entries: &Vec<PathEntry>, variable: PathVariable, case_sensitive: bool) -> (out:
    Vec<String>)
    requires
        forall|i: int|
            0 <= i < entries.len() ==> consistent(#[trigger] entries@[i], case_sensitive),
    ensures
        views(out@) == dedupe(raws(entries@), case_sensitive, variable == PathVariable::Manpath),
{
    match variable {
        PathVariable::Path => {
            let unique = first_unique_entries(entries);
            proof {
                lemma_first_unique_raws(entries@, case_sensitive);
            }
            raw_texts(&unique)
        },
        PathVariable::Manpath => first_unique_manpath_entries(entries, case_sensitive),
    }
}

/// The cleaned entries of a value under concrete rules.
pub fn cleaned_path_with_rules(
    path_value: &str,
    rules: &PlatformRules,
    variable: PathVariable,
    policy: &PathPolicy,
) -> (c: CleanedPath)
    ensures
        c.separator == rules.separator,
        views(c.entries@) == clean_model(
            path_value@,
            rules.separator,
            rules.case_sensitive,
            variable,
            drop_keys(*policy, rules.case_sensitive),
        ),
{
    let compiled = policy.compile_with_rules(rules);
    let entries = parse_path_with_rules(path_value, rules);
    proof {
        assert forall|i: int| 0 <= i < entries.len() implies consistent(
            #[trigger] entries@[i],
            rules.case_sensitive,
        ) by {
            assert(entry_for(
                entries@[i],
                i + 1,
                split_on(path_value@, rules.separator)[i],
                rules.case_sensitive,
            ));
        }
        assert(raws(entries@) =~= split_on(path_value@, rules.separator));
    }
    let kept = kept_entries(&entries, &compiled, rules.case_sensitive);
    let cleaned = cleaned_entries(&kept, variable, rules.case_sensitive);
    CleanedPath { entries: cleaned, separator: rules.separator }
}

/// The cleaned entries of a value under the rules of a platform mode.
pub fn cleaned_path(
    path_value: &str,
    platform_mode: PlatformMode,
    pathext: Option<&str>,
    variable: PathVariable,
    policy: &PathPolicy,
) -> (c: CleanedPath)
    ensures
        exists|m: PlatformMode|
            resolves_to(platform_mode, m) && c.separator == separator_of(m) && views(c.entries@)
                == clean_model(
                path_value@,
                separator_of(m),
                case_sensitive_of(m),
                variable,
                drop_keys(*policy, case_sensitive_of(m)),
            ),
{
    let rules = resolve_platform_rules(platform_mode, pathext);
    let c = cleaned_path_with_rules(path_value, &rules, variable, policy);
    assert(resolves_to(platform_mode, rules.mode));
    assert(separator_of(rules.mode) == rules.separator);
    assert(case_sensitive_of(rules.mode) == rules.case_sensitive);
    c
}

/// The cleaned value of a path-like variable under a policy.
pub fn clean_path_with_policy(
    path_value: &str,
    platform_mode: PlatformMode,
    pathext: Option<&str>,
    variable: PathVariable,
    policy: &PathPolicy,
) -> (out: String)
    ensures
        exists|m: PlatformMode|
            resolves_to(platform_mode, m) && out@ == join_with(
                clean_model(
                    path_value@,
                    separator_of(m),
                    case_sensitive_of(m),
                    variable,
                    drop_keys(*policy, case_sensitive_of(m)),
                ),
                seq![separator_of(m)],
            ),
{
    cleaned_path(path_value, platform_mode, pathext, variable, policy).raw_path()
}

/// A policy with no drop entries and no presets removes nothing.
pub proof fn lemma_empty_policy_keys(policy: PathPolicy, case_sensitive: bool)
    requires
        policy.drop_entries@.len() == 0,
        policy.presets@.len() == 0,
    ensures
        drop_keys(policy, case_sensitive) == Seq::<Seq<char>>::empty(),
{
    assert(views(policy.drop_entries@) + crate::policy::presets_drops(policy.presets@, policy.variable)
        =~= Seq::<Seq<char>>::empty());
}

/// The cleaned PATH value with no removal policy.
pub fn clean_path(path_value: &str, platform_mode: PlatformMode, pathext: Option<&str>) -> (out:
    String)
    ensures
        exists|m: PlatformMode|
            resolves_to(platform_mode, m) && out@ == join_with(
                clean_model(
                    path_value@,
                    separator_of(m),
                    case_sensitive_of(m),
                    PathVariable::Path,
                    Seq::<Seq<char>>::empty(),
                ),
                seq![separator_of(m)],
            ),
{
    let policy = PathPolicy::default();
    proof {
        lemma_empty_policy_keys(policy, true);
        lemma_empty_policy_keys(policy, false);
    }
    clean_path_with_policy(path_value, platform_mode, pathext, PathVariable::Path, &policy)
}

} // verus!

verus! {

/// Every piece `undropped` keeps comes from its input and is not removed by the keys.
pub proof fn lemma_undropped_members(ps: Seq<Seq<char>>, keys: Seq<Seq<char>>, cs: bool)
    ensures
        forall|i: int|
            0 <= i < undropped(ps, keys, cs).len() ==> ps.contains(
                #[trigger] undropped(ps, keys, cs)[i],
            ) && !drops_raw(keys, undropped(ps, keys, cs)[i], cs),
    decreases ps.len(),
{
    if ps.len() > 0 {
        lemma_undropped_members(ps.drop_last(), keys, cs);
        let acc = undropped(ps.drop_last(), keys, cs);
        assert forall|i: int| 0 <= i < undropped(ps, keys, cs).len() implies ps.contains(
            #[trigger] undropped(ps, keys, cs)[i],
        ) && !drops_raw(keys, undropped(ps, keys, cs)[i], cs) by {
            if i < acc.len() {
                let x = acc[i];
                let k = choose|k: int| 0 <= k < ps.drop_last().len() && ps.drop_last()[k] == x;
                assert(ps[k] == x);
            } else {
                assert(ps[ps.len() - 1] == ps.last());
            }
        }
    }
}

/// `undropped` keeps every piece when none is removed by the keys.
pub proof fn lemma_undropped_identity(ps: Seq<Seq<char>>, keys: Seq<Seq<char>>, cs: bool)
    requires
        forall|i: int| 0 <= i < ps.len() ==> !drops_raw(keys, #[trigger] ps[i], cs),
    ensures
        undropped(ps, keys, cs) == ps,
    decreases ps.len(),
{
    if ps.len() > 0 {
        let init = ps.drop_last();
        assert forall|i: int| 0 <= i < init.len() implies !drops_raw(keys, #[trigger] init[i], cs) by {
            assert(init[i] == ps[i]);
        }
        lemma_undropped_identity(init, keys, cs);
        assert(!drops_raw(keys, ps[ps.len() - 1], cs));
        assert(init.push(ps.last()) == ps);
    }
}

/// Every piece `dedupe` keeps comes from its input.
pub proof fn lemma_dedupe_members(ps: Seq<Seq<char>>, cs: bool, ke: bool)
    ensures
        forall|i: int|
            0 <= i < dedupe(ps, cs, ke).len() ==> ps.contains(#[trigger] dedupe(ps, cs, ke)[i]),
    decreases ps.len(),
{
    if ps.len() > 0 {
        lemma_dedupe_members(ps.drop_last(), cs, ke);
        let acc = dedupe(ps.drop_last(), cs, ke);
        assert forall|i: int| 0 <= i < dedupe(ps, cs, ke).len() implies ps.contains(
            #[trigger] dedupe(ps, cs, ke)[i],
        ) by {
            if i < acc.len() {
                let x = acc[i];
                let k = choose|k: int| 0 <= k < ps.drop_last().len() && ps.drop_last()[k] == x;
                assert(ps[k] == x);
            } else {
                assert(ps[ps.len() - 1] == ps.last());
            }
        }
    }
}

/// Deduplicating twice is deduplicating once.
pub proof fn lemma_dedupe_idempotent(ps: Seq<Seq<char>>, cs: bool, ke: bool)
    ensures
        dedupe(dedupe(ps, cs, ke), cs, ke) == dedupe(ps, cs, ke),
    decreases ps.len(),
{
    if ps.len() > 0 {
        let init = ps.drop_last();
        lemma_dedupe_idempotent(init, cs, ke);
        let acc = dedupe(init, cs, ke);
        let p = ps.last();
        let d = dedupe(ps, cs, ke);
        if d != acc {
            assert(d == acc.push(p));
            assert(d.drop_last() == acc);
            assert(d.last() == p);
        }
    }
}

/// `dedupe` never keeps an empty piece unless asked to.
pub proof fn lemma_dedupe_no_empty(ps: Seq<Seq<char>>, cs: bool)
    ensures
        forall|i: int| 0 <= i < dedupe(ps, cs, false).len() ==> (#[trigger] dedupe(
            ps,
            cs,
            false,
        )[i]).len() > 0,
    decreases ps.len(),
{
    if ps.len() > 0 {
        lemma_dedupe_no_empty(ps.drop_last(), cs);
        let acc = dedupe(ps.drop_last(), cs, false);
        let d = dedupe(ps, cs, false);
        assert forall|i: int| 0 <= i < d.len() implies (#[trigger] d[i]).len() > 0 by {
            if i < acc.len() {
                assert(d[i] == acc[i]);
            }
        }
    }
}

/// Strictly increasing positions, each below `n`.
pub open spec fn increasing_below(idx: Seq<int>, n: int) -> bool {
    &&& forall|i: int| 0 <= i < idx.len() ==> 0 <= #[trigger] idx[i] < n
    &&& forall|i: int, j: int| 0 <= i < j < idx.len() ==> idx[i] < idx[j]
}

/// `idx` gives, for each element of `a`, its position in `b`, positions increasing.
pub open spec fn positions_in(idx: Seq<int>, a: Seq<Seq<char>>, b: Seq<Seq<char>>) -> bool {
    &&& idx.len() == a.len()
    &&& increasing_below(idx, b.len() as int)
    &&& forall|i: int| 0 <= i < a.len() ==> a[i] == b[#[trigger] idx[i]]
}

/// `a` is `b` with some elements left out: its elements occur in `b` in the same order.
pub open spec fn subsequence_of(a: Seq<Seq<char>>, b: Seq<Seq<char>>) -> bool {
    exists|idx: Seq<int>| #[trigger] positions_in(idx, a, b)
}

proof fn lemma_subsequence_push(a: Seq<Seq<char>>, b: Seq<Seq<char>>, x: Seq<char>, keep: bool)
    requires
        subsequence_of(a, b),
    ensures
        keep ==> subsequence_of(a.push(x), b.push(x)),
        !keep ==> subsequence_of(a, b.push(x)),
{
    let idx = choose|idx: Seq<int>| #[trigger] positions_in(idx, a, b);
    if keep {
        let idx2 = idx.push(b.len() as int);
        assert(forall|i: int| 0 <= i < a.push(x).len() ==> a.push(x)[i] == b.push(x)[#[trigger] idx2[i]]);
        assert(increasing_below(idx2, b.push(x).len() as int));
        assert(positions_in(idx2, a.push(x), b.push(x)));
    } else {
        assert(forall|i: int| 0 <= i < a.len() ==> a[i] == b.push(x)[#[trigger] idx[i]]);
        assert(increasing_below(idx, b.push(x).len() as int));
        assert(positions_in(idx, a, b.push(x)));
    }
}

/// `undropped` keeps a subsequence of its input.
pub proof fn lemma_undropped_subsequence(ps: Seq<Seq<char>>, keys: Seq<Seq<char>>, cs: bool)
    ensures
        subsequence_of(undropped(ps, keys, cs), ps),
    decreases ps.len(),
{
    if ps.len() == 0 {
        assert(positions_in(Seq::<int>::empty(), Seq::<Seq<char>>::empty(), ps));
    } else {
        lemma_undropped_subsequence(ps.drop_last(), keys, cs);
        lemma_subsequence_push(
            undropped(ps.drop_last(), keys, cs),
            ps.drop_last(),
            ps.last(),
            !drops_raw(keys, ps.last(), cs),
        );
        assert(ps.drop_last().push(ps.last()) == ps);
    }
}

/// `dedupe` keeps a subsequence of its input.
pub proof fn lemma_dedupe_subsequence(ps: Seq<Seq<char>>, cs: bool, ke: bool)
    ensures
        subsequence_of(dedupe(ps, cs, ke), ps),
    decreases ps.len(),
{
    if ps.len() == 0 {
        assert(positions_in(Seq::<int>::empty(), Seq::<Seq<char>>::empty(), ps));
    } else {
        lemma_dedupe_subsequence(ps.drop_last(), cs, ke);
        let acc = dedupe(ps.drop_last(), cs, ke);
        lemma_subsequence_push(acc, ps.drop_last(), ps.last(), dedupe(ps, cs, ke) != acc);
        assert(ps.drop_last().push(ps.last()) == ps);
    }
}

/// A subsequence of a subsequence is a subsequence.
pub proof fn lemma_subsequence_trans(a: Seq<Seq<char>>, b: Seq<Seq<char>>, c: Seq<Seq<char>>)
    requires
        subsequence_of(a, b),
        subsequence_of(b, c),
    ensures
        subsequence_of(a, c),
{
    let f = choose|idx: Seq<int>| #[trigger] positions_in(idx, a, b);
    let g = choose|idx: Seq<int>| #[trigger] positions_in(idx, b, c);
    let h = Seq::new(a.len(), |i: int| g[f[i]]);
    assert forall|i: int| 0 <= i < a.len() implies a[i] == c[#[trigger] h[i]] by {
        assert(a[i] == b[f[i]]);
        assert(b[f[i]] == c[g[f[i]]]);
    }
    assert forall|i: int, j: int| 0 <= i < j < h.len() implies h[i] < h[j] by {
        assert(f[i] < f[j]);
        assert(0 <= f[i] < b.len());
        assert(0 <= f[j] < b.len());
    }
    assert forall|i: int| 0 <= i < h.len() implies 0 <= #[trigger] h[i] < c.len() by {
        assert(0 <= f[i] < b.len());
    }
    assert(positions_in(h, a, c));
}

/// The cleaned text of a value: its kept entries joined with the separator.
pub open spec fn clean_text(
    value: Seq<char>,
    sep: char,
    cs: bool,
    variable: PathVariable,
    keys: Seq<Seq<char>>,
) -> Seq<char> {
    join_with(clean_model(value, sep, cs, variable, keys), seq![sep])
}

/// Cleaning is idempotent: cleaning an already cleaned value gives it back unchanged.
pub proof fn law_clean_idempotent(
    value: Seq<char>,
    sep: char,
    cs: bool,
    variable: PathVariable,
    keys: Seq<Seq<char>>,
)
    ensures
        clean_text(clean_text(value, sep, cs, variable, keys), sep, cs, variable, keys)
            == clean_text(value, sep, cs, variable, keys),
{
    let ke = variable == PathVariable::Manpath;
    let pieces = split_on(value, sep);
    let u = undropped(pieces, keys, cs);
    let c = dedupe(u, cs, ke);
    crate::text::lemma_split_pieces_plain(value, sep);
    lemma_undropped_members(pieces, keys, cs);
    lemma_dedupe_members(u, cs, ke);
    assert forall|i: int| 0 <= i < c.len() implies !(#[trigger] c[i]).contains(sep) && !drops_raw(
        keys,
        c[i],
        cs,
    ) by {
        let x = c[i];
        assert(u.contains(x));
        let k = choose|k: int| 0 <= k < u.len() && u[k] == x;
        assert(pieces.contains(u[k]));
        let m = choose|m: int| 0 <= m < pieces.len() && pieces[m] == x;
        assert(!pieces[m].contains(sep));
    }
    if c.len() == 0 {
        let empty = Seq::<char>::empty();
        assert(join_with(c, seq![sep]) == empty);
        assert(split_on(empty, sep) == seq![empty]);
        assert(!drops_raw(keys, empty, cs));
        assert(undropped(seq![empty], keys, cs) == seq![empty]) by {
            assert(seq![empty].drop_last() == Seq::<Seq<char>>::empty());
            assert(undropped(Seq::<Seq<char>>::empty(), keys, cs) == Seq::<Seq<char>>::empty());
            assert(Seq::<Seq<char>>::empty().push(empty) == seq![empty]);
        }
        assert(dedupe(seq![empty], cs, ke) == (if ke {
            seq![empty]
        } else {
            Seq::<Seq<char>>::empty()
        })) by {
            assert(seq![empty].drop_last() == Seq::<Seq<char>>::empty());
            assert(dedupe(Seq::<Seq<char>>::empty(), cs, ke) == Seq::<Seq<char>>::empty());
            assert(seq![empty].last() == empty);
            assert(Seq::<Seq<char>>::empty().push(empty) == seq![empty]);
        }
    } else {
        crate::text::lemma_split_join(c, sep);
        lemma_undropped_identity(c, keys, cs);
        lemma_dedupe_idempotent(u, cs, ke);
    }
}

/// A cleaned PATH value has no empty entries.
pub proof fn law_clean_path_has_no_empty_entries(
    value: Seq<char>,
    sep: char,
    cs: bool,
    keys: Seq<Seq<char>>,
)
    ensures
        forall|i: int|
            0 <= i < clean_model(value, sep, cs, PathVariable::Path, keys).len() ==> (
            #[trigger] clean_model(value, sep, cs, PathVariable::Path, keys)[i]).len() > 0,
{
    lemma_dedupe_no_empty(undropped(split_on(value, sep), keys, cs), cs);
}

/// Cleaning keeps entries of the original value in their original order, and never an
/// entry that the policy removes.
pub proof fn law_clean_preserves_order(
    value: Seq<char>,
    sep: char,
    cs: bool,
    variable: PathVariable,
    keys: Seq<Seq<char>>,
)
    ensures
        subsequence_of(clean_model(value, sep, cs, variable, keys), split_on(value, sep)),
        forall|i: int|
            0 <= i < clean_model(value, sep, cs, variable, keys).len() ==> !drops_raw(
                keys,
                #[trigger] clean_model(value, sep, cs, variable, keys)[i],
                cs,
            ),
{
    let ke = variable == PathVariable::Manpath;
    let pieces = split_on(value, sep);
    let u = undropped(pieces, keys, cs);
    lemma_undropped_subsequence(pieces, keys, cs);
    lemma_dedupe_subsequence(u, cs, ke);
    lemma_subsequence_trans(dedupe(u, cs, ke), u, pieces);
    lemma_undropped_members(pieces, keys, cs);
    lemma_dedupe_members(u, cs, ke);
    let c = dedupe(u, cs, ke);
    assert forall|i: int| 0 <= i < c.len() implies !drops_raw(keys, #[trigger] c[i], cs) by {
        let k = choose|k: int| 0 <= k < u.len() && u[k] == c[i];
        assert(!drops_raw(keys, u[k], cs));
    }
}

} // verus!

verus! {

/// `value` inside POSIX single quotes, each embedded quote written as `'\''`.
pub open spec fn posix_quoted(value: Seq<char>) -> Seq<char> {
    "'"@ + replace_char(value, '\'', "'\\''"@) + "'"@
}

/// `value` inside PowerShell single quotes, each embedded quote doubled.
pub open spec fn powershell_quoted(value: Seq<char>) -> Seq<char> {
    "'"@ + replace_char(value, '\'', "''"@) + "'"@
}

/// `value` with backslashes and single quotes escaped by a backslash, as fish reads them
/// inside single quotes.
pub open spec fn fish_escaped(value: Seq<char>) -> Seq<char>
    decreases value.len(),
{
    if value.len() == 0 {
        Seq::<char>::empty()
    } else {
        let c = value.last();
        fish_escaped(value.drop_last()) + (if c == '\\' {
            "\\\\"@
        } else if c == '\'' {
            "\\'"@
        } else {
            seq![c]
        })
    }
}

/// `value` inside fish single quotes.
pub open spec fn fish_quoted(value: Seq<char>) -> Seq<char> {
    "'"@ + fish_escaped(value) + "'"@
}

/// Each entry quoted for fish, in order.
pub open spec fn fish_quoted_all(entries: Seq<Seq<char>>) -> Seq<Seq<char>> {
    entries.map_values(|e: Seq<char>| fish_quoted(e))
}

/// The fish command setting a variable to the entries as a list.
pub open spec fn fish_export_text(entries: Seq<Seq<char>>, variable: PathVariable) -> Seq<char> {
    if entries.len() == 0 {
        "set -gx "@ + path_variable_env_name(variable)
    } else {
        "set -gx "@ + path_variable_env_name(variable) + " "@ + join_with(
            fish_quoted_all(entries),
            " "@,
        )
    }
}

/// The shell snippet exporting the cleaned entries of a variable.
pub open spec fn export_text(
    entries: Seq<Seq<char>>,
    sep: char,
    shell: ShellKind,
    variable: PathVariable,
) -> Seq<char> {
    match shell {
        ShellKind::Fish => fish_export_text(entries, variable),
        ShellKind::Pwsh => "$env:"@ + path_variable_powershell_name(variable) + " = "@
            + powershell_quoted(join_with(entries, seq![sep])),
        _ => "export "@ + path_variable_env_name(variable) + "="@ + posix_quoted(
            join_with(entries, seq![sep]),
        ),
    }
}

/// `value` quoted for POSIX shells.
pub fn posix_single_quote(value: &str) -> (r: String)
    ensures
        r@ == posix_quoted(value@),
{
    let mut r = owned("'");
    let inner = replace_text(value, '\'', "'\\''");
    append(&mut r, inner.as_str());
    append(&mut r, "'");
    r
}

/// `value` quoted for PowerShell.
pub fn powershell_single_quote(value: &str) -> (r: String)
    ensures
        r@ == powershell_quoted(value@),
{
    let mut r = owned("'");
    let inner = replace_text(value, '\'', "''");
    append(&mut r, inner.as_str());
    append(&mut r, "'");
    r
}

/// `value` quoted for fish.
pub fn fish_single_quote(value: &str) -> (r: String)
    ensures
        r@ == fish_quoted(value@),
{
    let chars = chars_of(value);
    let mut quoted = owned("'");
    let ghost start = quoted@;
    let mut i: usize = 0;
    while i < chars.len()
        invariant
            i <= chars.len(),
            chars@ == value@,
            start == "'"@,
            quoted@ == start + fish_escaped(value@.take(i as int)),
        decreases chars.len() - i,
    {
        assert(value@.take(i + 1).drop_last() == value@.take(i as int));
        assert(value@.take(i + 1).last() == chars@[i as int]);
        let c = chars[i];
        if c == '\\' {
            append(&mut quoted, "\\\\");
        } else if c == '\'' {
            append(&mut quoted, "\\'");
        } else {
            push_char(&mut quoted, c);
        }
        i += 1;
    }
    assert(value@.take(chars.len() as int) == value@);
    append(&mut quoted, "'");
    quoted
}

/// The fish command setting a variable to the entries.
pub fn format_fish_export(entries: &Vec<String>, variable: PathVariable) -> (r: String)
    ensures
        r@ == fish_export_text(views(entries@), variable),
{
    let mut quoted: Vec<String> = Vec::new();
    let mut i: usize = 0;
    while i < entries.len()
        invariant
            i <= entries.len(),
            views(quoted@) == fish_quoted_all(views(entries@).take(i as int)),
        decreases entries.len() - i,
    {
        let ghost before = views(quoted@);
        quoted.push(fish_single_quote(entries[i].as_str()));
        assert(fish_quoted_all(views(entries@).take(i + 1)) == before.push(
            fish_quoted(entries@[i as int]@),
        ));
        i += 1;
    }
    assert(views(entries@).take(entries.len() as int) == views(entries@));
    let mut r = owned("set -gx ");
    append(&mut r, variable.env_name());
    if quoted.len() == 0 {
        r
    } else {
        append(&mut r, " ");
        let joined = join_text(&quoted, " ");
        append(&mut r, joined.as_str());
        r
    }
}

/// The shell snippet exporting a cleaned value.
pub fn format_clean_export(cleaned: &CleanedPath, shell: ShellKind, variable: PathVariable) -> (r:
    String)
    ensures
        r@ == export_text(views(cleaned.entries@), cleaned.separator, shell, variable),
{
    match shell {
        ShellKind::Fish => format_fish_export(&cleaned.entries, variable),
        ShellKind::Pwsh => {
            let mut r = owned("$env:");
            append(&mut r, variable.powershell_env_name());
            append(&mut r, " = ");
            let quoted = powershell_single_quote(cleaned.raw_path().as_str());
            append(&mut r, quoted.as_str());
            r
        },
        _ => {
            let mut r = owned("export ");
            append(&mut r, variable.env_name());
            append(&mut r, "=");
            let quoted = posix_single_quote(cleaned.raw_path().as_str());
            append(&mut r, quoted.as_str());
            r
        },
    }
}

/// The export snippet of a cleaned value under a policy.
pub fn clean_export_with_policy(
    path_value: &str,
    platform_mode: PlatformMode,
    pathext: Option<&str>,
    shell: ShellKind,
    variable: PathVariable,
    policy: &PathPolicy,
) -> (r: String)
    ensures
        exists|m: PlatformMode|
            resolves_to(platform_mode, m) && r@ == export_text(
                clean_model(
                    path_value@,
                    separator_of(m),
                    case_sensitive_of(m),
                    variable,
                    drop_keys(*policy, case_sensitive_of(m)),
                ),
                separator_of(m),
                shell,
                variable,
            ),
{
    format_clean_export(
        &cleaned_path(path_value, platform_mode, pathext, variable, policy),
        shell,
        variable,
    )
}

/// The PATH export snippet of a cleaned value with no removal policy.
pub fn clean_export(
    path_value: &str,
    platform_mode: PlatformMode,
    pathext: Option<&str>,
    shell: ShellKind,
) -> (r: String)
    ensures
        exists|m: PlatformMode|
            resolves_to(platform_mode, m) && r@ == export_text(
                clean_model(
                    path_value@,
                    separator_of(m),
                    case_sensitive_of(m),
                    PathVariable::Path,
                    Seq::<Seq<char>>::empty(),
                ),
                separator_of(m),
                shell,
                PathVariable::Path,
            ),
{
    let policy = PathPolicy::default();
    proof {
        lemma_empty_policy_keys(policy, true);
        lemma_empty_policy_keys(policy, false);
    }
    clean_export_with_policy(path_value, platform_mode, pathext, shell, PathVariable::Path, &policy)
}

} // verus!

verus! {

/// A key is among the keys of the non-empty pieces exactly when some non-empty piece has it.
pub proof fn lemma_nonempty_keys_contains(ps: Seq<Seq<char>>, cs: bool, k: Seq<char>)
    ensures
        nonempty_keys(ps, cs).contains(k) <==> exists|i: int|
            0 <= i < ps.len() && (#[trigger] ps[i]).len() > 0 && key_of(ps[i], cs) == k,
    decreases ps.len(),
{
    if ps.len() > 0 {
        let init = ps.drop_last();
        lemma_nonempty_keys_contains(init, cs, k);
        let acc = nonempty_keys(init, cs);
        let p = ps.last();
        if nonempty_keys(ps, cs).contains(k) {
            if acc.contains(k) {
                let i = choose|i: int|
                    0 <= i < init.len() && (#[trigger] init[i]).len() > 0 && key_of(init[i], cs)
                        == k;
                assert(ps[i] == init[i]);
            } else {
                let n = acc.len();
                assert(p.len() > 0);
                let j = choose|j: int| 0 <= j < nonempty_keys(ps, cs).len() && nonempty_keys(
                    ps,
                    cs,
                )[j] == k;
                if j < n {
                    assert(acc[j] == k);
                }
                assert(ps[ps.len() - 1] == p);
            }
        }
        if exists|i: int| 0 <= i < ps.len() && (#[trigger] ps[i]).len() > 0 && key_of(ps[i], cs) == k {
            let i = choose|i: int|
                0 <= i < ps.len() && (#[trigger] ps[i]).len() > 0 && key_of(ps[i], cs) == k;
            if i < ps.len() - 1 {
                assert(init[i] == ps[i]);
                let j = choose|j: int| 0 <= j < acc.len() && acc[j] == k;
                assert(nonempty_keys(ps, cs)[j] == k);
            } else {
                assert(ps[i] == p);
                assert(nonempty_keys(ps, cs) == acc.push(key_of(p, cs)));
                assert(nonempty_keys(ps, cs)[acc.len() as int] == k);
            }
        }
    }
}

/// No two non-empty pieces that `dedupe` keeps share a comparison key.
pub proof fn lemma_dedupe_distinct(ps: Seq<Seq<char>>, cs: bool, ke: bool)
    ensures
        forall|i: int, j: int|
            0 <= i < j < dedupe(ps, cs, ke).len() && dedupe(ps, cs, ke)[i].len() > 0 && dedupe(
                ps,
                cs,
                ke,
            )[j].len() > 0 ==> key_of(#[trigger] dedupe(ps, cs, ke)[i], cs) != key_of(
                #[trigger] dedupe(ps, cs, ke)[j],
                cs,
            ),
    decreases ps.len(),
{
    if ps.len() > 0 {
        let init = ps.drop_last();
        lemma_dedupe_distinct(init, cs, ke);
        let acc = dedupe(init, cs, ke);
        let p = ps.last();
        let d = dedupe(ps, cs, ke);
        lemma_nonempty_keys_contains(acc, cs, key_of(p, cs));
        assert forall|i: int, j: int|
            0 <= i < j < d.len() && d[i].len() > 0 && d[j].len() > 0 implies key_of(
            #[trigger] d[i],
            cs,
        ) != key_of(#[trigger] d[j], cs) by {
            if j < acc.len() {
                assert(d[i] == acc[i]);
                assert(d[j] == acc[j]);
            } else {
                assert(d == acc.push(p));
                assert(d[i] == acc[i]);
                assert(d[j] == p);
            }
        }
    }
}

/// Every non-empty piece has its comparison key among the non-empty pieces that `dedupe`
/// keeps.
pub proof fn lemma_dedupe_covers(ps: Seq<Seq<char>>, cs: bool, ke: bool)
    ensures
        forall|i: int|
            0 <= i < ps.len() && (#[trigger] ps[i]).len() > 0 ==> exists|j: int|
                0 <= j < dedupe(ps, cs, ke).len() && (#[trigger] dedupe(ps, cs, ke)[j]).len() > 0
                    && key_of(dedupe(ps, cs, ke)[j], cs) == key_of(ps[i], cs),
    decreases ps.len(),
{
    if ps.len() > 0 {
        let init = ps.drop_last();
        lemma_dedupe_covers(init, cs, ke);
        let acc = dedupe(init, cs, ke);
        let p = ps.last();
        let d = dedupe(ps, cs, ke);
        assert forall|i: int| 0 <= i < ps.len() && (#[trigger] ps[i]).len() > 0 implies exists|j: int|
            0 <= j < d.len() && (#[trigger] d[j]).len() > 0 && key_of(d[j], cs) == key_of(ps[i], cs) by {
            if i < ps.len() - 1 {
                assert(init[i] == ps[i]);
                let j = choose|j: int|
                    0 <= j < acc.len() && (#[trigger] acc[j]).len() > 0 && key_of(acc[j], cs)
                        == key_of(init[i], cs);
                assert(d[j] == acc[j]);
            } else {
                assert(ps[i] == p);
                lemma_nonempty_keys_contains(acc, cs, key_of(p, cs));
                if nonempty_keys(acc, cs).contains(key_of(p, cs)) {
                    let j = choose|j: int|
                        0 <= j < acc.len() && (#[trigger] acc[j]).len() > 0 && key_of(acc[j], cs)
                            == key_of(p, cs);
                    assert(d[j] == acc[j]);
                } else {
                    assert(d == acc.push(p));
                    assert(d[acc.len() as int] == p);
                }
            }
        }
    }
}

/// Cleaning removes later duplicates and nothing else that the policy keeps: no two
/// non-empty cleaned entries share a comparison key, and every non-empty entry of the
/// value that the policy keeps has its key among the cleaned entries.
pub proof fn law_clean_keeps_one_entry_per_key(
    value: Seq<char>,
    sep: char,
    cs: bool,
    variable: PathVariable,
    keys: Seq<Seq<char>>,
)
    ensures
        forall|i: int, j: int|
            0 <= i < j < clean_model(value, sep, cs, variable, keys).len() && clean_model(
                value,
                sep,
                cs,
                variable,
                keys,
            )[i].len() > 0 && clean_model(value, sep, cs, variable, keys)[j].len() > 0 ==> key_of(
                #[trigger] clean_model(value, sep, cs, variable, keys)[i],
                cs,
            ) != key_of(#[trigger] clean_model(value, sep, cs, variable, keys)[j], cs),
        forall|i: int|
            0 <= i < split_on(value, sep).len() && (#[trigger] split_on(value, sep)[i]).len() > 0
                && !drops_raw(keys, split_on(value, sep)[i], cs) ==> exists|j: int|
                0 <= j < clean_model(value, sep, cs, variable, keys).len() && (
                #[trigger] clean_model(value, sep, cs, variable, keys)[j]).len() > 0 && key_of(
                    clean_model(value, sep, cs, variable, keys)[j],
                    cs,
                ) == key_of(split_on(value, sep)[i], cs),
{
    let ke = variable == PathVariable::Manpath;
    let pieces = split_on(value, sep);
    let u = undropped(pieces, keys, cs);
    lemma_dedupe_distinct(u, cs, ke);
    lemma_dedupe_covers(u, cs, ke);
    lemma_undropped_keeps(pieces, keys, cs);
    let c = dedupe(u, cs, ke);
    assert forall|i: int|
        0 <= i < pieces.len() && (#[trigger] pieces[i]).len() > 0 && !drops_raw(keys, pieces[i], cs)
        implies exists|j: int| 0 <= j < c.len() && (#[trigger] c[j]).len() > 0 && key_of(c[j], cs)
        == key_of(pieces[i], cs) by {
        let k = choose|k: int| 0 <= k < u.len() && u[k] == pieces[i];
        assert(u[k].len() > 0);
    }
}

/// Every piece that the keys keep is kept by `undropped`.
pub proof fn lemma_undropped_keeps(ps: Seq<Seq<char>>, keys: Seq<Seq<char>>, cs: bool)
    ensures
        forall|i: int|
            0 <= i < ps.len() && !drops_raw(keys, #[trigger] ps[i], cs) ==> exists|k: int|
                0 <= k < undropped(ps, keys, cs).len() && undropped(ps, keys, cs)[k] == ps[i],
    decreases ps.len(),
{
    if ps.len() > 0 {
        let init = ps.drop_last();
        lemma_undropped_keeps(init, keys, cs);
        let acc = undropped(init, keys, cs);
        let u = undropped(ps, keys, cs);
        assert forall|i: int| 0 <= i < ps.len() && !drops_raw(keys, #[trigger] ps[i], cs) implies exists|k: int|
            0 <= k < u.len() && u[k] == ps[i] by {
            if i < ps.len() - 1 {
                assert(init[i] == ps[i]);
                let k = choose|k: int| 0 <= k < acc.len() && acc[k] == init[i];
                assert(u[k] == acc[k]);
            } else {
                assert(ps[i] == ps.last());
                assert(u == acc.push(ps.last()));
                assert(u[acc.len() as int] == ps[i]);
            }
        }
    }
}

} // verus!

verus! {

/// Joining one more part adds it and, unless it is the first, one separator.
proof fn lemma_join_len_push(a: Seq<Seq<char>>, x: Seq<char>, sep: char)
    ensures
        join_with(a.push(x), seq![sep]).len() == join_with(a, seq![sep]).len() + (if a.len() > 0 {
            1int
        } else {
            0int
        }) + x.len(),
{
    assert(a.push(x).drop_last() == a);
    assert(a.push(x).last() == x);
    if a.len() == 0 {
        assert(a.push(x).len() == 1);
        assert(a.push(x)[0] == x);
    }
}

/// One step of a filter: keeping or leaving out the next part keeps the joined text no
/// longer than the joined input.
proof fn lemma_join_len_step(
    f: Seq<Seq<char>>,
    ps: Seq<Seq<char>>,
    x: Seq<char>,
    keep: bool,
    sep: char,
)
    requires
        f.len() <= ps.len(),
        join_with(f, seq![sep]).len() <= join_with(ps, seq![sep]).len(),
    ensures
        (if keep {
            f.push(x)
        } else {
            f
        }).len() <= ps.push(x).len(),
        join_with(
            if keep {
                f.push(x)
            } else {
                f
            },
            seq![sep],
        ).len() <= join_with(ps.push(x), seq![sep]).len(),
{
    lemma_join_len_push(f, x, sep);
    lemma_join_len_push(ps, x, sep);
}

/// Leaving out dropped pieces never lengthens the joined text.
proof fn lemma_undropped_join_len(ps: Seq<Seq<char>>, keys: Seq<Seq<char>>, cs: bool, sep: char)
    ensures
        undropped(ps, keys, cs).len() <= ps.len(),
        join_with(undropped(ps, keys, cs), seq![sep]).len() <= join_with(ps, seq![sep]).len(),
    decreases ps.len(),
{
    if ps.len() > 0 {
        lemma_undropped_join_len(ps.drop_last(), keys, cs, sep);
        lemma_join_len_step(
            undropped(ps.drop_last(), keys, cs),
            ps.drop_last(),
            ps.last(),
            !drops_raw(keys, ps.last(), cs),
            sep,
        );
        assert(ps.drop_last().push(ps.last()) == ps);
    }
}

/// Deduplicating never lengthens the joined text.
proof fn lemma_dedupe_join_len(ps: Seq<Seq<char>>, cs: bool, ke: bool, sep: char)
    ensures
        dedupe(ps, cs, ke).len() <= ps.len(),
        join_with(dedupe(ps, cs, ke), seq![sep]).len() <= join_with(ps, seq![sep]).len(),
    decreases ps.len(),
{
    if ps.len() > 0 {
        lemma_dedupe_join_len(ps.drop_last(), cs, ke, sep);
        let acc = dedupe(ps.drop_last(), cs, ke);
        lemma_join_len_step(acc, ps.drop_last(), ps.last(), dedupe(ps, cs, ke) != acc, sep);
        assert(ps.drop_last().push(ps.last()) == ps);
    }
}

/// Cleaning is a first-occurrence filter of the pieces the policy keeps: every kept
/// non-empty piece is represented by a cleaned entry with its comparison key (and, with
/// the laws on order, emptiness and keys, each cleaned entry is the first piece of its key);
/// and the cleaned value is never longer than the input value.
pub proof fn law_clean_filters_first_occurrences(
    value: Seq<char>,
    sep: char,
    cs: bool,
    variable: PathVariable,
    keys: Seq<Seq<char>>,
)
    ensures
        forall|i: int|
            0 <= i < split_on(value, sep).len() && (#[trigger] split_on(value, sep)[i]).len() > 0
                && !drops_raw(keys, split_on(value, sep)[i], cs) ==> exists|j: int|
                0 <= j < clean_model(value, sep, cs, variable, keys).len() && key_of(
                    #[trigger] clean_model(value, sep, cs, variable, keys)[j],
                    cs,
                ) == key_of(split_on(value, sep)[i], cs),
        clean_text(value, sep, cs, variable, keys).len() <= value.len(),
{
    let ke = variable == PathVariable::Manpath;
    let pieces = split_on(value, sep);
    let u = undropped(pieces, keys, cs);
    let c = dedupe(u, cs, ke);
    lemma_undropped_keeps(pieces, keys, cs);
    lemma_dedupe_covers(u, cs, ke);
    assert forall|i: int|
        0 <= i < pieces.len() && (#[trigger] pieces[i]).len() > 0 && !drops_raw(keys, pieces[i], cs)
            implies exists|j: int| 0 <= j < c.len() && key_of(#[trigger] c[j], cs) == key_of(
            pieces[i],
            cs,
        ) by {
        let k = choose|k: int| 0 <= k < u.len() && u[k] == pieces[i];
        assert(u[k].len() > 0);
        let j = choose|j: int|
            0 <= j < c.len() && (#[trigger] c[j]).len() > 0 && key_of(c[j], cs) == key_of(u[k], cs);
        assert(clean_model(value, sep, cs, variable, keys)[j] == c[j]);
    }
    assert(c == clean_model(value, sep, cs, variable, keys));
    lemma_undropped_join_len(pieces, keys, cs, sep);
    lemma_dedupe_join_len(u, cs, ke, sep);
    crate::text::lemma_join_split(value, sep);
}

} // verus!

verus! {

/// An export snippet quotes the cleaned value itself: for bash and zsh
/// `export <VAR>='<value>'` with each embedded quote written as `'\''`; for PowerShell
/// `$env:<Var> = '<value>'` with each embedded quote doubled; for fish `set -gx <VAR>`
/// followed by each cleaned entry in single quotes, backslashes and quotes escaped.
pub proof fn law_export_quotes_the_cleaned_value(
    value: Seq<char>,
    sep: char,
    cs: bool,
    variable: PathVariable,
    keys: Seq<Seq<char>>,
    shell: ShellKind,
)
    ensures
        ({
            let entries = clean_model(value, sep, cs, variable, keys);
            let cleaned = clean_text(value, sep, cs, variable, keys);
            let text = export_text(entries, sep, shell, variable);
            &&& (shell == ShellKind::Bash || shell == ShellKind::Zsh) ==> text == "export "@
                + path_variable_env_name(variable) + "="@ + posix_quoted(cleaned)
            &&& shell == ShellKind::Pwsh ==> text == "$env:"@ + path_variable_powershell_name(
                variable,
            ) + " = "@ + powershell_quoted(cleaned)
            &&& shell == ShellKind::Fish ==> text == fish_export_text(entries, variable)
        }),
{
}

} // verus!

verus! {

/// A drop entry removes entries by comparison key, under the same rules as the value: the
/// keys a policy removes are exactly the comparison keys of its non-empty drop entries and
/// preset entries, so each non-empty drop entry's key is among them, and a cleaned value
/// keeps no non-empty entry whose comparison key equals that of a drop entry.
pub proof fn law_drop_entries_remove_by_key(
    policy: PathPolicy,
    value: Seq<char>,
    sep: char,
    cs: bool,
    variable: PathVariable,
)
    ensures
        forall|k: Seq<char>|
            #![trigger drop_keys(policy, cs).contains(k)]
            drop_keys(policy, cs).contains(k) <==> exists|i: int|
                0 <= i < crate::policy::policy_sources(policy).len() && (
                #[trigger] crate::policy::policy_sources(policy)[i]).len() > 0 && key_of(
                    crate::policy::policy_sources(policy)[i],
                    cs,
                ) == k,
        forall|d: int|
            0 <= d < policy.drop_entries@.len() && (#[trigger] policy.drop_entries@[d])@.len() > 0
                ==> drop_keys(policy, cs).contains(key_of(policy.drop_entries@[d]@, cs)),
        forall|d: int, i: int|
            0 <= d < policy.drop_entries@.len() && (#[trigger] policy.drop_entries@[d])@.len() > 0
                && 0 <= i < clean_model(value, sep, cs, variable, drop_keys(policy, cs)).len() && (
            #[trigger] clean_model(value, sep, cs, variable, drop_keys(policy, cs))[i]).len() > 0
                ==> key_of(clean_model(value, sep, cs, variable, drop_keys(policy, cs))[i], cs)
                != key_of(policy.drop_entries@[d]@, cs),
{
    let srcs = crate::policy::policy_sources(policy);
    assert forall|k: Seq<char>| #[trigger]
        drop_keys(policy, cs).contains(k) <==> exists|i: int|
            0 <= i < srcs.len() && (#[trigger] srcs[i]).len() > 0 && key_of(srcs[i], cs) == k by {
        crate::policy::lemma_source_keys_contains(srcs, cs, k);
    }
    assert forall|d: int|
        0 <= d < policy.drop_entries@.len() && (#[trigger] policy.drop_entries@[d])@.len()
            > 0 implies drop_keys(policy, cs).contains(key_of(policy.drop_entries@[d]@, cs)) by {
        assert(srcs[d] == policy.drop_entries@[d]@);
        crate::policy::lemma_source_keys_contains(srcs, cs, key_of(policy.drop_entries@[d]@, cs));
    }
    law_clean_preserves_order(value, sep, cs, variable, drop_keys(policy, cs));
}

} // verus!
