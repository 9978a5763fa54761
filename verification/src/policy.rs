//! Entry removal policy: explicit drop entries and the removal rules of presets.
use vstd::prelude::*;
use crate::model::{PathEntry, PathVariable, PlatformMode, PlatformRules, PresetKind};
use crate::normalize::{comparison_key, key_of};
use crate::platform::resolve_platform_rules;
use crate::text::{contains_text, owned, views};

verus! {

/// A removal policy for one path-like variable.
#[derive(Clone, Debug, PartialEq, Eq)]
pub struct PathPolicy {
    /// Entries selected for removal, in the order given.
    pub drop_entries: Vec<String>,
    /// Presets selected, in the order given.
    pub presets: Vec<PresetKind>,
    /// The variable the policy applies to.
    pub variable: PathVariable,
}

/// A policy compiled under concrete platform rules: the comparison keys it removes.
#[derive(Clone, Debug, PartialEq, Eq)]
pub struct CompiledPolicy {
    /// Comparison keys of the entries the policy removes.
    pub keys: Vec<String>,
}

/// The entries a preset removes from a variable.
pub open spec fn preset_drops(preset: PresetKind, variable: PathVariable) -> Seq<Seq<char>> {
    match (preset, variable) {
        (PresetKind::Fink, PathVariable::Path) => seq!["/sw/bin"@, "/sw/sbin"@],
        (PresetKind::Fink, PathVariable::Manpath) => seq!["/sw/share/man"@],
        _ => Seq::<Seq<char>>::empty(),
    }
}

/// The entries the presets of a policy remove, preset by preset.
pub open spec fn presets_drops(presets: Seq<PresetKind>, variable: PathVariable) -> Seq<Seq<char>>
    decreases presets.len(),
{
    if presets.len() == 0 {
        Seq::<Seq<char>>::empty()
    } else {
        presets_drops(presets.drop_last(), variable) + preset_drops(presets.last(), variable)
    }
}

/// The comparison keys of the non-empty sources, in order.
pub open spec fn source_keys(sources: Seq<Seq<char>>, case_sensitive: bool) -> Seq<Seq<char>>
    decreases sources.len(),
{
    if sources.len() == 0 {
        Seq::<Seq<char>>::empty()
    } else {
        let acc = source_keys(sources.drop_last(), case_sensitive);
        if sources.last().len() == 0 {
            acc
        } else {
            acc.push(key_of(sources.last(), case_sensitive))
        }
    }
}

/// A key is among the source keys exactly when it is the comparison key of a non-empty
/// source.
pub proof fn lemma_source_keys_contains(sources: Seq<Seq<char>>, case_sensitive: bool, k: Seq<char>)
    ensures
        source_keys(sources, case_sensitive).contains(k) <==> exists|i: int|
            0 <= i < sources.len() && (#[trigger] sources[i]).len() > 0 && key_of(
                sources[i],
                case_sensitive,
            ) == k,
    decreases sources.len(),
{
    if sources.len() > 0 {
        let n = sources.len() as int;
        let init = sources.drop_last();
        lemma_source_keys_contains(init, case_sensitive, k);
        let acc = source_keys(init, case_sensitive);
        let all = source_keys(sources, case_sensitive);
        let last = sources.last();
        assert(last == sources[n - 1]);
        if last.len() == 0 {
            assert(all == acc);
        } else {
            assert(all == acc.push(key_of(last, case_sensitive)));
            assert(all[acc.len() as int] == key_of(last, case_sensitive));
        }
        if exists|i: int|
            0 <= i < sources.len() && (#[trigger] sources[i]).len() > 0 && key_of(
                sources[i],
                case_sensitive,
            ) == k {
            let i = choose|i: int|
                0 <= i < sources.len() && (#[trigger] sources[i]).len() > 0 && key_of(
                    sources[i],
                    case_sensitive,
                ) == k;
            if i < n - 1 {
                assert(init[i] == sources[i]);
                let m = choose|m: int| 0 <= m < acc.len() && acc[m] == k;
                assert(all[m] == acc[m]);
            }
        }
        if all.contains(k) {
            let m = choose|m: int| 0 <= m < all.len() && all[m] == k;
            if m < acc.len() {
                assert(acc[m] == all[m]);
                assert(acc.contains(k));
                let i = choose|i: int|
                    0 <= i < init.len() && (#[trigger] init[i]).len() > 0 && key_of(
                        init[i],
                        case_sensitive,
                    ) == k;
                assert(sources[i] == init[i]);
            } else {
                assert(sources[n - 1].len() > 0);
            }
        }
    }
}

/// The comparison keys a policy removes under the given case sensitivity: those of its
/// drop entries, then those of its presets' entries.
pub open spec fn drop_keys(policy: PathPolicy, case_sensitive: bool) -> Seq<Seq<char>> {
    source_keys(policy_sources(policy), case_sensitive)
}

/// The entries a policy names for removal: its drop entries, then its presets' entries.
pub open spec fn policy_sources(policy: PathPolicy) -> Seq<Seq<char>> {
    views(policy.drop_entries@) + presets_drops(policy.presets@, policy.variable)
}

/// Whether the keys remove the non-empty entry `raw`.
pub open spec fn drops_raw(keys: Seq<Seq<char>>, raw: Seq<char>, case_sensitive: bool) -> bool {
    raw.len() > 0 && keys.contains(key_of(raw, case_sensitive))
}

/// Copies of the preset values, in order.
fn copy_presets(presets: &[PresetKind]) -> (out: Vec<PresetKind>)
    ensures
        out@ == presets@,
{
    let mut out: Vec<PresetKind> = Vec::new();
    let mut i: usize = 0;
    while i < presets.len()
        invariant
            i <= presets.len(),
            out@ == presets@.take(i as int),
        decreases presets.len() - i,
    {
        out.push(presets[i]);
        assert(presets@.take(i + 1) == presets@.take(i as int).push(presets@[i as int]));
        i += 1;
    }
    assert(presets@.take(presets.len() as int) == presets@);
    out
}

/// Copies of the strings, in order.
pub fn copy_strings(values: &[String]) -> (out: Vec<String>)
    ensures
        out@ == values@,
{
    let mut out: Vec<String> = Vec::new();
    let mut i: usize = 0;
    while i < values.len()
        invariant
            i <= values.len(),
            out@ == values@.take(i as int),
        decreases values.len() - i,
    {
        out.push(values[i].clone());
        assert(values@.take(i + 1) == values@.take(i as int).push(values@[i as int]));
        i += 1;
    }
    assert(values@.take(values.len() as int) == values@);
    out
}

impl PathPolicy {
    /// A policy for `variable` removing `drop_entries` and applying `presets`.
    pub fn new(drop_entries: &[String], presets: &[PresetKind], variable: PathVariable) -> (p:
        PathPolicy)
        ensures
            p.drop_entries@ == drop_entries@,
            p.presets@ == presets@,
            p.variable == variable,
    {
        PathPolicy {
            drop_entries: copy_strings(drop_entries),
            presets: copy_presets(presets),
            variable,
        }
    }

    /// Whether the policy selects nothing: no drop entries and no presets.
    pub fn is_empty(&self) -> (r: bool)
        ensures
            r == (self.drop_entries@.len() == 0 && self.presets@.len() == 0),
    {
        self.drop_entries.len() == 0 && self.presets.len() == 0
    }

    /// The ordering presets selected (all but Fink), each once, in first-seen order.
    pub fn ordering_presets(&self) -> (r: Vec<PresetKind>)
        ensures
            r@ == ordering_presets_of(self.presets@),
    {
        let mut out: Vec<PresetKind> = Vec::new();
        let mut i: usize = 0;
        while i < self.presets.len()
            invariant
                i <= self.presets.len(),
                out@ == ordering_presets_of(self.presets@.take(i as int)),
            decreases self.presets.len() - i,
        {
            let ghost t = self.presets@.take(i + 1);
            assert(t.drop_last() == self.presets@.take(i as int));
            let preset = self.presets[i];
            if preset != PresetKind::Fink && !contains_preset(&out, preset) {
                out.push(preset);
            }
            i += 1;
        }
        assert(self.presets@.take(self.presets.len() as int) == self.presets@);
        out
    }

    /// The policy compiled under the rules of a platform mode.
    pub fn compile(&self, platform_mode: PlatformMode, pathext: Option<&str>) -> (c: CompiledPolicy)
        ensures
            views(c.keys@) == drop_keys(*self, true) || views(c.keys@) == drop_keys(*self, false),
            platform_mode == PlatformMode::Posix ==> views(c.keys@) == drop_keys(*self, true),
            platform_mode == PlatformMode::Windows ==> views(c.keys@) == drop_keys(*self, false),
    {
        let rules = resolve_platform_rules(platform_mode, pathext);
        self.compile_with_rules(&rules)
    }

    /// The policy compiled under concrete rules.
    pub fn compile_with_rules(&self, rules: &PlatformRules) -> (c: CompiledPolicy)
        ensures
            views(c.keys@) == drop_keys(*self, rules.case_sensitive),
    {
        let mut sources: Vec<String> = copy_strings(self.drop_entries.as_slice());
        let mut i: usize = 0;
        let ghost base = views(self.drop_entries@);
        while i < self.presets.len()
            invariant
                i <= self.presets.len(),
                base == views(self.drop_entries@),
                views(sources@) == base + presets_drops(
                    self.presets@.take(i as int),
                    self.variable,
                ),
            decreases self.presets.len() - i,
        {
            let ghost t = self.presets@.take(i + 1);
            assert(t.drop_last() == self.presets@.take(i as int));
            let ghost before = views(sources@);
            if self.presets[i] == PresetKind::Fink {
                match self.variable {
                    PathVariable::Path => {
                        sources.push(owned("/sw/bin"));
                        sources.push(owned("/sw/sbin"));
                        assert(views(sources@) == before + seq!["/sw/bin"@, "/sw/sbin"@]);
                    },
                    PathVariable::Manpath => {
                        sources.push(owned("/sw/share/man"));
                        assert(views(sources@) == before + seq!["/sw/share/man"@]);
                    },
                }
            } else {
                assert(before + Seq::<Seq<char>>::empty() == before);
            }
            assert(base + presets_drops(t, self.variable) == base + presets_drops(
                self.presets@.take(i as int),
                self.variable,
            ) + preset_drops(self.presets@[i as int], self.variable));
            i += 1;
        }
        assert(self.presets@.take(self.presets.len() as int) == self.presets@);
        let mut keys: Vec<String> = Vec::new();
        let mut j: usize = 0;
        while j < sources.len()
            invariant
                j <= sources.len(),
                views(keys@) == source_keys(views(sources@).take(j as int), rules.case_sensitive),
            decreases sources.len() - j,
        {
            let ghost t = views(sources@).take(j + 1);
            assert(t.drop_last() == views(sources@).take(j as int));
            assert(t.last() == sources@[j as int]@);
            if !sources[j].as_str().is_empty() {
                let ghost before = views(keys@);
                keys.push(comparison_key(sources[j].as_str(), rules));
                assert(views(keys@) == before.push(key_of(sources@[j as int]@, rules.case_sensitive)));
            }
            j += 1;
        }
        assert(views(sources@).take(sources.len() as int) == views(sources@));
        CompiledPolicy { keys }
    }
}

impl Default for PathPolicy {
    /// The empty policy for PATH.
    fn default() -> (p: PathPolicy)
        ensures
            p.drop_entries@.len() == 0,
            p.presets@.len() == 0,
            p.variable == PathVariable::Path,
    {
        PathPolicy { drop_entries: Vec::new(), presets: Vec::new(), variable: PathVariable::Path }
    }
}

/// The ordering presets among `presets` (all but Fink), each once, in first-seen order.
pub open spec fn ordering_presets_of(presets: Seq<PresetKind>) -> Seq<PresetKind>
    decreases presets.len(),
{
    if presets.len() == 0 {
        Seq::<PresetKind>::empty()
    } else {
        let acc = ordering_presets_of(presets.drop_last());
        let p = presets.last();
        if p == PresetKind::Fink || acc.contains(p) {
            acc
        } else {
            acc.push(p)
        }
    }
}

/// Whether the list holds the preset.
pub fn contains_preset(list: &Vec<PresetKind>, p: PresetKind) -> (r: bool)
    ensures
        r == list@.contains(p),
{
    let mut i: usize = 0;
    while i < list.len()
        invariant
            i <= list.len(),
            forall|j: int| 0 <= j < i ==> list@[j] != p,
        decreases list.len() - i,
    {
        if list[i] == p {
            return true;
        }
        i += 1;
    }
    false
}

impl CompiledPolicy {
    /// Whether the policy removes the entry: it is not empty and its comparison key is one
    /// the policy removes.
    pub fn matches_entry(&self, entry: &PathEntry) -> (r: bool)
        ensures
            r == (!entry.is_empty && views(self.keys@).contains(entry.comparison_key@)),
    {
        !entry.is_empty && contains_text(&self.keys, entry.comparison_key.as_str())
    }
}

} // verus!
