//! The locale resolver: flattening a catalog into per-locale key-to-string
//! tables. A key contributes a pair for a locale exactly when its entry has
//! a fixed, translated localization for that locale; every other outcome
//! (missing localization, untranslated state, variant shape, empty node) is
//! a collected diagnostic, never an abort and never a silent skip.

use vstd::prelude::*;
use crate::model::Root;
use crate::model::StringEntry;
use crate::model::StringUnitState;
use crate::model::Localization;
use crate::model::Diagnostic;
use crate::model::DiagKind;
use crate::model::assoc_lookup;
use crate::model::assoc_keys_unique;

verus! {

/// The view of a flattened table: each pair of strings as a pair of
/// character sequences.
pub open spec fn pairs_view(v: Seq<(String, String)>) -> Seq<(Seq<char>, Seq<char>)> {
    v.map_values(|p: (String, String)| (p.0@, p.1@))
}

/// The view of one diagnostic: its kind, output key and locale.
pub open spec fn diag_view(d: Diagnostic) -> (DiagKind, Seq<char>, Seq<char>) {
    (d.kind, d.key@, d.locale@)
}

/// The view of a collected diagnostic sequence.
pub open spec fn diags_view(v: Seq<Diagnostic>) -> Seq<(DiagKind, Seq<char>, Seq<char>)> {
    v.map_values(|d: Diagnostic| diag_view(d))
}

/// Whether a view-level table holds a pair for key `k`.
pub open spec fn pairs_has_key(ps: Seq<(Seq<char>, Seq<char>)>, k: Seq<char>) -> bool {
    exists|idx: int| 0 <= idx < ps.len() && (#[trigger] ps[idx]).0 == k
}

/// Whether an association list holds a pair for key `k`.
pub open spec fn assoc_has_key<V>(s: Seq<(String, V)>, k: Seq<char>) -> bool {
    exists|i: int| 0 <= i < s.len() && (#[trigger] s[i]).0@ == k
}

/// The single usable string of a localization, if it has one: the value of
/// a fixed string unit in the translated state. A variant shape has no
/// single usable string, and neither has an empty node or an untranslated
/// unit.
pub open spec fn usable_value(l: Localization) -> Option<Seq<char>> {
    match l {
        Localization::Fixed(u) => if u.state is Translated {
            Some(u.value@)
        } else {
            None
        },
        _ => None,
    }
}

/// What one entry contributes to the table of `locale`, if anything.
pub open spec fn resolve_entry(e: StringEntry, locale: Seq<char>) -> Option<Seq<char>> {
    match assoc_lookup(e.localizations@, locale) {
        Some(l) => usable_value(l),
        None => None,
    }
}

/// The diagnostic one entry raises for `locale`, if any: exactly when it
/// contributes no pair.
pub open spec fn entry_diag(key: Seq<char>, e: StringEntry, locale: Seq<char>) -> Option<
    (DiagKind, Seq<char>, Seq<char>),
> {
    match assoc_lookup(e.localizations@, locale) {
        None => Some((DiagKind::MissingLocalization, key, locale)),
        Some(l) => match l {
            Localization::Fixed(u) => if u.state is Translated {
                None
            } else {
                Some((DiagKind::UntranslatedSkipped, key, locale))
            },
            Localization::PluralVariant(_) => Some((DiagKind::AmbiguousVariant, key, locale)),
            Localization::DeviceVariant(_) => Some((DiagKind::AmbiguousVariant, key, locale)),
            Localization::Empty => Some((DiagKind::NoUsableTranslation, key, locale)),
        },
    }
}

/// The flattened table of `locale`, in catalog entry order.
pub open spec fn resolve_pairs(strings: Seq<(String, StringEntry)>, locale: Seq<char>) -> Seq<
    (Seq<char>, Seq<char>),
>
    decreases strings.len(),
{
    if strings.len() == 0 {
        Seq::empty()
    } else {
        let rest = resolve_pairs(strings.drop_last(), locale);
        match resolve_entry(strings.last().1, locale) {
            Some(v) => rest.push((strings.last().0@, v)),
            None => rest,
        }
    }
}

/// The diagnostics resolution of `locale` raises, in catalog entry order.
pub open spec fn resolve_diags(strings: Seq<(String, StringEntry)>, locale: Seq<char>) -> Seq<
    (DiagKind, Seq<char>, Seq<char>),
>
    decreases strings.len(),
{
    if strings.len() == 0 {
        Seq::empty()
    } else {
        let rest = resolve_diags(strings.drop_last(), locale);
        match entry_diag(strings.last().0@, strings.last().1, locale) {
            Some(d) => rest.push(d),
            None => rest,
        }
    }
}

/// A locale occurs among the locale keys of one entry's localizations.
pub open spec fn locale_in_locs(locs: Seq<(String, Localization)>, loc: Seq<char>) -> bool {
    exists|j: int| 0 <= j < locs.len() && (#[trigger] locs[j]).0@ == loc
}

/// A locale occurs somewhere in the catalog.
pub open spec fn locale_observed(strings: Seq<(String, StringEntry)>, loc: Seq<char>) -> bool {
    exists|i: int|
        0 <= i < strings.len() && locale_in_locs((#[trigger] strings[i]).1.localizations@, loc)
}

/// The diagnostics of resolving every locale of `locs` in turn.
pub open spec fn all_diags(strings: Seq<(String, StringEntry)>, locs: Seq<Seq<char>>) -> Seq<
    (DiagKind, Seq<char>, Seq<char>),
>
    decreases locs.len(),
{
    if locs.len() == 0 {
        Seq::empty()
    } else {
        all_diags(strings, locs.drop_last()) + resolve_diags(strings, locs.last())
    }
}

/// A key is in the table of a locale exactly when some entry under that key
/// has a usable (fixed, translated) localization for it.
pub proof fn lemma_key_coverage(strings: Seq<(String, StringEntry)>, locale: Seq<char>, k: Seq<char>)
    ensures
        pairs_has_key(resolve_pairs(strings, locale), k) <==> exists|i: int|
            0 <= i < strings.len() && (#[trigger] strings[i]).0@ == k && resolve_entry(
                strings[i].1,
                locale,
            ) is Some,
    decreases strings.len(),
{
    let rp = resolve_pairs(strings, locale);
    if strings.len() == 0 {
        assert(rp.len() == 0);
    } else {
        let pre = strings.drop_last();
        let rpre = resolve_pairs(pre, locale);
        lemma_key_coverage(pre, locale, k);
        let n = strings.len() as int;
        if pairs_has_key(rp, k) {
            let idx = choose|idx: int| 0 <= idx < rp.len() && rp[idx].0 == k;
            match resolve_entry(strings.last().1, locale) {
                Some(v) => {
                    if idx < rpre.len() {
                        assert(rpre[idx].0 == k);
                        let i = choose|i: int|
                            0 <= i < pre.len() && pre[i].0@ == k && resolve_entry(
                                pre[i].1,
                                locale,
                            ) is Some;
                        assert(strings[i] == pre[i]);
                    } else {
                        assert(rp[idx] == (strings.last().0@, v));
                        assert(strings[n - 1].0@ == k);
                    }
                },
                None => {
                    assert(rpre[idx].0 == k);
                    let i = choose|i: int|
                        0 <= i < pre.len() && pre[i].0@ == k && resolve_entry(
                            pre[i].1,
                            locale,
                        ) is Some;
                    assert(strings[i] == pre[i]);
                },
            }
        }
        if exists|i: int|
            0 <= i < strings.len() && (#[trigger] strings[i]).0@ == k && resolve_entry(
                strings[i].1,
                locale,
            ) is Some {
            let i = choose|i: int|
                0 <= i < strings.len() && (#[trigger] strings[i]).0@ == k && resolve_entry(
                    strings[i].1,
                    locale,
                ) is Some;
            if i < n - 1 {
                assert(pre[i] == strings[i]);
                assert(pairs_has_key(rpre, k));
                let idx = choose|idx: int| 0 <= idx < rpre.len() && rpre[idx].0 == k;
                match resolve_entry(strings.last().1, locale) {
                    Some(v) => {
                        assert(rp[idx] == rpre[idx]);
                        assert(pairs_has_key(rp, k));
                    },
                    None => {
                        assert(pairs_has_key(rp, k));
                    },
                }
            } else {
                match resolve_entry(strings.last().1, locale) {
                    Some(v) => {
                        assert(rp[rp.len() - 1].0 == k);
                        assert(pairs_has_key(rp, k));
                    },
                    None => {},
                }
            }
        }
    }
}

/// With distinct catalog keys the flattened table has distinct keys: no
/// entry is ever overwritten.
pub proof fn lemma_resolve_pairs_keys_unique(strings: Seq<(String, StringEntry)>, locale: Seq<char>)
    requires
        assoc_keys_unique(strings),
    ensures
        ({
            let rp = resolve_pairs(strings, locale);
            forall|a: int, b: int| 0 <= a < b < rp.len() ==> rp[a].0 != rp[b].0
        }),
    decreases strings.len(),
{
    if strings.len() > 0 {
        let pre = strings.drop_last();
        let n = strings.len() as int;
        assert(forall|i: int| 0 <= i < pre.len() ==> pre[i] == strings[i]);
        lemma_resolve_pairs_keys_unique(pre, locale);
        let rp = resolve_pairs(strings, locale);
        let rpre = resolve_pairs(pre, locale);
        match resolve_entry(strings.last().1, locale) {
            Some(v) => {
                let lastk = strings.last().0@;
                lemma_key_coverage(pre, locale, lastk);
                if pairs_has_key(rpre, lastk) {
                    let i = choose|i: int|
                        0 <= i < pre.len() && pre[i].0@ == lastk && resolve_entry(
                            pre[i].1,
                            locale,
                        ) is Some;
                    assert(strings[i].0@ == strings[n - 1].0@);
                    assert(false);
                }
                assert forall|a: int, b: int| 0 <= a < b < rp.len() implies rp[a].0 != rp[b].0 by {
                    if b < rp.len() - 1 {
                        assert(rp[a] == rpre[a] && rp[b] == rpre[b]);
                    } else {
                        assert(rp[a] == rpre[a]);
                        assert(rpre[a].0 == rp[a].0);
                        if rp[a].0 == lastk {
                            assert(pairs_has_key(rpre, lastk));
                        }
                    }
                }
            },
            None => {},
        }
    }
}

/// An entry whose localization for `locale` is a fixed string in a state
/// other than `translated` puts no pair under its key into the table of
/// `locale`: partially translated content never ships.
pub proof fn lemma_untranslated_excluded(
    strings: Seq<(String, StringEntry)>,
    locale: Seq<char>,
    i: int,
)
    requires
        assoc_keys_unique(strings),
        0 <= i < strings.len(),
        assoc_lookup(strings[i].1.localizations@, locale) matches Some(Localization::Fixed(u))
            && !(u.state is Translated),
    ensures
        !pairs_has_key(resolve_pairs(strings, locale), strings[i].0@),
{
    let k = strings[i].0@;
    lemma_key_coverage(strings, locale, k);
    assert(resolve_entry(strings[i].1, locale) is None);
    if pairs_has_key(resolve_pairs(strings, locale), k) {
        let j = choose|j: int|
            0 <= j < strings.len() && (#[trigger] strings[j]).0@ == k && resolve_entry(
                strings[j].1,
                locale,
            ) is Some;
        if j != i {
            if j < i {
                assert(strings[j].0@ != strings[i].0@);
            } else {
                assert(strings[i].0@ != strings[j].0@);
            }
            assert(false);
        }
        assert(false);
    }
}

/// Association-list lookup: the value of the last pair whose key equals
/// `k`, scanned from the back.
pub fn assoc_get<'a, V>(v: &'a Vec<(String, V)>, k: &str) -> (r: Option<&'a V>)
    ensures
        match r {
            Some(val) => assoc_lookup(v@, k@) == Some(*val),
            None => assoc_lookup(v@, k@) is None,
        },
{
    let mut i: usize = v.len();
    proof {
        assert(v@.take(v@.len() as int) =~= v@);
    }
    while i > 0
        invariant
            i <= v.len(),
            assoc_lookup(v@, k@) == assoc_lookup(v@.take(i as int), k@),
        decreases i,
    {
        i = i - 1;
        proof {
            assert(v@.take(i as int + 1).last() == v@[i as int]);
            assert(v@.take(i as int + 1).drop_last() =~= v@.take(i as int));
        }
        if crate::model::str_eq(v[i].0.as_str(), k) {
            return Some(&v[i].1);
        }
    }
    proof {
        assert(v@.take(0) =~= Seq::<(String, V)>::empty());
    }
    None
}

/// Whether one of the strings of `v` reads `s`.
pub open spec fn seq_has_str(ls: Seq<String>, s: Seq<char>) -> bool {
    exists|a: int| 0 <= a < ls.len() && (#[trigger] ls[a])@ == s
}

fn contains_str(v: &Vec<String>, s: &str) -> (r: bool)
    ensures
        r == seq_has_str(v@, s@),
{
    let mut i: usize = 0;
    while i < v.len()
        invariant
            i <= v.len(),
            forall|a: int| 0 <= a < i ==> (#[trigger] v@[a])@ != s@,
        decreases v.len() - i,
    {
        if crate::model::str_eq(v[i].as_str(), s) {
            assert(v@[i as int]@ == s@);
            return true;
        }
        i += 1;
    }
    false
}

impl Root {
    /// The flattened key-to-string table of one locale, together with one
    /// diagnostic for every entry that contributed nothing to it.
    pub fn strings_for_localization(&self, locale: &str) -> (r: (
        Vec<(String, String)>,
        Vec<Diagnostic>,
    ))
        requires
            self.wf(),
        ensures
            pairs_view(r.0@) == resolve_pairs(self.strings@, locale@),
            diags_view(r.1@) == resolve_diags(self.strings@, locale@),
            assoc_keys_unique(r.0@),
    {
        let loc_owned: String = locale.to_owned();
        let mut out: Vec<(String, String)> = Vec::new();
        let mut diags: Vec<Diagnostic> = Vec::new();
        let mut i: usize = 0;
        while i < self.strings.len()
            invariant
                self.wf(),
                i <= self.strings.len(),
                loc_owned@ == locale@,
                pairs_view(out@) == resolve_pairs(self.strings@.take(i as int), locale@),
                diags_view(diags@) == resolve_diags(self.strings@.take(i as int), locale@),
            decreases self.strings.len() - i,
        {
            let ghost s = self.strings@;
            let key = &self.strings[i].0;
            let entry = &self.strings[i].1;
            proof {
                assert(s[i as int].1.wf());
                assert(s.take(i as int + 1).drop_last() =~= s.take(i as int));
                assert(s.take(i as int + 1).last() == s[i as int]);
            }
            match assoc_get(&entry.localizations, locale) {
                None => {
                    diags.push(
                        Diagnostic {
                            kind: DiagKind::MissingLocalization,
                            key: key.clone(),
                            locale: loc_owned.clone(),
                        },
                    );
                },
                Some(l) => match l {
                    Localization::Fixed(u) => match &u.state {
                        StringUnitState::Translated => {
                            out.push((key.clone(), u.value.clone()));
                        },
                        StringUnitState::Other(_) => {
                            diags.push(
                                Diagnostic {
                                    kind: DiagKind::UntranslatedSkipped,
                                    key: key.clone(),
                                    locale: loc_owned.clone(),
                                },
                            );
                        },
                    },
                    Localization::PluralVariant(_) => {
                        diags.push(
                            Diagnostic {
                                kind: DiagKind::AmbiguousVariant,
                                key: key.clone(),
                                locale: loc_owned.clone(),
                            },
                        );
                    },
                    Localization::DeviceVariant(_) => {
                        diags.push(
                            Diagnostic {
                                kind: DiagKind::AmbiguousVariant,
                                key: key.clone(),
                                locale: loc_owned.clone(),
                            },
                        );
                    },
                    Localization::Empty => {
                        diags.push(
                            Diagnostic {
                                kind: DiagKind::NoUsableTranslation,
                                key: key.clone(),
                                locale: loc_owned.clone(),
                            },
                        );
                    },
                },
            }
            proof {
                assert(pairs_view(out@) =~= resolve_pairs(s.take(i as int + 1), locale@));
                assert(diags_view(diags@) =~= resolve_diags(s.take(i as int + 1), locale@));
            }
            i += 1;
        }
        proof {
            assert(self.strings@.take(self.strings@.len() as int) =~= self.strings@);
            lemma_resolve_pairs_keys_unique(self.strings@, locale@);
            assert forall|a: int, b: int|
                0 <= a < b < out@.len() implies (#[trigger] out@[a]).0@ != (
            #[trigger] out@[b]).0@ by {
                assert(pairs_view(out@)[a].0 == out@[a].0@);
                assert(pairs_view(out@)[b].0 == out@[b].0@);
            }
        }
        (out, diags)
    }

    /// One flattened table per locale observed anywhere in the catalog —
    /// also for a locale whose table comes out empty — together with the
    /// diagnostics of every per-locale resolution.
    pub fn all_strings(&self) -> (r: (
        Vec<(String, Vec<(String, String)>)>,
        Vec<Diagnostic>,
    ))
        requires
            self.wf(),
        ensures
            assoc_keys_unique(r.0@),
            forall|i: int|
                0 <= i < r.0@.len() ==> locale_observed(self.strings@, (#[trigger] r.0@[i]).0@),
            forall|loc: Seq<char>| locale_observed(self.strings@, loc) ==> assoc_has_key(r.0@, loc),
            forall|i: int|
                0 <= i < r.0@.len() ==> pairs_view((#[trigger] r.0@[i]).1@) == resolve_pairs(
                    self.strings@,
                    r.0@[i].0@,
                ),
            forall|i: int| 0 <= i < r.0@.len() ==> assoc_keys_unique((#[trigger] r.0@[i]).1@),
            diags_view(r.1@) == all_diags(
                self.strings@,
                r.0@.map_values(|p: (String, Vec<(String, String)>)| p.0@),
            ),
    {
        let locales = self.observed_locales();
        let mut out: Vec<(String, Vec<(String, String)>)> = Vec::new();
        let mut diags: Vec<Diagnostic> = Vec::new();
        let mut t: usize = 0;
        proof {
            assert(out@.map_values(|p: (String, Vec<(String, String)>)| p.0@) =~= locales@.take(
                0,
            ).map_values(|s: String| s@));
        }
        while t < locales.len()
            invariant
                self.wf(),
                t <= locales.len(),
                out@.len() == t,
                forall|a: int, b: int|
                    0 <= a < b < locales@.len() ==> (#[trigger] locales@[a])@ != (
                    #[trigger] locales@[b])@,
                forall|a: int|
                    0 <= a < locales@.len() ==> locale_observed(
                        self.strings@,
                        (#[trigger] locales@[a])@,
                    ),
                forall|a: int| 0 <= a < t ==> (#[trigger] out@[a]).0@ == locales@[a]@,
                forall|a: int|
                    0 <= a < t ==> pairs_view((#[trigger] out@[a]).1@) == resolve_pairs(
                        self.strings@,
                        out@[a].0@,
                    ),
                forall|a: int| 0 <= a < t ==> assoc_keys_unique((#[trigger] out@[a]).1@),
                diags_view(diags@) == all_diags(
                    self.strings@,
                    out@.map_values(|p: (String, Vec<(String, String)>)| p.0@),
                ),
            decreases locales.len() - t,
        {
            let loc = &locales[t];
            let (m, mut d) = self.strings_for_localization(loc.as_str());
            let ghost old_out = out@;
            let ghost old_diags = diags@;
            let ghost dv = d@;
            out.push((loc.clone(), m));
            diags.append(&mut d);
            proof {
                let f = |p: (String, Vec<(String, String)>)| p.0@;
                assert(out@.map_values(f).drop_last() =~= old_out.map_values(f));
                assert(out@.map_values(f).last() == locales@[t as int]@);
                assert(diags@ == old_diags + dv);
                assert forall|x: int| 0 <= x < diags@.len() implies diags_view(diags@)[x] == (
                diags_view(old_diags) + diags_view(dv))[x] by {
                    if x < old_diags.len() {
                        assert(diags@[x] == old_diags[x]);
                    } else {
                        assert(diags@[x] == dv[x - old_diags.len()]);
                    }
                }
                assert(diags_view(diags@) =~= diags_view(old_diags) + diags_view(dv));
                assert(diags_view(diags@) =~= all_diags(self.strings@, out@.map_values(f)));
            }
            t += 1;
        }
        proof {
            assert forall|loc: Seq<char>|
                locale_observed(self.strings@, loc) implies assoc_has_key(out@, loc) by {
                assert(seq_has_str(locales@, loc));
                let a = choose|a: int| 0 <= a < locales@.len() && (#[trigger] locales@[a])@ == loc;
                assert(out@[a].0@ == loc);
            }
        }
        (out, diags)
    }

    /// The distinct locales observed in the catalog, in order of first
    /// occurrence.
    pub fn observed_locales(&self) -> (r: Vec<String>)
        ensures
            forall|a: int, b: int| 0 <= a < b < r@.len() ==> (#[trigger] r@[a])@ != (#[trigger] r@[b])@,
            forall|a: int| 0 <= a < r@.len() ==> locale_observed(self.strings@, (#[trigger] r@[a])@),
            forall|loc: Seq<char>|
                #[trigger] locale_observed(self.strings@, loc) ==> seq_has_str(r@, loc),
    {
        let mut locales: Vec<String> = Vec::new();
        let mut i: usize = 0;
        while i < self.strings.len()
            invariant
                i <= self.strings.len(),
                forall|a: int, b: int|
                    0 <= a < b < locales@.len() ==> (#[trigger] locales@[a])@ != (
                    #[trigger] locales@[b])@,
                forall|a: int|
                    0 <= a < locales@.len() ==> locale_observed(
                        self.strings@,
                        (#[trigger] locales@[a])@,
                    ),
                forall|loc: Seq<char>|
                    #[trigger] locale_observed(self.strings@.take(i as int), loc) ==> seq_has_str(
                        locales@,
                        loc,
                    ),
            decreases self.strings.len() - i,
        {
            let locs = &self.strings[i].1.localizations;
            let mut j: usize = 0;
            while j < locs.len()
                invariant
                    i < self.strings.len(),
                    j <= locs.len(),
                    locs@ == self.strings@[i as int].1.localizations@,
                    forall|a: int, b: int|
                        0 <= a < b < locales@.len() ==> (#[trigger] locales@[a])@ != (
                        #[trigger] locales@[b])@,
                    forall|a: int|
                        0 <= a < locales@.len() ==> locale_observed(
                            self.strings@,
                            (#[trigger] locales@[a])@,
                        ),
                    forall|loc: Seq<char>|
                        #[trigger] locale_observed(self.strings@.take(i as int), loc)
                            ==> seq_has_str(locales@, loc),
                    forall|loc: Seq<char>|
                        #[trigger] locale_in_locs(locs@.take(j as int), loc) ==> seq_has_str(
                            locales@,
                            loc,
                        ),
                decreases locs.len() - j,
            {
                let lc = &locs[j].0;
                if !contains_str(&locales, lc.as_str()) {
                    let ghost old_locales = locales@;
                    locales.push(lc.clone());
                    proof {
                        assert(locs@[j as int].0@ == lc@);
                        assert(locale_in_locs(self.strings@[i as int].1.localizations@, lc@));
                        assert(locale_observed(self.strings@, lc@));
                        assert forall|loc: Seq<char>|
                            seq_has_str(old_locales, loc) implies seq_has_str(locales@, loc) by {
                            let a = choose|a: int|
                                0 <= a < old_locales.len() && (#[trigger] old_locales[a])@ == loc;
                            assert(locales@[a]@ == loc);
                        }
                        assert forall|loc: Seq<char>|
                            #[trigger] locale_observed(self.strings@.take(i as int), loc)
                                implies seq_has_str(locales@, loc) by {
                            assert(seq_has_str(old_locales, loc));
                        }
                        assert forall|loc: Seq<char>|
                            #[trigger] locale_in_locs(locs@.take(j as int), loc) implies seq_has_str(
                            locales@,
                            loc,
                        ) by {
                            assert(seq_has_str(old_locales, loc));
                        }
                        assert(locales@[locales@.len() - 1]@ == lc@);
                        assert(seq_has_str(locales@, lc@));
                    }
                } else {
                    proof {
                        assert(seq_has_str(locales@, lc@));
                    }
                }
                proof {
                    assert forall|loc: Seq<char>|
                        locale_in_locs(locs@.take(j as int + 1), loc) implies seq_has_str(
                        locales@,
                        loc,
                    ) by {
                        let jj = choose|jj: int|
                            0 <= jj < locs@.take(j as int + 1).len() && (#[trigger] locs@.take(
                                j as int + 1,
                            )[jj]).0@ == loc;
                        if jj < j as int {
                            assert(locs@.take(j as int)[jj].0@ == loc);
                            assert(locale_in_locs(locs@.take(j as int), loc));
                        } else {
                            assert(locs@[j as int].0@ == loc);
                            assert(seq_has_str(locales@, loc));
                        }
                    }
                }
                j += 1;
            }
            proof {
                assert(locs@.take(locs@.len() as int) =~= locs@);
                assert forall|loc: Seq<char>|
                    locale_observed(self.strings@.take(i as int + 1), loc) implies seq_has_str(
                    locales@,
                    loc,
                ) by {
                    let s = self.strings@;
                    let a = choose|a: int|
                        0 <= a < s.take(i as int + 1).len() && locale_in_locs(
                            (#[trigger] s.take(i as int + 1)[a]).1.localizations@,
                            loc,
                        );
                    if a < i as int {
                        assert(s.take(i as int)[a] == s.take(i as int + 1)[a]);
                        assert(locale_observed(s.take(i as int), loc));
                    } else {
                        assert(s.take(i as int + 1)[a] == s[i as int]);
                        assert(locale_in_locs(locs@, loc));
                    }
                }
            }
            i += 1;
        }
        proof {
            assert(self.strings@.take(self.strings@.len() as int) =~= self.strings@);
        }
        locales
    }

    /// The entry stored under a translation key, if any.
    pub fn entry(&self, key: &str) -> (r: Option<&StringEntry>)
        ensures
            match r {
                Some(e) => assoc_lookup(self.strings@, key@) == Some(*e),
                None => assoc_lookup(self.strings@, key@) is None,
            },
    {
        assoc_get(&self.strings, key)
    }
}

impl StringEntry {
    /// The localization of this entry for a locale, if any.
    pub fn localization(&self, locale: &str) -> (r: Option<&Localization>)
        ensures
            match r {
                Some(l) => assoc_lookup(self.localizations@, locale@) == Some(*l),
                None => assoc_lookup(self.localizations@, locale@) is None,
            },
    {
        assoc_get(&self.localizations, locale)
    }
}

} // verus!
