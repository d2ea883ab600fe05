//! Category-suffix expansion: a per-locale table in which a variant entry
//! contributes one pair per translated category branch, under the key
//! `key.category`. A candidate whose key is already present in the table is
//! never inserted over the old pair: it raises a collision diagnostic
//! instead, so no pair is ever overwritten silently.

use vstd::prelude::*;
use vstd::string::StringExecFns;
use crate::model::Root;
use crate::model::StringEntry;
use crate::model::StringUnitState;
use crate::model::Localization;
use crate::model::Diagnostic;
use crate::model::DiagKind;
use crate::model::assoc_lookup;
use crate::model::assoc_keys_unique;
use crate::model::str_eq;
use crate::resolve::pairs_view;
use crate::resolve::diags_view;
use crate::resolve::pairs_has_key;
use crate::resolve::assoc_get;

verus! {

/// The expanded output key of a category branch: `key.category`.
pub open spec fn suffixed(key: Seq<char>, cat: Seq<char>) -> Seq<char> {
    key + "."@ + cat
}

/// The candidate pairs the branches of a variant contribute under `key`:
/// one per branch that is a fixed, translated localization, in branch
/// order, each under its suffixed key.
pub open spec fn branch_candidates(key: Seq<char>, bs: Seq<(String, Localization)>) -> Seq<
    (Seq<char>, Seq<char>),
>
    decreases bs.len(),
{
    if bs.len() == 0 {
        Seq::empty()
    } else {
        branch_candidates(key, bs.drop_last()) + (match bs.last().1 {
            Localization::Fixed(u) => if u.state is Translated {
                seq![(suffixed(key, bs.last().0@), u.value@)]
            } else {
                Seq::empty()
            },
            _ => Seq::empty(),
        })
    }
}

/// The candidate pairs one localization contributes under `key`.
pub open spec fn loc_candidates(key: Seq<char>, l: Localization) -> Seq<(Seq<char>, Seq<char>)> {
    match l {
        Localization::Fixed(u) => if u.state is Translated {
            seq![(key, u.value@)]
        } else {
            Seq::empty()
        },
        Localization::PluralVariant(bs) => branch_candidates(key, bs@),
        Localization::DeviceVariant(bs) => branch_candidates(key, bs@),
        Localization::Empty => Seq::empty(),
    }
}

/// The skip diagnostics the branches of a variant raise under `key`: an
/// untranslated branch, a branch that is itself a variant (flagged, not
/// expanded further), and an empty branch each name their suffixed key.
pub open spec fn branch_skip_diags(
    key: Seq<char>,
    bs: Seq<(String, Localization)>,
    locale: Seq<char>,
) -> Seq<(DiagKind, Seq<char>, Seq<char>)>
    decreases bs.len(),
{
    if bs.len() == 0 {
        Seq::empty()
    } else {
        branch_skip_diags(key, bs.drop_last(), locale) + (match bs.last().1 {
            Localization::Fixed(u) => if u.state is Translated {
                Seq::empty()
            } else {
                seq![(DiagKind::UntranslatedSkipped, suffixed(key, bs.last().0@), locale)]
            },
            Localization::PluralVariant(_) => seq![
                (DiagKind::AmbiguousVariant, suffixed(key, bs.last().0@), locale),
            ],
            Localization::DeviceVariant(_) => seq![
                (DiagKind::AmbiguousVariant, suffixed(key, bs.last().0@), locale),
            ],
            Localization::Empty => seq![
                (DiagKind::NoUsableTranslation, suffixed(key, bs.last().0@), locale),
            ],
        })
    }
}

/// The skip diagnostics one localization raises under `key`.
pub open spec fn loc_skip_diags(key: Seq<char>, l: Localization, locale: Seq<char>) -> Seq<
    (DiagKind, Seq<char>, Seq<char>),
> {
    match l {
        Localization::Fixed(u) => if u.state is Translated {
            Seq::empty()
        } else {
            seq![(DiagKind::UntranslatedSkipped, key, locale)]
        },
        Localization::PluralVariant(bs) => branch_skip_diags(key, bs@, locale),
        Localization::DeviceVariant(bs) => branch_skip_diags(key, bs@, locale),
        Localization::Empty => seq![(DiagKind::NoUsableTranslation, key, locale)],
    }
}

/// The candidates of one entry for `locale`.
pub open spec fn entry_candidates(key: Seq<char>, e: StringEntry, locale: Seq<char>) -> Seq<
    (Seq<char>, Seq<char>),
> {
    match assoc_lookup(e.localizations@, locale) {
        None => Seq::empty(),
        Some(l) => loc_candidates(key, l),
    }
}

/// The skip diagnostics of one entry for `locale`.
pub open spec fn entry_skip_diags(key: Seq<char>, e: StringEntry, locale: Seq<char>) -> Seq<
    (DiagKind, Seq<char>, Seq<char>),
> {
    match assoc_lookup(e.localizations@, locale) {
        None => seq![(DiagKind::MissingLocalization, key, locale)],
        Some(l) => loc_skip_diags(key, l, locale),
    }
}

/// Candidates folded into a table left to right: a candidate whose key is
/// already present leaves the table unchanged and raises a collision
/// diagnostic naming the key; any other candidate is appended.
pub open spec fn insert_candidates(
    pairs: Seq<(Seq<char>, Seq<char>)>,
    diags: Seq<(DiagKind, Seq<char>, Seq<char>)>,
    cands: Seq<(Seq<char>, Seq<char>)>,
    locale: Seq<char>,
) -> (Seq<(Seq<char>, Seq<char>)>, Seq<(DiagKind, Seq<char>, Seq<char>)>)
    decreases cands.len(),
{
    if cands.len() == 0 {
        (pairs, diags)
    } else {
        let sub = insert_candidates(pairs, diags, cands.drop_last(), locale);
        if pairs_has_key(sub.0, cands.last().0) {
            (sub.0, sub.1.push((DiagKind::Collision, cands.last().0, locale)))
        } else {
            (sub.0.push(cands.last()), sub.1)
        }
    }
}

/// The expanded table and diagnostics of a whole catalog for one locale:
/// entries processed in order, each contributing its skip diagnostics and
/// then its candidates.
pub open spec fn expand_state(strings: Seq<(String, StringEntry)>, locale: Seq<char>) -> (
    Seq<(Seq<char>, Seq<char>)>,
    Seq<(DiagKind, Seq<char>, Seq<char>)>,
)
    decreases strings.len(),
{
    if strings.len() == 0 {
        (Seq::empty(), Seq::empty())
    } else {
        let sub = expand_state(strings.drop_last(), locale);
        let key = strings.last().0@;
        let e = strings.last().1;
        insert_candidates(
            sub.0,
            sub.1 + entry_skip_diags(key, e, locale),
            entry_candidates(key, e, locale),
            locale,
        )
    }
}

/// A key present in the table stays present through any insertion.
pub proof fn lemma_insert_monotone(
    pairs: Seq<(Seq<char>, Seq<char>)>,
    diags: Seq<(DiagKind, Seq<char>, Seq<char>)>,
    cands: Seq<(Seq<char>, Seq<char>)>,
    locale: Seq<char>,
    k: Seq<char>,
)
    requires
        pairs_has_key(pairs, k),
    ensures
        pairs_has_key(insert_candidates(pairs, diags, cands, locale).0, k),
    decreases cands.len(),
{
    if cands.len() > 0 {
        lemma_insert_monotone(pairs, diags, cands.drop_last(), locale, k);
        let sub = insert_candidates(pairs, diags, cands.drop_last(), locale);
        if !pairs_has_key(sub.0, cands.last().0) {
            let w = choose|w: int| 0 <= w < sub.0.len() && (#[trigger] sub.0[w]).0 == k;
            assert(sub.0.push(cands.last())[w].0 == k);
        }
    }
}

/// After an insertion, every candidate's key is present in the table:
/// either its pair went in, or it collided with a pair already there.
pub proof fn lemma_candidate_key_present(
    pairs: Seq<(Seq<char>, Seq<char>)>,
    diags: Seq<(DiagKind, Seq<char>, Seq<char>)>,
    cands: Seq<(Seq<char>, Seq<char>)>,
    locale: Seq<char>,
    i0: int,
)
    requires
        0 <= i0 < cands.len(),
    ensures
        pairs_has_key(insert_candidates(pairs, diags, cands, locale).0, cands[i0].0),
    decreases cands.len(),
{
    let sub = insert_candidates(pairs, diags, cands.drop_last(), locale);
    let res = insert_candidates(pairs, diags, cands, locale);
    if i0 == cands.len() - 1 {
        if !pairs_has_key(sub.0, cands.last().0) {
            assert(res.0[res.0.len() - 1].0 == cands[i0].0);
        }
    } else {
        lemma_candidate_key_present(pairs, diags, cands.drop_last(), locale, i0);
        assert(cands.drop_last()[i0] == cands[i0]);
        if !pairs_has_key(sub.0, cands.last().0) {
            let w = choose|w: int| 0 <= w < sub.0.len() && (#[trigger] sub.0[w]).0 == cands[i0].0;
            assert(res.0[w].0 == cands[i0].0);
        }
    }
}

/// No silent collision: a candidate whose key is already in the table
/// before the batch, or is the key of an earlier candidate of the batch,
/// leaves a collision diagnostic naming that key in the result.
pub proof fn lemma_no_silent_collision(
    pairs: Seq<(Seq<char>, Seq<char>)>,
    diags: Seq<(DiagKind, Seq<char>, Seq<char>)>,
    cands: Seq<(Seq<char>, Seq<char>)>,
    locale: Seq<char>,
    idx: int,
)
    requires
        0 <= idx < cands.len(),
        pairs_has_key(pairs, cands[idx].0) || (exists|i0: int|
            0 <= i0 < idx && (#[trigger] cands[i0]).0 == cands[idx].0),
    ensures
        ({
            let d = insert_candidates(pairs, diags, cands, locale).1;
            exists|x: int| 0 <= x < d.len() && d[x] == (DiagKind::Collision, cands[idx].0, locale)
        }),
    decreases cands.len(),
{
    let k = cands[idx].0;
    let sub = insert_candidates(pairs, diags, cands.drop_last(), locale);
    let res = insert_candidates(pairs, diags, cands, locale);
    if idx == cands.len() - 1 {
        if pairs_has_key(pairs, k) {
            lemma_insert_monotone(pairs, diags, cands.drop_last(), locale, k);
        } else {
            let i0 = choose|i0: int| 0 <= i0 < idx && (#[trigger] cands[i0]).0 == k;
            lemma_candidate_key_present(pairs, diags, cands.drop_last(), locale, i0);
            assert(cands.drop_last()[i0] == cands[i0]);
        }
        assert(pairs_has_key(sub.0, k));
        assert(res.1[res.1.len() - 1] == (DiagKind::Collision, k, locale));
    } else {
        if !pairs_has_key(pairs, k) {
            let i0 = choose|i0: int| 0 <= i0 < idx && (#[trigger] cands[i0]).0 == k;
            assert(cands.drop_last()[i0] == cands[i0]);
            assert(cands.drop_last()[idx] == cands[idx]);
            assert(0 <= i0 < idx && cands.drop_last()[i0].0 == cands.drop_last()[idx].0);
        } else {
            assert(cands.drop_last()[idx] == cands[idx]);
        }
        lemma_no_silent_collision(pairs, diags, cands.drop_last(), locale, idx);
        let x = choose|x: int|
            0 <= x < sub.1.len() && sub.1[x] == (DiagKind::Collision, k, locale);
        assert(res.1[x] == (DiagKind::Collision, k, locale));
    }
}

/// Insertion never overwrites: a table with distinct keys keeps them
/// distinct.
pub proof fn lemma_insert_keys_unique(
    pairs: Seq<(Seq<char>, Seq<char>)>,
    diags: Seq<(DiagKind, Seq<char>, Seq<char>)>,
    cands: Seq<(Seq<char>, Seq<char>)>,
    locale: Seq<char>,
)
    requires
        forall|a: int, b: int| 0 <= a < b < pairs.len() ==> pairs[a].0 != pairs[b].0,
    ensures
        ({
            let p = insert_candidates(pairs, diags, cands, locale).0;
            forall|a: int, b: int| 0 <= a < b < p.len() ==> p[a].0 != p[b].0
        }),
    decreases cands.len(),
{
    if cands.len() > 0 {
        lemma_insert_keys_unique(pairs, diags, cands.drop_last(), locale);
        let sub = insert_candidates(pairs, diags, cands.drop_last(), locale);
        let res = insert_candidates(pairs, diags, cands, locale);
        if !pairs_has_key(sub.0, cands.last().0) {
            assert forall|a: int, b: int|
                0 <= a < b < res.0.len() implies res.0[a].0 != res.0[b].0 by {
                if b < res.0.len() - 1 {
                    assert(res.0[a] == sub.0[a] && res.0[b] == sub.0[b]);
                } else {
                    assert(res.0[a] == sub.0[a]);
                    if res.0[a].0 == cands.last().0 {
                        assert(sub.0[a].0 == cands.last().0);
                        assert(pairs_has_key(sub.0, cands.last().0));
                    }
                }
            }
        }
    }
}

/// The whole expanded table has distinct keys.
pub proof fn lemma_expand_keys_unique(strings: Seq<(String, StringEntry)>, locale: Seq<char>)
    ensures
        ({
            let p = expand_state(strings, locale).0;
            forall|a: int, b: int| 0 <= a < b < p.len() ==> p[a].0 != p[b].0
        }),
    decreases strings.len(),
{
    if strings.len() > 0 {
        lemma_expand_keys_unique(strings.drop_last(), locale);
        let sub = expand_state(strings.drop_last(), locale);
        lemma_insert_keys_unique(
            sub.0,
            sub.1 + entry_skip_diags(strings.last().0@, strings.last().1, locale),
            entry_candidates(strings.last().0@, strings.last().1, locale),
            locale,
        );
    }
}

/// The expanded output key of a branch, built as `key.category`.
fn suffix_key(key: &String, cat: &String) -> (r: String)
    ensures
        r@ == suffixed(key@, cat@),
{
    let mut s = key.clone();
    s.append(".");
    s.append(cat.as_str());
    s
}

/// Whether the table already holds a pair under `k`.
fn pairs_contains_key(v: &Vec<(String, String)>, k: &str) -> (r: bool)
    ensures
        r == pairs_has_key(pairs_view(v@), k@),
{
    let mut i: usize = 0;
    while i < v.len()
        invariant
            i <= v.len(),
            forall|a: int| 0 <= a < i ==> (#[trigger] v@[a]).0@ != k@,
        decreases v.len() - i,
    {
        if str_eq(v[i].0.as_str(), k) {
            assert(pairs_view(v@)[i as int].0 == k@);
            return true;
        }
        i += 1;
    }
    proof {
        if pairs_has_key(pairs_view(v@), k@) {
            let w = choose|w: int|
                0 <= w < pairs_view(v@).len() && (#[trigger] pairs_view(v@)[w]).0 == k@;
            assert(v@[w].0@ == k@);
        }
    }
    false
}

/// The candidate pairs and skip diagnostics of one localization, as
/// vectors of real strings.
fn loc_outcome(key: &String, l: &Localization, loc_owned: &String) -> (r: (
    Vec<(String, String)>,
    Vec<Diagnostic>,
))
    ensures
        pairs_view(r.0@) == loc_candidates(key@, *l),
        diags_view(r.1@) == loc_skip_diags(key@, *l, loc_owned@),
{
    let mut cands: Vec<(String, String)> = Vec::new();
    let mut skips: Vec<Diagnostic> = Vec::new();
    match l {
        Localization::Fixed(u) => match &u.state {
            StringUnitState::Translated => {
                cands.push((key.clone(), u.value.clone()));
                proof {
                    assert(pairs_view(cands@) =~= loc_candidates(key@, *l));
                    assert(diags_view(skips@) =~= loc_skip_diags(key@, *l, loc_owned@));
                }
            },
            StringUnitState::Other(_) => {
                skips.push(
                    Diagnostic {
                        kind: DiagKind::UntranslatedSkipped,
                        key: key.clone(),
                        locale: loc_owned.clone(),
                    },
                );
                proof {
                    assert(pairs_view(cands@) =~= loc_candidates(key@, *l));
                    assert(diags_view(skips@) =~= loc_skip_diags(key@, *l, loc_owned@));
                }
            },
        },
        Localization::Empty => {
            skips.push(
                Diagnostic {
                    kind: DiagKind::NoUsableTranslation,
                    key: key.clone(),
                    locale: loc_owned.clone(),
                },
            );
            proof {
                assert(pairs_view(cands@) =~= loc_candidates(key@, *l));
                assert(diags_view(skips@) =~= loc_skip_diags(key@, *l, loc_owned@));
            }
        },
        Localization::PluralVariant(bs) => {
            branch_outcome(key, bs, loc_owned, &mut cands, &mut skips);
            proof {
                assert(pairs_view(cands@) =~= loc_candidates(key@, *l));
                assert(diags_view(skips@) =~= loc_skip_diags(key@, *l, loc_owned@));
            }
        },
        Localization::DeviceVariant(bs) => {
            branch_outcome(key, bs, loc_owned, &mut cands, &mut skips);
            proof {
                assert(pairs_view(cands@) =~= loc_candidates(key@, *l));
                assert(diags_view(skips@) =~= loc_skip_diags(key@, *l, loc_owned@));
            }
        },
    }
    (cands, skips)
}

/// The candidate pairs and skip diagnostics of a variant's branches.
fn branch_outcome(
    key: &String,
    bs: &Vec<(String, Localization)>,
    loc_owned: &String,
    cands: &mut Vec<(String, String)>,
    skips: &mut Vec<Diagnostic>,
)
    ensures
        pairs_view(final(cands)@) == pairs_view(old(cands)@) + branch_candidates(key@, bs@),
        diags_view(final(skips)@) == diags_view(old(skips)@) + branch_skip_diags(
            key@,
            bs@,
            loc_owned@,
        ),
{
    let mut b: usize = 0;
    proof {
        assert(bs@.take(0) =~= Seq::<(String, Localization)>::empty());
        assert(pairs_view(cands@) =~= pairs_view(old(cands)@) + branch_candidates(
            key@,
            bs@.take(0),
        ));
        assert(diags_view(skips@) =~= diags_view(old(skips)@) + branch_skip_diags(
            key@,
            bs@.take(0),
            loc_owned@,
        ));
    }
    while b < bs.len()
        invariant
            b <= bs.len(),
            pairs_view(cands@) == pairs_view(old(cands)@) + branch_candidates(
                key@,
                bs@.take(b as int),
            ),
            diags_view(skips@) == diags_view(old(skips)@) + branch_skip_diags(
                key@,
                bs@.take(b as int),
                loc_owned@,
            ),
        decreases bs.len() - b,
    {
        proof {
            assert(bs@.take(b as int + 1).drop_last() =~= bs@.take(b as int));
            assert(bs@.take(b as int + 1).last() == bs@[b as int]);
        }
        let cat = &bs[b].0;
        match &bs[b].1 {
            Localization::Fixed(u) => match &u.state {
                StringUnitState::Translated => {
                    cands.push((suffix_key(key, cat), u.value.clone()));
                },
                StringUnitState::Other(_) => {
                    skips.push(
                        Diagnostic {
                            kind: DiagKind::UntranslatedSkipped,
                            key: suffix_key(key, cat),
                            locale: loc_owned.clone(),
                        },
                    );
                },
            },
            Localization::PluralVariant(_) => {
                skips.push(
                    Diagnostic {
                        kind: DiagKind::AmbiguousVariant,
                        key: suffix_key(key, cat),
                        locale: loc_owned.clone(),
                    },
                );
            },
            Localization::DeviceVariant(_) => {
                skips.push(
                    Diagnostic {
                        kind: DiagKind::AmbiguousVariant,
                        key: suffix_key(key, cat),
                        locale: loc_owned.clone(),
                    },
                );
            },
            Localization::Empty => {
                skips.push(
                    Diagnostic {
                        kind: DiagKind::NoUsableTranslation,
                        key: suffix_key(key, cat),
                        locale: loc_owned.clone(),
                    },
                );
            },
        }
        proof {
            let bi = bs@[b as int];
            let tail_c = (match bi.1 {
                Localization::Fixed(u) => if u.state is Translated {
                    seq![(suffixed(key@, bi.0@), u.value@)]
                } else {
                    Seq::<(Seq<char>, Seq<char>)>::empty()
                },
                _ => Seq::<(Seq<char>, Seq<char>)>::empty(),
            });
            let tail_d = (match bi.1 {
                Localization::Fixed(u) => if u.state is Translated {
                    Seq::<(DiagKind, Seq<char>, Seq<char>)>::empty()
                } else {
                    seq![(DiagKind::UntranslatedSkipped, suffixed(key@, bi.0@), loc_owned@)]
                },
                Localization::PluralVariant(_) => seq![
                    (DiagKind::AmbiguousVariant, suffixed(key@, bi.0@), loc_owned@),
                ],
                Localization::DeviceVariant(_) => seq![
                    (DiagKind::AmbiguousVariant, suffixed(key@, bi.0@), loc_owned@),
                ],
                Localization::Empty => seq![
                    (DiagKind::NoUsableTranslation, suffixed(key@, bi.0@), loc_owned@),
                ],
            });
            assert(branch_candidates(key@, bs@.take(b as int + 1)) == branch_candidates(
                key@,
                bs@.take(b as int),
            ) + tail_c);
            assert(branch_skip_diags(key@, bs@.take(b as int + 1), loc_owned@)
                == branch_skip_diags(key@, bs@.take(b as int), loc_owned@) + tail_d);
            assert(pairs_view(cands@) =~= (pairs_view(old(cands)@) + branch_candidates(
                key@,
                bs@.take(b as int),
            )) + tail_c);
            assert(pairs_view(cands@) =~= pairs_view(old(cands)@) + (branch_candidates(
                key@,
                bs@.take(b as int),
            ) + tail_c));
            assert(diags_view(skips@) =~= (diags_view(old(skips)@) + branch_skip_diags(
                key@,
                bs@.take(b as int),
                loc_owned@,
            )) + tail_d);
            assert(diags_view(skips@) =~= diags_view(old(skips)@) + (branch_skip_diags(
                key@,
                bs@.take(b as int),
                loc_owned@,
            ) + tail_d));
        }
        b += 1;
    }
    proof {
        assert(bs@.take(bs@.len() as int) =~= bs@);
    }
}

/// Candidates folded into the table with the collision check.
fn insert_candidates_exec(
    out: &mut Vec<(String, String)>,
    diags: &mut Vec<Diagnostic>,
    cands: Vec<(String, String)>,
    loc_owned: &String,
)
    ensures
        ({
            let r = insert_candidates(
                pairs_view(old(out)@),
                diags_view(old(diags)@),
                pairs_view(cands@),
                loc_owned@,
            );
            pairs_view(final(out)@) == r.0 && diags_view(final(diags)@) == r.1
        }),
{
    let mut c: usize = 0;
    proof {
        assert(pairs_view(cands@).take(0) =~= Seq::<(Seq<char>, Seq<char>)>::empty());
        assert(pairs_view(cands@.take(0)) =~= pairs_view(cands@).take(0));
    }
    while c < cands.len()
        invariant
            c <= cands.len(),
            ({
                let r = insert_candidates(
                    pairs_view(old(out)@),
                    diags_view(old(diags)@),
                    pairs_view(cands@).take(c as int),
                    loc_owned@,
                );
                pairs_view(out@) == r.0 && diags_view(diags@) == r.1
            }),
        decreases cands.len() - c,
    {
        proof {
            assert(pairs_view(cands@).take(c as int + 1).drop_last() =~= pairs_view(
                cands@,
            ).take(c as int));
            assert(pairs_view(cands@).take(c as int + 1).last() == pairs_view(cands@)[c as int]);
        }
        let key_present = pairs_contains_key(out, cands[c].0.as_str());
        if key_present {
            diags.push(
                Diagnostic {
                    kind: DiagKind::Collision,
                    key: cands[c].0.clone(),
                    locale: loc_owned.clone(),
                },
            );
            proof {
                let r = insert_candidates(
                    pairs_view(old(out)@),
                    diags_view(old(diags)@),
                    pairs_view(cands@).take(c as int + 1),
                    loc_owned@,
                );
                assert(pairs_view(out@) =~= r.0);
                assert(diags_view(diags@) =~= r.1);
            }
        } else {
            let pair = (cands[c].0.clone(), cands[c].1.clone());
            out.push(pair);
            proof {
                let r = insert_candidates(
                    pairs_view(old(out)@),
                    diags_view(old(diags)@),
                    pairs_view(cands@).take(c as int + 1),
                    loc_owned@,
                );
                assert(pairs_view(out@) =~= r.0);
                assert(diags_view(diags@) =~= r.1);
            }
        }
        c += 1;
    }
    proof {
        assert(pairs_view(cands@).take(cands@.len() as int) =~= pairs_view(cands@));
    }
}

impl Root {
    /// The expanded key-to-string table of one locale: fixed translated
    /// entries under their own key, variant entries as one pair per
    /// translated branch under `key.category`, every skip reported, and a
    /// collision diagnostic wherever a candidate's key was already taken.
    /// The table's keys are distinct: nothing is overwritten.
    pub fn expanded_strings_for_localization(&self, locale: &str) -> (r: (
        Vec<(String, String)>,
        Vec<Diagnostic>,
    ))
        requires
            self.wf(),
        ensures
            pairs_view(r.0@) == expand_state(self.strings@, locale@).0,
            diags_view(r.1@) == expand_state(self.strings@, locale@).1,
            assoc_keys_unique(r.0@),
    {
        let loc_owned: String = locale.to_owned();
        let mut out: Vec<(String, String)> = Vec::new();
        let mut diags: Vec<Diagnostic> = Vec::new();
        let mut i: usize = 0;
        while i < self.strings.len()
            invariant
                self.wf(),
                i <= self.strings.len(),
                loc_owned@ == locale@,
                pairs_view(out@) == expand_state(self.strings@.take(i as int), locale@).0,
                diags_view(diags@) == expand_state(self.strings@.take(i as int), locale@).1,
            decreases self.strings.len() - i,
        {
            let ghost s = self.strings@;
            let key = &self.strings[i].0;
            let entry = &self.strings[i].1;
            proof {
                assert(s[i as int].1.wf());
                assert(s.take(i as int + 1).drop_last() =~= s.take(i as int));
                assert(s.take(i as int + 1).last() == s[i as int]);
            }
            let (cands, mut skips) = match assoc_get(&entry.localizations, locale) {
                None => {
                    let mut sk: Vec<Diagnostic> = Vec::new();
                    sk.push(
                        Diagnostic {
                            kind: DiagKind::MissingLocalization,
                            key: key.clone(),
                            locale: loc_owned.clone(),
                        },
                    );
                    proof {
                        assert(diags_view(sk@) =~= entry_skip_diags(
                            s[i as int].0@,
                            s[i as int].1,
                            locale@,
                        ));
                        assert(pairs_view(Seq::<(String, String)>::empty()) =~= entry_candidates(
                            s[i as int].0@,
                            s[i as int].1,
                            locale@,
                        ));
                    }
                    (Vec::new(), sk)
                },
                Some(l) => {
                    let o = loc_outcome(key, l, &loc_owned);
                    o
                },
            };
            let ghost dv_before = diags@;
            let ghost skv = skips@;
            diags.append(&mut skips);
            proof {
                assert(diags@ == dv_before + skv);
                assert forall|x: int| 0 <= x < diags@.len() implies diags_view(diags@)[x] == (
                diags_view(dv_before) + diags_view(skv))[x] by {
                    if x < dv_before.len() {
                        assert(diags@[x] == dv_before[x]);
                    } else {
                        assert(diags@[x] == skv[x - dv_before.len()]);
                    }
                }
                assert(diags_view(diags@) =~= diags_view(dv_before) + diags_view(skv));
            }
            insert_candidates_exec(&mut out, &mut diags, cands, &loc_owned);
            proof {
                assert(pairs_view(out@) == expand_state(s.take(i as int + 1), locale@).0);
                assert(diags_view(diags@) == expand_state(s.take(i as int + 1), locale@).1);
            }
            i += 1;
        }
        proof {
            assert(self.strings@.take(self.strings@.len() as int) =~= self.strings@);
            lemma_expand_keys_unique(self.strings@, locale@);
            assert forall|a: int, b: int|
                0 <= a < b < out@.len() implies (#[trigger] out@[a]).0@ != (
            #[trigger] out@[b]).0@ by {
                assert(pairs_view(out@)[a].0 == out@[a].0@);
                assert(pairs_view(out@)[b].0 == out@[b].0@);
            }
        }
        (out, diags)
    }
}

} // verus!
