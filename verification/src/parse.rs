//! The catalog parser: interpreting a decoded JSON tree as a `Root`.
//!
//! Each level of the document has two spec predicates: a shape predicate
//! saying when the node is structurally a valid catalog node, and a match
//! predicate relating a model value to the node. The parser returns the
//! model value exactly when the shape predicate holds, and the version gate
//! rejects any structurally-located version other than the supported one
//! before the rest of the document is even considered.

use vstd::prelude::*;
use crate::json::JsonValue;
use crate::json::json_wf;
use crate::json::json_tree_of;
use crate::json::parse_json_text;
use crate::model::Root;
use crate::model::StringEntry;
use crate::model::StringUnit;
use crate::model::StringUnitState;
use crate::model::ExtractionState;
use crate::model::Localization;
use crate::model::Error;
use crate::model::assoc_lookup;
use crate::model::assoc_keys_unique;
use crate::model::lemma_assoc_lookup_at;
use crate::model::lemma_assoc_lookup_absent;
use crate::model::str_eq;
use crate::resolve::assoc_has_key;

verus! {

/// The state tag a string unit carries for a given document tag text.
pub open spec fn state_matches(st: StringUnitState, tag: Seq<char>) -> bool {
    if tag == "translated"@ {
        st is Translated
    } else {
        st matches StringUnitState::Other(o) && o@ == tag
    }
}

/// The extraction marker an entry carries for a given document tag text.
pub open spec fn extraction_matches(x: ExtractionState, tag: Seq<char>) -> bool {
    if tag == "manual"@ {
        x is Manual
    } else {
        x matches ExtractionState::Other(o) && o@ == tag
    }
}

/// A node is structurally a string unit: a `value` string, and a `state`
/// that is a string if present at all.
pub open spec fn unit_shape_ok(j: JsonValue) -> bool {
    j matches JsonValue::Obj(fs) && {
        &&& (assoc_lookup(fs@, "value"@) matches Some(JsonValue::Str(_)))
        &&& (match assoc_lookup(fs@, "state"@) {
            Option::None => true,
            Option::Some(JsonValue::Str(_)) => true,
            Option::Some(_) => false,
        })
    }
}

/// A string unit read off a unit node: the literal value, and the state
/// tag (a missing state is retained as an empty tag, which is not the
/// translated state).
pub open spec fn unit_matches(u: StringUnit, j: JsonValue) -> bool {
    j matches JsonValue::Obj(fs) && {
        &&& (match assoc_lookup(fs@, "value"@) {
            Option::Some(JsonValue::Str(v)) => u.value@ == v@,
            _ => false,
        })
        &&& (match assoc_lookup(fs@, "state"@) {
            Option::Some(JsonValue::Str(st)) => state_matches(u.state, st@),
            Option::None => u.state matches StringUnitState::Other(o) && o@ == Seq::<char>::empty(),
            Option::Some(_) => false,
        })
    }
}

/// A node is structurally a localization: at most one of the `stringUnit`
/// and `variations` shapes, each well-shaped where present.
pub open spec fn loc_shape_ok(j: JsonValue) -> bool
    decreases j,
{
    j matches JsonValue::Obj(fs) && {
        &&& !(assoc_has_key(fs@, "stringUnit"@) && assoc_has_key(fs@, "variations"@))
        &&& (forall|b: int|
            0 <= b < fs@.len() && (#[trigger] fs@[b]).0@ == "stringUnit"@ ==> unit_shape_ok(
                fs@[b].1,
            ))
        &&& (forall|b: int|
            0 <= b < fs@.len() && (#[trigger] fs@[b]).0@ == "variations"@
                ==> variations_shape_ok(fs@[b].1))
    }
}

/// A localization read off a localization node: the fixed shape from a
/// `stringUnit` member, a variant shape from a `variations` member, and
/// the empty shape when the node carries neither.
pub open spec fn loc_matches(l: Localization, j: JsonValue) -> bool
    decreases j,
{
    j matches JsonValue::Obj(fs) && {
        let has_su = assoc_has_key(fs@, "stringUnit"@);
        let has_va = assoc_has_key(fs@, "variations"@);
        &&& !(has_su && has_va)
        &&& (has_su ==> (l matches Localization::Fixed(u) && (forall|b: int|
            0 <= b < fs@.len() && (#[trigger] fs@[b]).0@ == "stringUnit"@ ==> unit_matches(
                u,
                fs@[b].1,
            ))))
        &&& (has_va ==> (forall|b: int|
            0 <= b < fs@.len() && (#[trigger] fs@[b]).0@ == "variations"@ ==> variations_match(
                l,
                fs@[b].1,
            )))
        &&& (!has_su && !has_va ==> l is Empty)
    }
}

/// A node is structurally a `variations` member: at most one of the
/// `plural` and `device` category maps, each well-shaped where present.
pub open spec fn variations_shape_ok(j: JsonValue) -> bool
    decreases j,
{
    j matches JsonValue::Obj(fs) && {
        &&& !(assoc_has_key(fs@, "plural"@) && assoc_has_key(fs@, "device"@))
        &&& (forall|b: int|
            0 <= b < fs@.len() && (#[trigger] fs@[b]).0@ == "plural"@ ==> branches_shape_ok(
                fs@[b].1,
            ))
        &&& (forall|b: int|
            0 <= b < fs@.len() && (#[trigger] fs@[b]).0@ == "device"@ ==> branches_shape_ok(
                fs@[b].1,
            ))
    }
}

/// A localization read off a `variations` member: a plural variant from a
/// `plural` map, a device variant from a `device` map, the empty shape
/// when the member carries neither.
pub open spec fn variations_match(l: Localization, j: JsonValue) -> bool
    decreases j,
{
    j matches JsonValue::Obj(fs) && {
        let has_pl = assoc_has_key(fs@, "plural"@);
        let has_dv = assoc_has_key(fs@, "device"@);
        &&& !(has_pl && has_dv)
        &&& (has_pl ==> (l matches Localization::PluralVariant(bs) && (forall|b: int|
            0 <= b < fs@.len() && (#[trigger] fs@[b]).0@ == "plural"@ ==> branches_match(
                bs,
                fs@[b].1,
            ))))
        &&& (has_dv ==> (l matches Localization::DeviceVariant(bs) && (forall|b: int|
            0 <= b < fs@.len() && (#[trigger] fs@[b]).0@ == "device"@ ==> branches_match(
                bs,
                fs@[b].1,
            ))))
        &&& (!has_pl && !has_dv ==> l is Empty)
    }
}

/// A node is structurally a map whose every member is a localization node.
pub open spec fn branches_shape_ok(j: JsonValue) -> bool
    decreases j,
{
    j matches JsonValue::Obj(fs) && (forall|b: int|
        0 <= b < fs@.len() ==> loc_shape_ok((#[trigger] fs@[b]).1))
}

/// A localization list read off such a map, member by member, in order.
pub open spec fn branches_match(bs: Vec<(String, Localization)>, j: JsonValue) -> bool
    decreases j,
{
    j matches JsonValue::Obj(fs) && {
        &&& bs@.len() == fs@.len()
        &&& (forall|b: int|
            0 <= b < fs@.len() ==> bs@[b].0@ == (#[trigger] fs@[b]).0@ && loc_matches(
                bs@[b].1,
                fs@[b].1,
            ))
    }
}

/// A node is structurally a string entry: a `localizations` map of
/// localization nodes, a `comment` string and an `extractionState` string
/// if present at all.
pub open spec fn entry_shape_ok(j: JsonValue) -> bool
    decreases j,
{
    j matches JsonValue::Obj(fs) && {
        &&& assoc_has_key(fs@, "localizations"@)
        &&& (forall|b: int|
            0 <= b < fs@.len() && (#[trigger] fs@[b]).0@ == "localizations"@ ==> branches_shape_ok(
                fs@[b].1,
            ))
        &&& (match assoc_lookup(fs@, "comment"@) {
            Option::None => true,
            Option::Some(JsonValue::Str(_)) => true,
            Option::Some(_) => false,
        })
        &&& (match assoc_lookup(fs@, "extractionState"@) {
            Option::None => true,
            Option::Some(JsonValue::Str(_)) => true,
            Option::Some(_) => false,
        })
    }
}

/// A string entry read off an entry node.
pub open spec fn entry_matches(e: StringEntry, j: JsonValue) -> bool
    decreases j,
{
    j matches JsonValue::Obj(fs) && {
        &&& assoc_has_key(fs@, "localizations"@)
        &&& (forall|b: int|
            0 <= b < fs@.len() && (#[trigger] fs@[b]).0@ == "localizations"@ ==> branches_match(
                e.localizations,
                fs@[b].1,
            ))
        &&& (match assoc_lookup(fs@, "comment"@) {
            Option::Some(JsonValue::Str(c)) => e.comment matches Option::Some(cc) && cc@ == c@,
            Option::None => e.comment is None,
            Option::Some(_) => false,
        })
        &&& (match assoc_lookup(fs@, "extractionState"@) {
            Option::Some(JsonValue::Str(x)) => e.extraction_state matches Option::Some(xs)
                && extraction_matches(xs, x@),
            Option::None => e.extraction_state is None,
            Option::Some(_) => false,
        })
    }
}

/// A node is structurally the `strings` map: every member an entry node.
pub open spec fn entries_shape_ok(j: JsonValue) -> bool
    decreases j,
{
    j matches JsonValue::Obj(fs) && (forall|b: int|
        0 <= b < fs@.len() ==> entry_shape_ok((#[trigger] fs@[b]).1))
}

/// An entry list read off the `strings` map, member by member, in order.
pub open spec fn entries_match(es: Vec<(String, StringEntry)>, j: JsonValue) -> bool
    decreases j,
{
    j matches JsonValue::Obj(fs) && {
        &&& es@.len() == fs@.len()
        &&& (forall|b: int|
            0 <= b < fs@.len() ==> es@[b].0@ == (#[trigger] fs@[b]).0@ && entry_matches(
                es@[b].1,
                fs@[b].1,
            ))
    }
}

/// The schema version a document declares, where it declares one as a
/// string member of the root object.
pub open spec fn version_of(j: JsonValue) -> Option<Seq<char>> {
    match j {
        JsonValue::Obj(fs) => match assoc_lookup(fs@, "version"@) {
            Option::Some(JsonValue::Str(v)) => Some(v@),
            _ => None,
        },
        _ => None,
    }
}

/// A document is structurally a catalog: a declared version, a
/// `sourceLanguage` string if present, and a well-shaped `strings` map.
pub open spec fn root_shape_ok(j: JsonValue) -> bool
    decreases j,
{
    j matches JsonValue::Obj(fs) && {
        &&& version_of(j) is Some
        &&& (match assoc_lookup(fs@, "sourceLanguage"@) {
            Option::None => true,
            Option::Some(JsonValue::Str(_)) => true,
            Option::Some(_) => false,
        })
        &&& assoc_has_key(fs@, "strings"@)
        &&& (forall|b: int|
            0 <= b < fs@.len() && (#[trigger] fs@[b]).0@ == "strings"@ ==> entries_shape_ok(
                fs@[b].1,
            ))
    }
}

/// A catalog read off a document: the declared version, the source
/// language (empty when the document omits it), and the entry list.
pub open spec fn root_matches(root: Root, j: JsonValue) -> bool
    decreases j,
{
    j matches JsonValue::Obj(fs) && {
        &&& (match assoc_lookup(fs@, "version"@) {
            Option::Some(JsonValue::Str(v)) => root.version@ == v@,
            _ => false,
        })
        &&& (match assoc_lookup(fs@, "sourceLanguage"@) {
            Option::Some(JsonValue::Str(v)) => root.source_language@ == v@,
            Option::None => root.source_language@ == Seq::<char>::empty(),
            Option::Some(_) => false,
        })
        &&& assoc_has_key(fs@, "strings"@)
        &&& (forall|b: int|
            0 <= b < fs@.len() && (#[trigger] fs@[b]).0@ == "strings"@ ==> entries_match(
                root.strings,
                fs@[b].1,
            ))
    }
}

/// The index of the member of an object field list carrying a given name,
/// if any.
fn find_key(fs: &Vec<(String, JsonValue)>, k: &str) -> (r: Option<usize>)
    ensures
        r matches Some(i) ==> 0 <= i < fs@.len() && fs@[i as int].0@ == k@,
        r is None ==> !assoc_has_key(fs@, k@),
{
    let mut i: usize = 0;
    while i < fs.len()
        invariant
            i <= fs.len(),
            forall|b: int| 0 <= b < i ==> (#[trigger] fs@[b]).0@ != k@,
        decreases fs.len() - i,
    {
        if str_eq(fs[i].0.as_str(), k) {
            return Some(i);
        }
        i += 1;
    }
    None
}

/// With distinct member names, a found member is the looked-up one, and
/// every member carrying that name is the found one.
proof fn lemma_found_key(fs: Seq<(String, JsonValue)>, i: int, k: Seq<char>)
    requires
        assoc_keys_unique(fs),
        0 <= i < fs.len(),
        fs[i].0@ == k,
    ensures
        assoc_lookup(fs, k) == Some(fs[i].1),
        assoc_has_key(fs, k),
        forall|b: int| 0 <= b < fs.len() && (#[trigger] fs[b]).0@ == k ==> fs[b].1 == fs[i].1
            && b == i,
{
    lemma_assoc_lookup_at(fs, i);
    assert forall|b: int|
        0 <= b < fs.len() && (#[trigger] fs[b]).0@ == k implies fs[b].1 == fs[i].1 && b == i by {
        if b < i {
            assert(fs[b].0@ != fs[i].0@);
        } else if b > i {
            assert(fs[i].0@ != fs[b].0@);
        }
    }
}

/// An absent member name is not looked up either.
proof fn lemma_no_key(fs: Seq<(String, JsonValue)>, k: Seq<char>)
    requires
        !assoc_has_key(fs, k),
    ensures
        assoc_lookup(fs, k) is None,
{
    assert forall|b: int| 0 <= b < fs.len() implies (#[trigger] fs[b]).0@ != k by {
        if fs[b].0@ == k {
            assert(assoc_has_key(fs, k));
        }
    }
    lemma_assoc_lookup_absent(fs, k);
}

/// A string unit from a unit node, exactly when the node is well-shaped.
fn parse_unit(j: &JsonValue) -> (r: Option<StringUnit>)
    requires
        json_wf(*j),
    ensures
        r is Some <==> unit_shape_ok(*j),
        r matches Some(u) ==> unit_matches(u, *j),
{
    match j {
        JsonValue::Obj(fs) => {
            let value: String = match find_key(fs, "value") {
                None => {
                    proof {
                        lemma_no_key(fs@, "value"@);
                    }
                    return None;
                },
                Some(vi) => {
                    proof {
                        lemma_found_key(fs@, vi as int, "value"@);
                    }
                    match &fs[vi].1 {
                        JsonValue::Str(v) => v.clone(),
                        _ => {
                            return None;
                        },
                    }
                },
            };
            let state: StringUnitState = match find_key(fs, "state") {
                None => {
                    proof {
                        lemma_no_key(fs@, "state"@);
                    }
                    StringUnitState::Other(String::new())
                },
                Some(si) => {
                    proof {
                        lemma_found_key(fs@, si as int, "state"@);
                    }
                    match &fs[si].1 {
                        JsonValue::Str(st) => {
                            if str_eq(st.as_str(), "translated") {
                                StringUnitState::Translated
                            } else {
                                StringUnitState::Other(st.clone())
                            }
                        },
                        _ => {
                            return None;
                        },
                    }
                },
            };
            Some(StringUnit { state, value })
        },
        _ => None,
    }
}

/// A localization from a localization node, exactly when it is
/// well-shaped; mutually recursive with the `variations` member and the
/// category maps below it.
fn parse_loc(j: &JsonValue) -> (r: Option<Localization>)
    requires
        json_wf(*j),
    ensures
        r is Some <==> loc_shape_ok(*j),
        r matches Some(l) ==> loc_matches(l, *j),
    decreases *j,
{
    match j {
        JsonValue::Obj(fs) => {
            let su = find_key(fs, "stringUnit");
            let va = find_key(fs, "variations");
            match (su, va) {
                (Some(_), Some(si)) => {
                    proof {
                        lemma_found_key(fs@, si as int, "variations"@);
                    }
                    None
                },
                (Some(ui), None) => {
                    proof {
                        lemma_found_key(fs@, ui as int, "stringUnit"@);
                        lemma_no_key(fs@, "variations"@);
                    }
                    match parse_unit(&fs[ui].1) {
                        Some(u) => Some(Localization::Fixed(u)),
                        None => None,
                    }
                },
                (None, Some(vi)) => {
                    proof {
                        lemma_found_key(fs@, vi as int, "variations"@);
                        lemma_no_key(fs@, "stringUnit"@);
                    }
                    match parse_variations(&fs[vi].1) {
                        Some(l) => Some(l),
                        None => None,
                    }
                },
                (None, None) => {
                    proof {
                        lemma_no_key(fs@, "stringUnit"@);
                        lemma_no_key(fs@, "variations"@);
                    }
                    Some(Localization::Empty)
                },
            }
        },
        _ => None,
    }
}

/// A localization from a `variations` member, exactly when it is
/// well-shaped.
fn parse_variations(j: &JsonValue) -> (r: Option<Localization>)
    requires
        json_wf(*j),
    ensures
        r is Some <==> variations_shape_ok(*j),
        r matches Some(l) ==> variations_match(l, *j),
    decreases *j,
{
    match j {
        JsonValue::Obj(fs) => {
            let pl = find_key(fs, "plural");
            let dv = find_key(fs, "device");
            match (pl, dv) {
                (Some(_), Some(di)) => {
                    proof {
                        lemma_found_key(fs@, di as int, "device"@);
                    }
                    None
                },
                (Some(pi), None) => {
                    proof {
                        lemma_found_key(fs@, pi as int, "plural"@);
                        lemma_no_key(fs@, "device"@);
                    }
                    match parse_branches(&fs[pi].1) {
                        Some(bs) => Some(Localization::PluralVariant(bs)),
                        None => None,
                    }
                },
                (None, Some(di)) => {
                    proof {
                        lemma_found_key(fs@, di as int, "device"@);
                        lemma_no_key(fs@, "plural"@);
                    }
                    match parse_branches(&fs[di].1) {
                        Some(bs) => Some(Localization::DeviceVariant(bs)),
                        None => None,
                    }
                },
                (None, None) => {
                    proof {
                        lemma_no_key(fs@, "plural"@);
                        lemma_no_key(fs@, "device"@);
                    }
                    Some(Localization::Empty)
                },
            }
        },
        _ => None,
    }
}

/// A localization list from a category (or localizations) map, exactly
/// when every member is a well-shaped localization node.
fn parse_branches(j: &JsonValue) -> (r: Option<Vec<(String, Localization)>>)
    requires
        json_wf(*j),
    ensures
        r is Some <==> branches_shape_ok(*j),
        r matches Some(bs) ==> branches_match(bs, *j),
    decreases *j,
{
    match j {
        JsonValue::Obj(fs) => {
            let mut bs: Vec<(String, Localization)> = Vec::new();
            let mut b: usize = 0;
            while b < fs.len()
                invariant
                    json_wf(*j),
                    *j == JsonValue::Obj(*fs),
                    b <= fs@.len(),
                    bs@.len() == b,
                    forall|bb: int|
                        0 <= bb < b ==> (#[trigger] bs@[bb]).0@ == fs@[bb].0@ && loc_matches(
                            bs@[bb].1,
                            fs@[bb].1,
                        ) && loc_shape_ok(fs@[bb].1),
                decreases fs@.len() - b,
            {
                match parse_loc(&fs[b].1) {
                    Some(l) => {
                        bs.push((fs[b].0.clone(), l));
                    },
                    None => {
                        assert(!loc_shape_ok(fs@[b as int].1));
                        return None;
                    },
                }
                b += 1;
            }
            proof {
                assert forall|bb: int| 0 <= bb < fs@.len() implies loc_shape_ok(
                    (#[trigger] fs@[bb]).1,
                ) && bs@[bb].0@ == fs@[bb].0@ && loc_matches(bs@[bb].1, fs@[bb].1) by {
                    assert(bs@[bb].0@ == fs@[bb].0@ && loc_matches(bs@[bb].1, fs@[bb].1)
                        && loc_shape_ok(fs@[bb].1));
                }
            }
            Some(bs)
        },
        _ => None,
    }
}

/// A string entry from an entry node, exactly when it is well-shaped; a
/// parsed entry is well-formed (its locale keys are distinct).
fn parse_entry(j: &JsonValue) -> (r: Option<StringEntry>)
    requires
        json_wf(*j),
    ensures
        r is Some <==> entry_shape_ok(*j),
        r matches Some(e) ==> entry_matches(e, *j) && e.wf(),
{
    match j {
        JsonValue::Obj(fs) => {
            let localizations: Vec<(String, Localization)> = match find_key(fs, "localizations") {
                None => {
                    proof {
                        lemma_no_key(fs@, "localizations"@);
                    }
                    return None;
                },
                Some(li) => {
                    proof {
                        lemma_found_key(fs@, li as int, "localizations"@);
                    }
                    match parse_branches(&fs[li].1) {
                        Some(ls) => ls,
                        None => {
                            return None;
                        },
                    }
                },
            };
            let comment: Option<String> = match find_key(fs, "comment") {
                None => {
                    proof {
                        lemma_no_key(fs@, "comment"@);
                    }
                    None
                },
                Some(ci) => {
                    proof {
                        lemma_found_key(fs@, ci as int, "comment"@);
                    }
                    match &fs[ci].1 {
                        JsonValue::Str(c) => Some(c.clone()),
                        _ => {
                            return None;
                        },
                    }
                },
            };
            let extraction_state: Option<ExtractionState> = match find_key(fs, "extractionState") {
                None => {
                    proof {
                        lemma_no_key(fs@, "extractionState"@);
                    }
                    None
                },
                Some(xi) => {
                    proof {
                        lemma_found_key(fs@, xi as int, "extractionState"@);
                    }
                    match &fs[xi].1 {
                        JsonValue::Str(x) => {
                            if str_eq(x.as_str(), "manual") {
                                Some(ExtractionState::Manual)
                            } else {
                                Some(ExtractionState::Other(x.clone()))
                            }
                        },
                        _ => {
                            return None;
                        },
                    }
                },
            };
            let e = StringEntry { comment, extraction_state, localizations };
            proof {
                let li = choose|li: int|
                    0 <= li < fs@.len() && (#[trigger] fs@[li]).0@ == "localizations"@;
                assert forall|a: int, c: int|
                    0 <= a < c < e.localizations@.len() implies (#[trigger] e.localizations@[a]).0@
                    != (#[trigger] e.localizations@[c]).0@ by {
                    let inner = fs@[li].1->Obj_0;
                    assert(branches_match(e.localizations, fs@[li].1));
                    assert(json_wf(fs@[li].1));
                    assert(e.localizations@[a].0@ == inner@[a].0@);
                    assert(e.localizations@[c].0@ == inner@[c].0@);
                    assert(assoc_keys_unique(inner@));
                }
            }
            Some(e)
        },
        _ => None,
    }
}

/// An entry list from the `strings` map, exactly when every member is a
/// well-shaped entry node; the parsed list has distinct keys and
/// well-formed entries.
fn parse_entries(j: &JsonValue) -> (r: Option<Vec<(String, StringEntry)>>)
    requires
        json_wf(*j),
    ensures
        r is Some <==> entries_shape_ok(*j),
        r matches Some(es) ==> entries_match(es, *j) && assoc_keys_unique(es@) && (forall|i: int|
            0 <= i < es@.len() ==> (#[trigger] es@[i]).1.wf()),
{
    match j {
        JsonValue::Obj(fs) => {
            let mut es: Vec<(String, StringEntry)> = Vec::new();
            let mut b: usize = 0;
            while b < fs.len()
                invariant
                    json_wf(*j),
                    *j == JsonValue::Obj(*fs),
                    b <= fs@.len(),
                    es@.len() == b,
                    forall|bb: int|
                        0 <= bb < b ==> (#[trigger] es@[bb]).0@ == fs@[bb].0@ && entry_matches(
                            es@[bb].1,
                            fs@[bb].1,
                        ) && entry_shape_ok(fs@[bb].1) && es@[bb].1.wf(),
                decreases fs@.len() - b,
            {
                match parse_entry(&fs[b].1) {
                    Some(e) => {
                        es.push((fs[b].0.clone(), e));
                    },
                    None => {
                        assert(!entry_shape_ok(fs@[b as int].1));
                        return None;
                    },
                }
                b += 1;
            }
            proof {
                assert forall|bb: int| 0 <= bb < fs@.len() implies entry_shape_ok(
                    (#[trigger] fs@[bb]).1,
                ) && es@[bb].0@ == fs@[bb].0@ && entry_matches(es@[bb].1, fs@[bb].1) by {
                    assert(es@[bb].0@ == fs@[bb].0@ && entry_matches(es@[bb].1, fs@[bb].1)
                        && entry_shape_ok(fs@[bb].1));
                }
                assert forall|a: int, c: int|
                    0 <= a < c < es@.len() implies (#[trigger] es@[a]).0@ != (
                #[trigger] es@[c]).0@ by {
                    assert(es@[a].0@ == fs@[a].0@);
                    assert(es@[c].0@ == fs@[c].0@);
                    assert(assoc_keys_unique(fs@));
                }
            }
            Some(es)
        },
        _ => None,
    }
}

/// A catalog from a decoded document tree. The version gate comes first:
/// a missing or non-string version is a shape error, a version other than
/// the supported one fails with the version error whatever the rest of
/// the document holds, and only then is the rest of the shape checked.
pub fn root_from_json(j: &JsonValue) -> (r: Result<Root, Error>)
    requires
        json_wf(*j),
    ensures
        (match version_of(*j) {
            Option::None => r matches Err(e) && e matches Error::Parse(_),
            Option::Some(v) => {
                &&& (v != "1.0"@ ==> (r matches Err(e) && (e matches Error::UnsupportedVersion {
                    expected,
                    found,
                } && expected@ == "1.0"@ && found@ == v)))
                &&& (v == "1.0"@ && root_shape_ok(*j) ==> (r matches Ok(root) && root.wf()
                    && root_matches(root, *j)))
                &&& (v == "1.0"@ && !root_shape_ok(*j) ==> (r matches Err(e)
                    && e matches Error::Parse(_)))
            },
        }),
{
    match j {
        JsonValue::Obj(fs) => {
            let version: String = match find_key(fs, "version") {
                None => {
                    proof {
                        lemma_no_key(fs@, "version"@);
                    }
                    return Err(Error::Parse(shape_message()));
                },
                Some(vi) => {
                    proof {
                        lemma_found_key(fs@, vi as int, "version"@);
                    }
                    match &fs[vi].1 {
                        JsonValue::Str(v) => v.clone(),
                        _ => {
                            return Err(Error::Parse(shape_message()));
                        },
                    }
                },
            };
            if !str_eq(version.as_str(), "1.0") {
                return Err(
                    Error::UnsupportedVersion { expected: "1.0".to_owned(), found: version },
                );
            }
            let source_language: String = match find_key(fs, "sourceLanguage") {
                None => {
                    proof {
                        lemma_no_key(fs@, "sourceLanguage"@);
                    }
                    String::new()
                },
                Some(si) => {
                    proof {
                        lemma_found_key(fs@, si as int, "sourceLanguage"@);
                    }
                    match &fs[si].1 {
                        JsonValue::Str(s) => s.clone(),
                        _ => {
                            return Err(Error::Parse(shape_message()));
                        },
                    }
                },
            };
            match find_key(fs, "strings") {
                None => {
                    proof {
                        lemma_no_key(fs@, "strings"@);
                    }
                    Err(Error::Parse(shape_message()))
                },
                Some(ei) => {
                    proof {
                        lemma_found_key(fs@, ei as int, "strings"@);
                    }
                    match parse_entries(&fs[ei].1) {
                        Some(strings) => Ok(Root { version, source_language, strings }),
                        None => Err(Error::Parse(shape_message())),
                    }
                },
            }
        },
        _ => Err(Error::Parse(shape_message())),
    }
}

/// The diagnostic for a structurally unusable document.
fn shape_message() -> (r: String) {
    "document does not match the expected catalog shape".to_owned()
}

/// A catalog from raw document text: decode the text as JSON, then read a
/// catalog off the tree, version gate first.
pub fn deserialize(catalog: &str) -> (r: Result<Root, Error>)
    ensures
        (match json_tree_of(catalog@) {
            Option::None => r matches Err(e) && e matches Error::Parse(_),
            Option::Some(j) => match version_of(j) {
                Option::None => r matches Err(e) && e matches Error::Parse(_),
                Option::Some(v) => {
                    &&& (v != "1.0"@ ==> (r matches Err(e) && (
                    e matches Error::UnsupportedVersion { expected, found } && expected@
                        == "1.0"@ && found@ == v)))
                    &&& (v == "1.0"@ && root_shape_ok(j) ==> (r matches Ok(root) && root.wf()
                        && root_matches(root, j)))
                    &&& (v == "1.0"@ && !root_shape_ok(j) ==> (r matches Err(e)
                        && e matches Error::Parse(_)))
                },
            },
        }),
{
    match parse_json_text(catalog) {
        Err(m) => Err(Error::Parse(m)),
        Ok(j) => root_from_json(&j),
    }
}

} // verus!
