//! Variable references embedded in JSON data.
//!
//! A step's inputs are JSON-shaped: a reference appears as a one-entry
//! object `{"Ref": <path>}` (the tagged form of a `RefValue::Ref`), where
//! the path is written `{"parts": [..]}` (other entries ignored) or
//! `[[..]]`. A one-entry `{"Template": [..]}` holds template pieces
//! `{"lit": ".."}` / `{"ref": <path>}`. Bare strings are never references.

use vstd::prelude::*;
use crate::json::{Json, JsonV, jv};
use crate::text::{chars_of, chars_eq, join, strs_view, push_str, push_char, to_string};
use crate::dsl::variable::{VariablePath, RefValue, TemplatePart, TPartV, parts_view};
use crate::dsl::step::{StepOp, StepId, ids_view};

verus! {

/// The value under key `k` among object entries (the first match).
pub open spec fn jlookup(es: Seq<(Seq<char>, JsonV)>, k: Seq<char>) -> Option<JsonV>
    decreases es.len(),
{
    if es.len() == 0 {
        None
    } else if es[0].0 == k {
        Some(es[0].1)
    } else {
        jlookup(es.drop_first(), k)
    }
}

/// An array whose items are all strings.
pub open spec fn str_array(v: JsonV) -> Option<Seq<Seq<char>>> {
    match v {
        JsonV::Array(items) => if forall|i: int| 0 <= i < items.len() ==> (#[trigger] items[i]) is Str {
            Some(Seq::new(items.len(), |i: int| match items[i] {
                JsonV::Str(s) => s,
                _ => Seq::empty(),
            }))
        } else {
            None
        },
        _ => None,
    }
}

/// A path read back from its JSON form: `{"parts": [..], ..}` or `[[..]]`.
pub open spec fn path_from_json(v: JsonV) -> Option<Seq<Seq<char>>> {
    match v {
        JsonV::Object(es) => match jlookup(es, "parts"@) {
            Some(p) => str_array(p),
            None => None,
        },
        JsonV::Array(items) => if items.len() == 1 {
            str_array(items[0])
        } else {
            None
        },
        _ => None,
    }
}

/// A one-entry object with key `k`.
pub open spec fn single_key(es: Seq<(Seq<char>, JsonV)>, k: Seq<char>) -> bool {
    es.len() == 1 && es[0].0 == k
}

/// A reference tag with a non-empty path, as validation recognises it.
pub open spec fn ref_tag(es: Seq<(Seq<char>, JsonV)>) -> Option<Seq<Seq<char>>> {
    if single_key(es, "Ref"@) {
        match path_from_json(es[0].1) {
            Some(p) => if p.len() > 0 {
                Some(p)
            } else {
                None
            },
            None => None,
        }
    } else {
        None
    }
}

/// A reference as (first segment, the rest joined with `.`).
pub open spec fn ref_pair(p: Seq<Seq<char>>) -> (Seq<char>, Seq<char>) {
    (p[0], join(p.drop_first(), '.'))
}

/// Every reference tag in a JSON value, in document order; a tag is not
/// searched further, any other object or array is searched entry by entry.
pub open spec fn json_refs(v: JsonV) -> Seq<(Seq<char>, Seq<char>)>
    decreases v,
{
    match v {
        JsonV::Object(es) => match ref_tag(es) {
            Some(p) => seq![ref_pair(p)],
            None => entries_refs(es),
        },
        JsonV::Array(items) => items_refs(items),
        _ => Seq::empty(),
    }
}

pub open spec fn items_refs(items: Seq<JsonV>) -> Seq<(Seq<char>, Seq<char>)>
    decreases items,
{
    if items.len() == 0 {
        Seq::empty()
    } else {
        items_refs(items.drop_last()) + json_refs(items.last())
    }
}

pub open spec fn entries_refs(es: Seq<(Seq<char>, JsonV)>) -> Seq<(Seq<char>, Seq<char>)>
    decreases es,
{
    if es.len() == 0 {
        Seq::empty()
    } else {
        entries_refs(es.drop_last()) + json_refs(es.last().1)
    }
}

pub open spec fn pairs_view(v: Seq<(String, String)>) -> Seq<(Seq<char>, Seq<char>)> {
    v.map_values(|p: (String, String)| (p.0@, p.1@))
}

/// Whether the string is `k`.
pub fn str_is(s: &str, k: &str) -> (r: bool)
    ensures
        r == (s@ == k@),
{
    let a = chars_of(s);
    let b = chars_of(k);
    chars_eq(&a, &b)
}

/// The value under key `k` among an object's entries.
pub fn lookup<'a>(es: &'a Vec<(String, Json)>, k: &str) -> (r: Option<&'a Json>)
    ensures
        match jlookup(entries_jv(es@), k@) {
            Some(x) => r matches Some(y) && jv(*y) == x,
            None => r is None,
        },
{
    let ghost ents = entries_jv(es@);
    assert(ents.subrange(0, ents.len() as int) =~= ents);
    let mut i: usize = 0;
    while i < es.len()
        invariant
            i <= es@.len(),
            ents == entries_jv(es@),
            jlookup(ents, k@) == jlookup(ents.subrange(i as int, ents.len() as int), k@),
        decreases es@.len() - i,
    {
        let ghost rest = ents.subrange(i as int, ents.len() as int);
        assert(rest.drop_first() =~= ents.subrange(i + 1, ents.len() as int));
        if str_is(es[i].0.as_str(), k) {
            return Some(&es[i].1);
        }
        i = i + 1;
    }
    None
}

/// The JSON values of an object's entries.
pub open spec fn entries_jv(es: Seq<(String, Json)>) -> Seq<(Seq<char>, JsonV)> {
    Seq::new(es.len(), |i: int| (es[i].0@, jv(es[i].1)))
}

/// The items of an array, as JSON values.
pub open spec fn items_jv(v: Seq<Json>) -> Seq<JsonV> {
    Seq::new(v.len(), |i: int| jv(v[i]))
}

pub proof fn lemma_jv_array(j: Json)
    requires
        j is Array,
    ensures
        jv(j) == JsonV::Array(items_jv(j->Array_0@)),
{
    if let JsonV::Array(a) = jv(j) {
        assert(a =~= items_jv(j->Array_0@));
    }
}

pub proof fn lemma_jv_object(j: Json)
    requires
        j is Object,
    ensures
        jv(j) == JsonV::Object(entries_jv(j->Object_0@)),
{
    if let JsonV::Object(a) = jv(j) {
        assert(a =~= entries_jv(j->Object_0@));
    }
}

/// An array of strings, read back.
pub fn str_array_exec(j: &Json) -> (r: Option<Vec<String>>)
    ensures
        match str_array(jv(*j)) {
            Some(p) => r matches Some(v) && strs_view(v@) == p,
            None => r is None,
        },
{
    match j {
        Json::Array(items) => {
            proof {
                lemma_jv_array(*j);
            }
            let ghost its = items_jv(items@);
            let mut out: Vec<String> = Vec::new();
            let mut i: usize = 0;
            while i < items.len()
                invariant
                    i <= items@.len(),
                    its == items_jv(items@),
                    jv(*j) == JsonV::Array(its),
                    out@.len() == i,
                    forall|k: int| 0 <= k < i ==> (#[trigger] its[k]) is Str,
                    forall|k: int| 0 <= k < i ==> its[k] == JsonV::Str(#[trigger] out@[k]@),
                decreases items@.len() - i,
            {
                match &items[i] {
                    Json::Str(s) => {
                        out.push(s.clone());
                    },
                    _ => {
                        assert(!(its[i as int] is Str));
                        return None;
                    },
                }
                i = i + 1;
            }
            assert(strs_view(out@) =~= str_array(jv(*j))->Some_0);
            Some(out)
        },
        _ => None,
    }
}

/// A path read back from its JSON form.
pub fn path_from_json_exec(j: &Json) -> (r: Option<Vec<String>>)
    ensures
        match path_from_json(jv(*j)) {
            Some(p) => r matches Some(v) && strs_view(v@) == p,
            None => r is None,
        },
{
    match j {
        Json::Object(es) => {
            proof {
                lemma_jv_object(*j);
                reveal_strlit("parts");
            }
            match lookup(es, "parts") {
                Some(p) => str_array_exec(p),
                None => None,
            }
        },
        Json::Array(items) => {
            proof {
                lemma_jv_array(*j);
            }
            if items.len() == 1 {
                str_array_exec(&items[0])
            } else {
                None
            }
        },
        _ => None,
    }
}

/// Appends `parts[from..].join(".")`.
pub fn push_joined_from(out: &mut String, parts: &Vec<String>, from: usize)
    requires
        from <= parts@.len(),
    ensures
        final(out)@ == old(out)@ + join(strs_view(parts@).subrange(from as int, parts@.len() as int), '.'),
{
    let ghost v = strs_view(parts@).subrange(from as int, parts@.len() as int);
    let mut i: usize = from;
    while i < parts.len()
        invariant
            from <= i <= parts@.len(),
            v == strs_view(parts@).subrange(from as int, parts@.len() as int),
            out@ == old(out)@ + join(v.subrange(0, i - from), '.'),
        decreases parts@.len() - i,
    {
        if i > from {
            push_char(out, '.');
        }
        push_str(out, parts[i].as_str());
        proof {
            let w = v.subrange(0, i + 1 - from);
            assert(w.drop_last() =~= v.subrange(0, i - from));
            assert(w.last() == parts@[i as int]@);
            if i == from {
                assert(join(v.subrange(0, 0), '.') =~= Seq::<char>::empty());
                assert(out@ =~= old(out)@ + join(w, '.'));
            } else {
                assert(out@ =~= old(out)@ + join(w, '.'));
            }
        }
        i = i + 1;
    }
    assert(v.subrange(0, parts@.len() - from) =~= v);
}

/// The (first segment, rest) pair of a non-empty path.
pub fn ref_pair_exec(parts: &Vec<String>) -> (r: (String, String))
    requires
        parts@.len() > 0,
    ensures
        (r.0@, r.1@) == ref_pair(strs_view(parts@)),
{
    let first = parts[0].clone();
    let mut rest = String::new();
    push_joined_from(&mut rest, parts, 1);
    assert(strs_view(parts@).subrange(1, parts@.len() as int) =~= strs_view(parts@).drop_first());
    assert(rest@ =~= join(strs_view(parts@).drop_first(), '.'));
    (first, rest)
}

/// The reference tag an object's entries form, if they form one.
pub fn ref_tag_exec(es: &Vec<(String, Json)>) -> (r: Option<Vec<String>>)
    ensures
        match ref_tag(entries_jv(es@)) {
            Some(p) => r matches Some(v) && strs_view(v@) == p,
            None => r is None,
        },
{
    proof {
        reveal_strlit("Ref");
    }
    if es.len() == 1 && str_is(es[0].0.as_str(), "Ref") {
        match path_from_json_exec(&es[0].1) {
            Some(p) => {
                if p.len() > 0 {
                    Some(p)
                } else {
                    None
                }
            },
            None => None,
        }
    } else {
        None
    }
}

/// Appends every reference tag of `j`, in document order.
#[verifier::loop_isolation(false)]
pub fn collect_json_refs(j: &Json, out: &mut Vec<(String, String)>)
    ensures
        pairs_view(final(out)@) == pairs_view(old(out)@) + json_refs(jv(*j)),
    decreases j,
{
    match j {
        Json::Object(es) => {
            proof {
                lemma_jv_object(*j);
            }
            let ghost ents = entries_jv(es@);
            match ref_tag_exec(es) {
                Some(p) => {
                    let pr = ref_pair_exec(&p);
                    out.push(pr);
                    assert(pairs_view(out@) =~= pairs_view(old(out)@) + json_refs(jv(*j)));
                },
                None => {
                    let mut i: usize = 0;
                    while i < es.len()
                        invariant
                            i <= es@.len(),
                            ents == entries_jv(es@),
                            pairs_view(out@) == pairs_view(old(out)@) + entries_refs(
                                ents.subrange(0, i as int),
                            ),
                        decreases es@.len() - i,
                    {
                        proof {
                            assert(decreases_to!(es => es[i as int]));
                            assert(decreases_to!(es[i as int] => es[i as int].1));
                        }
                        collect_json_refs(&es[i].1, out);
                        proof {
                            let w = ents.subrange(0, i + 1);
                            assert(w.drop_last() =~= ents.subrange(0, i as int));
                        }
                        i = i + 1;
                    }
                    assert(ents.subrange(0, es@.len() as int) =~= ents);
                },
            }
        },
        Json::Array(items) => {
            proof {
                lemma_jv_array(*j);
            }
            let ghost its = items_jv(items@);
            let mut i: usize = 0;
            while i < items.len()
                invariant
                    i <= items@.len(),
                    its == items_jv(items@),
                    pairs_view(out@) == pairs_view(old(out)@) + items_refs(its.subrange(0, i as int)),
                decreases items@.len() - i,
            {
                proof {
                    assert(decreases_to!(items => items[i as int]));
                }
                collect_json_refs(&items[i], out);
                proof {
                    let w = its.subrange(0, i + 1);
                    assert(w.drop_last() =~= its.subrange(0, i as int));
                }
                i = i + 1;
            }
            assert(its.subrange(0, items@.len() as int) =~= its);
        },
        _ => {
            assert(pairs_view(out@) =~= pairs_view(old(out)@) + json_refs(jv(*j)));
        },
    }
}

// ---------------------------------------------------------------------------
// Dependencies, as the DAG builder reads them: only first segments that
// name a known step count. A `Ref` tag whose path does not read back, or a
// `Template` tag whose pieces do not, is searched as ordinary data.
// ---------------------------------------------------------------------------

/// The first segment of a path, if it names a known step.
pub open spec fn known_first(p: Seq<Seq<char>>, known: Seq<Seq<char>>) -> Seq<Seq<char>> {
    if p.len() > 0 && known.contains(p[0]) {
        seq![p[0]]
    } else {
        Seq::empty()
    }
}

/// A template piece read back from JSON: `Some(None)` for literal text,
/// `Some(Some(path))` for a reference.
pub open spec fn piece_from_json(v: JsonV) -> Option<Option<Seq<Seq<char>>>> {
    match v {
        JsonV::Object(es) => if single_key(es, "lit"@) {
            if es[0].1 is Str {
                Some(None)
            } else {
                None
            }
        } else if single_key(es, "ref"@) {
            match path_from_json(es[0].1) {
                Some(p) => Some(Some(p)),
                None => None,
            }
        } else {
            None
        },
        _ => None,
    }
}

/// The dependencies of template pieces: each reference's known first segment.
pub open spec fn pieces_deps(items: Seq<JsonV>, known: Seq<Seq<char>>) -> Seq<Seq<char>>
    decreases items.len(),
{
    if items.len() == 0 {
        Seq::empty()
    } else {
        pieces_deps(items.drop_last(), known) + match piece_from_json(items.last()) {
            Some(Some(p)) => known_first(p, known),
            _ => Seq::empty(),
        }
    }
}

/// The pieces of a template tag read back, if they all read back.
pub open spec fn template_ok(v: JsonV) -> bool {
    match v {
        JsonV::Array(items) => forall|i: int| 0 <= i < items.len() ==> (#[trigger] piece_from_json(items[i])) is Some,
        _ => false,
    }
}

pub open spec fn json_deps(v: JsonV, known: Seq<Seq<char>>) -> Seq<Seq<char>>
    decreases v,
{
    match v {
        JsonV::Object(es) => if single_key(es, "Ref"@) && path_from_json(es[0].1) is Some {
            known_first(path_from_json(es[0].1)->Some_0, known)
        } else if single_key(es, "Template"@) && template_ok(es[0].1) {
            match es[0].1 {
                JsonV::Array(items) => pieces_deps(items, known),
                _ => Seq::empty(),
            }
        } else {
            entries_deps(es, known)
        },
        JsonV::Array(items) => items_deps(items, known),
        _ => Seq::empty(),
    }
}

pub open spec fn items_deps(items: Seq<JsonV>, known: Seq<Seq<char>>) -> Seq<Seq<char>>
    decreases items,
{
    if items.len() == 0 {
        Seq::empty()
    } else {
        items_deps(items.drop_last(), known) + json_deps(items.last(), known)
    }
}

pub open spec fn entries_deps(es: Seq<(Seq<char>, JsonV)>, known: Seq<Seq<char>>) -> Seq<Seq<char>>
    decreases es,
{
    if es.len() == 0 {
        Seq::empty()
    } else {
        entries_deps(es.drop_last(), known) + json_deps(es.last().1, known)
    }
}

/// Whether `s` is one of the known identifiers.
pub fn is_known(known: &Vec<StepId>, s: &String) -> (r: bool)
    ensures
        r == ids_view(known@).contains(s@),
{
    let mut i: usize = 0;
    while i < known.len()
        invariant
            i <= known@.len(),
            forall|k: int| 0 <= k < i ==> (#[trigger] known@[k]).0@ != s@,
        decreases known@.len() - i,
    {
        if str_is(known[i].0.as_str(), s.as_str()) {
            assert(ids_view(known@)[i as int] == s@);
            return true;
        }
        i = i + 1;
    }
    assert forall|k: int| 0 <= k < ids_view(known@).len() implies ids_view(known@)[k] != s@ by {
        assert(ids_view(known@)[k] == known@[k].0@);
    }
    false
}

/// Appends the known first segment of a path.
pub fn push_known_first(parts: &Vec<String>, known: &Vec<StepId>, out: &mut Vec<String>)
    ensures
        strs_view(final(out)@) == strs_view(old(out)@) + known_first(strs_view(parts@), ids_view(known@)),
{
    if parts.len() > 0 && is_known(known, &parts[0]) {
        out.push(parts[0].clone());
        assert(strs_view(out@) =~= strs_view(old(out)@) + known_first(strs_view(parts@), ids_view(known@)));
    } else {
        assert(strs_view(out@) =~= strs_view(old(out)@) + known_first(strs_view(parts@), ids_view(known@)));
    }
}

/// A template piece read back: `Some(None)` literal, `Some(Some(path))` reference.
pub fn piece_from_json_exec(j: &Json) -> (r: Option<Option<Vec<String>>>)
    ensures
        match piece_from_json(jv(*j)) {
            Some(None) => r == Some(None::<Vec<String>>),
            Some(Some(p)) => r matches Some(Some(v)) && strs_view(v@) == p,
            None => r is None,
        },
{
    proof {
        reveal_strlit("lit");
        reveal_strlit("ref");
    }
    match j {
        Json::Object(es) => {
            proof {
                lemma_jv_object(*j);
            }
            if es.len() == 1 && str_is(es[0].0.as_str(), "lit") {
                match &es[0].1 {
                    Json::Str(_) => Some(None),
                    _ => None,
                }
            } else if es.len() == 1 && str_is(es[0].0.as_str(), "ref") {
                match path_from_json_exec(&es[0].1) {
                    Some(p) => Some(Some(p)),
                    None => None,
                }
            } else {
                None
            }
        },
        _ => None,
    }
}

/// The dependencies of a template tag's pieces, if they all read back.
pub fn template_deps_exec(j: &Json, known: &Vec<StepId>) -> (r: Option<Vec<String>>)
    ensures
        template_ok(jv(*j)) ==> (r matches Some(v) && strs_view(v@) == match jv(*j) {
            JsonV::Array(items) => pieces_deps(items, ids_view(known@)),
            _ => Seq::empty(),
        }),
        !template_ok(jv(*j)) ==> r is None,
{
    match j {
        Json::Array(items) => {
            proof {
                lemma_jv_array(*j);
            }
            let ghost its = items_jv(items@);
            let mut out: Vec<String> = Vec::new();
            let mut i: usize = 0;
            while i < items.len()
                invariant
                    i <= items@.len(),
                    its == items_jv(items@),
                    jv(*j) == JsonV::Array(its),
                    forall|k: int| 0 <= k < i ==> (#[trigger] piece_from_json(its[k])) is Some,
                    strs_view(out@) == pieces_deps(its.subrange(0, i as int), ids_view(known@)),
                decreases items@.len() - i,
            {
                let ghost before = out@;
                match piece_from_json_exec(&items[i]) {
                    Some(Some(p)) => {
                        push_known_first(&p, known, &mut out);
                    },
                    Some(None) => {},
                    None => {
                        assert(piece_from_json(its[i as int]) is None);
                        assert(!template_ok(jv(*j)));
                        return None;
                    },
                }
                proof {
                    let w = its.subrange(0, i + 1);
                    assert(w.drop_last() =~= its.subrange(0, i as int));
                    assert(w.last() == its[i as int]);
                    assert(strs_view(out@) =~= pieces_deps(w, ids_view(known@)));
                }
                i = i + 1;
            }
            assert(its.subrange(0, items@.len() as int) =~= its);
            Some(out)
        },
        _ => None,
    }
}

/// Appends the dependencies found in `j`.
#[verifier::loop_isolation(false)]
pub fn collect_json_deps(j: &Json, known: &Vec<StepId>, out: &mut Vec<String>)
    ensures
        strs_view(final(out)@) == strs_view(old(out)@) + json_deps(jv(*j), ids_view(known@)),
    decreases j,
{
    proof {
        reveal_strlit("Ref");
        reveal_strlit("Template");
    }
    match j {
        Json::Object(es) => {
            proof {
                lemma_jv_object(*j);
            }
            let ghost ents = entries_jv(es@);
            if es.len() == 1 && str_is(es[0].0.as_str(), "Ref") {
                if let Some(p) = path_from_json_exec(&es[0].1) {
                    push_known_first(&p, known, out);
                    return;
                }
            }
            if es.len() == 1 && str_is(es[0].0.as_str(), "Template") {
                if let Some(d) = template_deps_exec(&es[0].1, known) {
                    append_strings(out, &d);
                    return;
                }
            }
            let mut i: usize = 0;
            while i < es.len()
                invariant
                    i <= es@.len(),
                    ents == entries_jv(es@),
                    strs_view(out@) == strs_view(old(out)@) + entries_deps(
                        ents.subrange(0, i as int),
                        ids_view(known@),
                    ),
                decreases es@.len() - i,
            {
                proof {
                    assert(decreases_to!(es => es[i as int]));
                    assert(decreases_to!(es[i as int] => es[i as int].1));
                }
                collect_json_deps(&es[i].1, known, out);
                proof {
                    let w = ents.subrange(0, i + 1);
                    assert(w.drop_last() =~= ents.subrange(0, i as int));
                }
                i = i + 1;
            }
            assert(ents.subrange(0, es@.len() as int) =~= ents);
        },
        Json::Array(items) => {
            proof {
                lemma_jv_array(*j);
            }
            let ghost its = items_jv(items@);
            let mut i: usize = 0;
            while i < items.len()
                invariant
                    i <= items@.len(),
                    its == items_jv(items@),
                    strs_view(out@) == strs_view(old(out)@) + items_deps(
                        its.subrange(0, i as int),
                        ids_view(known@),
                    ),
                decreases items@.len() - i,
            {
                proof {
                    assert(decreases_to!(items => items[i as int]));
                }
                collect_json_deps(&items[i], known, out);
                proof {
                    let w = its.subrange(0, i + 1);
                    assert(w.drop_last() =~= its.subrange(0, i as int));
                }
                i = i + 1;
            }
            assert(its.subrange(0, items@.len() as int) =~= its);
        },
        _ => {
            assert(strs_view(out@) =~= strs_view(old(out)@) + json_deps(jv(*j), ids_view(known@)));
        },
    }
}

/// Appends the strings of `d`.
pub fn append_strings(out: &mut Vec<String>, d: &Vec<String>)
    ensures
        strs_view(final(out)@) == strs_view(old(out)@) + strs_view(d@),
{
    let mut k: usize = 0;
    while k < d.len()
        invariant
            k <= d@.len(),
            strs_view(out@) == strs_view(old(out)@) + strs_view(d@).subrange(0, k as int),
        decreases d@.len() - k,
    {
        let ghost prev = out@;
        let x = d[k].clone();
        assert(x@ == d@[k as int]@);
        out.push(x);
        assert(out@ == prev.push(x));
        assert(strs_view(out@) =~= strs_view(prev).push(x@));
        assert(strs_view(d@).subrange(0, k + 1) =~= strs_view(d@).subrange(0, k as int).push(x@));
        assert(strs_view(out@) =~= strs_view(old(out)@) + strs_view(d@).subrange(0, k + 1));
        k = k + 1;
    }
    assert(strs_view(d@).subrange(0, d@.len() as int) =~= strs_view(d@));
}

// ---------------------------------------------------------------------------
// References of a step's inputs. The inputs are searched field by field in
// the order of the field names (the order in which their JSON form lists
// them); header values in the order of their names.
// ---------------------------------------------------------------------------

pub open spec fn opt_rv(o: Option<RefValue>) -> Seq<RefValue> {
    match o {
        Some(v) => seq![v],
        None => Seq::empty(),
    }
}

/// The reference-bearing inputs of an operator, in field-name order.
#[verifier::opaque]
pub open spec fn op_inputs(op: StepOp) -> Seq<RefValue> {
    match op {
        StepOp::Http(i) => opt_rv(i.body) + match i.headers {
            Some(h) => h@.map_values(|e: (String, RefValue)| e.1),
            None => Seq::empty(),
        } + seq![i.url],
        StepOp::Js(i) => seq![i.code] + opt_rv(i.data),
        StepOp::Filter(i) => opt_rv(i.data) + opt_rv(i.value),
        StepOp::Sort(i) => opt_rv(i.data),
        StepOp::Dedup(i) => opt_rv(i.data),
        StepOp::Merge(i) => opt_rv(i.a) + seq![i.b],
        StepOp::Base64(i) => opt_rv(i.data),
        StepOp::Noop => Seq::empty(),
        StepOp::Var(i) => opt_rv(i.value),
        StepOp::File(i) => opt_rv(i.path) + opt_rv(i.url),
        StepOp::Command(i) => seq![i.command] + opt_rv(i.stdin),
        StepOp::Llm(i) => opt_rv(i.api_key) + opt_rv(i.images_b64) + seq![i.prompt] + opt_rv(
            i.system,
        ) + seq![i.url],
    }
}

/// The references a validator sees in one input: those of a literal's
/// data, or the reference itself; a template shows none.
pub open spec fn refvalue_refs(rv: RefValue) -> Seq<(Seq<char>, Seq<char>)> {
    match rv {
        RefValue::Literal(v) => json_refs(jv(v)),
        RefValue::Ref(p) => if p.pv().len() > 0 {
            seq![ref_pair(p.pv())]
        } else {
            Seq::empty()
        },
        RefValue::Template(_) => Seq::empty(),
    }
}

pub open spec fn template_parts_deps(ps: Seq<TPartV>, known: Seq<Seq<char>>) -> Seq<Seq<char>>
    decreases ps.len(),
{
    if ps.len() == 0 {
        Seq::empty()
    } else {
        template_parts_deps(ps.drop_last(), known) + match ps.last() {
            TPartV::Ref(p) => known_first(p, known),
            TPartV::Lit(_) => Seq::empty(),
        }
    }
}

/// The dependencies the DAG builder sees in one input.
pub open spec fn refvalue_deps(rv: RefValue, known: Seq<Seq<char>>) -> Seq<Seq<char>> {
    match rv {
        RefValue::Literal(v) => json_deps(jv(v), known),
        RefValue::Ref(p) => known_first(p.pv(), known),
        RefValue::Template(ps) => template_parts_deps(parts_view(ps@), known),
    }
}

pub open spec fn rvs_refs(s: Seq<RefValue>) -> Seq<(Seq<char>, Seq<char>)>
    decreases s.len(),
{
    if s.len() == 0 {
        Seq::empty()
    } else {
        rvs_refs(s.drop_last()) + refvalue_refs(s.last())
    }
}

pub open spec fn rvs_deps(s: Seq<RefValue>, known: Seq<Seq<char>>) -> Seq<Seq<char>>
    decreases s.len(),
{
    if s.len() == 0 {
        Seq::empty()
    } else {
        rvs_deps(s.drop_last(), known) + refvalue_deps(s.last(), known)
    }
}

/// The references a validator sees in a step's inputs.
pub open spec fn op_refs(op: StepOp) -> Seq<(Seq<char>, Seq<char>)> {
    rvs_refs(op_inputs(op))
}

/// The dependencies the DAG builder sees in a step's inputs (before sorting).
pub open spec fn op_deps(op: StepOp, known: Seq<Seq<char>>) -> Seq<Seq<char>> {
    rvs_deps(op_inputs(op), known)
}

pub open spec fn derefs<'a>(v: Seq<&'a RefValue>) -> Seq<RefValue> {
    v.map_values(|x: &RefValue| *x)
}

fn push_opt<'a>(out: &mut Vec<&'a RefValue>, o: &'a Option<RefValue>)
    ensures
        derefs(final(out)@) == derefs(old(out)@) + opt_rv(*o),
{
    if let Some(v) = o {
        out.push(v);
    }
    assert(derefs(out@) =~= derefs(old(out)@) + opt_rv(*o));
}

fn push_one<'a>(out: &mut Vec<&'a RefValue>, v: &'a RefValue)
    ensures
        derefs(final(out)@) == derefs(old(out)@) + seq![*v],
{
    out.push(v);
    assert(derefs(out@) =~= derefs(old(out)@) + seq![*v]);
}

/// The reference-bearing inputs of an operator, in field-name order.
pub fn op_inputs_exec<'a>(op: &'a StepOp) -> (r: Vec<&'a RefValue>)
    ensures
        derefs(r@) == op_inputs(*op),
{
    let mut r: Vec<&'a RefValue> = Vec::new();
    match op {
        StepOp::Http(i) => {
            push_opt(&mut r, &i.body);
            if let Some(h) = &i.headers {
                let ghost before = r@;
                let mut k: usize = 0;
                while k < h.len()
                    invariant
                        k <= h@.len(),
                        derefs(r@) == derefs(before) + h@.map_values(|e: (String, RefValue)| e.1).subrange(0, k as int),
                    decreases h@.len() - k,
                {
                    push_one(&mut r, &h[k].1);
                    assert(h@.map_values(|e: (String, RefValue)| e.1).subrange(0, k + 1)
                        =~= h@.map_values(|e: (String, RefValue)| e.1).subrange(0, k as int).push(h@[k as int].1));
                    k = k + 1;
                }
                assert(h@.map_values(|e: (String, RefValue)| e.1).subrange(0, h@.len() as int)
                    =~= h@.map_values(|e: (String, RefValue)| e.1));
            }
            push_one(&mut r, &i.url);
        },
        StepOp::Js(i) => {
            push_one(&mut r, &i.code);
            push_opt(&mut r, &i.data);
        },
        StepOp::Filter(i) => {
            push_opt(&mut r, &i.data);
            push_opt(&mut r, &i.value);
        },
        StepOp::Sort(i) => push_opt(&mut r, &i.data),
        StepOp::Dedup(i) => push_opt(&mut r, &i.data),
        StepOp::Merge(i) => {
            push_opt(&mut r, &i.a);
            push_one(&mut r, &i.b);
        },
        StepOp::Base64(i) => push_opt(&mut r, &i.data),
        StepOp::Noop => {},
        StepOp::Var(i) => push_opt(&mut r, &i.value),
        StepOp::File(i) => {
            push_opt(&mut r, &i.path);
            push_opt(&mut r, &i.url);
        },
        StepOp::Command(i) => {
            push_one(&mut r, &i.command);
            push_opt(&mut r, &i.stdin);
        },
        StepOp::Llm(i) => {
            push_opt(&mut r, &i.api_key);
            push_opt(&mut r, &i.images_b64);
            push_one(&mut r, &i.prompt);
            push_opt(&mut r, &i.system);
            push_one(&mut r, &i.url);
        },
    }
    proof {
        reveal(op_inputs);
    }
    assert(derefs(r@) =~= op_inputs(*op));
    r
}

/// Appends the references a validator sees in one input.
pub fn collect_refvalue_refs(rv: &RefValue, out: &mut Vec<(String, String)>)
    ensures
        pairs_view(final(out)@) == pairs_view(old(out)@) + refvalue_refs(*rv),
{
    match rv {
        RefValue::Literal(v) => collect_json_refs(v, out),
        RefValue::Ref(p) => {
            if p.parts.len() > 0 {
                let pr = ref_pair_exec(&p.parts);
                out.push(pr);
            }
            assert(pairs_view(out@) =~= pairs_view(old(out)@) + refvalue_refs(*rv));
        },
        RefValue::Template(_) => {
            assert(pairs_view(out@) =~= pairs_view(old(out)@) + refvalue_refs(*rv));
        },
    }
}

/// Appends the dependencies the DAG builder sees in one input.
pub fn collect_refvalue_deps(rv: &RefValue, known: &Vec<StepId>, out: &mut Vec<String>)
    ensures
        strs_view(final(out)@) == strs_view(old(out)@) + refvalue_deps(*rv, ids_view(known@)),
{
    match rv {
        RefValue::Literal(v) => collect_json_deps(v, known, out),
        RefValue::Ref(p) => push_known_first(&p.parts, known, out),
        RefValue::Template(ps) => {
            let ghost pv = parts_view(ps@);
            let mut k: usize = 0;
            while k < ps.len()
                invariant
                    k <= ps@.len(),
                    pv == parts_view(ps@),
                    strs_view(out@) == strs_view(old(out)@) + template_parts_deps(
                        pv.subrange(0, k as int),
                        ids_view(known@),
                    ),
                decreases ps@.len() - k,
            {
                match &ps[k] {
                    TemplatePart::Ref(p) => push_known_first(&p.parts, known, out),
                    TemplatePart::Lit(_) => {},
                }
                proof {
                    let w = pv.subrange(0, k + 1);
                    assert(w.drop_last() =~= pv.subrange(0, k as int));
                    assert(strs_view(out@) =~= strs_view(old(out)@) + template_parts_deps(w, ids_view(known@)));
                }
                k = k + 1;
            }
            assert(pv.subrange(0, ps@.len() as int) =~= pv);
        },
    }
}

/// The references a validator sees in a step's inputs.
pub fn op_refs_exec(op: &StepOp) -> (r: Vec<(String, String)>)
    ensures
        pairs_view(r@) == op_refs(*op),
{
    let ins = op_inputs_exec(op);
    let ghost s = derefs(ins@);
    let mut out: Vec<(String, String)> = Vec::new();
    let mut k: usize = 0;
    while k < ins.len()
        invariant
            k <= ins@.len(),
            s == derefs(ins@),
            s == op_inputs(*op),
            pairs_view(out@) == rvs_refs(s.subrange(0, k as int)),
        decreases ins@.len() - k,
    {
        collect_refvalue_refs(ins[k], &mut out);
        assert(s.subrange(0, k + 1).drop_last() =~= s.subrange(0, k as int));
        k = k + 1;
    }
    assert(s.subrange(0, ins@.len() as int) =~= s);
    out
}

/// The dependencies the DAG builder sees in a step's inputs.
pub fn op_deps_exec(op: &StepOp, known: &Vec<StepId>) -> (r: Vec<String>)
    ensures
        strs_view(r@) == op_deps(*op, ids_view(known@)),
{
    let ins = op_inputs_exec(op);
    let ghost s = derefs(ins@);
    let mut out: Vec<String> = Vec::new();
    let mut k: usize = 0;
    while k < ins.len()
        invariant
            k <= ins@.len(),
            s == derefs(ins@),
            s == op_inputs(*op),
            strs_view(out@) == rvs_deps(s.subrange(0, k as int), ids_view(known@)),
        decreases ins@.len() - k,
    {
        collect_refvalue_deps(ins[k], known, &mut out);
        assert(s.subrange(0, k + 1).drop_last() =~= s.subrange(0, k as int));
        k = k + 1;
    }
    assert(s.subrange(0, ins@.len() as int) =~= s);
    out
}

/// Every element is a known name.
pub open spec fn all_known(s: Seq<Seq<char>>, known: Seq<Seq<char>>) -> bool {
    forall|k: int| 0 <= k < s.len() ==> known.contains(#[trigger] s[k])
}

pub proof fn lemma_all_known_add(a: Seq<Seq<char>>, b: Seq<Seq<char>>, known: Seq<Seq<char>>)
    requires
        all_known(a, known),
        all_known(b, known),
    ensures
        all_known(a + b, known),
{
    assert forall|k: int| 0 <= k < (a + b).len() implies known.contains(#[trigger] (a + b)[k]) by {
        if k < a.len() {
            assert((a + b)[k] == a[k]);
        } else {
            assert((a + b)[k] == b[k - a.len()]);
        }
    }
}

proof fn lemma_pieces_known(items: Seq<JsonV>, known: Seq<Seq<char>>)
    ensures
        all_known(pieces_deps(items, known), known),
    decreases items.len(),
{
    if items.len() > 0 {
        lemma_pieces_known(items.drop_last(), known);
        let extra = match piece_from_json(items.last()) {
            Some(Some(p)) => known_first(p, known),
            _ => Seq::empty(),
        };
        lemma_all_known_add(pieces_deps(items.drop_last(), known), extra, known);
    }
}

/// The dependencies found in JSON data are known names.
pub proof fn lemma_json_deps_known(v: JsonV, known: Seq<Seq<char>>)
    ensures
        all_known(json_deps(v, known), known),
    decreases v,
{
    match v {
        JsonV::Object(es) => {
            if single_key(es, "Ref"@) && path_from_json(es[0].1) is Some {
            } else if single_key(es, "Template"@) && template_ok(es[0].1) {
                match es[0].1 {
                    JsonV::Array(items) => lemma_pieces_known(items, known),
                    _ => {},
                }
            } else {
                lemma_entries_deps_known(es, known);
            }
        },
        JsonV::Array(items) => lemma_items_deps_known(items, known),
        _ => {},
    }
}

proof fn lemma_items_deps_known(items: Seq<JsonV>, known: Seq<Seq<char>>)
    ensures
        all_known(items_deps(items, known), known),
    decreases items,
{
    if items.len() > 0 {
        lemma_items_deps_known(items.drop_last(), known);
        lemma_json_deps_known(items.last(), known);
        lemma_all_known_add(items_deps(items.drop_last(), known), json_deps(items.last(), known), known);
    }
}

proof fn lemma_entries_deps_known(es: Seq<(Seq<char>, JsonV)>, known: Seq<Seq<char>>)
    ensures
        all_known(entries_deps(es, known), known),
    decreases es,
{
    if es.len() > 0 {
        lemma_entries_deps_known(es.drop_last(), known);
        lemma_json_deps_known(es.last().1, known);
        lemma_all_known_add(entries_deps(es.drop_last(), known), json_deps(es.last().1, known), known);
    }
}

proof fn lemma_template_known(ps: Seq<TPartV>, known: Seq<Seq<char>>)
    ensures
        all_known(template_parts_deps(ps, known), known),
    decreases ps.len(),
{
    if ps.len() > 0 {
        lemma_template_known(ps.drop_last(), known);
        let extra = match ps.last() {
            TPartV::Ref(p) => known_first(p, known),
            TPartV::Lit(_) => Seq::empty(),
        };
        lemma_all_known_add(template_parts_deps(ps.drop_last(), known), extra, known);
    }
}

proof fn lemma_rvs_known(s: Seq<RefValue>, known: Seq<Seq<char>>)
    ensures
        all_known(rvs_deps(s, known), known),
    decreases s.len(),
{
    if s.len() > 0 {
        lemma_rvs_known(s.drop_last(), known);
        match s.last() {
            RefValue::Literal(v) => lemma_json_deps_known(jv(v), known),
            RefValue::Ref(_) => {},
            RefValue::Template(ps) => lemma_template_known(parts_view(ps@), known),
        }
        lemma_all_known_add(rvs_deps(s.drop_last(), known), refvalue_deps(s.last(), known), known);
    }
}

/// Every dependency found in a step's inputs is a known name.
pub proof fn lemma_op_deps_known(op: StepOp, known: Seq<Seq<char>>)
    ensures
        all_known(op_deps(op, known), known),
{
    lemma_rvs_known(op_inputs(op), known);
}


/// A JSON string inside literal data is never read as a reference,
/// whatever `{..}` text it holds: it gives no reference and no dependency.
pub proof fn lemma_literal_string_inert(t: Seq<char>, known: Seq<Seq<char>>)
    ensures
        json_refs(JsonV::Str(t)) == Seq::<(Seq<char>, Seq<char>)>::empty(),
        json_deps(JsonV::Str(t), known) == Seq::<Seq<char>>::empty(),
{
}

} // verus!
