//! `dedup`: keeps the first element of each key.

use vstd::prelude::*;
use crate::json::{Json, JsonV, jv, json_wf, text_of, resolve_path, resolve_nested, to_text, get_field};
use crate::text::strs_view;
use crate::dsl::refs::str_is;
use crate::operator::types::{OperatorError, OperatorSpec};
use crate::operator::builtin::{get_str, elements, str_or, into_items};

verus! {

pub struct DedupOperator;

/// The key an element is compared by: the compact JSON text of its field
/// (of the whole element when no field is given). An element whose field is
/// missing or `null` has no key and is always kept.
pub open spec fn dedup_key(field: Seq<char>, item: Json) -> Option<Seq<char>> {
    if field.len() > 0 && resolve_path(item, field) is Null {
        None
    } else {
        Some(text_of(jv(resolve_path(item, field))))
    }
}

/// Whether `items[i]` is kept: it has no key, or no earlier element has its key.
pub open spec fn first_of_key(field: Seq<char>, items: Seq<Json>, i: int) -> bool {
    match dedup_key(field, items[i]) {
        None => true,
        Some(k) => forall|j: int| 0 <= j < i ==> dedup_key(field, #[trigger] items[j]) != Some(k),
    }
}

/// The kept elements among the first `n`, in order.
pub open spec fn dedup_kept(field: Seq<char>, items: Seq<Json>, n: int) -> Seq<Json>
    decreases n,
{
    if n <= 0 {
        Seq::empty()
    } else if first_of_key(field, items, n - 1) {
        dedup_kept(field, items, n - 1).push(items[n - 1])
    } else {
        dedup_kept(field, items, n - 1)
    }
}

proof fn lemma_dedup_from(field: Seq<char>, items: Seq<Json>, n: int)
    requires
        0 <= n <= items.len(),
    ensures
        forall|j: int| 0 <= j < dedup_kept(field, items, n).len() ==> exists|i: int| 0 <= i < n && #[trigger] dedup_kept(field, items, n)[j] == items[i]
            && first_of_key(field, items, i),
    decreases n,
{
    if n > 0 {
        lemma_dedup_from(field, items, n - 1);
        let prev = dedup_kept(field, items, n - 1);
        let out = dedup_kept(field, items, n);
        assert forall|j: int| 0 <= j < out.len() implies exists|i: int| 0 <= i < n && #[trigger] out[j] == items[i]
            && first_of_key(field, items, i) by {
            if j < prev.len() {
                assert(out[j] == prev[j]);
            } else {
                assert(out[j] == items[n - 1]);
            }
        }
    }
}

#[verifier::rlimit(40)]
proof fn lemma_dedup_distinct(field: Seq<char>, items: Seq<Json>, n: int)
    requires
        0 <= n <= items.len(),
    ensures
        forall|a: int, b: int|
            0 <= a < b < dedup_kept(field, items, n).len() && dedup_key(field, #[trigger] dedup_kept(field, items, n)[a]) is Some
                ==> dedup_key(field, dedup_kept(field, items, n)[a]) != dedup_key(field, #[trigger] dedup_kept(field, items, n)[b]),
    decreases n,
{
    if n > 0 {
        lemma_dedup_distinct(field, items, n - 1);
        lemma_dedup_from(field, items, n - 1);
        let prev = dedup_kept(field, items, n - 1);
        let out = dedup_kept(field, items, n);
        if first_of_key(field, items, n - 1) {
            assert forall|a: int, b: int|
                0 <= a < b < out.len() && dedup_key(field, #[trigger] out[a]) is Some implies dedup_key(field, out[a])
                    != dedup_key(field, #[trigger] out[b]) by {
                assert(out[a] == prev[a]);
                if b == out.len() - 1 {
                    assert(out[b] == items[n - 1]);
                    let i = choose|i: int| 0 <= i < n - 1 && #[trigger] prev[a] == items[i];
                    assert(dedup_key(field, items[i]) == dedup_key(field, out[a]));
                } else {
                    assert(out[b] == prev[b]);
                }
            }
        }
    }
}

#[verifier::rlimit(40)]
proof fn lemma_dedup_cover(field: Seq<char>, items: Seq<Json>, n: int)
    requires
        0 <= n <= items.len(),
    ensures
        forall|i: int|
            #![trigger items[i]]
            0 <= i < n ==> (dedup_key(field, items[i]) is None ==> dedup_kept(field, items, n).contains(items[i]))
                && (dedup_key(field, items[i]) is Some ==> exists|j: int|
                0 <= j < dedup_kept(field, items, n).len() && dedup_key(field, #[trigger] dedup_kept(field, items, n)[j])
                    == dedup_key(field, items[i])),
    decreases n,
{
    if n > 0 {
        lemma_dedup_cover(field, items, n - 1);
        let prev = dedup_kept(field, items, n - 1);
        let out = dedup_kept(field, items, n);
        let x = items[n - 1];
        if !first_of_key(field, items, n - 1) {
            let j0 = choose|j: int| 0 <= j < n - 1 && dedup_key(field, #[trigger] items[j]) == dedup_key(field, x);
            assert(dedup_key(field, items[j0]) is Some);
        }
        assert forall|i: int|
            #![trigger items[i]]
            0 <= i < n implies (dedup_key(field, items[i]) is None ==> out.contains(items[i])) && (dedup_key(field, items[i]) is Some
                ==> exists|j: int| 0 <= j < out.len() && dedup_key(field, #[trigger] out[j]) == dedup_key(field, items[i])) by {
            if first_of_key(field, items, n - 1) {
                if i == n - 1 {
                    assert(out[out.len() - 1] == items[i]);
                } else {
                    if dedup_key(field, items[i]) is None {
                        let j = choose|j: int| 0 <= j < prev.len() && prev[j] == items[i];
                        assert(out[j] == items[i]);
                    }
                    if dedup_key(field, items[i]) is Some {
                        let j = choose|j: int| 0 <= j < prev.len() && dedup_key(field, #[trigger] prev[j]) == dedup_key(field, items[i]);
                        assert(out[j] == prev[j]);
                    }
                }
            } else if i == n - 1 {
                let j0 = choose|j: int| 0 <= j < n - 1 && dedup_key(field, #[trigger] items[j]) == dedup_key(field, x);
                assert(j0 < n - 1 && dedup_key(field, items[j0]) is Some);
            }
        }
    }
}

proof fn lemma_dedup_keys(field: Seq<char>, items: Seq<Json>, n: int)
    requires
        0 <= n <= items.len(),
    ensures
        ({
            let out = dedup_kept(field, items, n);
            &&& forall|a: int, b: int|
                0 <= a < b < out.len() && dedup_key(field, #[trigger] out[a]) is Some ==> dedup_key(field, out[a])
                    != dedup_key(field, #[trigger] out[b])
            &&& forall|i: int|
                #![trigger items[i]]
                0 <= i < n ==> (dedup_key(field, items[i]) is None ==> out.contains(items[i]))
                    && (dedup_key(field, items[i]) is Some ==> exists|j: int|
                    0 <= j < out.len() && dedup_key(field, #[trigger] out[j]) == dedup_key(field, items[i]))
            &&& forall|j: int| 0 <= j < out.len() ==> exists|i: int| 0 <= i < n && #[trigger] out[j] == items[i]
        }),
{
    lemma_dedup_from(field, items, n);
    lemma_dedup_distinct(field, items, n);
    lemma_dedup_cover(field, items, n);
}

/// With no field, each element is its own key: the result holds no two
/// elements with the same compact JSON text, every input element's text
/// occurs in it, and every element of it is an input element.
pub proof fn lemma_dedup_whole_elements(items: Seq<Json>)
    ensures
        ({
            let out = dedup_kept(Seq::empty(), items, items.len() as int);
            &&& forall|a: int, b: int| 0 <= a < b < out.len() ==> text_of(jv(#[trigger] out[a])) != text_of(jv(#[trigger] out[b]))
            &&& forall|i: int| #![trigger items[i]] 0 <= i < items.len() ==> exists|j: int| 0 <= j < out.len() && text_of(jv(#[trigger] out[j])) == text_of(jv(items[i]))
            &&& forall|j: int| 0 <= j < out.len() ==> exists|i: int| 0 <= i < items.len() && #[trigger] out[j] == items[i]
                && forall|h: int| 0 <= h < i ==> text_of(jv(#[trigger] items[h])) != text_of(jv(items[i]))
        }),
{
    let f = Seq::<char>::empty();
    lemma_dedup_keys(f, items, items.len() as int);
    let out = dedup_kept(f, items, items.len() as int);
    assert forall|x: Json| #[trigger] dedup_key(f, x) == Some(text_of(jv(x))) by {}
    assert forall|a: int, b: int| 0 <= a < b < out.len() implies text_of(jv(#[trigger] out[a])) != text_of(jv(#[trigger] out[b])) by {
        assert(dedup_key(f, out[a]) == Some(text_of(jv(out[a]))));
        assert(dedup_key(f, out[b]) == Some(text_of(jv(out[b]))));
    }
    assert forall|i: int| #![trigger items[i]] 0 <= i < items.len() implies exists|j: int| 0 <= j < out.len() && text_of(jv(#[trigger] out[j])) == text_of(jv(items[i])) by {
        assert(dedup_key(f, items[i]) == Some(text_of(jv(items[i]))));
        let j = choose|j: int| 0 <= j < out.len() && dedup_key(f, #[trigger] out[j]) == dedup_key(f, items[i]);
        assert(dedup_key(f, out[j]) == Some(text_of(jv(out[j]))));
    }
    lemma_dedup_from(f, items, items.len() as int);
    assert forall|j: int| 0 <= j < out.len() implies exists|i: int| 0 <= i < items.len() && #[trigger] out[j] == items[i]
        && forall|h: int| 0 <= h < i ==> text_of(jv(#[trigger] items[h])) != text_of(jv(items[i])) by {
        let i = choose|i: int| 0 <= i < items.len() && #[trigger] out[j] == items[i] && first_of_key(f, items, i);
        assert forall|h: int| 0 <= h < i implies text_of(jv(#[trigger] items[h])) != text_of(jv(items[i])) by {
            assert(dedup_key(f, items[h]) == Some(text_of(jv(items[h]))));
            assert(dedup_key(f, items[i]) == Some(text_of(jv(items[i]))));
        }
    }
}

proof fn lemma_field_distinct(field: Seq<char>, items: Seq<Json>)
    requires
        field.len() > 0,
    ensures
        forall|a: int, b: int|
            0 <= a < b < dedup_kept(field, items, items.len() as int).len() && !(resolve_path(
                #[trigger] dedup_kept(field, items, items.len() as int)[a],
                field,
            ) is Null) && !(resolve_path(#[trigger] dedup_kept(field, items, items.len() as int)[b], field) is Null) ==> text_of(
                jv(resolve_path(dedup_kept(field, items, items.len() as int)[a], field)),
            ) != text_of(jv(resolve_path(dedup_kept(field, items, items.len() as int)[b], field))),
{
    lemma_dedup_distinct(field, items, items.len() as int);
}

proof fn lemma_field_cover(field: Seq<char>, items: Seq<Json>)
    requires
        field.len() > 0,
    ensures
        forall|i: int|
            0 <= i < items.len() && resolve_path(#[trigger] items[i], field) is Null ==> dedup_kept(
                field,
                items,
                items.len() as int,
            ).contains(items[i]),
        forall|i: int|
            0 <= i < items.len() && !(resolve_path(#[trigger] items[i], field) is Null) ==> exists|j: int|
                0 <= j < dedup_kept(field, items, items.len() as int).len() && !(resolve_path(
                    #[trigger] dedup_kept(field, items, items.len() as int)[j],
                    field,
                ) is Null) && text_of(jv(resolve_path(dedup_kept(field, items, items.len() as int)[j], field))) == text_of(
                    jv(resolve_path(items[i], field)),
                ),
{
    lemma_dedup_cover(field, items, items.len() as int);
    let out = dedup_kept(field, items, items.len() as int);
    assert forall|i: int| 0 <= i < items.len() && !(resolve_path(#[trigger] items[i], field) is Null) implies exists|j: int|
        0 <= j < out.len() && !(resolve_path(#[trigger] out[j], field) is Null) && text_of(jv(resolve_path(out[j], field)))
            == text_of(jv(resolve_path(items[i], field))) by {
        let j = choose|j: int| 0 <= j < out.len() && dedup_key(field, #[trigger] out[j]) == dedup_key(field, items[i]);
        assert(dedup_key(field, out[j]) is Some);
    }
}

proof fn lemma_field_first(field: Seq<char>, items: Seq<Json>)
    requires
        field.len() > 0,
    ensures
        forall|j: int|
            0 <= j < dedup_kept(field, items, items.len() as int).len() ==> exists|i: int|
                0 <= i < items.len() && #[trigger] dedup_kept(field, items, items.len() as int)[j] == items[i] && (!(resolve_path(
                    items[i],
                    field,
                ) is Null) ==> forall|h: int|
                    0 <= h < i && !(resolve_path(#[trigger] items[h], field) is Null) ==> text_of(jv(resolve_path(items[h], field)))
                        != text_of(jv(resolve_path(items[i], field)))),
{
    lemma_dedup_from(field, items, items.len() as int);
    let out = dedup_kept(field, items, items.len() as int);
    assert forall|j: int| 0 <= j < out.len() implies exists|i: int| 0 <= i < items.len() && #[trigger] out[j] == items[i]
        && (!(resolve_path(items[i], field) is Null) ==> forall|h: int| 0 <= h < i && !(resolve_path(#[trigger] items[h], field) is Null)
            ==> text_of(jv(resolve_path(items[h], field))) != text_of(jv(resolve_path(items[i], field)))) by {
        let i = choose|i: int| 0 <= i < items.len() && #[trigger] out[j] == items[i] && first_of_key(field, items, i);
        if !(resolve_path(items[i], field) is Null) {
            assert forall|h: int| 0 <= h < i && !(resolve_path(#[trigger] items[h], field) is Null) implies text_of(
                jv(resolve_path(items[h], field)),
            ) != text_of(jv(resolve_path(items[i], field))) by {
                assert(dedup_key(field, items[h]) == Some(text_of(jv(resolve_path(items[h], field)))));
            }
        }
    }
}

/// With a field, elements are told apart by the compact JSON text of
/// their field's value: no two kept elements with a non-null value share
/// that text, every element whose value is missing or null is kept, every
/// other element's value text occurs among those kept, and every kept
/// element is an input element that no earlier element with the same
/// value text precedes.
pub proof fn lemma_dedup_by_field(field: Seq<char>, items: Seq<Json>)
    requires
        field.len() > 0,
    ensures
        ({
            let out = dedup_kept(field, items, items.len() as int);
            &&& forall|a: int, b: int|
                0 <= a < b < out.len() && !(resolve_path(#[trigger] out[a], field) is Null) && !(resolve_path(#[trigger] out[b], field) is Null)
                    ==> text_of(jv(resolve_path(out[a], field))) != text_of(jv(resolve_path(out[b], field)))
            &&& forall|i: int| 0 <= i < items.len() && resolve_path(#[trigger] items[i], field) is Null ==> out.contains(items[i])
            &&& forall|i: int|
                0 <= i < items.len() && !(resolve_path(#[trigger] items[i], field) is Null) ==> exists|j: int|
                    0 <= j < out.len() && !(resolve_path(#[trigger] out[j], field) is Null) && text_of(jv(resolve_path(out[j], field)))
                        == text_of(jv(resolve_path(items[i], field)))
            &&& forall|j: int| 0 <= j < out.len() ==> exists|i: int| 0 <= i < items.len() && #[trigger] out[j] == items[i]
                && (!(resolve_path(items[i], field) is Null) ==> forall|h: int| 0 <= h < i && !(resolve_path(#[trigger] items[h], field) is Null)
                    ==> text_of(jv(resolve_path(items[h], field))) != text_of(jv(resolve_path(items[i], field))))
        }),
{
    lemma_field_distinct(field, items);
    lemma_field_cover(field, items);
    lemma_field_first(field, items);
}

/// The data: the `data` entry of an object (`null` when absent), or the
/// inputs themselves when they are not an object.
pub open spec fn dedup_data(inputs: Json) -> Json {
    match inputs {
        Json::Object(_) => match get_field(inputs, "data"@) {
            Some(v) => v,
            None => Json::Null,
        },
        _ => inputs,
    }
}

pub open spec fn dedup_field_of(inputs: Json) -> Seq<char> {
    match get_str(inputs, "field"@) {
        Some(f) => f,
        None => Seq::empty(),
    }
}

/// Whether one of the keys in `seen` is `k`.
fn seen_has(seen: &Vec<String>, k: &str) -> (r: bool)
    ensures
        r == strs_view(seen@).contains(k@),
{
    let mut i: usize = 0;
    while i < seen.len()
        invariant
            i <= seen@.len(),
            forall|j: int| 0 <= j < i ==> #[trigger] seen@[j]@ != k@,
        decreases seen@.len() - i,
    {
        if str_is(seen[i].as_str(), k) {
            assert(strs_view(seen@)[i as int] == k@);
            return true;
        }
        i = i + 1;
    }
    assert forall|j: int| 0 <= j < strs_view(seen@).len() implies strs_view(seen@)[j] != k@ by {
        assert(strs_view(seen@)[j] == seen@[j]@);
    }
    false
}

/// The key of an element (see `dedup_key`).
fn key_of(field: &str, item: &Json) -> (r: Option<String>)
    ensures
        match dedup_key(field@, *item) {
            Some(k) => r matches Some(s) && s@ == k,
            None => r is None,
        },
{
    let target = resolve_nested(item, field);
    let empty = str_is(field, "");
    proof {
        reveal_strlit("");
        if field@.len() == 0 {
            assert(field@ =~= ""@);
        }
    }
    match target {
        Some(v) => {
            if !empty && matches!(v, Json::Null) {
                None
            } else {
                Some(to_text(v))
            }
        },
        None => {
            if !empty {
                None
            } else {
                Some(to_text(item))
            }
        },
    }
}

/// Keeps the first element of each key (see `dedup_kept`).
pub fn dedup_items(field: &str, items: Vec<Json>) -> (out: Vec<Json>)
    ensures
        out@ == dedup_kept(field@, items@, items@.len() as int),
{
    let ghost orig = items@;
    let mut seen: Vec<String> = Vec::new();
    let mut out: Vec<Json> = Vec::new();
    let mut rest = items;
    let mut i: usize = 0;
    let n = rest.len();
    while rest.len() > 0
        invariant
            n == orig.len(),
            i + rest@.len() == n,
            rest@ == orig.subrange(i as int, n as int),
            out@ == dedup_kept(field@, orig, i as int),
            forall|k: Seq<char>| strs_view(seen@).contains(k) <==> exists|j: int| 0 <= j < i && dedup_key(field@, #[trigger] orig[j]) == Some(k),
        decreases rest@.len(),
    {
        let item = rest.remove(0);
        assert(item == orig[i as int]);
        let ghost before = seen@;
        match key_of(field, &item) {
            None => {
                out.push(item);
            },
            Some(k) => {
                if seen_has(&seen, k.as_str()) {
                    proof {
                        let j = choose|j: int| 0 <= j < i && dedup_key(field@, #[trigger] orig[j]) == Some(k@);
                        assert(!first_of_key(field@, orig, i as int));
                    }
                } else {
                    proof {
                        assert forall|j: int| 0 <= j < i implies dedup_key(field@, #[trigger] orig[j]) != Some(k@) by {
                            if dedup_key(field@, orig[j]) == Some(k@) {
                                assert(strs_view(seen@).contains(k@));
                            }
                        }
                    }
                    out.push(item);
                }
                crate::text::push_string(&mut seen, k.as_str());
                proof {
                    assert forall|x: Seq<char>| strs_view(seen@).contains(x) <==> exists|j: int| 0 <= j < i + 1 && dedup_key(field@, #[trigger] orig[j]) == Some(x) by {
                        if strs_view(seen@).contains(x) {
                            let t = choose|t: int| 0 <= t < strs_view(seen@).len() && strs_view(seen@)[t] == x;
                            if t < strs_view(before).len() {
                                assert(strs_view(before)[t] == x);
                                assert(strs_view(before).contains(x));
                            } else {
                                assert(dedup_key(field@, orig[i as int]) == Some(x));
                            }
                        }
                        if exists|j: int| 0 <= j < i + 1 && dedup_key(field@, #[trigger] orig[j]) == Some(x) {
                            let j = choose|j: int| 0 <= j < i + 1 && dedup_key(field@, #[trigger] orig[j]) == Some(x);
                            if j < i {
                                assert(strs_view(before).contains(x));
                                let t = choose|t: int| 0 <= t < strs_view(before).len() && strs_view(before)[t] == x;
                                assert(strs_view(seen@)[t] == x);
                            } else {
                                assert(strs_view(seen@)[strs_view(before).len() as int] == x);
                            }
                        }
                    }
                }
            },
        }
        i = i + 1;
    }
    assert(orig.subrange(0, n as int) =~= orig);
    out
}

impl DedupOperator {
    pub fn spec(&self) -> (r: OperatorSpec)
        ensures
            r.op_type@ == "dedup"@,
            r.description@ == "按字段去重数组"@,
            !r.iterate,
            r.cache,
    {
        OperatorSpec::new("dedup", "按字段去重数组")
    }

    /// Keeps the first element of each key of `inputs.data` (see
    /// `dedup_kept`); a single value is returned as it is.
    pub fn run(&self, inputs: Json) -> (r: Result<Json, OperatorError>)
        ensures
            r matches Ok(out) && {
                let data = dedup_data(inputs);
                if data is Array {
                    out matches Json::Array(v) && v@ == dedup_kept(
                        dedup_field_of(inputs),
                        elements(data),
                        elements(data).len() as int,
                    )
                } else {
                    out == data
                }
            },
    {
        let field = str_or(&inputs, "field", "");
        proof {
            reveal_strlit("");
        }
        let data = match inputs {
            Json::Object(es) => {
                let mut es = es;
                let k = crate::text::chars_of("data");
                match crate::json::find_key(&es, &k) {
                    Some(ix) => {
                        let (_, v) = es.remove(ix);
                        v
                    },
                    None => Json::Null,
                }
            },
            other => other,
        };
        assert(data == dedup_data(inputs));
        assert(field@ == dedup_field_of(inputs));
        let is_array = matches!(data, Json::Array(_));
        let arr = into_items(data);
        if is_array {
            Ok(Json::Array(dedup_items(field.as_str(), arr)))
        } else {
            let mut arr = arr;
            assert(arr@[0] == data);
            Ok(arr.remove(0))
        }
    }
}

} // verus!
