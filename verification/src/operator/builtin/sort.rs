//! `sort`: orders the elements of an array by a field, stably.

use vstd::prelude::*;
use rayon::slice::ParallelSliceMut;
use crate::json::{Json, JsonV, jv, json_wf, text_of, resolve_path, resolve_nested, to_text, lemma_get_field_wf, lemma_resolve_path_wf};
use crate::text::{Order, str_order, order_str, lemma_str_order_flip, lemma_str_order_trans, to_string, push_str};
use crate::number::{int_order, lemma_dyadic_flip, lemma_dyadic_trans};
use crate::dsl::refs::str_is;
use crate::operator::types::{OperatorError, OperatorSpec};
use crate::operator::builtin::{number_order, compare_json_numbers, get_str, data_of, elements, str_or, take_data, into_items};

verus! {

pub struct SortOperator;

/// Values of different kinds order by kind: null, booleans, numbers,
/// strings, arrays, objects.
pub open spec fn type_rank(v: JsonV) -> int {
    match v {
        JsonV::Null => 0,
        JsonV::Bool(_) => 1,
        JsonV::Int(_) => 2,
        JsonV::Float(_, _, _) => 2,
        JsonV::Str(_) => 3,
        JsonV::Array(_) => 4,
        JsonV::Object(_) => 5,
    }
}

pub open spec fn bool_rank(b: bool) -> int {
    if b { 1 } else { 0 }
}

/// The order of two values: by kind first; within a kind, booleans with
/// `false` first, numbers by exact value, strings by code point, arrays and
/// objects by their compact JSON text.
pub open spec fn value_order(a: JsonV, b: JsonV) -> Order {
    if type_rank(a) != type_rank(b) {
        int_order(type_rank(a), type_rank(b))
    } else {
        match (a, b) {
            (JsonV::Bool(x), JsonV::Bool(y)) => int_order(bool_rank(x), bool_rank(y)),
            (JsonV::Str(x), JsonV::Str(y)) => str_order(x, y),
            (JsonV::Array(_), JsonV::Array(_)) => str_order(text_of(a), text_of(b)),
            (JsonV::Object(_), JsonV::Object(_)) => str_order(text_of(a), text_of(b)),
            _ => match number_order(a, b) {
                Some(o) => o,
                None => Order::Equal,
            },
        }
    }
}

/// Swapping two values flips their order.
pub proof fn lemma_value_order_flip(a: JsonV, b: JsonV)
    ensures
        value_order(b, a) == value_order(a, b).flip(),
{
    match (a, b) {
        (JsonV::Str(x), JsonV::Str(y)) => lemma_str_order_flip(x, y),
        (JsonV::Array(_), JsonV::Array(_)) => lemma_str_order_flip(text_of(a), text_of(b)),
        (JsonV::Object(_), JsonV::Object(_)) => lemma_str_order_flip(text_of(a), text_of(b)),
        (JsonV::Int(x), JsonV::Int(y)) => lemma_dyadic_flip(x, 0, y, 0),
        (JsonV::Int(x), JsonV::Float(m, e, _)) => lemma_dyadic_flip(x, 0, m, e),
        (JsonV::Float(m, e, _), JsonV::Int(y)) => lemma_dyadic_flip(m, e, y, 0),
        (JsonV::Float(m1, e1, _), JsonV::Float(m2, e2, _)) => lemma_dyadic_flip(m1, e1, m2, e2),
        _ => {},
    }
}

/// The mantissa and exponent of a number (an integer has exponent 0).
pub open spec fn num_parts(v: JsonV) -> (int, int) {
    match v {
        JsonV::Int(x) => (x, 0),
        JsonV::Float(m, e, _) => (m, e),
        _ => (0, 0),
    }
}

proof fn lemma_number_order_parts(a: JsonV, b: JsonV)
    requires
        type_rank(a) == 2,
        type_rank(b) == 2,
    ensures
        value_order(a, b) == crate::json::dyadic_order(num_parts(a).0, num_parts(a).1, num_parts(b).0, num_parts(b).1),
{
}

/// The order of values is transitive.
pub proof fn lemma_value_order_trans(a: JsonV, b: JsonV, c: JsonV)
    requires
        value_order(a, b) != Order::Greater,
        value_order(b, c) != Order::Greater,
    ensures
        value_order(a, c) != Order::Greater,
        (value_order(a, b) == Order::Less || value_order(b, c) == Order::Less) ==> value_order(a, c)
            == Order::Less,
{
    if type_rank(a) == type_rank(b) && type_rank(b) == type_rank(c) {
        if type_rank(a) == 2 {
            lemma_number_order_parts(a, b);
            lemma_number_order_parts(b, c);
            lemma_number_order_parts(a, c);
            lemma_dyadic_trans(num_parts(a).0, num_parts(a).1, num_parts(b).0, num_parts(b).1, num_parts(c).0, num_parts(c).1);
        } else if type_rank(a) == 3 {
            lemma_str_order_trans(a->Str_0, b->Str_0, c->Str_0);
        } else if type_rank(a) >= 4 {
            lemma_str_order_trans(text_of(a), text_of(b), text_of(c));
        }
    }
}

/// The value an element is sorted by.
pub open spec fn sort_key(field: Seq<char>, item: Json) -> JsonV {
    jv(resolve_path(item, field))
}

/// The order of two elements: by their keys, reversed for `desc`.
#[verifier::opaque]
pub open spec fn item_order(field: Seq<char>, desc: bool, x: Json, y: Json) -> Order {
    let o = value_order(sort_key(field, x), sort_key(field, y));
    if desc {
        o.flip()
    } else {
        o
    }
}

pub proof fn lemma_item_order_flip(field: Seq<char>, desc: bool, x: Json, y: Json)
    ensures
        item_order(field, desc, y, x) == item_order(field, desc, x, y).flip(),
{
    reveal(item_order);
    lemma_value_order_flip(sort_key(field, x), sort_key(field, y));
}

pub proof fn lemma_item_order_trans(field: Seq<char>, desc: bool, x: Json, y: Json, z: Json)
    requires
        item_order(field, desc, x, y) != Order::Greater,
        item_order(field, desc, y, z) != Order::Greater,
    ensures
        item_order(field, desc, x, z) != Order::Greater,
        (item_order(field, desc, x, y) == Order::Less || item_order(field, desc, y, z) == Order::Less)
            ==> item_order(field, desc, x, z) == Order::Less,
{
    reveal(item_order);
    let (kx, ky, kz) = (sort_key(field, x), sort_key(field, y), sort_key(field, z));
    if desc {
        lemma_value_order_flip(kx, ky);
        lemma_value_order_flip(ky, kz);
        lemma_value_order_flip(kx, kz);
        lemma_value_order_trans(kz, ky, kx);
    } else {
        lemma_value_order_trans(kx, ky, kz);
    }
}

/// `out` holds the elements of `items` in the order `p` gives: `p` numbers
/// the positions of `items` once each, and `out[k]` is `items[p[k]]`.
pub open spec fn arranged(items: Seq<Json>, out: Seq<Json>, p: Seq<int>) -> bool {
    &&& p.len() == items.len()
    &&& out.len() == items.len()
    &&& forall|k: int| 0 <= k < p.len() ==> 0 <= #[trigger] p[k] < items.len() && out[k] == items[p[k]]
    &&& forall|k: int, l: int| 0 <= k < l < p.len() ==> #[trigger] p[k] != #[trigger] p[l]
}

/// In order under `item_order`, and among equal elements in their original order.
pub open spec fn in_stable_order(field: Seq<char>, desc: bool, out: Seq<Json>, p: Seq<int>) -> bool {
    forall|k: int, l: int|
        0 <= k < l < out.len() ==> item_order(field, desc, #[trigger] out[k], #[trigger] out[l]) != Order::Greater
            && (item_order(field, desc, out[k], out[l]) == Order::Equal ==> p[k] < p[l])
}

/// `out` is `items` sorted stably by `item_order`.
pub open spec fn stable_sorted(field: Seq<char>, desc: bool, items: Seq<Json>, out: Seq<Json>) -> bool {
    exists|p: Seq<int>| arranged(items, out, p) && in_stable_order(field, desc, out, p)
}

/// The order of two values (see `value_order`).
pub fn compare_values(a: &Json, b: &Json) -> (r: Order)
    requires
        json_wf(*a),
        json_wf(*b),
    ensures
        r == value_order(jv(*a), jv(*b)),
{
    let ra = rank_of(a);
    let rb = rank_of(b);
    if ra != rb {
        return if ra < rb {
            Order::Less
        } else {
            Order::Greater
        };
    }
    match (a, b) {
        (Json::Bool(x), Json::Bool(y)) => {
            if *x == *y {
                Order::Equal
            } else if !*x {
                Order::Less
            } else {
                Order::Greater
            }
        },
        (Json::Str(x), Json::Str(y)) => order_str(x.as_str(), y.as_str()),
        (Json::Array(_), Json::Array(_)) | (Json::Object(_), Json::Object(_)) => {
            let ta = to_text(a);
            let tb = to_text(b);
            order_str(ta.as_str(), tb.as_str())
        },
        _ => match compare_json_numbers(a, b) {
            Some(o) => o,
            None => Order::Equal,
        },
    }
}

fn rank_of(v: &Json) -> (r: u8)
    ensures
        r as int == type_rank(jv(*v)),
{
    match v {
        Json::Null => 0,
        Json::Bool(_) => 1,
        Json::Number(_) => 2,
        Json::Str(_) => 3,
        Json::Array(_) => {
            proof {
                crate::dsl::refs::lemma_jv_array(*v);
            }
            4
        },
        Json::Object(_) => {
            proof {
                crate::dsl::refs::lemma_jv_object(*v);
            }
            5
        },
    }
}

/// The order of two elements (see `item_order`).
fn compare_items(field: &str, desc: bool, x: &Json, y: &Json) -> (r: Order)
    requires
        json_wf(*x),
        json_wf(*y),
    ensures
        r == item_order(field@, desc, *x, *y),
{
    proof {
        lemma_resolve_path_wf(*x, field@);
        lemma_resolve_path_wf(*y, field@);
    }
    let null = Json::Null;
    let kx: &Json = match resolve_nested(x, field) {
        Some(v) => v,
        None => &null,
    };
    let ky: &Json = match resolve_nested(y, field) {
        Some(v) => v,
        None => &null,
    };
    let o = compare_values(kx, ky);
    proof {
        reveal(item_order);
    }
    if desc {
        o.reverse()
    } else {
        o
    }
}

/// The order of two elements under `item_order`, as `std` writes it.
fn item_ordering(field: &str, desc: bool, x: &Json, y: &Json) -> (r: std::cmp::Ordering)
    requires
        json_wf(*x),
        json_wf(*y),
    ensures
        r == (match item_order(field@, desc, *x, *y) {
            Order::Less => std::cmp::Ordering::Less,
            Order::Equal => std::cmp::Ordering::Equal,
            Order::Greater => std::cmp::Ordering::Greater,
        }),
{
    match compare_items(field, desc, x, y) {
        Order::Less => std::cmp::Ordering::Less,
        Order::Equal => std::cmp::Ordering::Equal,
        Order::Greater => std::cmp::Ordering::Greater,
    }
}

/// rayon's `ParallelSliceMut::par_sort_by`, comparing elements with
/// `item_ordering`. Its documentation promises a stable sort when the
/// comparison is a total order, which `item_order` is (see
/// `lemma_item_order_flip` and `lemma_item_order_trans`): the result holds
/// the same elements, in order, equal ones in the order they came.
#[verifier::external_body]
fn par_sort_items(field: &str, desc: bool, items: &mut Vec<Json>)
    requires
        forall|k: int| 0 <= k < old(items)@.len() ==> json_wf(#[trigger] old(items)@[k]),
    ensures
        stable_sorted(field@, desc, old(items)@, final(items)@),
{
    items.par_sort_by(|a, b| item_ordering(field, desc, a, b));
}

/// The configuration error the inputs give, if any.
pub open spec fn sort_error(inputs: Json) -> Option<Seq<char>> {
    let order = sort_order_of(inputs);
    if order != "asc"@ && order != "desc"@ {
        Some("sort 不支持 order: "@ + order + "（可选: asc/desc）"@)
    } else if data_of(inputs) is None {
        Some("sort 算子 inputs.data 缺失或为 null"@)
    } else {
        None
    }
}

pub open spec fn sort_order_of(inputs: Json) -> Seq<char> {
    match get_str(inputs, "order"@) {
        Some(o) => o,
        None => "asc"@,
    }
}

pub open spec fn sort_field_of(inputs: Json) -> Seq<char> {
    match get_str(inputs, "field"@) {
        Some(f) => f,
        None => Seq::empty(),
    }
}

impl SortOperator {
    pub fn spec(&self) -> (r: OperatorSpec)
        ensures
            r.op_type@ == "sort"@,
            r.description@ == "按字段排序数组"@,
            !r.iterate,
            r.cache,
    {
        OperatorSpec::new("sort", "按字段排序数组")
    }

    /// Sorts the elements of `inputs.data` stably by `field`, ascending or
    /// descending; a single value is returned as it is.
    pub fn run(&self, inputs: Json) -> (r: Result<Json, OperatorError>)
        requires
            json_wf(inputs),
        ensures
            match sort_error(inputs) {
                Some(m) => r matches Err(OperatorError::Config(e)) && e@ == m,
                None => r matches Ok(out) && {
                    let data = data_of(inputs)->Some_0;
                    if data is Array {
                        out matches Json::Array(v) && stable_sorted(
                            sort_field_of(inputs),
                            sort_order_of(inputs) == "desc"@,
                            elements(data),
                            v@,
                        )
                    } else {
                        out == data
                    }
                },
            },
    {
        let field = str_or(&inputs, "field", "");
        proof {
            reveal_strlit("");
        }
        let order = str_or(&inputs, "order", "asc");
        let desc = str_is(order.as_str(), "desc");
        if !str_is(order.as_str(), "asc") && !desc {
            let mut m = String::new();
            push_str(&mut m, "sort 不支持 order: ");
            push_str(&mut m, order.as_str());
            push_str(&mut m, "（可选: asc/desc）");
            return Err(OperatorError::Config(m));
        }
        proof {
            lemma_get_field_wf(inputs, "data"@);
        }
        let ghost original = inputs;
        let data = match take_data(inputs) {
            Some(d) => d,
            None => {
                return Err(OperatorError::Config(to_string("sort 算子 inputs.data 缺失或为 null")));
            },
        };
        let is_array = matches!(data, Json::Array(_));
        let arr = into_items(data);
        assert(json_wf(data));
        assert(forall|k: int| 0 <= k < arr@.len() ==> json_wf(#[trigger] arr@[k]));
        assert(field@ == sort_field_of(original));
        assert(desc == (sort_order_of(original) == "desc"@));
        if is_array {
            let mut sorted = arr;
            par_sort_items(field.as_str(), desc, &mut sorted);
            Ok(Json::Array(sorted))
        } else {
            let mut arr = arr;
            assert(arr@[0] == data);
            Ok(arr.remove(0))
        }
    }
}

} // verus!
