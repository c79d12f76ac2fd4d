//! `filter`: keeps the elements of an array whose field meets a condition.

use vstd::prelude::*;
use crate::json::{Json, JsonV, jv, json_wf, get, get_field, resolve_path, resolve_nested, json_eq, jv_eq, json_clone, lemma_get_field_wf, lemma_resolve_path_wf};
use crate::text::{Order, chars_of, to_string, push_str};
use crate::dsl::refs::{str_is, items_jv, lemma_jv_array};
use crate::operator::types::{OperatorError, OperatorSpec};
use crate::operator::builtin::{number_order, compare_json_numbers, get_str, data_of, elements, str_or, take_data, into_items};

verus! {

pub struct FilterOperator;

/// `sub` occurs in `s` (`str::contains`).
pub open spec fn contains_text(s: Seq<char>, sub: Seq<char>) -> bool {
    exists|i: int| 0 <= i && i + sub.len() <= s.len() && #[trigger] s.subrange(i, i + sub.len()) == sub
}

/// Some item equals `a` (`slice::contains`).
pub open spec fn among_items(a: JsonV, xs: Seq<JsonV>) -> bool {
    exists|i: int| 0 <= i < xs.len() && jv_eq(a, #[trigger] xs[i])
}

/// The comparison an operator name stands for.
pub open spec fn compare_spec(a: JsonV, op: Seq<char>, b: JsonV) -> Option<bool> {
    if op == "eq"@ {
        Some(jv_eq(a, b))
    } else if op == "ne"@ {
        Some(!jv_eq(a, b))
    } else if op == "gt"@ {
        match number_order(a, b) {
            Some(o) => Some(o == Order::Greater),
            None => None,
        }
    } else if op == "gte"@ {
        match number_order(a, b) {
            Some(o) => Some(o != Order::Less),
            None => None,
        }
    } else if op == "lt"@ {
        match number_order(a, b) {
            Some(o) => Some(o == Order::Less),
            None => None,
        }
    } else if op == "lte"@ {
        match number_order(a, b) {
            Some(o) => Some(o != Order::Greater),
            None => None,
        }
    } else if op == "in"@ {
        match b {
            JsonV::Array(xs) => Some(among_items(a, xs)),
            _ => None,
        }
    } else if op == "contains"@ {
        match (a, b) {
            (JsonV::Str(x), JsonV::Str(y)) => Some(contains_text(x, y)),
            _ => None,
        }
    } else {
        None
    }
}

proof fn lemma_op_names()
    ensures
        "eq"@ != "ne"@,
        "eq"@ != "gt"@,
        "eq"@ != "gte"@,
        "eq"@ != "lt"@,
        "eq"@ != "lte"@,
        "ne"@ != "gt"@,
        "ne"@ != "gte"@,
        "ne"@ != "lt"@,
        "ne"@ != "lte"@,
        "gt"@ != "gte"@,
        "gt"@ != "lt"@,
        "gt"@ != "lte"@,
        "gte"@ != "lt"@,
        "gte"@ != "lte"@,
        "lt"@ != "lte"@,
{
    reveal_strlit("eq");
    reveal_strlit("ne");
    reveal_strlit("gt");
    reveal_strlit("gte");
    reveal_strlit("lt");
    reveal_strlit("lte");
    assert("eq"@[0] != "ne"@[0]);
    assert("eq"@[0] != "gt"@[0]);
    assert("eq"@[0] != "gte"@[0]);
    assert("eq"@[0] != "lt"@[0]);
    assert("eq"@[0] != "lte"@[0]);
    assert("ne"@[0] != "gt"@[0]);
    assert("ne"@[0] != "gte"@[0]);
    assert("ne"@[0] != "lt"@[0]);
    assert("ne"@[0] != "lte"@[0]);
    assert("gt"@.len() != "gte"@.len());
    assert("gt"@[0] != "lt"@[0]);
    assert("gt"@[0] != "lte"@[0]);
    assert("gte"@[0] != "lt"@[0]);
    assert("gte"@[0] != "lte"@[0]);
    assert("lt"@.len() != "lte"@.len());
}

/// On integers the comparisons are the usual ones: `eq` and `ne` are
/// `==` and `!=`, `gt`, `gte`, `lt`, `lte` are `>`, `>=`, `<`, `<=`.
pub proof fn lemma_compare_integers(x: int, y: int)
    ensures
        compare_spec(JsonV::Int(x), "eq"@, JsonV::Int(y)) == Some(x == y),
        compare_spec(JsonV::Int(x), "ne"@, JsonV::Int(y)) == Some(x != y),
        compare_spec(JsonV::Int(x), "gt"@, JsonV::Int(y)) == Some(x > y),
        compare_spec(JsonV::Int(x), "gte"@, JsonV::Int(y)) == Some(x >= y),
        compare_spec(JsonV::Int(x), "lt"@, JsonV::Int(y)) == Some(x < y),
        compare_spec(JsonV::Int(x), "lte"@, JsonV::Int(y)) == Some(x <= y),
{
    lemma_op_names();
    vstd::arithmetic::power2::lemma2_to64();
    assert(vstd::arithmetic::power2::pow2(0) == 1);
    assert(crate::number::scaled(x, 0, 0) == x * vstd::arithmetic::power2::pow2(0));
    assert(crate::number::scaled(x, 0, 0) == x);
    assert(crate::number::scaled(y, 0, 0) == y);
}

/// Floats with the same exponent compare as their mantissas.
pub proof fn lemma_compare_floats_same_exp(m1: int, m2: int, e: int, t1: Seq<char>, t2: Seq<char>)
    ensures
        compare_spec(JsonV::Float(m1, e, t1), "eq"@, JsonV::Float(m2, e, t2)) == Some(m1 == m2),
        compare_spec(JsonV::Float(m1, e, t1), "gt"@, JsonV::Float(m2, e, t2)) == Some(m1 > m2),
        compare_spec(JsonV::Float(m1, e, t1), "gte"@, JsonV::Float(m2, e, t2)) == Some(m1 >= m2),
        compare_spec(JsonV::Float(m1, e, t1), "lt"@, JsonV::Float(m2, e, t2)) == Some(m1 < m2),
        compare_spec(JsonV::Float(m1, e, t1), "lte"@, JsonV::Float(m2, e, t2)) == Some(m1 <= m2),
{
    lemma_op_names();
    vstd::arithmetic::power2::lemma2_to64();
    assert(vstd::arithmetic::power2::pow2(0) == 1);
    assert(crate::number::scaled(m1, e, e) == m1 * vstd::arithmetic::power2::pow2(0));
    assert(crate::number::scaled(m1, e, e) == m1);
    assert(crate::number::scaled(m2, e, e) == m2);
}

/// How the numeric comparisons relate, on any two numbers: each of
/// `gt`, `gte`, `lt`, `lte` gives an answer; `gte` is the negation of `lt`
/// and `lte` of `gt`; `gt` and `lt` swap, as do `gte` and `lte`, when the
/// operands swap; `gt` and `lt` never both hold. For two integers, or two
/// floats, `gte` keeps exactly what `gt` or `eq` keeps, and `lte` what
/// `lt` or `eq` keeps.
pub proof fn lemma_compare_relations(a: JsonV, b: JsonV)
    requires
        number_order(a, b) is Some,
    ensures
        compare_spec(a, "gt"@, b) is Some,
        compare_spec(a, "gte"@, b) is Some,
        compare_spec(a, "lt"@, b) is Some,
        compare_spec(a, "lte"@, b) is Some,
        compare_spec(a, "gte"@, b)->0 == !compare_spec(a, "lt"@, b)->0,
        compare_spec(a, "lte"@, b)->0 == !compare_spec(a, "gt"@, b)->0,
        !(compare_spec(a, "gt"@, b)->0 && compare_spec(a, "lt"@, b)->0),
        compare_spec(a, "gt"@, b) == compare_spec(b, "lt"@, a),
        compare_spec(a, "gte"@, b) == compare_spec(b, "lte"@, a),
        (a is Int && b is Int) || (a is Float && b is Float) ==> {
            &&& compare_spec(a, "gte"@, b)->0 == (compare_spec(a, "gt"@, b)->0 || compare_spec(a, "eq"@, b)->0)
            &&& compare_spec(a, "lte"@, b)->0 == (compare_spec(a, "lt"@, b)->0 || compare_spec(a, "eq"@, b)->0)
        },
{
    lemma_op_names();
    vstd::arithmetic::power2::lemma2_to64();
    match (a, b) {
        (JsonV::Int(x), JsonV::Int(y)) => {
            crate::number::lemma_dyadic_flip(x, 0, y, 0);
        },
        (JsonV::Int(x), JsonV::Float(m, e, _)) => {
            crate::number::lemma_dyadic_flip(x, 0, m, e);
        },
        (JsonV::Float(m, e, _), JsonV::Int(y)) => {
            crate::number::lemma_dyadic_flip(m, e, y, 0);
        },
        (JsonV::Float(m1, e1, _), JsonV::Float(m2, e2, _)) => {
            crate::number::lemma_dyadic_flip(m1, e1, m2, e2);
        },
        _ => {},
    }
    if a is Int && b is Int {
        lemma_compare_integers(a->Int_0, b->Int_0);
    }
}

proof fn lemma_more_op_names()
    ensures
        "in"@ != "eq"@,
        "in"@ != "ne"@,
        "in"@ != "gt"@,
        "in"@ != "gte"@,
        "in"@ != "lt"@,
        "in"@ != "lte"@,
        "contains"@ != "eq"@,
        "contains"@ != "ne"@,
        "contains"@ != "gt"@,
        "contains"@ != "gte"@,
        "contains"@ != "lt"@,
        "contains"@ != "lte"@,
        "contains"@ != "in"@,
{
    reveal_strlit("eq");
    reveal_strlit("ne");
    reveal_strlit("gt");
    reveal_strlit("gte");
    reveal_strlit("lt");
    reveal_strlit("lte");
    reveal_strlit("in");
    reveal_strlit("contains");
    assert("in"@[0] != "eq"@[0] && "in"@[0] != "ne"@[0] && "in"@[0] != "gt"@[0] && "in"@[0] != "gte"@[0]);
    assert("in"@[0] != "lt"@[0] && "in"@[0] != "lte"@[0]);
    assert("contains"@[0] != "eq"@[0] && "contains"@[0] != "ne"@[0] && "contains"@[0] != "gt"@[0]);
    assert("contains"@[0] != "gte"@[0] && "contains"@[0] != "lt"@[0] && "contains"@[0] != "lte"@[0]);
    assert("contains"@[0] != "in"@[0]);
}

/// `in` asks whether an array holds an element equal to the value (and
/// has no answer when the operand is not an array); `contains` asks
/// whether a string occurs in another (no answer unless both are strings);
/// `ne` is the negation of `eq`.
pub proof fn lemma_compare_membership(a: JsonV, b: JsonV)
    ensures
        compare_spec(a, "ne"@, b) == Some(!compare_spec(a, "eq"@, b)->0),
        compare_spec(a, "eq"@, b) is Some,
        !(b is Array) ==> compare_spec(a, "in"@, b) is None,
        b matches JsonV::Array(xs) ==> (compare_spec(a, "in"@, b) is Some && (compare_spec(a, "in"@, b)->0 <==> exists|i: int|
            0 <= i < xs.len() && jv_eq(a, #[trigger] xs[i]))),
        !(a is Str && b is Str) ==> compare_spec(a, "contains"@, b) is None,
        a is Str && b is Str ==> (compare_spec(a, "contains"@, b) is Some && (compare_spec(a, "contains"@, b)->0 <==> exists|
            p: Seq<char>,
            q: Seq<char>,
        | #[trigger] (p + b->Str_0 + q) == a->Str_0)),
{
    lemma_op_names();
    lemma_more_op_names();
    if a is Str && b is Str {
        let x = a->Str_0;
        let y = b->Str_0;
        if contains_text(x, y) {
            let i = choose|i: int| 0 <= i && i + y.len() <= x.len() && #[trigger] x.subrange(i, i + y.len()) == y;
            let p = x.subrange(0, i);
            let q = x.subrange(i + y.len(), x.len() as int);
            assert(p + y + q =~= x);
        }
        if exists|p: Seq<char>, q: Seq<char>| #[trigger] (p + y + q) == x {
            let (p, q) = choose|p: Seq<char>, q: Seq<char>| #[trigger] (p + y + q) == x;
            assert(x.subrange(p.len() as int, (p.len() + y.len()) as int) =~= y);
        }
    }
}

pub open spec fn valid_filter_op(op: Seq<char>) -> bool {
    op == "eq"@ || op == "ne"@ || op == "gt"@ || op == "gte"@ || op == "lt"@ || op == "lte"@ || op == "in"@
        || op == "contains"@
}

/// The settings the operator reads, with their defaults.
pub open spec fn field_of(inputs: Json) -> Seq<char> {
    match get_str(inputs, "field"@) {
        Some(f) => f,
        None => Seq::empty(),
    }
}

pub open spec fn filter_op_of(inputs: Json) -> Seq<char> {
    match get_str(inputs, "operator"@) {
        Some(o) => o,
        None => "eq"@,
    }
}

pub open spec fn value_of(inputs: Json) -> Json {
    match get_field(inputs, "value"@) {
        Some(v) => v,
        None => Json::Null,
    }
}

/// Whether an element is kept.
pub open spec fn keep(inputs: Json, item: Json) -> bool {
    compare_spec(jv(resolve_path(item, field_of(inputs))), filter_op_of(inputs), jv(value_of(inputs))) == Some(true)
}

/// The kept elements among the first `n`, in order.
pub open spec fn kept(inputs: Json, items: Seq<Json>, n: int) -> Seq<JsonV>
    decreases n,
{
    if n <= 0 {
        Seq::empty()
    } else {
        kept(inputs, items, n - 1) + if keep(inputs, items[n - 1]) {
            seq![jv(items[n - 1])]
        } else {
            Seq::empty()
        }
    }
}

/// The configuration error the inputs give, if any.
pub open spec fn filter_error(inputs: Json) -> Option<Seq<char>> {
    let op = filter_op_of(inputs);
    if !valid_filter_op(op) {
        Some("filter 不支持 operator: "@ + op + "（可选: eq/ne/gt/gte/lt/lte/in/contains）"@)
    } else if op == "in"@ && !(value_of(inputs) is Array) {
        Some("filter operator=in 要求 inputs.value 为数组"@)
    } else if op == "contains"@ && !(value_of(inputs) is Str) {
        Some("filter operator=contains 要求 inputs.value 为字符串"@)
    } else if data_of(inputs) is None {
        Some("filter 算子 inputs.data 缺失或为 null"@)
    } else {
        None
    }
}

/// What the operator returns: the kept elements as an array when the data
/// is one, otherwise the first kept element or `null`.
pub open spec fn filter_output(inputs: Json) -> JsonV {
    let data = data_of(inputs)->Some_0;
    let items = elements(data);
    let k = kept(inputs, items, items.len() as int);
    if data is Array {
        JsonV::Array(k)
    } else if k.len() > 0 {
        k[0]
    } else {
        JsonV::Null
    }
}

/// `str::contains`.
pub fn text_contains(s: &str, sub: &str) -> (r: bool)
    ensures
        r == contains_text(s@, sub@),
{
    let cs = chars_of(s);
    let cu = chars_of(sub);
    if cu.len() > cs.len() {
        assert(!contains_text(s@, sub@));
        return false;
    }
    let n = cs.len();
    let last = n - cu.len();
    let mut i: usize = 0;
    while i <= last
        invariant
            cs@ == s@,
            cu@ == sub@,
            n == cs@.len(),
            cu@.len() <= cs@.len(),
            last == cs@.len() - cu@.len(),
            i <= last + 1,
            forall|k: int| 0 <= k < i ==> #[trigger] s@.subrange(k, k + sub@.len()) != sub@,
        decreases cs@.len() + 1 - i,
    {
        let mut j: usize = 0;
        let mut ok = true;
        while j < cu.len()
            invariant
                j <= cu@.len(),
                i <= last,
                last == cs@.len() - cu@.len(),
                cu@.len() <= cs@.len(),
                i + cu@.len() <= cs@.len(),
                n == cs@.len(),
                ok == forall|t: int| 0 <= t < j ==> cs@[i + t] == cu@[t],
            decreases cu@.len() - j,
        {
            if cs[i + j] != cu[j] {
                ok = false;
            }
            j = j + 1;
        }
        if ok {
            assert(s@.subrange(i as int, i + sub@.len()) =~= sub@);
            return true;
        }
        proof {
            let t = choose|t: int| 0 <= t < cu@.len() && cs@[i + t] != cu@[t];
            assert(s@.subrange(i as int, i + sub@.len())[t] != sub@[t]);
        }
        if i == last {
            assert forall|k: int| 0 <= k && k + sub@.len() <= s@.len() implies #[trigger] s@.subrange(k, k + sub@.len()) != sub@ by {
                assert(k <= i);
            }
            return false;
        }
        i = i + 1;
    }
    assert forall|k: int| 0 <= k && k + sub@.len() <= s@.len() implies #[trigger] s@.subrange(k, k + sub@.len()) != sub@ by {
        assert(k < i);
    }
    false
}

/// The comparison an operator name stands for.
fn compare(a: &Json, op: &str, b: &Json) -> (r: Option<bool>)
    requires
        json_wf(*a),
        json_wf(*b),
    ensures
        r == compare_spec(jv(*a), op@, jv(*b)),
{
    if str_is(op, "eq") {
        Some(json_eq(a, b))
    } else if str_is(op, "ne") {
        Some(!json_eq(a, b))
    } else if str_is(op, "gt") {
        match compare_json_numbers(a, b) {
            Some(o) => Some(o == Order::Greater),
            None => None,
        }
    } else if str_is(op, "gte") {
        match compare_json_numbers(a, b) {
            Some(o) => Some(o != Order::Less),
            None => None,
        }
    } else if str_is(op, "lt") {
        match compare_json_numbers(a, b) {
            Some(o) => Some(o == Order::Less),
            None => None,
        }
    } else if str_is(op, "lte") {
        match compare_json_numbers(a, b) {
            Some(o) => Some(o != Order::Greater),
            None => None,
        }
    } else if str_is(op, "in") {
        match b {
            Json::Array(xs) => {
                proof {
                    lemma_jv_array(*b);
                }
                let ghost its = items_jv(xs@);
                assert(compare_spec(jv(*a), op@, jv(*b)) == Some(among_items(jv(*a), its)));
                let mut i: usize = 0;
                while i < xs.len()
                    invariant
                        i <= xs@.len(),
                        json_wf(*a),
                        json_wf(*b),
                        *b == Json::Array(*xs),
                        its == items_jv(xs@),
                        jv(*b) == JsonV::Array(its),
                        compare_spec(jv(*a), op@, jv(*b)) == Some(among_items(jv(*a), its)),
                        forall|k: int| 0 <= k < i ==> !jv_eq(jv(*a), #[trigger] its[k]),
                    decreases xs@.len() - i,
                {
                    if json_eq(a, &xs[i]) {
                        assert(its[i as int] == jv(xs@[i as int]));
                        assert(jv_eq(jv(*a), its[i as int]));
                        assert(exists|k: int| 0 <= k < its.len() && jv_eq(jv(*a), #[trigger] its[k]));
                        return Some(true);
                    }
                    i = i + 1;
                }
                Some(false)
            },
            _ => None,
        }
    } else if str_is(op, "contains") {
        match (a, b) {
            (Json::Str(x), Json::Str(y)) => Some(text_contains(x.as_str(), y.as_str())),
            _ => None,
        }
    } else {
        None
    }
}

/// Whether `op` names a comparison.
fn is_filter_op(op: &str) -> (r: bool)
    ensures
        r == valid_filter_op(op@),
{
    str_is(op, "eq") || str_is(op, "ne") || str_is(op, "gt") || str_is(op, "gte") || str_is(op, "lt")
        || str_is(op, "lte") || str_is(op, "in") || str_is(op, "contains")
}

impl FilterOperator {
    pub fn spec(&self) -> (r: OperatorSpec)
        ensures
            r.op_type@ == "filter"@,
            r.description@ == "按条件过滤数组元素"@,
            !r.iterate,
            r.cache,
    {
        OperatorSpec::new("filter", "按条件过滤数组元素")
    }

    /// Keeps the elements of `inputs.data` whose `field` compares true
    /// against `value` under `operator` (see `filter_output`), or fails with
    /// the configuration error of `filter_error`.
    pub fn run(&self, inputs: Json) -> (r: Result<Json, OperatorError>)
        requires
            json_wf(inputs),
        ensures
            match filter_error(inputs) {
                Some(m) => r matches Err(OperatorError::Config(e)) && e@ == m,
                None => r matches Ok(out) && jv(out) == filter_output(inputs),
            },
    {
        let field = str_or(&inputs, "field", "");
        proof {
            reveal_strlit("");
        }
        let operator = str_or(&inputs, "operator", "eq");
        if !is_filter_op(operator.as_str()) {
            let mut m = String::new();
            push_str(&mut m, "filter 不支持 operator: ");
            push_str(&mut m, operator.as_str());
            push_str(&mut m, "（可选: eq/ne/gt/gte/lt/lte/in/contains）");
            return Err(OperatorError::Config(m));
        }
        proof {
            lemma_get_field_wf(inputs, "value"@);
            lemma_get_field_wf(inputs, "data"@);
        }
        let ref_value = match get(&inputs, "value") {
            Some(v) => json_clone(v),
            None => Json::Null,
        };
        if str_is(operator.as_str(), "in") && !matches!(ref_value, Json::Array(_)) {
            return Err(OperatorError::Config(to_string("filter operator=in 要求 inputs.value 为数组")));
        }
        if str_is(operator.as_str(), "contains") && !matches!(ref_value, Json::Str(_)) {
            return Err(OperatorError::Config(to_string("filter operator=contains 要求 inputs.value 为字符串")));
        }
        let ghost original = inputs;
        let data = match take_data(inputs) {
            Some(d) => d,
            None => {
                return Err(OperatorError::Config(to_string("filter 算子 inputs.data 缺失或为 null")));
            },
        };
        let is_array = matches!(data, Json::Array(_));
        let arr = into_items(data);
        let mut result: Vec<Json> = Vec::new();
        let mut i: usize = 0;
        while i < arr.len()
            invariant
                i <= arr@.len(),
                arr@ == elements(data),
                json_wf(data),
                forall|k: int| 0 <= k < arr@.len() ==> json_wf(#[trigger] arr@[k]),
                field@ == field_of(original),
                operator@ == filter_op_of(original),
                jv(ref_value) == jv(value_of(original)),
                json_wf(ref_value),
                crate::dsl::refs::items_jv(result@) == kept(original, arr@, i as int),
            decreases arr@.len() - i,
        {
            let item = &arr[i];
            proof {
                lemma_resolve_path_wf(*item, field@);
            }
            let null = Json::Null;
            let target: &Json = match resolve_nested(item, field.as_str()) {
                Some(x) => x,
                None => &null,
            };
            let hit = compare(target, operator.as_str(), &ref_value);
            let ghost before = result@;
            if hit == Some(true) {
                result.push(json_clone(item));
                assert(crate::dsl::refs::items_jv(result@) =~= crate::dsl::refs::items_jv(before).push(jv(arr@[i as int])));
            } else {
                assert(result@ == before);
            }
            i = i + 1;
        }
        if is_array {
            proof {
                crate::dsl::refs::lemma_jv_array(Json::Array(result));
            }
            Ok(Json::Array(result))
        } else if result.len() > 0 {
            let first = result.remove(0);
            Ok(first)
        } else {
            Ok(Json::Null)
        }
    }
}

} // verus!
