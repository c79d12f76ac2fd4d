//! `merge`: merges object `b` into object `a`, shallowly or deeply.

use vstd::prelude::*;
use crate::json::{Json, JsonV, jv, json_wf, json_clone, get, get_field, keys_sorted, lemma_get_field_wf};
use crate::text::{Order, str_order, order_str, lemma_str_order_equal, lemma_str_order_flip, lemma_str_order_trans, to_string};
use crate::dsl::refs::{jlookup, entries_jv, lemma_jv_object};
use crate::operator::types::{OperatorError, OperatorSpec};

verus! {

pub struct MergeOperator;

/// Object entries as values.
pub type Entries = Seq<(Seq<char>, JsonV)>;

/// Keys in strictly increasing order.
pub open spec fn entries_sorted(es: Entries) -> bool {
    forall|i: int, j: int| 0 <= i < j < es.len() ==> str_order(#[trigger] es[i].0, #[trigger] es[j].0) == Order::Less
}

/// Sets key `k` to `v` in sorted entries: replaces the value of an entry
/// with key `k`, or inserts a new entry where the order of keys puts it.
pub open spec fn put(es: Entries, k: Seq<char>, v: JsonV) -> Entries
    decreases es.len(),
{
    if es.len() == 0 {
        seq![(k, v)]
    } else if str_order(es[0].0, k) == Order::Less {
        seq![es[0]] + put(es.drop_first(), k, v)
    } else if es[0].0 == k {
        seq![(k, v)] + es.drop_first()
    } else {
        seq![(k, v)] + es
    }
}

/// Merges the first `n` entries of `eb` into `acc`, in order: each entry
/// replaces the value under its key, or, with `deep`, is merged into it.
pub open spec fn merge_fold(acc: Entries, eb: Entries, n: int, deep: bool) -> Entries
    decreases eb, n,
{
    if n <= 0 || n > eb.len() {
        acc
    } else {
        let prev = merge_fold(acc, eb, n - 1, deep);
        let (k, v) = eb[n - 1];
        proof {
            assert(decreases_to!(eb => eb[n - 1]));
        }
        put(
            prev,
            k,
            if deep {
                match jlookup(prev, k) {
                    Some(old) => deep_merge_v(old, v),
                    None => v,
                }
            } else {
                v
            },
        )
    }
}

/// `b` merged deeply into `a`: objects key by key, anything else replaced by `b`.
pub open spec fn deep_merge_v(a: JsonV, b: JsonV) -> JsonV
    decreases b, 0int,
{
    match (a, b) {
        (JsonV::Object(ea), JsonV::Object(eb)) => JsonV::Object(merge_fold(ea, eb, eb.len() as int, true)),
        _ => b,
    }
}

/// After `put(es, k, v)`, key `k` reads `v` and every other key reads as
/// before.
pub proof fn lemma_put_lookup(es: Entries, k: Seq<char>, v: JsonV, k2: Seq<char>)
    ensures
        jlookup(put(es, k, v), k2) == if k2 == k {
            Some(v)
        } else {
            jlookup(es, k2)
        },
    decreases es.len(),
{
    if es.len() == 0 {
    } else if str_order(es[0].0, k) == Order::Less {
        crate::text::lemma_str_order_equal(es[0].0, k);
        lemma_put_lookup(es.drop_first(), k, v, k2);
        let r = seq![es[0]] + put(es.drop_first(), k, v);
        assert(r.drop_first() =~= put(es.drop_first(), k, v));
    } else if es[0].0 == k {
        let r = seq![(k, v)] + es.drop_first();
        assert(r.drop_first() =~= es.drop_first());
    } else {
        let r = seq![(k, v)] + es;
        assert(r.drop_first() =~= es);
    }
}

/// Where `put` places key `k`: after the `pos` keys that order before it.
pub proof fn lemma_put_at(es: Entries, k: Seq<char>, v: JsonV, pos: int)
    requires
        entries_sorted(es),
        0 <= pos <= es.len(),
        forall|i: int| 0 <= i < pos ==> str_order(#[trigger] es[i].0, k) == Order::Less,
        pos < es.len() ==> str_order(es[pos].0, k) != Order::Less,
    ensures
        pos < es.len() && es[pos].0 == k ==> put(es, k, v) == es.update(pos, (k, v)) && jlookup(es, k) == Some(
            es[pos].1,
        ),
        !(pos < es.len() && es[pos].0 == k) ==> put(es, k, v) == es.insert(pos, (k, v)) && jlookup(es, k)
            is None,
        entries_sorted(put(es, k, v)),
    decreases es.len(),
{
    if pos == 0 {
        if es.len() > 0 {
            lemma_str_order_equal(es[0].0, k);
            if es[0].0 == k {
                assert(seq![(k, v)] + es.drop_first() =~= es.update(0, (k, v)));
            } else {
                assert(seq![(k, v)] + es =~= es.insert(0, (k, v)));
                lemma_absent_after(es, k);
            }
        } else {
            assert(seq![(k, v)] =~= es.insert(0, (k, v)));
        }
    } else {
        let rest = es.drop_first();
        assert forall|i: int, j: int| 0 <= i < j < rest.len() implies str_order(#[trigger] rest[i].0, #[trigger] rest[j].0) == Order::Less by {
            assert(rest[i] == es[i + 1] && rest[j] == es[j + 1]);
        }
        assert forall|i: int| 0 <= i < pos - 1 implies str_order(#[trigger] rest[i].0, k) == Order::Less by {
            assert(rest[i] == es[i + 1]);
        }
        lemma_put_at(rest, k, v, pos - 1);
        lemma_str_order_equal(es[0].0, k);
        if pos < es.len() && es[pos].0 == k {
            assert(seq![es[0]] + rest.update(pos - 1, (k, v)) =~= es.update(pos, (k, v)));
        } else {
            assert(seq![es[0]] + rest.insert(pos - 1, (k, v)) =~= es.insert(pos, (k, v)));
        }
    }
    lemma_put_sorted(es, k, v, pos);
}

/// No key of sorted entries equals `k` when the first orders after it.
proof fn lemma_absent_after(es: Entries, k: Seq<char>)
    requires
        entries_sorted(es),
        es.len() > 0,
        str_order(es[0].0, k) == Order::Greater,
    ensures
        jlookup(es, k) is None,
    decreases es.len(),
{
    lemma_str_order_equal(es[0].0, k);
    assert(es[0].0 != k);
    assert(jlookup(es, k) == jlookup(es.drop_first(), k));
    if es.len() == 1 {
        assert(jlookup(es.drop_first(), k) is None);
    }
    if es.len() > 1 {
        let rest = es.drop_first();
        assert forall|i: int, j: int| 0 <= i < j < rest.len() implies str_order(#[trigger] rest[i].0, #[trigger] rest[j].0) == Order::Less by {
            assert(rest[i] == es[i + 1] && rest[j] == es[j + 1]);
        }
        assert(str_order(es[0].0, es[1].0) == Order::Less);
        lemma_str_order_flip(es[0].0, k);
        lemma_str_order_trans(k, es[0].0, es[1].0);
        lemma_str_order_flip(k, es[1].0);
        lemma_absent_after(rest, k);
    }
}

proof fn lemma_put_sorted(es: Entries, k: Seq<char>, v: JsonV, pos: int)
    requires
        entries_sorted(es),
        0 <= pos <= es.len(),
        forall|i: int| 0 <= i < pos ==> str_order(#[trigger] es[i].0, k) == Order::Less,
        pos < es.len() ==> str_order(es[pos].0, k) != Order::Less,
        pos < es.len() && es[pos].0 == k ==> put(es, k, v) == es.update(pos, (k, v)),
        !(pos < es.len() && es[pos].0 == k) ==> put(es, k, v) == es.insert(pos, (k, v)),
    ensures
        entries_sorted(put(es, k, v)),
{
    let r = put(es, k, v);
    if pos < es.len() && es[pos].0 == k {
        assert forall|i: int, j: int| 0 <= i < j < r.len() implies str_order(#[trigger] r[i].0, #[trigger] r[j].0) == Order::Less by {
            assert(r[i].0 == es[i].0 && r[j].0 == es[j].0);
        }
    } else {
        if pos < es.len() {
            lemma_str_order_equal(es[pos].0, k);
            lemma_str_order_flip(es[pos].0, k);
        }
        assert forall|i: int, j: int| 0 <= i < j < r.len() implies str_order(#[trigger] r[i].0, #[trigger] r[j].0) == Order::Less by {
            if j < pos {
                assert(r[i] == es[i] && r[j] == es[j]);
            } else if j == pos {
                assert(r[i] == es[i]);
            } else if i == pos {
                assert(r[j] == es[j - 1]);
                if j - 1 > pos {
                    assert(str_order(es[pos].0, es[j - 1].0) == Order::Less);
                    lemma_str_order_trans(k, es[pos].0, es[j - 1].0);
                }
            } else if i < pos {
                assert(r[i] == es[i] && r[j] == es[j - 1]);
                if j - 1 >= pos {
                    lemma_str_order_trans(es[i].0, k, es[pos].0);
                    if j - 1 > pos {
                        lemma_str_order_trans(es[i].0, es[pos].0, es[j - 1].0);
                    }
                }
            } else {
                assert(r[i] == es[i - 1] && r[j] == es[j - 1]);
            }
        }
    }
}

/// Keys of the entries of a JSON object, sorted, stay sorted as values.
proof fn lemma_entries_sorted(es: Seq<(String, Json)>)
    ensures
        keys_sorted(es) <==> entries_sorted(entries_jv(es)),
{
    let ev = entries_jv(es);
    if keys_sorted(es) {
        assert forall|i: int, j: int| 0 <= i < j < ev.len() implies str_order(#[trigger] ev[i].0, #[trigger] ev[j].0) == Order::Less by {
            assert(ev[i].0 == es[i].0@ && ev[j].0 == es[j].0@);
        }
    }
    if entries_sorted(ev) {
        assert forall|i: int, j: int| 0 <= i < j < es.len() implies str_order(#[trigger] es[i].0@, #[trigger] es[j].0@) == Order::Less by {
            assert(ev[i].0 == es[i].0@ && ev[j].0 == es[j].0@);
        }
    }
}

/// The number of leading entries whose keys order before `k`.
fn key_position(es: &Vec<(String, Json)>, k: &str) -> (pos: usize)
    ensures
        pos <= es@.len(),
        forall|i: int| 0 <= i < pos ==> str_order(#[trigger] es@[i].0@, k@) == Order::Less,
        pos < es@.len() ==> str_order(es@[pos as int].0@, k@) != Order::Less,
{
    let mut i: usize = 0;
    while i < es.len()
        invariant
            i <= es@.len(),
            forall|j: int| 0 <= j < i ==> str_order(#[trigger] es@[j].0@, k@) == Order::Less,
        decreases es@.len() - i,
    {
        if order_str(es[i].0.as_str(), k) != Order::Less {
            return i;
        }
        i = i + 1;
    }
    i
}

/// All entries well-formed.
pub open spec fn entries_wf(es: Seq<(String, Json)>) -> bool {
    keys_sorted(es) && forall|i: int| 0 <= i < es.len() ==> json_wf(#[trigger] es[i].1)
}

/// Sets key `k` to `v` (see `put`).
pub(crate) fn put_entry(es: &mut Vec<(String, Json)>, k: String, v: Json)
    requires
        entries_wf(old(es)@),
        json_wf(v),
    ensures
        entries_wf(final(es)@),
        entries_jv(final(es)@) == put(entries_jv(old(es)@), k@, jv(v)),
{
    let ghost ev = entries_jv(es@);
    proof {
        lemma_entries_sorted(es@);
    }
    let pos = key_position(es, k.as_str());
    proof {
        lemma_put_at(ev, k@, jv(v), pos as int);
    }
    let ghost before = es@;
    if pos < es.len() && crate::dsl::refs::str_is(es[pos].0.as_str(), k.as_str()) {
        let ghost e = (k, v);
        es.set(pos, (k, v));
        assert(entries_jv(es@) =~= ev.update(pos as int, (e.0@, jv(e.1))));
    } else {
        let ghost e = (k, v);
        es.insert(pos, (k, v));
        assert(entries_jv(es@) =~= ev.insert(pos as int, (e.0@, jv(e.1))));
    }
    proof {
        lemma_entries_sorted(es@);
        assert forall|i: int| 0 <= i < es@.len() implies json_wf(#[trigger] es@[i].1) by {
            if i < pos {
                assert(es@[i] == before[i]);
            } else if i > pos {
                if es@.len() > before.len() {
                    assert(es@[i] == before[i - 1]);
                } else {
                    assert(es@[i] == before[i]);
                }
            }
        }
    }
}

/// Merges the entries of `eb` into `acc` (see `merge_fold`).
fn merge_entries(acc: Vec<(String, Json)>, eb: &Vec<(String, Json)>, deep: bool) -> (r: Vec<(String, Json)>)
    requires
        entries_wf(acc@),
        entries_wf(eb@),
    ensures
        entries_wf(r@),
        entries_jv(r@) == merge_fold(entries_jv(acc@), entries_jv(eb@), eb@.len() as int, deep),
    decreases eb,
{
    let ghost start = entries_jv(acc@);
    let ghost evb = entries_jv(eb@);
    let mut acc = acc;
    let mut i: usize = 0;
    while i < eb.len()
        invariant
            i <= eb@.len(),
            evb == entries_jv(eb@),
            entries_wf(eb@),
            entries_wf(acc@),
            entries_jv(acc@) == merge_fold(start, evb, i as int, deep),
        decreases eb@.len() - i,
    {
        let ghost prev = entries_jv(acc@);
        assert(evb[i as int] == (eb@[i as int].0@, jv(eb@[i as int].1)));
        let k = eb[i].0.clone();
        if deep {
            proof {
                lemma_entries_sorted(acc@);
            }
            let pos = key_position(&acc, k.as_str());
            proof {
                lemma_put_at(prev, k@, jv(eb@[i as int].1), pos as int);
            }
            if pos < acc.len() && crate::dsl::refs::str_is(acc[pos].0.as_str(), k.as_str()) {
                proof {
                    assert(decreases_to!(eb => eb@));
                    assert(decreases_to!(eb@ => eb@[i as int]));
                    assert(prev[pos as int] == (acc@[pos as int].0@, jv(acc@[pos as int].1)));
                    lemma_put_at(prev, k@, deep_merge_v(jv(acc@[pos as int].1), jv(eb@[i as int].1)), pos as int);
                }
                let v = deep_merged(&acc[pos], &eb[i]);
                put_entry(&mut acc, k, v);
            } else {
                let v = json_clone(&eb[i].1);
                put_entry(&mut acc, k, v);
            }
        } else {
            let v = json_clone(&eb[i].1);
            put_entry(&mut acc, k, v);
        }
        i = i + 1;
    }
    acc
}

/// `b` merged deeply into `a` (see `deep_merge_v`).
fn deep_merged(ea: &(String, Json), eb: &(String, Json)) -> (r: Json)
    requires
        json_wf(ea.1),
        json_wf(eb.1),
    ensures
        json_wf(r),
        jv(r) == deep_merge_v(jv(ea.1), jv(eb.1)),
    decreases eb,
{
    match (&ea.1, &eb.1) {
        (Json::Object(_), Json::Object(fs)) => {
            let copy = json_clone(&ea.1);
            proof {
                lemma_jv_object(ea.1);
                lemma_jv_object(eb.1);
            }
            match copy {
                Json::Object(es) => {
                    proof {
                        lemma_jv_object(Json::Object(es));
                        assert(decreases_to!(eb => eb.1));
                        assert(decreases_to!(eb.1 => *fs));
                    }
                    let merged = merge_entries(es, fs, true);
                    proof {
                        lemma_jv_object(Json::Object(merged));
                    }
                    Json::Object(merged)
                },
                _ => {
                    proof {
                        assert(false);
                    }
                    Json::Null
                },
            }
        },
        _ => json_clone(&eb.1),
    }
}

/// The object merged into: `a`, or else `data`, or else `null`.
pub open spec fn merge_a(inputs: Json) -> Json {
    match get_field(inputs, "a"@) {
        Some(v) => v,
        None => match get_field(inputs, "data"@) {
            Some(v) => v,
            None => Json::Null,
        },
    }
}

pub open spec fn merge_deep_of(inputs: Json) -> bool {
    match get_field(inputs, "deep"@) {
        Some(Json::Bool(d)) => d,
        _ => false,
    }
}

/// The configuration error the inputs give, if any.
pub open spec fn merge_error(inputs: Json) -> Option<Seq<char>> {
    match get_field(inputs, "b"@) {
        None => Some("缺少 b 字段"@),
        Some(b) => if merge_a(inputs) is Object && b is Object {
            None
        } else {
            Some("a 和 b 必须是对象"@)
        },
    }
}

/// The merged object.
pub open spec fn merge_output(inputs: Json) -> JsonV {
    match (jv(merge_a(inputs)), jv(get_field(inputs, "b"@)->Some_0)) {
        (JsonV::Object(ea), JsonV::Object(eb)) => JsonV::Object(
            merge_fold(ea, eb, eb.len() as int, merge_deep_of(inputs)),
        ),
        _ => JsonV::Null,
    }
}

impl MergeOperator {
    pub fn spec(&self) -> (r: OperatorSpec)
        ensures
            r.op_type@ == "merge"@,
            r.description@ == "合并两个对象"@,
            !r.iterate,
            r.cache,
    {
        OperatorSpec::new("merge", "合并两个对象")
    }

    /// Merges object `b` into object `a` (see `merge_output`), or fails
    /// with the configuration error of `merge_error`.
    pub fn run(&self, inputs: Json) -> (r: Result<Json, OperatorError>)
        requires
            json_wf(inputs),
        ensures
            match merge_error(inputs) {
                Some(m) => r matches Err(OperatorError::Config(e)) && e@ == m,
                None => r matches Ok(out) && jv(out) == merge_output(inputs),
            },
    {
        proof {
            lemma_get_field_wf(inputs, "a"@);
            lemma_get_field_wf(inputs, "data"@);
            lemma_get_field_wf(inputs, "b"@);
        }
        let a: Json = match get(&inputs, "a") {
            Some(v) => json_clone(v),
            None => match get(&inputs, "data") {
                Some(v) => json_clone(v),
                None => Json::Null,
            },
        };
        let b: Json = match get(&inputs, "b") {
            Some(v) => json_clone(v),
            None => {
                return Err(OperatorError::Config(to_string("缺少 b 字段")));
            },
        };
        let deep = match get(&inputs, "deep") {
            Some(Json::Bool(d)) => *d,
            _ => false,
        };
        proof {
            if a is Object {
                lemma_jv_object(a);
                lemma_jv_object(merge_a(inputs));
            }
            if b is Object {
                lemma_jv_object(b);
                lemma_jv_object(get_field(inputs, "b"@)->Some_0);
            }
        }
        match (a, b) {
            (Json::Object(ea), Json::Object(fb)) => {
                let merged = merge_entries(ea, &fb, deep);
                proof {
                    lemma_jv_object(Json::Object(merged));
                }
                Ok(Json::Object(merged))
            },
            _ => Err(OperatorError::Config(to_string("a 和 b 必须是对象"))),
        }
    }
}

} // verus!
