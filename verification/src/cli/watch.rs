//! Following a task in text mode: what to print for each snapshot of its
//! progress, and how the watch ends.
//!
//! A snapshot is JSON: `status` is an object whose single key names the
//! task's state; `layers` lists the DAG layers (`index`, `step_ids`);
//! `steps` lists each step's `step_id` and `state`.

use vstd::prelude::*;
use crate::json::{Json, JsonNumber, get, get_field, to_text, text_of, jv};
use crate::text::{nat_text, push_str, push_u128, push_chars, to_string, chars_of, string_from_range, strs_view};
use crate::dsl::refs::str_is;

verus! {

/// `Value::as_u64` of an optional value.
pub open spec fn as_u64(j: Option<Json>) -> Option<nat> {
    match j {
        Some(Json::Number(JsonNumber::Int(n))) => if 0 <= n <= u64::MAX {
            Some(n as nat)
        } else {
            None
        },
        _ => None,
    }
}

/// `Value::as_str` of an optional value.
pub open spec fn as_str(j: Option<Json>) -> Option<Seq<char>> {
    match j {
        Some(Json::Str(s)) => Some(s@),
        _ => None,
    }
}

/// `Value::as_bool` of an optional value.
pub open spec fn as_bool(j: Option<Json>) -> Option<bool> {
    match j {
        Some(Json::Bool(b)) => Some(b),
        _ => None,
    }
}

/// A field of an optional value.
pub open spec fn field_of(j: Option<Json>, k: Seq<char>) -> Option<Json> {
    match j {
        Some(x) => get_field(x, k),
        None => None,
    }
}

pub open spec fn text_or(o: Option<Seq<char>>, d: Seq<char>) -> Seq<char> {
    match o {
        Some(s) => s,
        None => d,
    }
}

pub open spec fn nat_or_zero(o: Option<nat>) -> nat {
    match o {
        Some(n) => n,
        None => 0,
    }
}

/// The first key of an object value (its variant, for an enum written as
/// `{"Variant": ...}`).
pub open spec fn first_key(j: Option<Json>) -> Option<Seq<char>> {
    match j {
        Some(Json::Object(es)) => if es@.len() > 0 {
            Some(es@[0].0@)
        } else {
            None
        },
        _ => None,
    }
}

/// The task's state in a snapshot (`unknown` when there is none).
pub open spec fn status_name(data: Json) -> Seq<char> {
    text_or(first_key(get_field(data, "status"@)), "unknown"@)
}

fn field_u64(j: &Json, k: &str) -> (r: Option<u64>)
    ensures
        match r {
            Some(n) => as_u64(get_field(*j, k@)) == Some(n as nat),
            None => as_u64(get_field(*j, k@)) is None,
        },
{
    match get(j, k) {
        Some(Json::Number(JsonNumber::Int(n))) => if 0 <= *n && *n <= 0xffff_ffff_ffff_ffff {
            Some(*n as u64)
        } else {
            None
        },
        _ => None,
    }
}

fn field_str<'a>(j: &'a Json, k: &str) -> (r: Option<&'a str>)
    ensures
        match as_str(get_field(*j, k@)) {
            Some(s) => r matches Some(x) && x@ == s,
            None => r is None,
        },
{
    match get(j, k) {
        Some(Json::Str(s)) => Some(s.as_str()),
        _ => None,
    }
}

fn field_bool(j: &Json, k: &str) -> (r: Option<bool>)
    ensures
        r == as_bool(get_field(*j, k@)),
{
    match get(j, k) {
        Some(Json::Bool(b)) => Some(*b),
        _ => None,
    }
}

fn first_key_of(j: Option<&Json>) -> (r: Option<&str>)
    ensures
        match first_key(match j { Some(x) => Some(*x), None => None }) {
            Some(s) => r matches Some(x) && x@ == s,
            None => r is None,
        },
{
    match j {
        Some(Json::Object(es)) => if es.len() > 0 {
            Some(es[0].0.as_str())
        } else {
            None
        },
        _ => None,
    }
}

/// The task's state in a snapshot (see `status_name`).
pub fn status_of(data: &Json) -> (r: String)
    ensures
        r@ == status_name(*data),
{
    match first_key_of(get(data, "status")) {
        Some(k) => to_string(k),
        None => to_string("unknown"),
    }
}

/// A step's state in a layer line: its variant, and the duration of a
/// completed step, the error of a failed one, or the variant again.
pub open spec fn layer_detail(st: Option<Json>) -> (Seq<char>, Seq<char>) {
    match st {
        Some(Json::Object(es)) => {
            let o = Json::Object(es);
            let v = text_or(first_key(st), "?"@);
            let d = if v == "Completed"@ {
                nat_text(nat_or_zero(as_u64(field_of(get_field(o, "Completed"@), "duration_ms"@)))) + "ms"@
            } else if v == "Failed"@ {
                text_or(as_str(field_of(get_field(o, "Failed"@), "error"@)), "error"@)
            } else {
                v
            };
            (v, d)
        },
        _ => ("?"@, "?"@),
    }
}

/// A step of a snapshot: its id, state variant and detail.
pub open spec fn step_entry(step: Json) -> (Seq<char>, Seq<char>, Seq<char>) {
    let vd = layer_detail(get_field(step, "state"@));
    (text_or(as_str(get_field(step, "step_id"@)), "?"@), vd.0, vd.1)
}

pub open spec fn steps_entries(steps: Seq<Json>) -> Seq<(Seq<char>, Seq<char>, Seq<char>)> {
    steps.map_values(|s: Json| step_entry(s))
}

/// The steps listed under each variant of the status object, in order.
pub open spec fn status_entries(es: Seq<(String, Json)>, n: int) -> Seq<(Seq<char>, Seq<char>, Seq<char>)>
    decreases n,
{
    if n <= 0 {
        Seq::empty()
    } else {
        status_entries(es, n - 1) + match get_field(es[n - 1].1, "steps"@) {
            Some(Json::Array(v)) => steps_entries(v@),
            _ => Seq::empty(),
        }
    }
}

/// The steps of a snapshot as the status object lists them.
pub open spec fn detail_entries(data: Json) -> Seq<(Seq<char>, Seq<char>, Seq<char>)> {
    match get_field(data, "status"@) {
        Some(Json::Object(es)) => status_entries(es@, es@.len() as int),
        _ => Seq::empty(),
    }
}

/// What the last entry for `id` among the first `n` says (a later entry
/// replaces an earlier one).
pub open spec fn lookup_last(es: Seq<(Seq<char>, Seq<char>, Seq<char>)>, id: Seq<char>, n: int) -> Option<(Seq<char>, Seq<char>)>
    decreases n,
{
    if n <= 0 {
        None
    } else if es[n - 1].0 == id {
        Some((es[n - 1].1, es[n - 1].2))
    } else {
        lookup_last(es, id, n - 1)
    }
}

pub open spec fn triples_view(v: Seq<(String, String, String)>) -> Seq<(Seq<char>, Seq<char>, Seq<char>)> {
    v.map_values(|t: (String, String, String)| (t.0@, t.1@, t.2@))
}

fn state_detail(st: Option<&Json>) -> (r: (String, String))
    ensures
        (r.0@, r.1@) == layer_detail(match st { Some(x) => Some(*x), None => None }),
{
    match st {
        Some(o) => match o {
            Json::Object(_) => {
                let v = match first_key_of(Some(o)) {
                    Some(k) => to_string(k),
                    None => to_string("?"),
                };
                if str_is(v.as_str(), "Completed") {
                    let dur = match get(o, "Completed") {
                        Some(c) => field_u64(c, "duration_ms"),
                        None => None,
                    };
                    let mut d = String::new();
                    push_u128(&mut d, match dur {
                        Some(n) => n as u128,
                        None => 0,
                    });
                    push_str(&mut d, "ms");
                    (v, d)
                } else if str_is(v.as_str(), "Failed") {
                    let e = match get(o, "Failed") {
                        Some(f) => field_str(f, "error"),
                        None => None,
                    };
                    let d = match e {
                        Some(s) => to_string(s),
                        None => to_string("error"),
                    };
                    (v, d)
                } else {
                    let d = to_string(v.as_str());
                    (v, d)
                }
            },
            _ => (to_string("?"), to_string("?")),
        },
        None => (to_string("?"), to_string("?")),
    }
}

fn step_entry_of(step: &Json) -> (r: (String, String, String))
    ensures
        (r.0@, r.1@, r.2@) == step_entry(*step),
{
    let id = match field_str(step, "step_id") {
        Some(s) => to_string(s),
        None => to_string("?"),
    };
    let (v, d) = state_detail(get(step, "state"));
    (id, v, d)
}

/// The steps of a snapshot as the status object lists them (see
/// `detail_entries`).
pub fn details_of(data: &Json) -> (r: Vec<(String, String, String)>)
    ensures
        triples_view(r@) == detail_entries(*data),
{
    let mut out: Vec<(String, String, String)> = Vec::new();
    match get(data, "status") {
        Some(Json::Object(es)) => {
            let mut i: usize = 0;
            while i < es.len()
                invariant
                    i <= es@.len(),
                    triples_view(out@) == status_entries(es@, i as int),
                decreases es@.len() - i,
            {
                let ghost before = triples_view(out@);
                match get(&es[i].1, "steps") {
                    Some(Json::Array(v)) => {
                        let mut j: usize = 0;
                        while j < v.len()
                            invariant
                                j <= v@.len(),
                                triples_view(out@) == before + steps_entries(v@.subrange(0, j as int)),
                            decreases v@.len() - j,
                        {
                            let t = step_entry_of(&v[j]);
                            let ghost prev = out@;
                            out.push(t);
                            assert(triples_view(out@) =~= triples_view(prev).push(step_entry(v@[j as int])));
                            assert(steps_entries(v@.subrange(0, j + 1)) =~= steps_entries(v@.subrange(0, j as int)).push(step_entry(v@[j as int])));
                            assert(triples_view(out@) =~= before + steps_entries(v@.subrange(0, j + 1)));
                            j = j + 1;
                        }
                        assert(v@.subrange(0, v@.len() as int) =~= v@);
                    },
                    _ => {
                        assert(triples_view(out@) =~= before + Seq::<(Seq<char>, Seq<char>, Seq<char>)>::empty());
                    },
                }
                i = i + 1;
            }
        },
        _ => {
            assert(triples_view(out@) =~= Seq::<(Seq<char>, Seq<char>, Seq<char>)>::empty());
        },
    }
    out
}

/// The state of step `id` in the entries (see `lookup_last`).
pub fn lookup_detail(es: &Vec<(String, String, String)>, id: &str) -> (r: Option<(String, String)>)
    ensures
        match lookup_last(triples_view(es@), id@, es@.len() as int) {
            Some(p) => r matches Some(q) && q.0@ == p.0 && q.1@ == p.1,
            None => r is None,
        },
{
    let ghost tv = triples_view(es@);
    let mut i: usize = es.len();
    while i > 0
        invariant
            i <= es@.len(),
            tv == triples_view(es@),
            lookup_last(tv, id@, es@.len() as int) == lookup_last(tv, id@, i as int),
        decreases i,
    {
        i = i - 1;
        assert(tv[i as int] == (es@[i as int].0@, es@[i as int].1@, es@[i as int].2@));
        if str_is(es[i].0.as_str(), id) {
            return Some((to_string(es[i].1.as_str()), to_string(es[i].2.as_str())));
        }
    }
    None
}

/// The strings among the values, in order (`filter_map(as_str)`).
pub open spec fn str_items(v: Seq<Json>) -> Seq<Seq<char>>
    decreases v.len(),
{
    if v.len() == 0 {
        Seq::empty()
    } else {
        str_items(v.drop_last()) + match v.last() {
            Json::Str(s) => seq![s@],
            _ => Seq::empty(),
        }
    }
}

/// The layers of a snapshot.
pub open spec fn data_layers(data: Json) -> Seq<Json> {
    match get_field(data, "layers"@) {
        Some(Json::Array(v)) => v@,
        _ => Seq::empty(),
    }
}

/// A layer's index (0 when it has none).
pub open spec fn layer_index(layer: Json) -> u64 {
    nat_or_zero(as_u64(get_field(layer, "index"@))) as u64
}

/// The step ids of a layer.
pub open spec fn layer_ids(layer: Json) -> Seq<Seq<char>> {
    match get_field(layer, "step_ids"@) {
        Some(Json::Array(v)) => str_items(v@),
        _ => Seq::empty(),
    }
}

pub open spec fn is_terminal(v: Seq<char>) -> bool {
    v == "Completed"@ || v == "Failed"@ || v == "Skipped"@
}

/// Every step of the layer has completed, failed or been skipped.
pub open spec fn all_terminal(ids: Seq<Seq<char>>, es: Seq<(Seq<char>, Seq<char>, Seq<char>)>) -> bool {
    forall|k: int| 0 <= k < ids.len() ==> (lookup_last(es, #[trigger] ids[k], es.len() as int) matches Some(p) && is_terminal(p.0))
}

pub open spec fn state_icon(v: Seq<char>) -> Seq<char> {
    if v == "Completed"@ {
        "✓"@
    } else if v == "Failed"@ {
        "✗"@
    } else if v == "Skipped"@ {
        "—"@
    } else {
        "?"@
    }
}

/// `id icon (detail)` for a step of a finished layer.
pub open spec fn part_text(id: Seq<char>, es: Seq<(Seq<char>, Seq<char>, Seq<char>)>) -> Seq<char> {
    match lookup_last(es, id, es.len() as int) {
        Some(p) => id + " "@ + state_icon(p.0) + " ("@ + p.1 + ")"@,
        None => id + " "@ + "?"@ + " ("@ + "?"@ + ")"@,
    }
}

/// The texts joined with `, `.
pub open spec fn joined(parts: Seq<Seq<char>>) -> Seq<char>
    decreases parts.len(),
{
    if parts.len() == 0 {
        Seq::empty()
    } else if parts.len() == 1 {
        parts[0]
    } else {
        joined(parts.drop_last()) + ", "@ + parts.last()
    }
}

/// The line printed when a layer has finished.
pub open spec fn layer_line(idx: u64, ids: Seq<Seq<char>>, es: Seq<(Seq<char>, Seq<char>, Seq<char>)>) -> Seq<char> {
    "[weaveflow] Layer "@ + nat_text((idx + 1) as nat) + (if ids.len() > 1 {
        " (parallel)"@
    } else {
        Seq::empty()
    }) + ": "@ + joined(ids.map_values(|id: Seq<char>| part_text(id, es)))
}

/// One layer: a layer not printed before whose steps have all finished is
/// printed and marked.
pub open spec fn layer_step(layer: Json, es: Seq<(Seq<char>, Seq<char>, Seq<char>)>, done: Seq<u64>) -> (Seq<u64>, Seq<Seq<char>>) {
    let idx = layer_index(layer);
    if done.contains(idx) {
        (done, Seq::empty())
    } else if all_terminal(layer_ids(layer), es) {
        (done.push(idx), seq![layer_line(idx, layer_ids(layer), es)])
    } else {
        (done, Seq::empty())
    }
}

/// The layers in order: the indices marked, and the lines printed.
pub open spec fn layers_fold(layers: Seq<Json>, es: Seq<(Seq<char>, Seq<char>, Seq<char>)>, done: Seq<u64>) -> (Seq<u64>, Seq<Seq<char>>)
    decreases layers.len(),
{
    if layers.len() == 0 {
        (done, Seq::empty())
    } else {
        let a = layers_fold(layers.drop_last(), es, done);
        let b = layer_step(layers.last(), es, a.0);
        (b.0, a.1 + b.1)
    }
}

/// A layer is printed at most once: each printed line marks one layer
/// index, which was not marked before and is marked by no other line.
pub proof fn lemma_layer_printed_once(layers: Seq<Json>, es: Seq<(Seq<char>, Seq<char>, Seq<char>)>, done: Seq<u64>)
    ensures
        layers_fold(layers, es, done).0.len() == done.len() + layers_fold(layers, es, done).1.len(),
        layers_fold(layers, es, done).0.take(done.len() as int) == done,
        forall|k: int| done.len() <= k < layers_fold(layers, es, done).0.len() ==> !done.contains(
            #[trigger] layers_fold(layers, es, done).0[k],
        ),
        forall|i: int, j: int|
            done.len() <= i < j < layers_fold(layers, es, done).0.len() ==> #[trigger] layers_fold(layers, es, done).0[i]
                != #[trigger] layers_fold(layers, es, done).0[j],
    decreases layers.len(),
{
    if layers.len() > 0 {
        lemma_layer_printed_once(layers.drop_last(), es, done);
        let a = layers_fold(layers.drop_last(), es, done);
        let b = layer_step(layers.last(), es, a.0);
        let idx = layer_index(layers.last());
        if !a.0.contains(idx) && all_terminal(layer_ids(layers.last()), es) {
            assert(b.0 == a.0.push(idx));
            assert(b.0.take(done.len() as int) =~= a.0.take(done.len() as int));
            assert forall|k: int| done.len() <= k < b.0.len() implies !done.contains(#[trigger] b.0[k]) by {
                if k == a.0.len() {
                    if done.contains(idx) {
                        let t = choose|t: int| 0 <= t < done.len() && done[t] == idx;
                        assert(a.0.take(done.len() as int)[t] == a.0[t]);
                    }
                } else {
                    assert(b.0[k] == a.0[k]);
                }
            }
            assert forall|i: int, j: int| done.len() <= i < j < b.0.len() implies #[trigger] b.0[i] != #[trigger] b.0[j] by {
                if j == a.0.len() {
                    assert(b.0[i] == a.0[i]);
                    assert(a.0.contains(a.0[i]));
                } else {
                    assert(b.0[i] == a.0[i]);
                    assert(b.0[j] == a.0[j]);
                }
            }
        }
    }
}

fn contains_u64(v: &Vec<u64>, x: u64) -> (r: bool)
    ensures
        r == v@.contains(x),
{
    let mut i: usize = 0;
    while i < v.len()
        invariant
            i <= v@.len(),
            forall|k: int| 0 <= k < i ==> v@[k] != x,
        decreases v@.len() - i,
    {
        if v[i] == x {
            assert(v@[i as int] == x);
            return true;
        }
        i = i + 1;
    }
    false
}

fn layer_ids_of(layer: &Json) -> (r: Vec<String>)
    ensures
        strs_view(r@) == layer_ids(*layer),
{
    let mut out: Vec<String> = Vec::new();
    match get(layer, "step_ids") {
        Some(Json::Array(v)) => {
            let mut j: usize = 0;
            while j < v.len()
                invariant
                    j <= v@.len(),
                    strs_view(out@) == str_items(v@.subrange(0, j as int)),
                decreases v@.len() - j,
            {
                let ghost prev = out@;
                assert(v@.subrange(0, j + 1).drop_last() =~= v@.subrange(0, j as int));
                match &v[j] {
                    Json::Str(s) => {
                        out.push(to_string(s.as_str()));
                        assert(strs_view(out@) =~= strs_view(prev).push(s@));
                        assert(strs_view(out@) =~= str_items(v@.subrange(0, j + 1)));
                    },
                    _ => {
                        assert(strs_view(out@) =~= str_items(v@.subrange(0, j + 1)));
                    },
                }
                j = j + 1;
            }
            assert(v@.subrange(0, v@.len() as int) =~= v@);
        },
        _ => {
            assert(strs_view(out@) =~= Seq::<Seq<char>>::empty());
        },
    }
    out
}

proof fn lemma_joined_step(parts: Seq<Seq<char>>, k: int)
    requires
        0 <= k < parts.len(),
    ensures
        joined(parts.take(k + 1)) == joined(parts.take(k)) + (if k > 0 { ", "@ } else { Seq::empty() }) + parts[k],
{
    assert(parts.take(k + 1).drop_last() =~= parts.take(k));
    if k == 0 {
        assert(joined(parts.take(0)) =~= Seq::<char>::empty());
        assert(joined(parts.take(1)) == parts[0]);
        assert(Seq::<char>::empty() + Seq::<char>::empty() + parts[0] =~= parts[0]);
    }
}

fn part_of(id: &str, es: &Vec<(String, String, String)>) -> (r: String)
    ensures
        r@ == part_text(id@, triples_view(es@)),
{
    let ghost tv = triples_view(es@);
    assert(tv.len() == es@.len());
    let p = lookup_detail(es, id);
    let mut r = to_string(id);
    push_str(&mut r, " ");
    match &p {
        Some(q) => {
            if str_is(q.0.as_str(), "Completed") {
                push_str(&mut r, "✓");
            } else if str_is(q.0.as_str(), "Failed") {
                push_str(&mut r, "✗");
            } else if str_is(q.0.as_str(), "Skipped") {
                push_str(&mut r, "—");
            } else {
                push_str(&mut r, "?");
            }
            push_str(&mut r, " (");
            push_str(&mut r, q.1.as_str());
            push_str(&mut r, ")");
            assert(r@ =~= id@ + " "@ + state_icon(q.0@) + " ("@ + q.1@ + ")"@);
        },
        None => {
            push_str(&mut r, "?");
            push_str(&mut r, " (");
            push_str(&mut r, "?");
            push_str(&mut r, ")");
            assert(r@ =~= id@ + " "@ + "?"@ + " ("@ + "?"@ + ")"@);
        },
    }
    r
}

fn layer_line_of(idx: u64, ids: &Vec<String>, es: &Vec<(String, String, String)>) -> (r: String)
    ensures
        r@ == layer_line(idx, strs_view(ids@), triples_view(es@)),
{
    let ghost tv = triples_view(es@);
    let ghost parts = strs_view(ids@).map_values(|id: Seq<char>| part_text(id, tv));
    let mut r = String::new();
    push_str(&mut r, "[weaveflow] Layer ");
    push_u128(&mut r, idx as u128 + 1);
    if ids.len() > 1 {
        push_str(&mut r, " (parallel)");
    }
    push_str(&mut r, ": ");
    let ghost head = r@;
    let mut k: usize = 0;
    while k < ids.len()
        invariant
            k <= ids@.len(),
            tv == triples_view(es@),
            parts == strs_view(ids@).map_values(|id: Seq<char>| part_text(id, tv)),
            r@ == head + joined(parts.take(k as int)),
        decreases ids@.len() - k,
    {
        proof {
            lemma_joined_step(parts, k as int);
        }
        if k > 0 {
            push_str(&mut r, ", ");
        }
        let id = ids[k].as_str();
        let part = part_of(id, es);
        push_str(&mut r, part.as_str());
        assert(strs_view(ids@)[k as int] == id@);
        assert(parts[k as int] == part_text(id@, tv));
        assert(r@ =~= head + joined(parts.take(k + 1)));
        k = k + 1;
    }
    assert(parts.take(ids@.len() as int) =~= parts);
    r
}

/// Whether every listed step has finished (see `all_terminal`).
fn layer_finished(ids: &Vec<String>, es: &Vec<(String, String, String)>) -> (r: bool)
    ensures
        r == all_terminal(strs_view(ids@), triples_view(es@)),
{
    let ghost tv = triples_view(es@);
    let ghost iv = strs_view(ids@);
    let mut k: usize = 0;
    while k < ids.len()
        invariant
            k <= ids@.len(),
            tv == triples_view(es@),
            iv == strs_view(ids@),
            forall|j: int| 0 <= j < k ==> (lookup_last(tv, #[trigger] iv[j], tv.len() as int) matches Some(p) && is_terminal(p.0)),
        decreases ids@.len() - k,
    {
        let p = lookup_detail(es, ids[k].as_str());
        assert(iv[k as int] == ids@[k as int]@);
        match &p {
            Some(q) => {
                let v = q.0.as_str();
                if !(str_is(v, "Completed") || str_is(v, "Failed") || str_is(v, "Skipped")) {
                    return false;
                }
            },
            None => {
                return false;
            },
        }
        k = k + 1;
    }
    true
}

/// Marks and prints the layers that have just finished (see
/// `layers_fold`): each layer is printed once, when all its steps have
/// completed, failed or been skipped.
pub fn layer_lines(data: &Json, completed: &mut Vec<u64>) -> (r: Vec<String>)
    ensures
        final(completed)@ == layers_fold(data_layers(*data), detail_entries(*data), old(completed)@).0,
        strs_view(r@) == layers_fold(data_layers(*data), detail_entries(*data), old(completed)@).1,
{
    let es = details_of(data);
    let ghost tv = triples_view(es@);
    let ghost start = completed@;
    let mut out: Vec<String> = Vec::new();
    match get(data, "layers") {
        Some(Json::Array(v)) => {
            let mut i: usize = 0;
            while i < v.len()
                invariant
                    i <= v@.len(),
                    tv == triples_view(es@),
                    completed@ == layers_fold(v@.take(i as int), tv, start).0,
                    strs_view(out@) == layers_fold(v@.take(i as int), tv, start).1,
                decreases v@.len() - i,
            {
                let layer = &v[i];
                assert(v@.take(i + 1).drop_last() =~= v@.take(i as int));
                assert(v@.take(i + 1).last() == v@[i as int]);
                let idx = match field_u64(layer, "index") {
                    Some(n) => n,
                    None => 0,
                };
                let ghost before = strs_view(out@);
                if !contains_u64(completed, idx) {
                    let ids = layer_ids_of(layer);
                    if layer_finished(&ids, &es) {
                        completed.push(idx);
                        let line = layer_line_of(idx, &ids, &es);
                        out.push(line);
                        assert(strs_view(out@) =~= before + seq![layer_line(idx, layer_ids(*layer), tv)]);
                    } else {
                        assert(strs_view(out@) =~= before + Seq::<Seq<char>>::empty());
                    }
                } else {
                    assert(strs_view(out@) =~= before + Seq::<Seq<char>>::empty());
                }
                i = i + 1;
            }
            assert(v@.take(v@.len() as int) =~= v@);
        },
        _ => {
            assert(strs_view(out@) =~= Seq::<Seq<char>>::empty());
        },
    }
    out
}


/// The task has completed or failed.
pub open spec fn is_final(st: Seq<char>) -> bool {
    st == "Completed"@ || st == "Failed"@
}

/// The line that shows a completed task's output: the size of binary
/// output, the first 200 characters of a longer text, or the JSON text.
pub open spec fn output_line(o: Json) -> Seq<char> {
    if as_bool(get_field(o, "_binary"@)) == Some(true) {
        "[weaveflow] output: "@ + "[binary "@ + nat_text(nat_or_zero(as_u64(get_field(o, "_size"@)))) + " bytes]"@
    } else {
        match o {
            Json::Str(s) => if s@.len() > 200 {
                "[weaveflow] output: "@ + s@.take(200) + "... ("@ + nat_text(s@.len()) + " chars)"@
            } else {
                "[weaveflow] output: "@ + text_of(jv(o))
            },
            _ => "[weaveflow] output: "@ + text_of(jv(o)),
        }
    }
}

/// A step's state in the final progress list.
pub open spec fn progress_state(st: Option<Json>) -> Seq<char> {
    match st {
        Some(Json::Object(es)) => {
            let o = Json::Object(es);
            let v = text_or(first_key(st), "?"@);
            if v == "Completed"@ {
                let c = get_field(o, "Completed"@);
                let dur = nat_text(nat_or_zero(as_u64(field_of(c, "duration_ms"@))));
                if as_bool(field_of(c, "cached"@)) == Some(true) {
                    "✓ ("@ + dur + "ms ♻)"@
                } else {
                    "✓ ("@ + dur + "ms)"@
                }
            } else if v == "Failed"@ {
                "✗ ("@ + text_or(as_str(field_of(get_field(o, "Failed"@), "error"@)), "?"@) + ")"@
            } else if v == "Iterating"@ {
                "◐"@
            } else if v == "Running"@ {
                "●"@
            } else if v == "Skipped"@ {
                "—"@
            } else {
                v
            }
        },
        _ => "?"@,
    }
}

pub open spec fn progress_line(step: Json) -> Seq<char> {
    "  "@ + text_or(as_str(get_field(step, "step_id"@)), "?"@) + ": "@ + progress_state(get_field(step, "state"@))
}

/// The error of a failed task.
pub open spec fn failed_text(data: Json) -> Seq<char> {
    text_or(as_str(field_of(get_field(data, "status"@), "Failed"@)), "unknown error"@)
}

/// The lines that close the watch of a finished task, each marked `true`
/// when it goes to standard error.
pub open spec fn finish_lines(data: Json) -> Seq<(bool, Seq<char>)> {
    let st = status_name(data);
    if is_final(st) {
        (if st == "Completed"@ {
            (match field_of(get_field(data, "status"@), "Completed"@) {
                Some(o) => seq![(false, output_line(o))],
                None => Seq::empty(),
            }) + (match get_field(data, "steps"@) {
                Some(Json::Array(v)) => seq![(false, "[weaveflow] step progress:"@)] + v@.map_values(
                    |x: Json| (false, progress_line(x)),
                ),
                _ => Seq::empty(),
            })
        } else {
            Seq::empty()
        }) + (if st == "Failed"@ {
            seq![(true, "[weaveflow] error: "@ + failed_text(data))]
        } else {
            Seq::empty()
        }) + (match as_u64(get_field(data, "total_duration_ms"@)) {
            Some(d) => seq![(false, "[weaveflow] completed in "@ + nat_text(d) + "ms"@)],
            None => Seq::empty(),
        })
    } else {
        Seq::empty()
    }
}

/// A line of output, and whether it goes to standard error.
pub struct WatchLine {
    pub to_stderr: bool,
    pub text: String,
}

pub open spec fn lines_view(v: Seq<WatchLine>) -> Seq<(bool, Seq<char>)> {
    v.map_values(|l: WatchLine| (l.to_stderr, l.text@))
}

pub open spec fn stdout_lines(v: Seq<Seq<char>>) -> Seq<(bool, Seq<char>)> {
    v.map_values(|t: Seq<char>| (false, t))
}

pub open spec fn opt_text(o: Option<String>) -> Option<Seq<char>> {
    match o {
        Some(s) => Some(s@),
        None => None,
    }
}

/// What a text-mode watch keeps between snapshots: the layers printed,
/// whether the task has finished, and its error if it failed.
pub struct TextWatch {
    pub completed: Vec<u64>,
    pub finished: bool,
    pub task_error: Option<String>,
}

impl TextWatch {
    pub fn new() -> (r: TextWatch)
        ensures
            r.completed@.len() == 0,
            !r.finished,
            r.task_error is None,
    {
        TextWatch { completed: Vec::new(), finished: false, task_error: None }
    }
}

fn output_line_of(o: &Json) -> (r: String)
    ensures
        r@ == output_line(*o),
{
    let mut r = to_string("[weaveflow] output: ");
    if field_bool(o, "_binary") == Some(true) {
        push_str(&mut r, "[binary ");
        let n = match field_u64(o, "_size") {
            Some(n) => n as u128,
            None => 0,
        };
        push_u128(&mut r, n);
        push_str(&mut r, " bytes]");
        assert(r@ =~= output_line(*o));
    } else {
        match o {
            Json::Str(s) => {
                let cs = chars_of(s.as_str());
                if cs.len() > 200 {
                    let head = string_from_range(&cs, 0, 200);
                    push_str(&mut r, head.as_str());
                    push_str(&mut r, "... (");
                    push_u128(&mut r, cs.len() as u128);
                    push_str(&mut r, " chars)");
                    assert(s@.subrange(0, 200) =~= s@.take(200));
                    assert(r@ =~= output_line(*o));
                } else {
                    let t = to_text(o);
                    push_str(&mut r, t.as_str());
                    assert(r@ =~= output_line(*o));
                }
            },
            _ => {
                let t = to_text(o);
                push_str(&mut r, t.as_str());
                assert(r@ =~= output_line(*o));
            },
        }
    }
    r
}

fn progress_state_of(st: Option<&Json>) -> (r: String)
    ensures
        r@ == progress_state(match st { Some(x) => Some(*x), None => None }),
{
    match st {
        Some(o) => match o {
            Json::Object(_) => {
                let v = match first_key_of(Some(o)) {
                    Some(k) => to_string(k),
                    None => to_string("?"),
                };
                if str_is(v.as_str(), "Completed") {
                    let c = get(o, "Completed");
                    let dur = match c {
                        Some(x) => field_u64(x, "duration_ms"),
                        None => None,
                    };
                    let cached = match c {
                        Some(x) => field_bool(x, "cached"),
                        None => None,
                    };
                    let mut r = to_string("✓ (");
                    push_u128(&mut r, match dur {
                        Some(n) => n as u128,
                        None => 0,
                    });
                    if cached == Some(true) {
                        push_str(&mut r, "ms ♻)");
                    } else {
                        push_str(&mut r, "ms)");
                    }
                    r
                } else if str_is(v.as_str(), "Failed") {
                    let e = match get(o, "Failed") {
                        Some(f) => field_str(f, "error"),
                        None => None,
                    };
                    let mut r = to_string("✗ (");
                    match e {
                        Some(t) => push_str(&mut r, t),
                        None => push_str(&mut r, "?"),
                    }
                    push_str(&mut r, ")");
                    r
                } else if str_is(v.as_str(), "Iterating") {
                    to_string("◐")
                } else if str_is(v.as_str(), "Running") {
                    to_string("●")
                } else if str_is(v.as_str(), "Skipped") {
                    to_string("—")
                } else {
                    v
                }
            },
            _ => to_string("?"),
        },
        None => to_string("?"),
    }
}

fn progress_line_of(step: &Json) -> (r: String)
    ensures
        r@ == progress_line(*step),
{
    let mut r = to_string("  ");
    match field_str(step, "step_id") {
        Some(t) => push_str(&mut r, t),
        None => push_str(&mut r, "?"),
    }
    push_str(&mut r, ": ");
    let st = progress_state_of(get(step, "state"));
    push_str(&mut r, st.as_str());
    r
}

fn failed_text_of(data: &Json) -> (r: String)
    ensures
        r@ == failed_text(*data),
{
    let e = match get(data, "status") {
        Some(s) => field_str(s, "Failed"),
        None => None,
    };
    match e {
        Some(t) => to_string(t),
        None => to_string("unknown error"),
    }
}

fn push_line(v: &mut Vec<WatchLine>, to_stderr: bool, text: String)
    ensures
        lines_view(final(v)@) == lines_view(old(v)@).push((to_stderr, text@)),
{
    let ghost prev = v@;
    v.push(WatchLine { to_stderr, text });
    assert(lines_view(v@) =~= lines_view(prev).push((to_stderr, text@)));
}

fn finish_lines_of(data: &Json, st: &str) -> (r: Vec<WatchLine>)
    requires
        st@ == status_name(*data),
    ensures
        lines_view(r@) == finish_lines(*data),
{
    let mut out: Vec<WatchLine> = Vec::new();
    if !(str_is(st, "Completed") || str_is(st, "Failed")) {
        assert(lines_view(out@) =~= finish_lines(*data));
        return out;
    }
    let ghost s0 = lines_view(out@);
    if str_is(st, "Completed") {
        let c = match get(data, "status") {
            Some(s) => get(s, "Completed"),
            None => None,
        };
        match c {
            Some(o) => {
                let line = output_line_of(o);
                push_line(&mut out, false, line);
            },
            None => {},
        }
        let ghost s1 = lines_view(out@);
        match get(data, "steps") {
            Some(Json::Array(v)) => {
                push_line(&mut out, false, to_string("[weaveflow] step progress:"));
                let ghost s2 = lines_view(out@);
                let mut j: usize = 0;
                while j < v.len()
                    invariant
                        j <= v@.len(),
                        lines_view(out@) == s2 + v@.subrange(0, j as int).map_values(|x: Json| (false, progress_line(x))),
                    decreases v@.len() - j,
                {
                    let line = progress_line_of(&v[j]);
                    push_line(&mut out, false, line);
                    assert(v@.subrange(0, j + 1).map_values(|x: Json| (false, progress_line(x)))
                        =~= v@.subrange(0, j as int).map_values(|x: Json| (false, progress_line(x))).push((false, progress_line(v@[j as int]))));
                    assert(lines_view(out@) =~= s2 + v@.subrange(0, j + 1).map_values(|x: Json| (false, progress_line(x))));
                    j = j + 1;
                }
                assert(v@.subrange(0, v@.len() as int) =~= v@);
                assert(lines_view(out@) =~= s1 + (seq![(false, "[weaveflow] step progress:"@)] + v@.map_values(|x: Json| (false, progress_line(x)))));
            },
            _ => {},
        }
    }
    let ghost s3 = lines_view(out@);
    if str_is(st, "Failed") {
        let mut line = to_string("[weaveflow] error: ");
        let e = failed_text_of(data);
        push_str(&mut line, e.as_str());
        push_line(&mut out, true, line);
    }
    let ghost s4 = lines_view(out@);
    match field_u64(data, "total_duration_ms") {
        Some(d) => {
            let mut line = to_string("[weaveflow] completed in ");
            push_u128(&mut line, d as u128);
            push_str(&mut line, "ms");
            push_line(&mut out, false, line);
        },
        None => {},
    }
    assert(lines_view(out@) =~= finish_lines(*data));
    out
}

/// Takes in one snapshot: prints the layers that have just finished and,
/// when the task has completed or failed, its closing lines; notes that
/// the watch is over, and the task's error.
pub fn text_event(w: &mut TextWatch, data: &Json) -> (r: Vec<WatchLine>)
    ensures
        lines_view(r@) == stdout_lines(layers_fold(data_layers(*data), detail_entries(*data), old(w).completed@).1)
            + finish_lines(*data),
        final(w).completed@ == layers_fold(data_layers(*data), detail_entries(*data), old(w).completed@).0,
        final(w).finished == (old(w).finished || is_final(status_name(*data))),
        opt_text(final(w).task_error) == if status_name(*data) == "Failed"@ {
            Some(failed_text(*data))
        } else {
            opt_text(old(w).task_error)
        },
{
    let st = status_of(data);
    let layer = layer_lines(data, &mut w.completed);
    let mut out: Vec<WatchLine> = Vec::new();
    let mut k: usize = 0;
    while k < layer.len()
        invariant
            k <= layer@.len(),
            lines_view(out@) == stdout_lines(strs_view(layer@).take(k as int)),
        decreases layer@.len() - k,
    {
        let line = to_string(layer[k].as_str());
        push_line(&mut out, false, line);
        assert(stdout_lines(strs_view(layer@).take(k + 1)) =~= stdout_lines(strs_view(layer@).take(k as int)).push((false, layer@[k as int]@)));
        k = k + 1;
    }
    assert(strs_view(layer@).take(layer@.len() as int) =~= strs_view(layer@));
    let fin = finish_lines_of(data, st.as_str());
    let ghost a = lines_view(out@);
    let mut j: usize = 0;
    let rest = fin;
    let ghost fv = lines_view(rest@);
    while j < rest.len()
        invariant
            j <= rest@.len(),
            fv == lines_view(rest@),
            lines_view(out@) == a + fv.take(j as int),
        decreases rest@.len() - j,
    {
        let to_stderr = rest[j].to_stderr;
        let text = to_string(rest[j].text.as_str());
        push_line(&mut out, to_stderr, text);
        assert(fv.take(j + 1) =~= fv.take(j as int).push(fv[j as int]));
        j = j + 1;
    }
    assert(fv.take(rest@.len() as int) =~= fv);
    if str_is(st.as_str(), "Completed") || str_is(st.as_str(), "Failed") {
        w.finished = true;
    }
    if str_is(st.as_str(), "Failed") {
        w.task_error = Some(failed_text_of(data));
    }
    out
}

/// Takes in one snapshot of a JSON-lines watch: the snapshot is printed as
/// one line of JSON; the watch ends when the task has completed or failed.
pub fn json_event(w: &mut TextWatch, data: &Json) -> (r: String)
    ensures
        r@ == text_of(jv(*data)),
        final(w).completed@ == old(w).completed@,
        final(w).finished == (old(w).finished || is_final(status_name(*data))),
        opt_text(final(w).task_error) == if status_name(*data) == "Failed"@ {
            Some(failed_text(*data))
        } else {
            opt_text(old(w).task_error)
        },
{
    let st = status_of(data);
    if str_is(st.as_str(), "Completed") || str_is(st.as_str(), "Failed") {
        w.finished = true;
    }
    if str_is(st.as_str(), "Failed") {
        w.task_error = Some(failed_text_of(data));
    }
    to_text(data)
}

/// How a watch ends: an error when the stream stopped before the task
/// finished, or when the task failed.
pub fn watch_outcome(w: &TextWatch) -> (r: Result<(), String>)
    ensures
        !w.finished ==> (r matches Err(e) && e@ == "connection to daemon lost before task completion"@),
        w.finished ==> match w.task_error {
            Some(t) => r matches Err(e) && e@ == "task failed: "@ + t@,
            None => r is Ok,
        },
{
    if !w.finished {
        return Err(to_string("connection to daemon lost before task completion"));
    }
    match &w.task_error {
        Some(t) => {
            let mut e = to_string("task failed: ");
            push_str(&mut e, t.as_str());
            Err(e)
        },
        None => Ok(()),
    }
}


/// The steps a full-screen view reads: the snapshot's `steps`, or else the
/// `steps` under its status.
pub open spec fn ui_steps(data: Json) -> Seq<Json> {
    match get_field(data, "steps"@) {
        Some(Json::Array(v)) => v@,
        _ => match get_field(data, "status"@) {
            Some(Json::Object(es)) => if es@.len() > 0 {
                match get_field(es@[0].1, "steps"@) {
                    Some(Json::Array(v)) => v@,
                    _ => Seq::empty(),
                }
            } else {
                Seq::empty()
            },
            _ => Seq::empty(),
        },
    }
}

/// A step as the full-screen view reads it: its id and state variant.
pub open spec fn ui_entry(step: Json) -> (Seq<char>, Seq<char>, Seq<char>) {
    let v = match get_field(step, "state"@) {
        Some(Json::Object(es)) => text_or(first_key(Some(Json::Object(es))), "?"@),
        _ => "?"@,
    };
    (text_or(as_str(get_field(step, "step_id"@)), "?"@), v, Seq::empty())
}

pub open spec fn ui_entries(data: Json) -> Seq<(Seq<char>, Seq<char>, Seq<char>)> {
    ui_steps(data).map_values(|s: Json| ui_entry(s))
}

/// How many steps are in each state, as the footer counts them.
pub struct TuiCounts {
    pub running: u64,
    pub iterating: u64,
    pub completed: u64,
    pub skipped: u64,
    pub pending: u64,
    pub failed: u64,
}

/// A line of the full-screen view: plain text, or a step with its icon and
/// either a fixed detail or `None` for the detail its state gives (which
/// depends on the clock).
pub enum TuiLine {
    Text(String),
    Step { indent: String, icon: String, id: String, detail: Option<String> },
}

pub enum TuiLineV {
    Text(Seq<char>),
    Step(Seq<char>, Seq<char>, Seq<char>, Option<Seq<char>>),
}

pub open spec fn tui_lines_view(v: Seq<TuiLine>) -> Seq<TuiLineV> {
    v.map_values(|l: TuiLine| match l {
        TuiLine::Text(t) => TuiLineV::Text(t@),
        TuiLine::Step { indent, icon, id, detail } => TuiLineV::Step(indent@, icon@, id@, opt_text(detail)),
    })
}

/// The icon, the fixed detail, and the counter (0 running, 1 iterating,
/// 2 completed, 3 skipped, 4 pending, 5 failed) of a step in state `v`
/// (`None` when the snapshot does not list the step).
pub open spec fn ui_row(v: Option<Seq<char>>) -> (Seq<char>, Option<Seq<char>>, int) {
    match v {
        Some(x) => if x == "Pending"@ {
            ("○"@, Some("pending"@), 4)
        } else if x == "Skipped"@ {
            ("—"@, Some("skipped"@), 3)
        } else if x == "Running"@ {
            ("●"@, None, 0)
        } else if x == "Iterating"@ {
            ("◐"@, None, 1)
        } else if x == "Completed"@ {
            ("✓"@, None, 2)
        } else if x == "Failed"@ {
            ("✗"@, None, 5)
        } else {
            ("○"@, Some("?"@), 4)
        },
        None => ("○"@, Some("unknown"@), 4),
    }
}

pub open spec fn sat_inc(c: int) -> int {
    if c < u64::MAX { c + 1 } else { c }
}

pub type CountsV = (int, int, int, int, int, int);

pub open spec fn counts_view(c: TuiCounts) -> CountsV {
    (c.running as int, c.iterating as int, c.completed as int, c.skipped as int, c.pending as int, c.failed as int)
}

pub open spec fn bump(c: CountsV, k: int) -> CountsV {
    if k == 0 {
        (sat_inc(c.0), c.1, c.2, c.3, c.4, c.5)
    } else if k == 1 {
        (c.0, sat_inc(c.1), c.2, c.3, c.4, c.5)
    } else if k == 2 {
        (c.0, c.1, sat_inc(c.2), c.3, c.4, c.5)
    } else if k == 3 {
        (c.0, c.1, c.2, sat_inc(c.3), c.4, c.5)
    } else if k == 4 {
        (c.0, c.1, c.2, c.3, sat_inc(c.4), c.5)
    } else {
        (c.0, c.1, c.2, c.3, c.4, sat_inc(c.5))
    }
}

pub open spec fn variant_of(es: Seq<(Seq<char>, Seq<char>, Seq<char>)>, id: Seq<char>) -> Option<Seq<char>> {
    match lookup_last(es, id, es.len() as int) {
        Some(p) => Some(p.0),
        None => None,
    }
}

/// The rows of the first `n` steps of a layer, and the counts after them.
pub open spec fn ui_rows(ids: Seq<Seq<char>>, es: Seq<(Seq<char>, Seq<char>, Seq<char>)>, indent: Seq<char>, c: CountsV, n: int) -> (Seq<TuiLineV>, CountsV)
    decreases n,
{
    if n <= 0 {
        (Seq::empty(), c)
    } else {
        let a = ui_rows(ids, es, indent, c, n - 1);
        let r = ui_row(variant_of(es, ids[n - 1]));
        (a.0.push(TuiLineV::Step(indent, r.0, ids[n - 1], r.1)), bump(a.1, r.2))
    }
}

/// A layer: its heading, its rows (braced when several run at once).
pub open spec fn ui_layer(layer: Json, es: Seq<(Seq<char>, Seq<char>, Seq<char>)>, c: CountsV) -> (Seq<TuiLineV>, CountsV) {
    let ids = layer_ids(layer);
    let many = ids.len() > 1;
    let indent = if many { "    "@ } else { "  "@ };
    let rows = ui_rows(ids, es, indent, c, ids.len() as int);
    let head = seq![TuiLineV::Text("  Layer "@ + nat_text((layer_index(layer) + 1) as nat) + ":"@)];
    let lines = if many {
        head + seq![TuiLineV::Text("  {"@)] + rows.0 + seq![TuiLineV::Text("  }"@)]
    } else {
        head + rows.0
    };
    (lines, rows.1)
}

pub open spec fn ui_layers(layers: Seq<Json>, es: Seq<(Seq<char>, Seq<char>, Seq<char>)>, c: CountsV) -> (Seq<TuiLineV>, CountsV)
    decreases layers.len(),
{
    if layers.len() == 0 {
        (Seq::empty(), c)
    } else {
        let a = ui_layers(layers.drop_last(), es, c);
        let b = ui_layer(layers.last(), es, a.1);
        (a.0 + b.0, b.1)
    }
}

fn ui_entries_of(data: &Json) -> (r: Vec<(String, String, String)>)
    ensures
        triples_view(r@) == ui_entries(*data),
{
    let steps: Option<&Vec<Json>> = match get(data, "steps") {
        Some(Json::Array(v)) => Some(v),
        _ => match get(data, "status") {
            Some(Json::Object(es)) => if es.len() > 0 {
                match get(&es[0].1, "steps") {
                    Some(Json::Array(v)) => Some(v),
                    _ => None,
                }
            } else {
                None
            },
            _ => None,
        },
    };
    let mut out: Vec<(String, String, String)> = Vec::new();
    match steps {
        Some(v) => {
            assert(v@ == ui_steps(*data));
            let mut j: usize = 0;
            while j < v.len()
                invariant
                    j <= v@.len(),
                    v@ == ui_steps(*data),
                    triples_view(out@) == v@.take(j as int).map_values(|s: Json| ui_entry(s)),
                decreases v@.len() - j,
            {
                let id = match field_str(&v[j], "step_id") {
                    Some(t) => to_string(t),
                    None => to_string("?"),
                };
                let st = get(&v[j], "state");
                let var = match st {
                    Some(Json::Object(_)) => match first_key_of(st) {
                        Some(k) => to_string(k),
                        None => to_string("?"),
                    },
                    _ => to_string("?"),
                };
                let ghost prev = out@;
                let empty = String::new();
                assert(empty@ =~= Seq::<char>::empty());
                out.push((id, var, empty));
                assert(triples_view(out@) =~= triples_view(prev).push(ui_entry(v@[j as int])));
                assert(v@.take(j + 1).map_values(|s: Json| ui_entry(s)) =~= v@.take(j as int).map_values(|s: Json| ui_entry(s)).push(ui_entry(v@[j as int])));
                j = j + 1;
            }
            assert(v@.take(v@.len() as int) =~= v@);
        },
        None => {
            assert(ui_steps(*data) =~= Seq::<Json>::empty());
            assert(triples_view(out@) =~= ui_entries(*data));
        },
    }
    out
}

fn sat_inc_u64(c: u64) -> (r: u64)
    ensures
        r as int == sat_inc(c as int),
{
    if c < u64::MAX { c + 1 } else { c }
}

fn bump_exec(c: &mut TuiCounts, k: u8)
    ensures
        counts_view(*final(c)) == bump(counts_view(*old(c)), k as int),
{
    if k == 0 {
        c.running = sat_inc_u64(c.running);
    } else if k == 1 {
        c.iterating = sat_inc_u64(c.iterating);
    } else if k == 2 {
        c.completed = sat_inc_u64(c.completed);
    } else if k == 3 {
        c.skipped = sat_inc_u64(c.skipped);
    } else if k == 4 {
        c.pending = sat_inc_u64(c.pending);
    } else {
        c.failed = sat_inc_u64(c.failed);
    }
}

fn ui_row_of(v: Option<&str>) -> (r: (String, Option<String>, u8))
    ensures
        (r.0@, opt_text(r.1), r.2 as int) == ui_row(match v { Some(x) => Some(x@), None => None }),
{
    match v {
        Some(x) => if str_is(x, "Pending") {
            (to_string("○"), Some(to_string("pending")), 4)
        } else if str_is(x, "Skipped") {
            (to_string("—"), Some(to_string("skipped")), 3)
        } else if str_is(x, "Running") {
            (to_string("●"), None, 0)
        } else if str_is(x, "Iterating") {
            (to_string("◐"), None, 1)
        } else if str_is(x, "Completed") {
            (to_string("✓"), None, 2)
        } else if str_is(x, "Failed") {
            (to_string("✗"), None, 5)
        } else {
            (to_string("○"), Some(to_string("?")), 4)
        },
        None => (to_string("○"), Some(to_string("unknown")), 4),
    }
}

fn push_tui(v: &mut Vec<TuiLine>, l: TuiLine)
    ensures
        tui_lines_view(final(v)@) == tui_lines_view(old(v)@).push(match l {
            TuiLine::Text(t) => TuiLineV::Text(t@),
            TuiLine::Step { indent, icon, id, detail } => TuiLineV::Step(indent@, icon@, id@, opt_text(detail)),
        }),
{
    let ghost prev = v@;
    v.push(l);
    assert(tui_lines_view(v@) =~= tui_lines_view(prev).push(match l {
        TuiLine::Text(t) => TuiLineV::Text(t@),
        TuiLine::Step { indent, icon, id, detail } => TuiLineV::Step(indent@, icon@, id@, opt_text(detail)),
    }));
}

fn ui_layer_exec(layer: &Json, es: &Vec<(String, String, String)>, out: &mut Vec<TuiLine>, c: &mut TuiCounts)
    ensures
        tui_lines_view(final(out)@) == tui_lines_view(old(out)@) + ui_layer(*layer, triples_view(es@), counts_view(*old(c))).0,
        counts_view(*final(c)) == ui_layer(*layer, triples_view(es@), counts_view(*old(c))).1,
{
    let ghost tv = triples_view(es@);
    let ghost c0 = counts_view(*c);
    let ghost o0 = tui_lines_view(out@);
    let ids = layer_ids_of(layer);
    let ghost iv = strs_view(ids@);
    let idx = match field_u64(layer, "index") {
        Some(n) => n,
        None => 0,
    };
    let many = ids.len() > 1;
    let mut head = to_string("  Layer ");
    push_u128(&mut head, idx as u128 + 1);
    push_str(&mut head, ":");
    push_tui(out, TuiLine::Text(head));
    if many {
        push_tui(out, TuiLine::Text(to_string("  {")));
    }
    let ghost o1 = tui_lines_view(out@);
    let ghost indent_v = if many { "    "@ } else { "  "@ };
    let mut k: usize = 0;
    while k < ids.len()
        invariant
            k <= ids@.len(),
            iv == strs_view(ids@),
            tv == triples_view(es@),
            tv.len() == es@.len(),
            indent_v == (if many { "    "@ } else { "  "@ }),
            tui_lines_view(out@) == o1 + ui_rows(iv, tv, indent_v, c0, k as int).0,
            counts_view(*c) == ui_rows(iv, tv, indent_v, c0, k as int).1,
        decreases ids@.len() - k,
    {
        let id = ids[k].as_str();
        assert(iv[k as int] == id@);
        let p = lookup_detail(es, id);
        let (icon, detail, cat) = match &p {
            Some(q) => ui_row_of(Some(q.0.as_str())),
            None => ui_row_of(None),
        };
        let indent = if many { to_string("    ") } else { to_string("  ") };
        let ghost r = ui_row(variant_of(tv, iv[k as int]));
        assert(icon@ == r.0 && opt_text(detail) == r.1 && cat as int == r.2);
        let ghost before = tui_lines_view(out@);
        push_tui(out, TuiLine::Step { indent, icon, id: to_string(id), detail });
        assert(tui_lines_view(out@) =~= o1 + ui_rows(iv, tv, indent_v, c0, k + 1).0);
        bump_exec(c, cat);
        k = k + 1;
    }
    if many {
        push_tui(out, TuiLine::Text(to_string("  }")));
    }
    proof {
        let rows = ui_rows(iv, tv, indent_v, c0, iv.len() as int);
        assert(iv.len() == ids@.len());
        assert(layer_ids(*layer) == iv);
        assert(layer_index(*layer) == idx);
        assert(tui_lines_view(out@) =~= o0 + ui_layer(*layer, tv, c0).0);
    }
}

/// The body of the full-screen view: for each layer its heading and a row
/// per step (icon, id, detail), and the counts of steps by state.
pub fn tui_layout(data: &Json) -> (r: (Vec<TuiLine>, TuiCounts))
    ensures
        (tui_lines_view(r.0@), counts_view(r.1)) == ui_layers(data_layers(*data), ui_entries(*data), (0, 0, 0, 0, 0, 0)),
{
    let es = ui_entries_of(data);
    let ghost tv = triples_view(es@);
    let mut out: Vec<TuiLine> = Vec::new();
    let mut c = TuiCounts { running: 0, iterating: 0, completed: 0, skipped: 0, pending: 0, failed: 0 };
    assert(tui_lines_view(out@) =~= Seq::<TuiLineV>::empty());
    match get(data, "layers") {
        Some(Json::Array(v)) => {
            let mut i: usize = 0;
            while i < v.len()
                invariant
                    i <= v@.len(),
                    tv == triples_view(es@),
                    (tui_lines_view(out@), counts_view(c)) == ui_layers(v@.take(i as int), tv, (0, 0, 0, 0, 0, 0)),
                decreases v@.len() - i,
            {
                assert(v@.take(i + 1).drop_last() =~= v@.take(i as int));
                ui_layer_exec(&v[i], &es, &mut out, &mut c);
                i = i + 1;
            }
            assert(v@.take(v@.len() as int) =~= v@);
        },
        _ => {},
    }
    (out, c)
}

/// The footer line with the counts.
pub fn tui_counts_line(c: &TuiCounts) -> (r: String)
    ensures
        r@ == "● "@ + nat_text(c.running as nat) + " running  ◐ "@ + nat_text(c.iterating as nat) + " iterating  ✓ "@
            + nat_text(c.completed as nat) + " done  — "@ + nat_text(c.skipped as nat) + " skipped  ○ "@ + nat_text(
            c.pending as nat,
        ) + " pending  ✗ "@ + nat_text(c.failed as nat) + " failed"@,
{
    let mut r = to_string("● ");
    push_u128(&mut r, c.running as u128);
    push_str(&mut r, " running  ◐ ");
    push_u128(&mut r, c.iterating as u128);
    push_str(&mut r, " iterating  ✓ ");
    push_u128(&mut r, c.completed as u128);
    push_str(&mut r, " done  — ");
    push_u128(&mut r, c.skipped as u128);
    push_str(&mut r, " skipped  ○ ");
    push_u128(&mut r, c.pending as u128);
    push_str(&mut r, " pending  ✗ ");
    push_u128(&mut r, c.failed as u128);
    push_str(&mut r, " failed");
    r
}

} // verus!
