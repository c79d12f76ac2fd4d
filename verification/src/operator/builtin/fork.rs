//! `fork`: sends the same data to several built-in operators and joins
//! their results. The library plans the branches and joins the results;
//! running the branches is left to the caller.

use vstd::prelude::*;
use crate::json::{Json, JsonNumber, JsonV, jv, json_wf, json_clone, get, get_field, lemma_get_field_wf};
use crate::text::{to_string, push_str, push_u128, nat_text};
use crate::dsl::refs::{items_jv, entries_jv, lemma_jv_array, lemma_jv_object, str_is};
use crate::operator::types::{OperatorError, OperatorSpec};
use crate::operator::builtin::{Builtin, builtin_named, get_builtin, get_str, str_or};
use crate::operator::builtin::merge::{merge_fold, entries_wf, put_entry, lemma_put_lookup};
use crate::dsl::refs::jlookup;
use crate::operator::builtin::base64::{b64_encode, b64_encode_bytes};

verus! {

pub struct ForkOperator;

/// One branch to run.
pub struct ForkBranch {
    pub id: String,
    pub op: Builtin,
    pub inputs: Json,
}

/// A branch's name: its `id`, or `branch_<i>` for the `i`-th branch.
pub open spec fn branch_id(b: Json, i: int) -> Seq<char> {
    match get_str(b, "id"@) {
        Some(s) => s,
        None => "branch_"@ + nat_text(i as nat),
    }
}

pub open spec fn branch_inputs(b: Json) -> Json {
    match get_field(b, "inputs"@) {
        Some(v) => v,
        None => Json::Null,
    }
}

/// The first `n` branches, or the error of the first branch that is not
/// usable: one without a `type`, or whose type is not a built-in operator.
pub open spec fn plan_branches(bs: Seq<Json>, n: int) -> Result<Seq<(Seq<char>, Builtin, JsonV)>, Seq<char>>
    decreases n,
{
    if n <= 0 {
        Ok(Seq::empty())
    } else {
        match plan_branches(bs, n - 1) {
            Err(e) => Err(e),
            Ok(p) => match get_str(bs[n - 1], "type"@) {
                None => Err("branch 缺少 type"@),
                Some(t) => match builtin_named(t) {
                    None => Err("fork branch 未注册: "@ + t),
                    Some(op) => Ok(p.push((branch_id(bs[n - 1], n - 1), op, jv(branch_inputs(bs[n - 1]))))),
                },
            },
        }
    }
}

/// Once a branch fails, the plan fails with its error.
proof fn lemma_plan_err_stays(bs: Seq<Json>, m: int, n: int)
    requires
        0 <= m <= n,
        plan_branches(bs, m) is Err,
    ensures
        plan_branches(bs, n) == plan_branches(bs, m),
    decreases n - m,
{
    if n > m {
        lemma_plan_err_stays(bs, m, n - 1);
    }
}

/// The branches a configuration asks for.
pub open spec fn fork_plan(config: Json) -> Result<Seq<(Seq<char>, Builtin, JsonV)>, Seq<char>> {
    match get_field(config, "branches"@) {
        Some(Json::Array(bs)) => plan_branches(bs@, bs@.len() as int),
        _ => Err("fork 需要 branches 数组"@),
    }
}

pub open spec fn branches_view(v: Seq<ForkBranch>) -> Seq<(Seq<char>, Builtin, JsonV)> {
    v.map_values(|b: ForkBranch| (b.id@, b.op, jv(b.inputs)))
}

/// The joined results: an array of them with `join` = `array`; otherwise
/// one object with each branch's result under its name (a later branch of
/// the same name replacing an earlier one).
pub open spec fn fork_join(mode: Seq<char>, results: Seq<(Seq<char>, JsonV)>) -> JsonV {
    if mode == "array"@ {
        JsonV::Array(results.map_values(|r: (Seq<char>, JsonV)| r.1))
    } else {
        JsonV::Object(merge_fold(Seq::empty(), results, results.len() as int, false))
    }
}

proof fn lemma_fold_lookup(rs: Seq<(Seq<char>, JsonV)>, n: int)
    requires
        0 <= n <= rs.len(),
    ensures
        forall|i: int|
            0 <= i < n && (forall|j: int| i < j < n ==> rs[j].0 != rs[i].0) ==> jlookup(
                merge_fold(Seq::empty(), rs, n, false),
                #[trigger] rs[i].0,
            ) == Some(rs[i].1),
        forall|k: Seq<char>|
            (forall|i: int| 0 <= i < n ==> rs[i].0 != k) ==> #[trigger] jlookup(merge_fold(Seq::empty(), rs, n, false), k)
                is None,
    decreases n,
{
    if n > 0 {
        lemma_fold_lookup(rs, n - 1);
        let prev = merge_fold(Seq::empty(), rs, n - 1, false);
        let (k, v) = rs[n - 1];
        assert(merge_fold(Seq::empty(), rs, n, false) == crate::operator::builtin::merge::put(prev, k, v));
        assert forall|i: int|
            0 <= i < n && (forall|j: int| i < j < n ==> rs[j].0 != rs[i].0) implies jlookup(
                merge_fold(Seq::empty(), rs, n, false),
                #[trigger] rs[i].0,
            ) == Some(rs[i].1) by {
            lemma_put_lookup(prev, k, v, rs[i].0);
            if i < n - 1 {
                assert(rs[n - 1].0 != rs[i].0);
            }
        }
        assert forall|kk: Seq<char>|
            (forall|i: int| 0 <= i < n ==> rs[i].0 != kk) implies #[trigger] jlookup(merge_fold(Seq::empty(), rs, n, false), kk)
                is None by {
            lemma_put_lookup(prev, k, v, kk);
            assert(rs[n - 1].0 != kk);
        }
    }
}

/// How results are joined: with `join` = `array`, an array whose `i`-th
/// item is the `i`-th branch's result; with any other mode, an object in
/// which each branch's name reads that branch's result (the last branch
/// of a name wins) and no other name is present.
pub proof fn lemma_fork_join(mode: Seq<char>, rs: Seq<(Seq<char>, JsonV)>)
    ensures
        mode == "array"@ ==> (fork_join(mode, rs) matches JsonV::Array(xs) && xs.len() == rs.len() && forall|i: int|
            0 <= i < rs.len() ==> #[trigger] xs[i] == rs[i].1),
        mode != "array"@ ==> (fork_join(mode, rs) matches JsonV::Object(es) && (forall|i: int|
            0 <= i < rs.len() && (forall|j: int| i < j < rs.len() ==> rs[j].0 != rs[i].0) ==> jlookup(es, #[trigger] rs[i].0)
                == Some(rs[i].1)) && (forall|k: Seq<char>|
            (forall|i: int| 0 <= i < rs.len() ==> rs[i].0 != k) ==> #[trigger] jlookup(es, k) is None)),
{
    lemma_fold_lookup(rs, rs.len() as int);
}

/// What stands for a result that is not JSON: its size and its bytes in Base64.
pub open spec fn binary_result(bytes: Seq<u8>) -> JsonV {
    JsonV::Object(
        seq![
            ("_branch_base64"@, JsonV::Str(b64_encode(bytes))),
            ("_branch_binary"@, JsonV::Bool(true)),
            ("_branch_size"@, JsonV::Int(bytes.len() as int)),
        ],
    )
}

impl ForkOperator {
    pub fn spec(&self) -> (r: OperatorSpec)
        ensures
            r.op_type@ == "fork"@,
            r.description@ == "并行多路分发，聚合结果"@,
            !r.iterate,
            !r.cache,
    {
        OperatorSpec::new("fork", "并行多路分发，聚合结果").with_cache(false)
    }

    /// The branches to run (see `fork_plan`).
    pub fn plan(&self, config: &Json) -> (r: Result<Vec<ForkBranch>, OperatorError>)
        ensures
            match fork_plan(*config) {
                Ok(p) => r matches Ok(v) && branches_view(v@) == p,
                Err(m) => r matches Err(OperatorError::Config(e)) && e@ == m,
            },
    {
        let bs = match get(config, "branches") {
            Some(Json::Array(bs)) => bs,
            _ => {
                return Err(OperatorError::Config(to_string("fork 需要 branches 数组")));
            },
        };
        let mut out: Vec<ForkBranch> = Vec::new();
        let mut i: usize = 0;
        assert(branches_view(out@) =~= Seq::<(Seq<char>, Builtin, JsonV)>::empty());
        while i < bs.len()
            invariant
                i <= bs@.len(),
                get_field(*config, "branches"@) == Some(Json::Array(*bs)),
                plan_branches(bs@, i as int) == Ok::<Seq<(Seq<char>, Builtin, JsonV)>, Seq<char>>(branches_view(out@)),
            decreases bs@.len() - i,
        {
            let b = &bs[i];
            let id = match get(b, "id") {
                Some(Json::Str(s)) => to_string(s.as_str()),
                _ => {
                    let mut s = String::new();
                    push_str(&mut s, "branch_");
                    push_u128(&mut s, i as u128);
                    s
                },
            };
            let op_type = match get(b, "type") {
                Some(Json::Str(t)) => to_string(t.as_str()),
                _ => {
                    proof {
                        lemma_plan_err_stays(bs@, i + 1, bs@.len() as int);
                    }
                    return Err(OperatorError::Config(to_string("branch 缺少 type")));
                },
            };
            let inputs = match get(b, "inputs") {
                Some(v) => json_clone(v),
                None => Json::Null,
            };
            let op = match get_builtin(op_type.as_str()) {
                Some(op) => op,
                None => {
                    let mut m = String::new();
                    push_str(&mut m, "fork branch 未注册: ");
                    push_str(&mut m, op_type.as_str());
                    proof {
                        lemma_plan_err_stays(bs@, i + 1, bs@.len() as int);
                    }
                    return Err(OperatorError::Config(m));
                },
            };
            let ghost before = out@;
            out.push(ForkBranch { id, op, inputs });
            assert(branches_view(out@) =~= branches_view(before).push((branch_id(bs@[i as int], i as int), op, jv(branch_inputs(bs@[i as int])))));
            i = i + 1;
        }
        Ok(out)
    }

    /// What stands for a branch result that is not JSON (see `binary_result`).
    pub fn binary(&self, bytes: &Vec<u8>) -> (r: Json)
        requires
            bytes@.len() / 3 * 4 + 4 <= usize::MAX,
        ensures
            jv(r) == binary_result(bytes@),
    {
        let mut es: Vec<(String, Json)> = Vec::new();
        es.push((to_string("_branch_base64"), Json::Str(b64_encode_bytes(bytes.as_slice()))));
        es.push((to_string("_branch_binary"), Json::Bool(true)));
        es.push((to_string("_branch_size"), Json::Number(JsonNumber::Int(bytes.len() as i128))));
        let r = Json::Object(es);
        proof {
            lemma_jv_object(r);
            assert(entries_jv(es@) =~= match binary_result(bytes@) {
                JsonV::Object(e) => e,
                _ => Seq::empty(),
            });
        }
        r
    }

    /// Joins the branches' results, in branch order (see `fork_join`).
    pub fn join(&self, mode: &str, results: Vec<(String, Json)>) -> (r: Json)
        requires
            forall|i: int| 0 <= i < results@.len() ==> json_wf(#[trigger] results@[i].1),
        ensures
            jv(r) == fork_join(mode@, entries_jv(results@)),
    {
        let ghost rs = entries_jv(results@);
        if str_is(mode, "array") {
            let mut out: Vec<Json> = Vec::new();
            let mut i: usize = 0;
            while i < results.len()
                invariant
                    i <= results@.len(),
                    rs == entries_jv(results@),
                    items_jv(out@) == rs.subrange(0, i as int).map_values(|r: (Seq<char>, JsonV)| r.1),
                decreases results@.len() - i,
            {
                let ghost before = out@;
                out.push(json_clone(&results[i].1));
                assert(items_jv(out@) =~= items_jv(before).push(jv(results@[i as int].1)));
                assert(rs.subrange(0, i + 1).map_values(|r: (Seq<char>, JsonV)| r.1) =~= rs.subrange(0, i as int).map_values(
                    |r: (Seq<char>, JsonV)| r.1,
                ).push(rs[i as int].1));
                i = i + 1;
            }
            assert(rs.subrange(0, rs.len() as int) =~= rs);
            let r = Json::Array(out);
            proof {
                lemma_jv_array(r);
            }
            r
        } else {
            let mut acc: Vec<(String, Json)> = Vec::new();
            let mut i: usize = 0;
            while i < results.len()
                invariant
                    i <= results@.len(),
                    rs == entries_jv(results@),
                    forall|k: int| 0 <= k < results@.len() ==> json_wf(#[trigger] results@[k].1),
                    entries_wf(acc@),
                    entries_jv(acc@) == merge_fold(Seq::empty(), rs, i as int, false),
                decreases results@.len() - i,
            {
                let k = results[i].0.clone();
                let v = json_clone(&results[i].1);
                assert(rs[i as int] == (results@[i as int].0@, jv(results@[i as int].1)));
                put_entry(&mut acc, k, v);
                i = i + 1;
            }
            let r = Json::Object(acc);
            proof {
                lemma_jv_object(r);
            }
            r
        }
    }
}

} // verus!
