//! Reading a pipeline document (YAML, loaded as JSON values) into a
//! `PipelineDef`. The document is read in two passes: first every field is
//! read as written; then each `iterate.over` is read as a variable path.

use vstd::prelude::*;
use crate::json::{Json, JsonV, jv, json_clone, get, get_field};
use crate::text::{to_string, push_str, push_char};
use crate::dsl::refs::str_is;
use crate::dsl::variable::{RefValue, VariablePath, parse_path};
use crate::dsl::step::{StepDef, StepId, StepOp, IterateConfig, BatchConfig, RetryDef, BackoffStrategy, ids_view};
use crate::dsl::storage::{Ttl, TtlError, StorageDef, ttl_spec};
use crate::dsl::pipeline::{PipelineDef, SlotDef};
use crate::dsl::raw::{ParseError, RawIterateConfig, present, str_field, req_str_field, bool_field, uint_field, missing, wrong_type, opt_string, req_string, opt_bool, opt_u32, opt_u64, missing_msg, wrong_type_msg};
use crate::dsl::inputs::{first_err, err_of, known_op, inputs_err, inputs_rel, timeout_field, onum_rel, read_inputs};


verus! {

/// `after`: an array of step ids.
pub open spec fn after_field(j: Json) -> Result<Option<Seq<Seq<char>>>, Seq<char>> {
    match present(j, "after"@) {
        None => Ok(None),
        Some(Json::Array(v)) => if forall|i: int| 0 <= i < v@.len() ==> (#[trigger] v@[i]) is Str {
            Ok(Some(Seq::new(v@.len(), |i: int| v@[i]->Str_0@)))
        } else {
            Err(wrong_type("after"@, "an array of strings"@))
        },
        Some(_) => Err(wrong_type("after"@, "an array of strings"@)),
    }
}

/// `batch`: a mapping with exactly the key `size`.
pub open spec fn batch_field(j: Json) -> Result<Option<int>, Seq<char>> {
    match present(j, "batch"@) {
        None => Ok(None),
        Some(Json::Object(es)) => if exists|i: int| 0 <= i < es@.len() && (#[trigger] es@[i]).0@ != "size"@ {
            Err("unknown field in `batch`, expected `size`"@)
        } else {
            match uint_field(present(j, "batch"@)->Some_0, "size"@, 0x1_0000_0000) {
                Ok(Some(n)) => Ok(Some(n)),
                Ok(None) => Err(missing("size"@)),
                Err(e) => Err(e),
            }
        },
        Some(_) => Err(wrong_type("batch"@, "a mapping"@)),
    }
}

/// The error in an `iterate` mapping, if any.
pub open spec fn iterate_err(it: Json) -> Option<Seq<char>> {
    first_err(
        err_of(req_str_field(it, "over"@)),
        first_err(
            err_of(req_str_field(it, "as"@)),
            first_err(err_of(uint_field(it, "max_workers"@, 0x1_0000_0000)), err_of(batch_field(it))),
        ),
    )
}

pub open spec fn backoff_of(s: Seq<char>) -> Option<BackoffStrategy> {
    if s == "fixed"@ {
        Some(BackoffStrategy::Fixed)
    } else if s == "exponential"@ {
        Some(BackoffStrategy::Exponential)
    } else {
        None
    }
}

/// The error in a `retry` mapping, if any.
pub open spec fn retry_err(rt: Json) -> Option<Seq<char>> {
    first_err(
        err_of(uint_field(rt, "max_attempts"@, 0x1_0000_0000)),
        first_err(
            match str_field(rt, "backoff"@) {
                Err(e) => Some(e),
                Ok(Some(b)) => if backoff_of(b) is None {
                    Some("unknown variant `"@ + b + "`, expected `fixed` or `exponential`"@)
                } else {
                    None
                },
                Ok(None) => None,
            },
            err_of(uint_field(rt, "delay_ms"@, 0x1_0000_0000_0000_0000)),
        ),
    )
}

/// The retry settings a `retry` mapping gives.
pub open spec fn retry_of(rt: Json) -> RetryDef {
    RetryDef {
        max_attempts: match uint_field(rt, "max_attempts"@, 0x1_0000_0000) {
            Ok(Some(n)) => n as u32,
            _ => 1,
        },
        backoff: match str_field(rt, "backoff"@) {
            Ok(Some(b)) => match backoff_of(b) {
                Some(x) => x,
                None => BackoffStrategy::Fixed,
            },
            _ => BackoffStrategy::Fixed,
        },
        delay_ms: match uint_field(rt, "delay_ms"@, 0x1_0000_0000_0000_0000) {
            Ok(Some(n)) => n as u64,
            _ => 1000,
        },
    }
}

/// The error for an unknown operator name.
pub open spec fn unknown_op(t: Seq<char>) -> Seq<char> {
    "unknown variant `"@ + t
        + "`, expected one of `http`, `js`, `filter`, `sort`, `dedup`, `merge`, `base64`, `noop`, `var`, `file`, `command`, `llm`"@
}

/// The first error in a step, if any.
pub open spec fn step_err(j: Json) -> Option<Seq<char>> {
    if !(j is Object) {
        Some(wrong_type("steps"@, "an array of mappings"@))
    } else {
        first_err(
            err_of(req_str_field(j, "id"@)),
            first_err(
                err_of(after_field(j)),
                first_err(
                    match present(j, "iterate"@) {
                        None => None,
                        Some(it) => if it is Object {
                            iterate_err(it)
                        } else {
                            Some(wrong_type("iterate"@, "a mapping"@))
                        },
                    },
                    first_err(
                        err_of(bool_field(j, "cache"@)),
                        first_err(
                            match present(j, "retry"@) {
                                None => None,
                                Some(rt) => if rt is Object {
                                    retry_err(rt)
                                } else {
                                    Some(wrong_type("retry"@, "a mapping"@))
                                },
                            },
                            first_err(
                                err_of(timeout_field(j)),
                                match req_str_field(j, "type"@) {
                                    Err(e) => Some(e),
                                    Ok(t) => if !known_op(t) {
                                        Some(unknown_op(t))
                                    } else if t == "noop"@ {
                                        None
                                    } else {
                                        match present(j, "inputs"@) {
                                            None => Some(missing("inputs"@)),
                                            Some(inp) => if inp is Object {
                                                inputs_err(t, inp)
                                            } else {
                                                Some(wrong_type("inputs"@, "a mapping"@))
                                            },
                                        }
                                    },
                                },
                            ),
                        ),
                    ),
                ),
            ),
        )
    }
}

/// The iteration settings a step mapping without errors gives, as written.
pub open spec fn raw_iter_rel(j: Json, it: Option<RawIterateConfig>) -> bool {
    match present(j, "iterate"@) {
        None => it is None,
        Some(x) => it matches Some(c) && Ok::<Seq<char>, Seq<char>>(c.over@) == req_str_field(x, "over"@) && Ok::<
            Seq<char>,
            Seq<char>,
        >(c.as_name@) == req_str_field(x, "as"@) && match uint_field(x, "max_workers"@, 0x1_0000_0000) {
            Ok(Some(n)) => c.max_workers == Some(n as u32),
            _ => c.max_workers is None,
        } && match batch_field(x) {
            Ok(Some(n)) => c.batch == Some(BatchConfig { size: n as u32 }),
            _ => c.batch is None,
        },
    }
}

/// The iteration settings of a step whose `iterate.over` is a path.
pub open spec fn iter_rel(j: Json, c: Option<IterateConfig>) -> bool {
    match present(j, "iterate"@) {
        None => c is None,
        Some(x) => c matches Some(ic) && Some(ic.over.pv()) == parse_path(req_str_field(x, "over"@)->Ok_0) && Ok::<
            Seq<char>,
            Seq<char>,
        >(ic.as_name@) == req_str_field(x, "as"@) && match uint_field(x, "max_workers"@, 0x1_0000_0000) {
            Ok(Some(n)) => ic.max_workers == Some(n as u32),
            _ => ic.max_workers is None,
        } && match batch_field(x) {
            Ok(Some(n)) => ic.batch == Some(BatchConfig { size: n as u32 }),
            _ => ic.batch is None,
        },
    }
}

/// Everything but the iteration of the step a step mapping without errors gives.
pub open spec fn step_core_rel(j: Json, s: StepDef) -> bool {
    &&& Ok::<Seq<char>, Seq<char>>(s.id.0@) == req_str_field(j, "id"@)
    &&& match after_field(j) {
        Ok(Some(a)) => s.after matches Some(v) && ids_view(v@) == a,
        _ => s.after is None,
    }
    &&& match bool_field(j, "cache"@) {
        Ok(b) => s.cache == b,
        _ => false,
    }
    &&& match present(j, "retry"@) {
        None => s.retry is None,
        Some(rt) => s.retry == Some(retry_of(rt)),
    }
    &&& onum_rel(timeout_field(j), s.timeout_sec)
    &&& match req_str_field(j, "type"@) {
        Ok(t) => if t == "noop"@ {
            s.op is Noop
        } else {
            inputs_rel(t, present(j, "inputs"@)->Some_0, s.op)
        },
        _ => false,
    }
}

/// The step a step mapping without errors gives, with its iteration still
/// as written.
pub open spec fn step_rel(j: Json, s: StepDef, it: Option<RawIterateConfig>) -> bool {
    step_core_rel(j, s) && s.iterate is None && raw_iter_rel(j, it)
}

fn after_of(j: &Json) -> (r: Result<Option<Vec<StepId>>, String>)
    ensures
        match after_field(*j) {
            Err(e) => r matches Err(m) && m@ == e,
            Ok(None) => r matches Ok(None),
            Ok(Some(a)) => r matches Ok(Some(v)) && ids_view(v@) == a,
        },
{
    match get(j, "after") {
        None => Ok(None),
        Some(Json::Null) => Ok(None),
        Some(Json::Array(items)) => {
            assert(present(*j, "after"@) == Some(Json::Array(*items)));
            let mut v: Vec<StepId> = Vec::new();
            let mut i: usize = 0;
            while i < items.len()
                invariant
                    i <= items@.len(),
                    v@.len() == i,
                    present(*j, "after"@) == Some(Json::Array(*items)),
                    forall|k: int| 0 <= k < i ==> (#[trigger] items@[k]) is Str && v@[k].0@ == items@[k]->Str_0@,
                decreases items@.len() - i,
            {
                match &items[i] {
                    Json::Str(s) => v.push(StepId::new(s.as_str())),
                    _ => {
                        assert(!(items@[i as int] is Str));
                        assert(!(forall|k: int| 0 <= k < items@.len() ==> (#[trigger] items@[k]) is Str));
                        return Err(wrong_type_msg("after", "an array of strings"));
                    },
                }
                i = i + 1;
            }
            assert(ids_view(v@) =~= Seq::new(items@.len(), |i: int| items@[i]->Str_0@));
            Ok(Some(v))
        },
        Some(_) => Err(wrong_type_msg("after", "an array of strings")),
    }
}

#[verifier::loop_isolation(false)]
fn batch_of(j: &Json) -> (r: Result<Option<BatchConfig>, String>)
    ensures
        match batch_field(*j) {
            Err(e) => r matches Err(m) && m@ == e,
            Ok(None) => r matches Ok(None),
            Ok(Some(n)) => r matches Ok(Some(b)) && b.size as int == n,
        },
{
    match get(j, "batch") {
        None => Ok(None),
        Some(Json::Null) => Ok(None),
        Some(b) => {
            match b {
                Json::Object(es) => {
                    let mut i: usize = 0;
                    while i < es.len()
                        invariant
                            i <= es@.len(),
                            forall|k: int| 0 <= k < i ==> (#[trigger] es@[k]).0@ == "size"@,
                        decreases es@.len() - i,
                    {
                        if !str_is(es[i].0.as_str(), "size") {
                            assert(es@[i as int].0@ != "size"@);
                            return Err(to_string("unknown field in `batch`, expected `size`"));
                        }
                        i = i + 1;
                    }
                    match opt_u32(b, "size") {
                        Ok(Some(n)) => Ok(Some(BatchConfig { size: n })),
                        Ok(None) => Err(missing_msg("size")),
                        Err(e) => Err(e),
                    }
                },
                _ => Err(wrong_type_msg("batch", "a mapping")),
            }
        },
    }
}

fn iterate_of(it: &Json) -> (r: Result<RawIterateConfig, String>)
    requires
        it is Object,
    ensures
        match iterate_err(*it) {
            Some(e) => r matches Err(m) && m@ == e,
            None => r matches Ok(c) && Ok::<Seq<char>, Seq<char>>(c.over@) == req_str_field(*it, "over"@) && Ok::<
                Seq<char>,
                Seq<char>,
            >(c.as_name@) == req_str_field(*it, "as"@) && match uint_field(*it, "max_workers"@, 0x1_0000_0000) {
                Ok(Some(n)) => c.max_workers == Some(n as u32),
                _ => c.max_workers is None,
            } && match batch_field(*it) {
                Ok(Some(n)) => c.batch == Some(BatchConfig { size: n as u32 }),
                _ => c.batch is None,
            },
        },
{
    let over = match req_string(it, "over") {
        Ok(v) => v,
        Err(e) => {
            return Err(e);
        },
    };
    let as_name = match req_string(it, "as") {
        Ok(v) => v,
        Err(e) => {
            return Err(e);
        },
    };
    let max_workers = match opt_u32(it, "max_workers") {
        Ok(v) => v,
        Err(e) => {
            return Err(e);
        },
    };
    let batch = match batch_of(it) {
        Ok(v) => v,
        Err(e) => {
            return Err(e);
        },
    };
    Ok(RawIterateConfig { over, as_name, max_workers, batch })
}

fn retry_from(rt: &Json) -> (r: Result<RetryDef, String>)
    requires
        rt is Object,
    ensures
        match retry_err(*rt) {
            Some(e) => r matches Err(m) && m@ == e,
            None => r == Ok::<RetryDef, String>(retry_of(*rt)),
        },
{
    let max_attempts = match opt_u32(rt, "max_attempts") {
        Ok(Some(n)) => n,
        Ok(None) => 1,
        Err(e) => {
            return Err(e);
        },
    };
    let backoff = match opt_string(rt, "backoff") {
        Ok(Some(b)) => {
            if str_is(b.as_str(), "fixed") {
                BackoffStrategy::Fixed
            } else if str_is(b.as_str(), "exponential") {
                BackoffStrategy::Exponential
            } else {
                let mut m = String::new();
                push_str(&mut m, "unknown variant `");
                push_str(&mut m, b.as_str());
                push_str(&mut m, "`, expected `fixed` or `exponential`");
                return Err(m);
            }
        },
        Ok(None) => BackoffStrategy::Fixed,
        Err(e) => {
            return Err(e);
        },
    };
    let delay_ms = match opt_u64(rt, "delay_ms") {
        Ok(Some(n)) => n,
        Ok(None) => 1000,
        Err(e) => {
            return Err(e);
        },
    };
    Ok(RetryDef { max_attempts, backoff, delay_ms })
}

fn timeout_of_step(j: &Json) -> (r: Result<Option<crate::float::FloatValue>, String>)
    ensures
        match timeout_field(*j) {
            Err(e) => r matches Err(m) && m@ == e,
            Ok(_) => r matches Ok(x) && onum_rel(timeout_field(*j), x),
        },
{
    let key = match get(j, "timeout_sec") {
        Some(Json::Null) | None => "timeout",
        Some(_) => "timeout_sec",
    };
    proof {
        reveal_strlit("timeout");
        reveal_strlit("timeout_sec");
    }
    match crate::dsl::raw::opt_number(j, key) {
        Ok(Some(n)) => Ok(Some(crate::float::FloatValue::Finite(n))),
        Ok(None) => Ok(None),
        Err(e) => Err(e),
    }
}

fn unknown_op_msg(t: &str) -> (r: String)
    ensures
        r@ == unknown_op(t@),
{
    let mut m = String::new();
    push_str(&mut m, "unknown variant `");
    push_str(&mut m, t);
    push_str(
        &mut m,
        "`, expected one of `http`, `js`, `filter`, `sort`, `dedup`, `merge`, `base64`, `noop`, `var`, `file`, `command`, `llm`",
    );
    m
}

fn is_known_op(t: &str) -> (r: bool)
    ensures
        r == known_op(t@),
{
    str_is(t, "http") || str_is(t, "js") || str_is(t, "filter") || str_is(t, "sort") || str_is(t, "dedup") || str_is(
        t,
        "merge",
    ) || str_is(t, "base64") || str_is(t, "noop") || str_is(t, "var") || str_is(t, "file") || str_is(t, "command")
        || str_is(t, "llm")
}

/// Reads one step (see `step_err` and `step_rel`).
pub fn read_step(j: &Json) -> (r: Result<(StepDef, Option<RawIterateConfig>), String>)
    ensures
        match step_err(*j) {
            Some(e) => r matches Err(m) && m@ == e,
            None => r matches Ok((s, it)) && step_rel(*j, s, it),
        },
{
    if !matches!(j, Json::Object(_)) {
        return Err(wrong_type_msg("steps", "an array of mappings"));
    }
    let id = match req_string(j, "id") {
        Ok(v) => v,
        Err(e) => {
            return Err(e);
        },
    };
    let after = match after_of(j) {
        Ok(v) => v,
        Err(e) => {
            return Err(e);
        },
    };
    let it: Option<RawIterateConfig> = match get(j, "iterate") {
        None => None,
        Some(Json::Null) => None,
        Some(x) => {
            if matches!(x, Json::Object(_)) {
                match iterate_of(x) {
                    Ok(c) => Some(c),
                    Err(e) => {
                        return Err(e);
                    },
                }
            } else {
                return Err(wrong_type_msg("iterate", "a mapping"));
            }
        },
    };
    let cache = match opt_bool(j, "cache") {
        Ok(v) => v,
        Err(e) => {
            return Err(e);
        },
    };
    let retry: Option<RetryDef> = match get(j, "retry") {
        None => None,
        Some(Json::Null) => None,
        Some(x) => {
            if matches!(x, Json::Object(_)) {
                match retry_from(x) {
                    Ok(c) => Some(c),
                    Err(e) => {
                        return Err(e);
                    },
                }
            } else {
                return Err(wrong_type_msg("retry", "a mapping"));
            }
        },
    };
    let timeout_sec = match timeout_of_step(j) {
        Ok(v) => v,
        Err(e) => {
            return Err(e);
        },
    };
    let t = match req_string(j, "type") {
        Ok(v) => v,
        Err(e) => {
            return Err(e);
        },
    };
    if !is_known_op(t.as_str()) {
        return Err(unknown_op_msg(t.as_str()));
    }
    let op = if str_is(t.as_str(), "noop") {
        StepOp::Noop
    } else {
        match get(j, "inputs") {
            None => {
                return Err(missing_msg("inputs"));
            },
            Some(Json::Null) => {
                return Err(missing_msg("inputs"));
            },
            Some(inp) => {
                if matches!(inp, Json::Object(_)) {
                    match read_inputs(t.as_str(), inp) {
                        Ok(op) => op,
                        Err(e) => {
                            return Err(e);
                        },
                    }
                } else {
                    return Err(wrong_type_msg("inputs", "a mapping"));
                }
            },
        }
    };
    Ok((StepDef { id: StepId(id), after, iterate: None, cache, retry, timeout_sec, op }, it))
}

/// Why a document is refused, as values.
pub enum DocErr {
    Yaml(Seq<char>),
    Over(Seq<char>),
}

pub open spec fn doc_err_of(e: ParseError) -> DocErr {
    match e {
        ParseError::Yaml(m) => DocErr::Yaml(m@),
        ParseError::InvalidIterateOver(o) => DocErr::Over(o@),
    }
}

/// The message for a TTL that cannot be read.
pub open spec fn ttl_msg(s: Seq<char>, e: TtlError) -> Seq<char> {
    match e {
        TtlError::TooShort => "无效: "@ + s,
        TtlError::InvalidNumber => "无效数字: "@ + s,
        TtlError::Negative => "TTL 不能为负: "@ + s,
        TtlError::InvalidUnit => "无效单位: "@ + seq![s.last()],
        TtlError::Overflow => "TTL 溢出: "@ + s,
    }
}

/// A TTL field: its number of seconds.
pub open spec fn ttl_field(st: Json, k: Seq<char>) -> Result<Option<int>, Seq<char>> {
    match str_field(st, k) {
        Err(e) => Err(e),
        Ok(None) => Ok(None),
        Ok(Some(t)) => match ttl_spec(t) {
            Ok(v) => Ok(Some(v)),
            Err(te) => Err(ttl_msg(t, te)),
        },
    }
}

pub open spec fn storage_err(doc: Json) -> Option<Seq<char>> {
    match present(doc, "storage"@) {
        None => None,
        Some(st) => if st is Object {
            first_err(err_of(ttl_field(st, "snapshot_ttl"@)), err_of(ttl_field(st, "result_ttl"@)))
        } else {
            Some(wrong_type("storage"@, "a mapping"@))
        },
    }
}

pub open spec fn ttl_rel(st: Json, k: Seq<char>, t: Option<Ttl>) -> bool {
    match ttl_field(st, k) {
        Ok(Some(v)) => t == Some(Ttl { seconds: v as i64 }),
        _ => t is None,
    }
}

pub open spec fn storage_rel(doc: Json, s: Option<StorageDef>) -> bool {
    match present(doc, "storage"@) {
        None => s is None,
        Some(st) => s matches Some(x) && ttl_rel(st, "snapshot_ttl"@, x.snapshot_ttl) && ttl_rel(
            st,
            "result_ttl"@,
            x.result_ttl,
        ),
    }
}

/// The error in a slot, if any: only `name` and `schema` may be given,
/// and both must be.
pub open spec fn slot_err(sl: Json) -> Option<Seq<char>> {
    match sl {
        Json::Object(es) => if exists|i: int|
            0 <= i < es@.len() && (#[trigger] es@[i]).0@ != "name"@ && es@[i].0@ != "schema"@ {
            Some("unknown field in a slot, expected `name` or `schema`"@)
        } else {
            first_err(
                err_of(req_str_field(sl, "name"@)),
                if get_field(sl, "schema"@) is None { Some(missing("schema"@)) } else { None },
            )
        },
        _ => Some(wrong_type("slots"@, "an array of mappings"@)),
    }
}

pub open spec fn items_of(doc: Json, k: Seq<char>) -> Seq<Json> {
    match present(doc, k) {
        Some(Json::Array(v)) => v@,
        _ => Seq::empty(),
    }
}

pub open spec fn slots_err_upto(v: Seq<Json>, n: int) -> Option<Seq<char>>
    decreases n,
{
    if n <= 0 {
        None
    } else {
        first_err(slots_err_upto(v, n - 1), slot_err(v[n - 1]))
    }
}

pub open spec fn steps_err_upto(v: Seq<Json>, n: int) -> Option<Seq<char>>
    decreases n,
{
    if n <= 0 {
        None
    } else {
        first_err(steps_err_upto(v, n - 1), step_err(v[n - 1]))
    }
}

/// The `iterate.over` of the first step whose one is not a variable path.
pub open spec fn over_err_upto(v: Seq<Json>, n: int) -> Option<Seq<char>>
    decreases n,
{
    if n <= 0 {
        None
    } else {
        match over_err_upto(v, n - 1) {
            Some(o) => Some(o),
            None => match present(v[n - 1], "iterate"@) {
                Some(x) => match req_str_field(x, "over"@) {
                    Ok(o) => if parse_path(o) is None { Some(o) } else { None },
                    _ => None,
                },
                None => None,
            },
        }
    }
}

pub open spec fn list_err(doc: Json, k: Seq<char>) -> Option<Seq<char>> {
    match present(doc, k) {
        None => None,
        Some(Json::Array(v)) => if k == "slots"@ {
            slots_err_upto(v@, v@.len() as int)
        } else {
            steps_err_upto(v@, v@.len() as int)
        },
        Some(_) => Some(wrong_type(k, "an array of mappings"@)),
    }
}

/// Why a document is refused, if it is: the first malformed field, then
/// the first `iterate.over` that is not a variable path.
pub open spec fn pipeline_err(doc: Json) -> Option<DocErr> {
    if !(doc is Object) {
        Some(DocErr::Yaml("invalid type: expected a mapping"@))
    } else {
        let e = first_err(
            err_of(req_str_field(doc, "name"@)),
            first_err(
                err_of(str_field(doc, "description"@)),
                first_err(
                    storage_err(doc),
                    first_err(
                        list_err(doc, "slots"@),
                        first_err(list_err(doc, "steps"@), err_of(req_str_field(doc, "output"@))),
                    ),
                ),
            ),
        );
        match e {
            Some(m) => Some(DocErr::Yaml(m)),
            None => {
                let v = items_of(doc, "steps"@);
                match over_err_upto(v, v.len() as int) {
                    Some(o) => Some(DocErr::Over(o)),
                    None => None,
                }
            },
        }
    }
}

/// The value the pipeline outputs: the reference `output` is, or the text.
pub open spec fn output_rel(o: Seq<char>, r: RefValue) -> bool {
    match parse_path(o) {
        Some(p) => r matches RefValue::Ref(vp) && vp.pv() == p,
        None => r matches RefValue::Literal(x) && jv(x) == JsonV::Str(o),
    }
}

/// The pipeline a document without errors gives.
pub open spec fn pipeline_rel(doc: Json, def: PipelineDef) -> bool {
    let slots = items_of(doc, "slots"@);
    let steps = items_of(doc, "steps"@);
    &&& Ok::<Seq<char>, Seq<char>>(def.name@) == req_str_field(doc, "name"@)
    &&& match str_field(doc, "description"@) {
        Ok(Some(d)) => def.description matches Some(x) && x@ == d,
        _ => def.description is None,
    }
    &&& storage_rel(doc, def.storage)
    &&& def.slots@.len() == slots.len()
    &&& forall|i: int|
        0 <= i < slots.len() ==> Ok::<Seq<char>, Seq<char>>((#[trigger] def.slots@[i]).name@) == req_str_field(
            slots[i],
            "name"@,
        ) && jv(def.slots@[i].schema) == jv(get_field(slots[i], "schema"@)->Some_0)
    &&& def.steps@.len() == steps.len()
    &&& forall|i: int|
        0 <= i < steps.len() ==> step_core_rel(steps[i], #[trigger] def.steps@[i]) && iter_rel(
            steps[i],
            def.steps@[i].iterate,
        )
    &&& output_rel(req_str_field(doc, "output"@)->Ok_0, def.output)
}

fn ttl_msg_exec(t: &str, e: TtlError) -> (r: String)
    requires
        t@.len() > 0,
    ensures
        r@ == ttl_msg(t@, e),
{
    let mut m = String::new();
    match e {
        TtlError::TooShort => {
            push_str(&mut m, "无效: ");
            push_str(&mut m, t);
        },
        TtlError::InvalidNumber => {
            push_str(&mut m, "无效数字: ");
            push_str(&mut m, t);
        },
        TtlError::Negative => {
            push_str(&mut m, "TTL 不能为负: ");
            push_str(&mut m, t);
        },
        TtlError::InvalidUnit => {
            push_str(&mut m, "无效单位: ");
            let cs = crate::text::chars_of(t);
            push_char(&mut m, cs[cs.len() - 1]);
        },
        TtlError::Overflow => {
            push_str(&mut m, "TTL 溢出: ");
            push_str(&mut m, t);
        },
    }
    m
}

fn read_ttl(st: &Json, k: &str) -> (r: Result<Option<Ttl>, String>)
    ensures
        match ttl_field(*st, k@) {
            Err(e) => r matches Err(m) && m@ == e,
            Ok(_) => r matches Ok(t) && ttl_rel(*st, k@, t),
        },
{
    match opt_string(st, k) {
        Err(e) => Err(e),
        Ok(None) => Ok(None),
        Ok(Some(t)) => match Ttl::parse(t.as_str()) {
            Ok(v) => Ok(Some(v)),
            Err(te) => {
                proof {
                    assert(t@.len() >= 2 || te == TtlError::TooShort);
                }
                if t.as_str().is_empty() {
                    let mut m = String::new();
                    push_str(&mut m, "无效: ");
                    Err(m)
                } else {
                    Err(ttl_msg_exec(t.as_str(), te))
                }
            },
        },
    }
}

fn read_storage(doc: &Json) -> (r: Result<Option<StorageDef>, String>)
    ensures
        match storage_err(*doc) {
            Some(e) => r matches Err(m) && m@ == e,
            None => r matches Ok(s) && storage_rel(*doc, s),
        },
{
    match get(doc, "storage") {
        None => Ok(None),
        Some(Json::Null) => Ok(None),
        Some(st) => {
            if !matches!(st, Json::Object(_)) {
                return Err(wrong_type_msg("storage", "a mapping"));
            }
            let snapshot_ttl = match read_ttl(st, "snapshot_ttl") {
                Ok(v) => v,
                Err(e) => {
                    return Err(e);
                },
            };
            let result_ttl = match read_ttl(st, "result_ttl") {
                Ok(v) => v,
                Err(e) => {
                    return Err(e);
                },
            };
            Ok(Some(StorageDef { snapshot_ttl, result_ttl }))
        },
    }
}

#[verifier::loop_isolation(false)]
fn read_slot(sl: &Json) -> (r: Result<SlotDef, String>)
    ensures
        match slot_err(*sl) {
            Some(e) => r matches Err(m) && m@ == e,
            None => r matches Ok(x) && Ok::<Seq<char>, Seq<char>>(x.name@) == req_str_field(*sl, "name"@) && jv(
                x.schema,
            ) == jv(get_field(*sl, "schema"@)->Some_0),
        },
{
    match sl {
        Json::Object(es) => {
            let mut i: usize = 0;
            while i < es.len()
                invariant
                    i <= es@.len(),
                    *sl == Json::Object(*es),
                    forall|k: int| 0 <= k < i ==> (#[trigger] es@[k]).0@ == "name"@ || es@[k].0@ == "schema"@,
                decreases es@.len() - i,
            {
                if !str_is(es[i].0.as_str(), "name") && !str_is(es[i].0.as_str(), "schema") {
                    assert(es@[i as int].0@ != "name"@ && es@[i as int].0@ != "schema"@);
                    return Err(to_string("unknown field in a slot, expected `name` or `schema`"));
                }
                i = i + 1;
            }
            let name = match req_string(sl, "name") {
                Ok(v) => v,
                Err(e) => {
                    return Err(e);
                },
            };
            match get(sl, "schema") {
                Some(v) => Ok(SlotDef { name, schema: json_clone(v) }),
                None => Err(missing_msg("schema")),
            }
        },
        _ => Err(wrong_type_msg("slots", "an array of mappings")),
    }
}

proof fn lemma_err_upto_stays_slots(v: Seq<Json>, m: int, n: int)
    requires
        0 <= m <= n,
        slots_err_upto(v, m) is Some,
    ensures
        slots_err_upto(v, n) == slots_err_upto(v, m),
    decreases n - m,
{
    if n > m {
        lemma_err_upto_stays_slots(v, m, n - 1);
    }
}

proof fn lemma_err_upto_stays_steps(v: Seq<Json>, m: int, n: int)
    requires
        0 <= m <= n,
        steps_err_upto(v, m) is Some,
    ensures
        steps_err_upto(v, n) == steps_err_upto(v, m),
    decreases n - m,
{
    if n > m {
        lemma_err_upto_stays_steps(v, m, n - 1);
    }
}

proof fn lemma_over_err_stays(v: Seq<Json>, m: int, n: int)
    requires
        0 <= m <= n,
        over_err_upto(v, m) is Some,
    ensures
        over_err_upto(v, n) == over_err_upto(v, m),
    decreases n - m,
{
    if n > m {
        lemma_over_err_stays(v, m, n - 1);
    }
}

fn read_slots(doc: &Json) -> (r: Result<Vec<SlotDef>, String>)
    ensures
        match list_err(*doc, "slots"@) {
            Some(e) => r matches Err(m) && m@ == e,
            None => r matches Ok(v) && v@.len() == items_of(*doc, "slots"@).len() && forall|i: int|
                0 <= i < v@.len() ==> Ok::<Seq<char>, Seq<char>>((#[trigger] v@[i]).name@) == req_str_field(
                    items_of(*doc, "slots"@)[i],
                    "name"@,
                ) && jv(v@[i].schema) == jv(get_field(items_of(*doc, "slots"@)[i], "schema"@)->Some_0),
        },
{
    proof {
        reveal_strlit("slots");
        reveal_strlit("steps");
    }
    match get(doc, "slots") {
        None => Ok(Vec::new()),
        Some(Json::Null) => Ok(Vec::new()),
        Some(Json::Array(items)) => {
            let mut out: Vec<SlotDef> = Vec::new();
            let mut i: usize = 0;
            while i < items.len()
                invariant
                    i <= items@.len(),
                    items_of(*doc, "slots"@) == items@,
                    slots_err_upto(items@, i as int) is None,
                    out@.len() == i,
                    forall|k: int|
                        0 <= k < i ==> Ok::<Seq<char>, Seq<char>>((#[trigger] out@[k]).name@) == req_str_field(
                            items@[k],
                            "name"@,
                        ) && jv(out@[k].schema) == jv(get_field(items@[k], "schema"@)->Some_0),
                decreases items@.len() - i,
            {
                match read_slot(&items[i]) {
                    Ok(x) => out.push(x),
                    Err(e) => {
                        proof {
                            lemma_err_upto_stays_slots(items@, i + 1, items@.len() as int);
                        }
                        return Err(e);
                    },
                }
                i = i + 1;
            }
            Ok(out)
        },
        Some(_) => Err(wrong_type_msg("slots", "an array of mappings")),
    }
}

fn read_steps(doc: &Json) -> (r: Result<Vec<(StepDef, Option<RawIterateConfig>)>, String>)
    ensures
        match list_err(*doc, "steps"@) {
            Some(e) => r matches Err(m) && m@ == e,
            None => r matches Ok(v) && v@.len() == items_of(*doc, "steps"@).len() && forall|i: int|
                0 <= i < v@.len() ==> step_rel(items_of(*doc, "steps"@)[i], (#[trigger] v@[i]).0, v@[i].1),
        },
{
    proof {
        reveal_strlit("slots");
        reveal_strlit("steps");
    }
    assert("steps"@[1] != "slots"@[1]);
    match get(doc, "steps") {
        None => Ok(Vec::new()),
        Some(Json::Null) => Ok(Vec::new()),
        Some(Json::Array(items)) => {
            let mut out: Vec<(StepDef, Option<RawIterateConfig>)> = Vec::new();
            let mut i: usize = 0;
            while i < items.len()
                invariant
                    i <= items@.len(),
                    items_of(*doc, "steps"@) == items@,
                    list_err(*doc, "steps"@) == steps_err_upto(items@, items@.len() as int),
                    steps_err_upto(items@, i as int) is None,
                    out@.len() == i,
                    forall|k: int| 0 <= k < i ==> step_rel(items@[k], (#[trigger] out@[k]).0, out@[k].1),
                decreases items@.len() - i,
            {
                match read_step(&items[i]) {
                    Ok(x) => out.push(x),
                    Err(e) => {
                        proof {
                            lemma_err_upto_stays_steps(items@, i + 1, items@.len() as int);
                        }
                        return Err(e);
                    },
                }
                i = i + 1;
            }
            Ok(out)
        },
        Some(_) => Err(wrong_type_msg("steps", "an array of mappings")),
    }
}

/// Reads a pipeline document (see `pipeline_err` and `pipeline_rel`).
pub fn parse(doc: &Json) -> (r: Result<PipelineDef, ParseError>)
    ensures
        match pipeline_err(*doc) {
            Some(e) => r matches Err(x) && doc_err_of(x) == e,
            None => r matches Ok(def) && pipeline_rel(*doc, def),
        },
{
    if !matches!(doc, Json::Object(_)) {
        return Err(ParseError::Yaml(to_string("invalid type: expected a mapping")));
    }
    let name = match req_string(doc, "name") {
        Ok(v) => v,
        Err(e) => {
            return Err(ParseError::Yaml(e));
        },
    };
    let description = match opt_string(doc, "description") {
        Ok(v) => v,
        Err(e) => {
            return Err(ParseError::Yaml(e));
        },
    };
    let storage = match read_storage(doc) {
        Ok(v) => v,
        Err(e) => {
            return Err(ParseError::Yaml(e));
        },
    };
    let slots = match read_slots(doc) {
        Ok(v) => v,
        Err(e) => {
            return Err(ParseError::Yaml(e));
        },
    };
    let raw_steps = match read_steps(doc) {
        Ok(v) => v,
        Err(e) => {
            return Err(ParseError::Yaml(e));
        },
    };
    let output_text = match req_string(doc, "output") {
        Ok(v) => v,
        Err(e) => {
            return Err(ParseError::Yaml(e));
        },
    };
    let ghost items = items_of(*doc, "steps"@);
    assert(pipeline_err(*doc) == match over_err_upto(items, items.len() as int) {
        Some(o) => Some(DocErr::Over(o)),
        None => None::<DocErr>,
    });
    let mut steps: Vec<StepDef> = Vec::new();
    let mut raw_steps = raw_steps;
    let ghost all = raw_steps@;
    let n = raw_steps.len();
    let mut i: usize = 0;
    while i < n
        invariant
            i <= n == all.len() == items.len(),
            raw_steps@ == all.skip(i as int),
            forall|k: int| 0 <= k < all.len() ==> step_rel(items[k], (#[trigger] all[k]).0, all[k].1),
            over_err_upto(items, i as int) is None,
            pipeline_err(*doc) == match over_err_upto(items, items.len() as int) {
                Some(o) => Some(DocErr::Over(o)),
                None => None::<DocErr>,
            },
            steps@.len() == i,
            forall|k: int| 0 <= k < i ==> step_core_rel(items[k], #[trigger] steps@[k]) && iter_rel(items[k], steps@[k].iterate),
        decreases n - i,
    {
        let (s, it) = raw_steps.remove(0);
        assert((s, it) == all[i as int]);
        assert(raw_steps@ =~= all.skip(i + 1));
        let iterate = match it {
            None => None,
            Some(c) => match VariablePath::parse(c.over.as_str()) {
                Some(p) => Some(IterateConfig { over: p, as_name: c.as_name, max_workers: c.max_workers, batch: c.batch }),
                None => {
                    proof {
                        lemma_over_err_stays(items, i + 1, items.len() as int);
                    }
                    return Err(ParseError::InvalidIterateOver(c.over));
                },
            },
        };
        steps.push(StepDef { id: s.id, after: s.after, iterate, cache: s.cache, retry: s.retry, timeout_sec: s.timeout_sec, op: s.op });
        i = i + 1;
    }
    let output = match VariablePath::parse(output_text.as_str()) {
        Some(p) => RefValue::Ref(p),
        None => RefValue::Literal(Json::Str(output_text)),
    };
    Ok(PipelineDef { name, description, storage, slots, steps, output })
}

} // verus!
