//! How many elements of an iterated step run at once.

use vstd::prelude::*;
use crate::dsl::step::IterateConfig;
use crate::json::{Json, JsonV, jv, json_clone, to_text, text_of};
use crate::text::{push_str, push_u128, nat_text};
use crate::error::WeaveflowError;

verus! {

/// The number of workers: the configured number (at least one), or, when
/// none is configured, the machine's available parallelism (4 when it
/// cannot be told).
pub fn effective_max_workers(cfg: &IterateConfig, available: Option<usize>) -> (r: usize)
    ensures
        r == match cfg.max_workers {
            Some(n) => if n as int >= 1 { n as usize } else { 1 },
            None => match available {
                Some(a) => a,
                None => 4,
            },
        },
{
    match cfg.max_workers {
        Some(n) => {
            if n >= 1 {
                n as usize
            } else {
                1
            }
        },
        None => match available {
            Some(a) => a,
            None => 4,
        },
    }
}

} // verus!

verus! {

/// The elements iterated over: an array's items, or the single value.
pub open spec fn over_items(over: JsonV) -> Seq<JsonV> {
    match over {
        JsonV::Array(xs) => xs,
        _ => seq![over],
    }
}

/// The number of chunks: one per element, or per batch of `size` elements.
pub open spec fn chunk_total(n: int, batch: Option<int>) -> int {
    match batch {
        Some(bs) => (n + bs - 1) / bs,
        None => n,
    }
}

/// Chunk `k`: the `k`-th element, or the `k`-th batch as an array.
pub open spec fn chunk_at(items: Seq<JsonV>, batch: Option<int>, k: int) -> JsonV {
    match batch {
        Some(bs) => JsonV::Array(
            items.subrange(k * bs, if k * bs + bs < items.len() { k * bs + bs } else { items.len() as int }),
        ),
        None => items[k],
    }
}

pub open spec fn batch_size(cfg: IterateConfig) -> Option<int> {
    match cfg.batch {
        Some(b) => Some(b.size as int),
        None => None,
    }
}

/// Refuses a batch size of zero.
pub fn check_batch(step_id: &str, cfg: &IterateConfig) -> (r: Result<(), WeaveflowError>)
    ensures
        match cfg.batch {
            Some(b) => b.size == 0 ==> (r matches Err(WeaveflowError::BadRequest(m)) && m@ == "步骤 "@ + step_id@
                + " 的 iterate.batch.size 不能为 0"@),
            None => true,
        },
        r is Ok <==> !(cfg.batch matches Some(b) && b.size == 0),
{
    match cfg.batch {
        Some(b) => {
            if b.size == 0 {
                let mut m = String::new();
                push_str(&mut m, "步骤 ");
                push_str(&mut m, step_id);
                push_str(&mut m, " 的 iterate.batch.size 不能为 0");
                return Err(WeaveflowError::BadRequest(m));
            }
            Ok(())
        },
        None => Ok(()),
    }
}

/// The number of chunks of an iteration (see `chunk_total`).
pub fn chunk_count(over: &Json, cfg: &IterateConfig) -> (r: usize)
    requires
        !(cfg.batch matches Some(b) && b.size == 0),
    ensures
        r as int == chunk_total(over_items(jv(*over)).len() as int, batch_size(*cfg)),
{
    let n: usize = match over {
        Json::Array(a) => {
            proof {
                crate::dsl::refs::lemma_jv_array(*over);
            }
            a.len()
        },
        _ => 1,
    };
    match cfg.batch {
        Some(b) => {
            let bs = b.size as usize;
            let q = n / bs;
            let r = n % bs;
            proof {
                assert((n + bs - 1) / (bs as int) == q + if r > 0 { 1int } else { 0 }) by (nonlinear_arith)
                    requires
                        bs > 0,
                        q == n / bs,
                        r == n % bs,
                ;
            }
            if r > 0 {
                proof {
                    assert(q + 1 <= n) by (nonlinear_arith)
                        requires
                            bs > 0,
                            q == n / bs,
                            r == n % bs,
                            r > 0,
                    ;
                }
                q + 1
            } else {
                q
            }
        },
        None => n,
    }
}

/// Chunk `k` of an iteration (see `chunk_at`).
pub fn chunk_of(over: &Json, cfg: &IterateConfig, k: usize) -> (r: Json)
    requires
        !(cfg.batch matches Some(b) && b.size == 0),
        k < chunk_total(over_items(jv(*over)).len() as int, batch_size(*cfg)),
    ensures
        jv(r) == chunk_at(over_items(jv(*over)), batch_size(*cfg), k as int),
{
    let ghost items = over_items(jv(*over));
    match over {
        Json::Array(a) => {
            proof {
                crate::dsl::refs::lemma_jv_array(*over);
            }
            match cfg.batch {
                Some(b) => {
                    let bs = b.size as usize;
                    let n = a.len();
                    proof {
                        assert(k * bs < n) by (nonlinear_arith)
                            requires
                                bs > 0,
                                k < (n + bs - 1) / (bs as int),
                        ;
                    }
                    let start = k * bs;
                    let end = if n - start > bs {
                        start + bs
                    } else {
                        n
                    };
                    let mut out: Vec<Json> = Vec::new();
                    let mut i = start;
                    while i < end
                        invariant
                            start <= i <= end <= a@.len(),
                            items == crate::dsl::refs::items_jv(a@),
                            crate::dsl::refs::items_jv(out@) == items.subrange(start as int, i as int),
                        decreases end - i,
                    {
                        let ghost before = out@;
                        out.push(json_clone(&a[i]));
                        assert(crate::dsl::refs::items_jv(out@) =~= crate::dsl::refs::items_jv(before).push(items[i as int]));
                        assert(items.subrange(start as int, i + 1) =~= items.subrange(start as int, i as int).push(items[i as int]));
                        i = i + 1;
                    }
                    let r = Json::Array(out);
                    proof {
                        crate::dsl::refs::lemma_jv_array(r);
                    }
                    r
                },
                None => json_clone(&a[k]),
            }
        },
        _ => {
            match cfg.batch {
                Some(b) => {
                    proof {
                        assert(k == 0) by (nonlinear_arith)
                            requires
                                b.size > 0,
                                k < (1 + b.size - 1) / (b.size as int),
                        ;
                        assert(k * b.size == 0);
                    }
                    let mut out: Vec<Json> = Vec::new();
                    out.push(json_clone(over));
                    let r = Json::Array(out);
                    proof {
                        crate::dsl::refs::lemma_jv_array(r);
                        assert(crate::dsl::refs::items_jv(out@) =~= items.subrange(0, 1));
                    }
                    r
                },
                None => json_clone(over),
            }
        },
    }
}

/// Whether progress is reported after `done` of `total` chunks: every
/// tenth, and the last.
pub fn should_report(done: u64, total: u64) -> (r: bool)
    ensures
        r == (done % 10 == 0 || done == total),
{
    done % 10 == 0 || done == total
}

/// The result of an iteration: the chunks' results in order; with
/// batches, their arrays joined into one.
pub open spec fn joined(results: Seq<JsonV>, n: int) -> Option<Seq<JsonV>>
    decreases n,
{
    if n <= 0 {
        Some(Seq::empty())
    } else {
        match joined(results, n - 1) {
            Some(acc) => match results[n - 1] {
                JsonV::Array(xs) => Some(acc + xs),
                _ => None,
            },
            None => None,
        }
    }
}

/// The first chunk whose result is not an array.
pub open spec fn first_non_array(results: Seq<JsonV>, n: int) -> int
    decreases n,
{
    if n <= 0 {
        -1
    } else if first_non_array(results, n - 1) >= 0 {
        first_non_array(results, n - 1)
    } else if results[n - 1] is Array {
        -1
    } else {
        n - 1
    }
}

proof fn lemma_joined(results: Seq<JsonV>, n: int)
    requires
        0 <= n <= results.len(),
    ensures
        joined(results, n) is None <==> first_non_array(results, n) >= 0,
        first_non_array(results, n) < n,
    decreases n,
{
    if n > 0 {
        lemma_joined(results, n - 1);
    }
}


/// The message for a batch whose result is not an array.
pub open spec fn non_array_msg(step_id: Seq<char>, k: int, v: JsonV) -> Seq<char> {
    "步骤 "@ + step_id + " 的第 "@ + nat_text(k as nat) + " 个 batch chunk 返回了非数组结果: "@ + text_of(v)
}

/// The result of an iteration from its chunks' results (see `joined`).
pub fn join_results(step_id: &str, batched: bool, results: Vec<Json>) -> (r: Result<Json, WeaveflowError>)
    ensures
        ({
            let rs = crate::dsl::refs::items_jv(results@);
            if !batched {
                r matches Ok(v) && jv(v) == JsonV::Array(rs)
            } else {
                match joined(rs, rs.len() as int) {
                    Some(xs) => r matches Ok(v) && jv(v) == JsonV::Array(xs),
                    None => r matches Err(WeaveflowError::Internal(m)) && m@ == non_array_msg(
                        step_id@,
                        first_non_array(rs, rs.len() as int),
                        rs[first_non_array(rs, rs.len() as int)],
                    ),
                }
            }
        }),
{
    let ghost rs = crate::dsl::refs::items_jv(results@);
    if !batched {
        let r = Json::Array(results);
        proof {
            crate::dsl::refs::lemma_jv_array(r);
        }
        return Ok(r);
    }
    let mut merged: Vec<Json> = Vec::new();
    let mut i: usize = 0;
    proof {
        lemma_joined(rs, rs.len() as int);
    }
    while i < results.len()
        invariant
            i <= results@.len(),
            rs == crate::dsl::refs::items_jv(results@),
            batched,
            joined(rs, i as int) == Some(crate::dsl::refs::items_jv(merged@)),
            first_non_array(rs, i as int) == -1,
        decreases results@.len() - i,
    {
        assert(rs[i as int] == jv(results@[i as int]));
        match &results[i] {
            Json::Array(xs) => {
                proof {
                    crate::dsl::refs::lemma_jv_array(results@[i as int]);
                }
                let ghost before = merged@;
                let mut j: usize = 0;
                while j < xs.len()
                    invariant
                        j <= xs@.len(),
                        crate::dsl::refs::items_jv(merged@) == crate::dsl::refs::items_jv(before) + crate::dsl::refs::items_jv(xs@).subrange(0, j as int),
                    decreases xs@.len() - j,
                {
                    let ghost b2 = merged@;
                    merged.push(json_clone(&xs[j]));
                    assert(crate::dsl::refs::items_jv(merged@) =~= crate::dsl::refs::items_jv(b2).push(jv(xs@[j as int])));
                    assert(crate::dsl::refs::items_jv(xs@).subrange(0, j + 1) =~= crate::dsl::refs::items_jv(xs@).subrange(0, j as int).push(jv(xs@[j as int])));
                    assert(crate::dsl::refs::items_jv(merged@) =~= crate::dsl::refs::items_jv(before) + crate::dsl::refs::items_jv(xs@).subrange(0, j + 1));
                    j = j + 1;
                }
                assert(crate::dsl::refs::items_jv(xs@).subrange(0, xs@.len() as int) =~= crate::dsl::refs::items_jv(xs@));
            },
            other => {
                let t = to_text(other);
                let mut m = String::new();
                push_str(&mut m, "步骤 ");
                push_str(&mut m, step_id);
                push_str(&mut m, " 的第 ");
                push_u128(&mut m, i as u128);
                push_str(&mut m, " 个 batch chunk 返回了非数组结果: ");
                push_str(&mut m, t.as_str());
                proof {
                    assert(!(rs[i as int] is Array));
                    assert(first_non_array(rs, i + 1) == i);
                    lemma_non_array_stays(rs, i + 1, rs.len() as int);
                    lemma_joined(rs, rs.len() as int);
                    lemma_joined(rs, i + 1);
                }
                return Err(WeaveflowError::Internal(m));
            },
        }
        i = i + 1;
    }
    let r = Json::Array(merged);
    proof {
        crate::dsl::refs::lemma_jv_array(r);
    }
    Ok(r)
}

proof fn lemma_non_array_stays(rs: Seq<JsonV>, m: int, n: int)
    requires
        0 <= m <= n,
        first_non_array(rs, m) >= 0,
    ensures
        first_non_array(rs, n) == first_non_array(rs, m),
        joined(rs, n) is None,
    decreases n - m,
{
    if n > m {
        lemma_non_array_stays(rs, m, n - 1);
    } else {
        lemma_joined_none(rs, m);
    }
}

proof fn lemma_joined_none(rs: Seq<JsonV>, n: int)
    requires
        first_non_array(rs, n) >= 0,
    ensures
        joined(rs, n) is None,
    decreases n,
{
    if n > 0 && first_non_array(rs, n - 1) >= 0 {
        lemma_joined_none(rs, n - 1);
    }
}

} // verus!
