//! `split`: cuts an array into chunks of a given size.

use vstd::prelude::*;
use crate::json::{Json, JsonNumber, JsonV, jv, json_clone, get, get_field};
use crate::dsl::refs::{items_jv, lemma_jv_array};
use crate::operator::types::OperatorSpec;
use crate::operator::builtin::elements;

verus! {

pub struct SplitOperator;

/// The chunk size: `size` when it is an unsigned integer, else 100.
pub open spec fn split_size(config: Json) -> int {
    match get_field(config, "size"@) {
        Some(Json::Number(JsonNumber::Int(n))) => if 0 <= n <= 0xffff_ffff_ffff_ffff {
            n as usize as int
        } else {
            100
        },
        _ => 100,
    }
}

/// `items` cut into consecutive arrays of `size` items, the last one
/// possibly shorter (`slice::chunks`).
pub open spec fn chunks(items: Seq<JsonV>, size: int) -> Seq<JsonV>
    decreases items.len(),
{
    if items.len() == 0 || size <= 0 {
        Seq::empty()
    } else if items.len() <= size {
        seq![JsonV::Array(items)]
    } else {
        seq![JsonV::Array(items.take(size))] + chunks(items.skip(size), size)
    }
}

/// The chunk size the configuration asks for.
fn size_of(config: &Json) -> (r: usize)
    ensures
        r as int == split_size(*config),
{
    match get(config, "size") {
        Some(Json::Number(JsonNumber::Int(n))) => if 0 <= *n && *n <= 0xffff_ffff_ffff_ffff {
            *n as usize
        } else {
            100
        },
        _ => 100,
    }
}

impl SplitOperator {
    pub fn spec(&self) -> (r: OperatorSpec)
        ensures
            r.op_type@ == "split"@,
            r.description@ == "将数组切分为小块"@,
            !r.iterate,
            r.cache,
    {
        OperatorSpec::new("split", "将数组切分为小块")
    }

    /// The elements of `data` (an array, or a single value) in chunks of
    /// `config.size`.
    pub fn run(&self, data: Json, config: &Json) -> (r: Json)
        requires
            split_size(*config) > 0,
        ensures
            jv(r) == JsonV::Array(chunks(items_jv(elements(data)), split_size(*config))),
    {
        let size = size_of(config);
        let items = crate::operator::builtin::into_items(data);
        let ghost all = items_jv(items@);
        let mut out: Vec<Json> = Vec::new();
        let mut i: usize = 0;
        assert(all.skip(0) =~= all);
        assert(items_jv(out@) + chunks(all, size as int) =~= chunks(all, size as int));
        while i < items.len()
            invariant
                0 < size,
                i <= items@.len(),
                all == items_jv(items@),
                items_jv(out@) + chunks(all.skip(i as int), size as int) == chunks(all, size as int),
            decreases items@.len() - i,
        {
            let rest = items.len() - i;
            let end = if rest <= size {
                items.len()
            } else {
                i + size
            };
            let mut chunk: Vec<Json> = Vec::new();
            let mut j: usize = i;
            while j < end
                invariant
                    i <= j <= end <= items@.len(),
                    all == items_jv(items@),
                    items_jv(chunk@) == all.subrange(i as int, j as int),
                decreases end - j,
            {
                let ghost before = chunk@;
                chunk.push(json_clone(&items[j]));
                assert(items_jv(chunk@) =~= items_jv(before).push(jv(items@[j as int])));
                assert(all.subrange(i as int, j + 1) =~= all.subrange(i as int, j as int).push(all[j as int]));
                j = j + 1;
            }
            let ghost before = out@;
            let ghost s = all.skip(i as int);
            proof {
                lemma_jv_array(Json::Array(chunk));
                if rest <= size {
                    assert(s =~= all.subrange(i as int, end as int));
                    assert(all.skip(end as int) =~= Seq::<JsonV>::empty());
                } else {
                    assert(s.take(size as int) =~= all.subrange(i as int, end as int));
                    assert(s.skip(size as int) =~= all.skip(end as int));
                }
            }
            out.push(Json::Array(chunk));
            assert(items_jv(out@) =~= items_jv(before).push(jv(out@[out@.len() - 1])));
            i = end;
        }
        assert(all.skip(i as int) =~= Seq::<JsonV>::empty());
        assert(items_jv(out@) + Seq::<JsonV>::empty() =~= items_jv(out@));
        proof {
            lemma_jv_array(Json::Array(out));
        }
        Json::Array(out)
    }
}

} // verus!
