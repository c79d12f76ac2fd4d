//! Content-addressed cache keys: SHA-256 over the operator's type and the
//! compact JSON of its inputs.

use vstd::prelude::*;
use vstd::utf8::encode_utf8;
use sha2::Digest;
use crate::json::{Json, JsonV, jv, text_of, to_text};
use crate::text::push_str;

verus! {

/// The SHA-256 digest of some bytes.
pub uninterp spec fn sha256(bytes: Seq<u8>) -> Seq<u8>;

/// `Sha256::digest` of the sha2 crate: the 32-byte SHA-256 digest of the bytes.
#[verifier::external_body]
fn sha256_digest(bytes: &[u8]) -> (r: Vec<u8>)
    ensures
        r@ == sha256(bytes@),
        r@.len() == 32,
{
    sha2::Sha256::digest(bytes).to_vec()
}

/// What the key digests: `<op_type>:<compact JSON of the inputs>`, as UTF-8.
pub open spec fn cache_material(op_type: Seq<char>, inputs: JsonV) -> Seq<u8> {
    encode_utf8(op_type + ":"@ + text_of(inputs))
}

/// The cache key of an operator's run on some inputs.
pub fn compute_cache_key(op_type: &str, inputs: &Json) -> (r: Vec<u8>)
    ensures
        r@ == sha256(cache_material(op_type@, jv(*inputs))),
        r@.len() == 32,
{
    let mut text = String::new();
    push_str(&mut text, op_type);
    push_str(&mut text, ":");
    let t = to_text(inputs);
    push_str(&mut text, t.as_str());
    let bytes = text.as_str().as_bytes();
    sha256_digest(bytes)
}

/// What an iterated step's key is computed over: its inputs and the
/// array it iterates over, `{"inputs": ..., "over": ...}`.
pub fn iterate_key_material(inputs: Json, over: Json) -> (r: Json)
    ensures
        jv(r) == JsonV::Object(seq![("inputs"@, jv(inputs)), ("over"@, jv(over))]),
{
    let mut es: Vec<(String, Json)> = Vec::new();
    let ghost (a, b) = (jv(inputs), jv(over));
    es.push((crate::text::to_string("inputs"), inputs));
    es.push((crate::text::to_string("over"), over));
    let r = Json::Object(es);
    proof {
        crate::dsl::refs::lemma_jv_object(r);
        assert(crate::dsl::refs::entries_jv(es@) =~= seq![("inputs"@, a), ("over"@, b)]);
    }
    r
}

} // verus!
