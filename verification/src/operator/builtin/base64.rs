//! `base64`: encodes text as standard Base64 with padding, or decodes it.

use vstd::prelude::*;
use vstd::utf8::{encode_utf8, decode_utf8, valid_utf8};
use base64::Engine;
use crate::json::{Json, JsonV, jv, text_of, to_text, get, get_field};
use crate::text::{to_string, push_str, push_u128, nat_text};
use crate::dsl::refs::str_is;
use crate::operator::types::{OperatorError, OperatorSpec};
use crate::operator::builtin::{get_str, str_or};

verus! {

pub struct Base64Operator;

/// The code point of digit `v` of the standard Base64 alphabet: `A`–`Z`,
/// `a`–`z`, `0`–`9`, `+`, `/`.
pub open spec fn b64_code(v: int) -> int {
    if v < 26 {
        65 + v
    } else if v < 52 {
        97 + v - 26
    } else if v < 62 {
        48 + v - 52
    } else if v == 62 {
        43
    } else {
        47
    }
}

pub open spec fn b64_char(v: int) -> char {
    b64_code(v) as char
}

/// Standard Base64 (RFC 4648) with `=` padding: each group of three bytes
/// becomes four characters; a last group of one or two bytes is padded.
pub open spec fn b64_encode(b: Seq<u8>) -> Seq<char>
    decreases b.len(),
{
    let x = b[0] as int;
    let y = if b.len() > 1 { b[1] as int } else { 0 };
    let z = if b.len() > 2 { b[2] as int } else { 0 };
    if b.len() == 0 {
        Seq::empty()
    } else if b.len() == 1 {
        seq![b64_char(x / 4), b64_char((x % 4) * 16), '=', '=']
    } else if b.len() == 2 {
        seq![b64_char(x / 4), b64_char((x % 4) * 16 + y / 16), b64_char((y % 16) * 4), '=']
    } else {
        seq![b64_char(x / 4), b64_char((x % 4) * 16 + y / 16), b64_char((y % 16) * 4 + z / 64), b64_char(z % 64)]
            + b64_encode(b.skip(3))
    }
}

/// The text of the error the decoder reports for `text`.
pub uninterp spec fn b64_decode_error(text: Seq<char>) -> Seq<char>;

/// `STANDARD.encode` of the base64 crate: standard alphabet, padded. The
/// contract states its output exactly, as `b64_encode`.
#[verifier::external_body]
pub(crate) fn b64_encode_bytes(bytes: &[u8]) -> (r: String)
    requires
        bytes@.len() / 3 * 4 + 4 <= usize::MAX,
    ensures
        r@ == b64_encode(bytes@),
{
    base64::engine::general_purpose::STANDARD.encode(bytes)
}

/// `STANDARD.decode` of the base64 crate, which accepts exactly the
/// canonical padded encodings (no stray padding, no trailing bits): it
/// succeeds with the bytes whose encoding is `text`, and fails, with the
/// text of its error, when no bytes encode to `text`.
#[verifier::external_body]
fn b64_decode_text(text: &str) -> (r: Result<Vec<u8>, String>)
    ensures
        match r {
            Ok(b) => b64_encode(b@) == text@,
            Err(e) => (forall|b: Seq<u8>| b64_encode(b) != text@) && e@ == b64_decode_error(text@),
        },
{
    match base64::engine::general_purpose::STANDARD.decode(text) {
        Ok(v) => Ok(v),
        Err(e) => Err(e.to_string()),
    }
}

/// `String::from_utf8`: the text the bytes encode, if they are valid UTF-8.
#[verifier::external_body]
fn utf8_text(bytes: Vec<u8>) -> (r: Option<String>)
    ensures
        match r {
            Some(s) => valid_utf8(bytes@) && s@ == decode_utf8(bytes@),
            None => !valid_utf8(bytes@),
        },
{
    String::from_utf8(bytes).ok()
}

/// The text worked on: a string as it is, any other value as compact JSON.
pub open spec fn b64_input(data: Json) -> Seq<char> {
    match data {
        Json::Str(s) => s@,
        _ => text_of(jv(data)),
    }
}

pub open spec fn b64_mode_of(inputs: Json) -> Seq<char> {
    match get_str(inputs, "mode"@) {
        Some(m) => m,
        None => "encode"@,
    }
}

impl Base64Operator {
    pub fn spec(&self) -> (r: OperatorSpec)
        ensures
            r.op_type@ == "base64"@,
            r.description@ == "Base64 编解码"@,
            !r.iterate,
            r.cache,
    {
        OperatorSpec::new("base64", "Base64 编解码")
    }

    /// Encodes or decodes `inputs.data` by `inputs.mode` (`encode` by default).
    pub fn run(&self, inputs: Json) -> (r: Result<Json, OperatorError>)
        requires
            encode_utf8(b64_input(get_field(inputs, "data"@)->Some_0)).len() / 3 * 4 + 4 <= usize::MAX,
        ensures
            match get_field(inputs, "data"@) {
                None => r matches Err(OperatorError::Config(e)) && e@ == "base64 算子 inputs.data 缺失或为 null"@,
                Some(data) => if data is Null {
                    r matches Err(OperatorError::Config(e)) && e@ == "base64 算子 inputs.data 缺失或为 null"@
                } else {
                    let bytes = encode_utf8(b64_input(data));
                    let mode = b64_mode_of(inputs);
                    let text = b64_input(data);
                    if mode == "encode"@ {
                        r matches Ok(Json::Str(s)) && s@ == b64_encode(bytes)
                    } else if mode == "decode"@ {
                        if exists|b: Seq<u8>| b64_encode(b) == text {
                            let b = choose|b: Seq<u8>| b64_encode(b) == text;
                            if valid_utf8(b) {
                                r matches Ok(Json::Str(s)) && s@ == decode_utf8(b)
                            } else {
                                r matches Err(OperatorError::Runtime(e)) && e@ == "base64 decode: "@ + nat_text(
                                    b.len(),
                                ) + " 字节不是合法 UTF-8，无法用字符串表示"@
                            }
                        } else {
                            r matches Err(OperatorError::Config(e)) && e@ == "base64 decode: "@ + b64_decode_error(text)
                        }
                    } else {
                        r matches Err(OperatorError::Config(e)) && e@ == "mode 必须是 encode 或 decode"@
                    }
                },
            },
    {
        let mode = str_or(&inputs, "mode", "encode");
        let data = match get(&inputs, "data") {
            Some(v) => {
                if matches!(v, Json::Null) {
                    return Err(OperatorError::Config(to_string("base64 算子 inputs.data 缺失或为 null")));
                }
                v
            },
            None => {
                return Err(OperatorError::Config(to_string("base64 算子 inputs.data 缺失或为 null")));
            },
        };
        let input: String = match data {
            Json::Str(s) => to_string(s.as_str()),
            other => to_text(other),
        };
        let bytes = input.as_str().as_bytes();
        if str_is(mode.as_str(), "encode") {
            Ok(Json::Str(b64_encode_bytes(bytes)))
        } else if str_is(mode.as_str(), "decode") {
            match b64_decode_text(input.as_str()) {
                Ok(decoded) => {
                    proof {
                        lemma_b64_injective(decoded@, choose|b: Seq<u8>| b64_encode(b) == input@);
                    }
                    let len = decoded.len();
                    match utf8_text(decoded) {
                        Some(text) => Ok(Json::Str(text)),
                        None => {
                            let mut m = String::new();
                            push_str(&mut m, "base64 decode: ");
                            push_u128(&mut m, len as u128);
                            push_str(&mut m, " 字节不是合法 UTF-8，无法用字符串表示");
                            Err(OperatorError::Runtime(m))
                        },
                    }
                },
                Err(e) => {
                    let mut m = String::new();
                    push_str(&mut m, "base64 decode: ");
                    push_str(&mut m, e.as_str());
                    Err(OperatorError::Config(m))
                },
            }
        } else {
            Err(OperatorError::Config(to_string("mode 必须是 encode 或 decode")))
        }
    }
}

/// Digits of the alphabet are distinct, and none is the padding `=`.
proof fn lemma_b64_char(v: int, w: int)
    requires
        0 <= v < 64,
        0 <= w < 64,
    ensures
        b64_char(v) == b64_char(w) ==> v == w,
        b64_char(v) != '=',
{
    assert(b64_char(v) as int == b64_code(v));
    assert(b64_char(w) as int == b64_code(w));
}

/// Decoding what encoding a text gave gives the text back: the only bytes
/// whose encoding it is are the text's UTF-8 bytes, which are valid UTF-8
/// and decode to the text (the two branches of `Base64Operator::run`).
pub proof fn lemma_b64_round_trip(t: Seq<char>)
    ensures
        exists|b: Seq<u8>| #[trigger] b64_encode(b) == b64_encode(encode_utf8(t)),
        (choose|b: Seq<u8>| #[trigger] b64_encode(b) == b64_encode(encode_utf8(t))) == encode_utf8(t),
        valid_utf8(encode_utf8(t)),
        decode_utf8(encode_utf8(t)) == t,
{
    let e = b64_encode(encode_utf8(t));
    assert(b64_encode(encode_utf8(t)) == e);
    let b = choose|b: Seq<u8>| b64_encode(b) == e;
    lemma_b64_injective(b, encode_utf8(t));
    vstd::utf8::encode_utf8_valid_utf8(t);
    vstd::utf8::encode_utf8_decode_utf8(t);
}

/// Different bytes have different encodings.
pub proof fn lemma_b64_injective(a: Seq<u8>, b: Seq<u8>)
    requires
        b64_encode(a) == b64_encode(b),
    ensures
        a == b,
    decreases a.len(),
{
    let e = b64_encode(a);
    if a.len() == 0 || b.len() == 0 {
        if a.len() != 0 || b.len() != 0 {
            assert(e.len() == 0 || e.len() >= 4);
        }
        assert(a =~= b);
        return;
    }
    let (a0, b0) = (a[0] as int, b[0] as int);
    lemma_b64_char(a0 / 4, b0 / 4);
    assert(e[0] == b64_char(a0 / 4) && e[0] == b64_char(b0 / 4));
    assert(a0 / 4 == b0 / 4);
    if a.len() == 1 && b.len() == 1 {
        lemma_b64_char((a0 % 4) * 16, (b0 % 4) * 16);
        assert(a0 % 4 == b0 % 4);
        assert(a =~= b);
    } else if a.len() == 1 || b.len() == 1 {
        let (x, y) = if a.len() == 1 { (a, b) } else { (b, a) };
        let y1 = y[1] as int;
        let v = (y[0] as int % 4) * 16 + y1 / 16;
        let w = (y1 % 16) * 4 + if y.len() >= 3 { y[2] as int / 64 } else { 0 };
        lemma_b64_char(w, w);
        assert(b64_encode(x)[2] == '=');
        assert(b64_encode(y)[2] == b64_char(w));
    } else {
        let (a1, b1) = (a[1] as int, b[1] as int);
        lemma_b64_char((a0 % 4) * 16 + a1 / 16, (b0 % 4) * 16 + b1 / 16);
        assert(e[1] == b64_char((a0 % 4) * 16 + a1 / 16) && e[1] == b64_char((b0 % 4) * 16 + b1 / 16));
        assert(a0 % 4 == b0 % 4 && a1 / 16 == b1 / 16);
        assert(a0 == b0);
        if a.len() == 2 && b.len() == 2 {
            lemma_b64_char((a1 % 16) * 4, (b1 % 16) * 4);
            assert(e[2] == b64_char((a1 % 16) * 4) && e[2] == b64_char((b1 % 16) * 4));
            assert(a1 == b1);
            assert(a =~= b);
        } else if a.len() == 2 || b.len() == 2 {
            let (x, y) = if a.len() == 2 { (a, b) } else { (b, a) };
            let w = y[2] as int % 64;
            lemma_b64_char(w, w);
            assert(b64_encode(x)[3] == '=');
            assert(b64_encode(y)[3] == b64_char(w));
        } else {
            let (a2, b2) = (a[2] as int, b[2] as int);
            lemma_b64_char((a1 % 16) * 4 + a2 / 64, (b1 % 16) * 4 + b2 / 64);
            lemma_b64_char(a2 % 64, b2 % 64);
            assert(e[2] == b64_char((a1 % 16) * 4 + a2 / 64) && e[2] == b64_char((b1 % 16) * 4 + b2 / 64));
            assert(e[3] == b64_char(a2 % 64) && e[3] == b64_char(b2 % 64));
            assert(a1 == b1 && a2 == b2);
            assert(b64_encode(a.skip(3)) =~= e.skip(4));
            assert(b64_encode(b.skip(3)) =~= e.skip(4));
            lemma_b64_injective(a.skip(3), b.skip(3));
            assert(a =~= seq![a[0], a[1], a[2]] + a.skip(3));
            assert(b =~= seq![b[0], b[1], b[2]] + b.skip(3));
        }
    }
}

} // verus!
