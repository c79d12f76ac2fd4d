//! `llm`: a chat completion against an OpenAI-compatible endpoint. The
//! library reads the request from the inputs, builds the messages, and
//! reads the reply; sending it is left to the caller.

use vstd::prelude::*;
use crate::json::{Json, JsonNumber, FloatNum, JsonV, jv, get, get_field, json_clone};
use crate::text::{to_string, push_str, chars_of, string_from_range};
use crate::dsl::refs::{items_jv, lemma_jv_array};
use crate::operator::types::{OperatorError, OperatorSpec};
use crate::operator::builtin::{get_str, str_or};
use crate::operator::builtin::filter::{contains_text, text_contains};

verus! {

pub struct LlmOperator;

/// The first `n` characters of `s` (all of it when it is shorter).
pub fn safe_truncate(s: &str, n: usize) -> (r: String)
    ensures
        r@ == s@.take(if n < s@.len() { n as int } else { s@.len() as int }),
{
    let cs = chars_of(s);
    let end = if n < cs.len() {
        n
    } else {
        cs.len()
    };
    string_from_range(&cs, 0, end)
}

/// The strings among some values, in order.
pub open spec fn string_items(items: Seq<Json>) -> Seq<Seq<char>>
    decreases items.len(),
{
    if items.len() == 0 {
        Seq::empty()
    } else {
        let rest = string_items(items.drop_last());
        match items.last() {
            Json::Str(s) => rest.push(s@),
            _ => rest,
        }
    }
}

/// The images given: `images_b64` as one string, or the strings of an
/// array; and whether there is any.
pub open spec fn images_of(inputs: Json) -> (Seq<Seq<char>>, bool) {
    match get_field(inputs, "images_b64"@) {
        Some(Json::Str(s)) => (seq![s@], true),
        Some(Json::Array(v)) => (string_items(v@), string_items(v@).len() > 0),
        _ => (Seq::empty(), false),
    }
}

/// The images given (see `images_of`).
pub fn extract_images(inputs: &Json) -> (r: (Vec<String>, bool))
    ensures
        crate::text::strs_view(r.0@) == images_of(*inputs).0,
        r.1 == images_of(*inputs).1,
{
    match get(inputs, "images_b64") {
        Some(Json::Str(s)) => {
            let mut v: Vec<String> = Vec::new();
            crate::text::push_string(&mut v, s.as_str());
            assert(crate::text::strs_view(v@) =~= seq![s@]);
            (v, true)
        },
        Some(Json::Array(items)) => {
            let mut v: Vec<String> = Vec::new();
            let mut i: usize = 0;
            while i < items.len()
                invariant
                    i <= items@.len(),
                    crate::text::strs_view(v@) == string_items(items@.subrange(0, i as int)),
                decreases items@.len() - i,
            {
                assert(items@.subrange(0, i + 1).drop_last() =~= items@.subrange(0, i as int));
                match &items[i] {
                    Json::Str(s) => crate::text::push_string(&mut v, s.as_str()),
                    _ => {},
                }
                i = i + 1;
            }
            assert(items@.subrange(0, items@.len() as int) =~= items@);
            let found = v.len() > 0;
            (v, found)
        },
        _ => (Vec::new(), false),
    }
}

/// A completion request, as the inputs give it.
pub struct LlmRequest {
    pub url: String,
    pub model: String,
    pub prompt: String,
    pub system: Option<String>,
    pub images: Vec<String>,
    pub has_images: bool,
    /// Whether to skip the warning that the model may not take images.
    pub skip_vision_check: bool,
    /// The MIME type of the images (`image/jpeg` by default).
    pub image_type: String,
    /// At most this many tokens in the reply (4096 by default).
    pub max_tokens: u64,
    /// The sampling temperature (0.0 by default).
    pub temperature: JsonNumber,
}

/// The sampling temperature the inputs give, sent as a float: their
/// `temperature` when it is a number (an integer of at most 2^53 in size,
/// which a float holds exactly, written with `.0`), else 0.0.
pub open spec fn temperature_of(inputs: Json) -> JsonV {
    match get_field(inputs, "temperature"@) {
        Some(Json::Number(JsonNumber::Int(n))) => if -0x20_0000_0000_0000 <= n <= 0x20_0000_0000_0000 {
            JsonV::Float(n as int, 0, crate::text::int_text(n as int) + ".0"@)
        } else {
            JsonV::Int(n as int)
        },
        Some(Json::Number(n)) => jv(Json::Number(n)),
        _ => JsonV::Float(0, 0, "0.0"@),
    }
}

/// A temperature given as an integer, as the float it stands for.
fn int_temperature(n: i128) -> (r: JsonNumber)
    ensures
        jv(Json::Number(r)) == (if -0x20_0000_0000_0000 <= n <= 0x20_0000_0000_0000 {
            JsonV::Float(n as int, 0, crate::text::int_text(n as int) + ".0"@)
        } else {
            JsonV::Int(n as int)
        }),
{
    if -0x20_0000_0000_0000 <= n && n <= 0x20_0000_0000_0000 {
        let mut text = String::new();
        crate::text::push_i128(&mut text, n);
        crate::text::push_str(&mut text, ".0");
        assert(text@ =~= crate::text::int_text(n as int) + ".0"@);
        JsonNumber::Float(FloatNum { mant: n as i64, exp: 0, text })
    } else {
        JsonNumber::Int(n)
    }
}

/// The body POSTed to the completion endpoint.
pub open spec fn llm_body(model: Seq<char>, messages: Seq<JsonV>, max_tokens: int, temperature: JsonV) -> JsonV {
    JsonV::Object(
        seq![
            ("max_tokens"@, JsonV::Int(max_tokens)),
            ("messages"@, JsonV::Array(messages)),
            ("model"@, JsonV::Str(model)),
            ("temperature"@, temperature),
        ],
    )
}

/// The first of `url`, `model` and `prompt` that is missing, if any.
pub open spec fn llm_missing(inputs: Json) -> Option<Seq<char>> {
    if get_str(inputs, "url"@) is None {
        Some("llm 缺少 url"@)
    } else if get_str(inputs, "model"@) is None {
        Some("llm 缺少 model"@)
    } else if get_str(inputs, "prompt"@) is None {
        Some("llm 缺少 prompt"@)
    } else {
        None
    }
}

pub open spec fn max_tokens_of(inputs: Json) -> int {
    match get_field(inputs, "max_tokens"@) {
        Some(Json::Number(JsonNumber::Int(n))) => if 0 <= n <= 0xffff_ffff_ffff_ffff {
            n as int
        } else {
            4096
        },
        _ => 4096,
    }
}

/// One object entry.
fn entry(k: &str, v: Json) -> (r: (String, Json))
    ensures
        r.0@ == k@,
        r.1 == v,
{
    (to_string(k), v)
}

/// The text of the `data:` URL of a Base64 image.
pub open spec fn data_url(mime: Seq<char>, b64: Seq<char>) -> Seq<char> {
    "data:"@ + mime + ";base64,"@ + b64
}

/// The part of a user message that carries an image.
pub open spec fn image_part(mime: Seq<char>, b64: Seq<char>) -> JsonV {
    JsonV::Object(
        seq![
            ("image_url"@, JsonV::Object(seq![("url"@, JsonV::Str(data_url(mime, b64)))])),
            ("type"@, JsonV::Str("image_url"@)),
        ],
    )
}

/// The parts of the user message: the prompt, then each image.
pub open spec fn user_parts(prompt: Seq<char>, mime: Seq<char>, images: Seq<Seq<char>>) -> Seq<JsonV> {
    seq![JsonV::Object(seq![("text"@, JsonV::Str(prompt)), ("type"@, JsonV::Str("text"@))])] + images.map_values(
        |b: Seq<char>| image_part(mime, b),
    )
}

/// The chat messages: the system message, if any, then the user message.
pub open spec fn llm_messages(
    system: Option<Seq<char>>,
    prompt: Seq<char>,
    mime: Seq<char>,
    images: Seq<Seq<char>>,
) -> Seq<JsonV> {
    let user = JsonV::Object(
        seq![("content"@, JsonV::Array(user_parts(prompt, mime, images))), ("role"@, JsonV::Str("user"@))],
    );
    match system {
        Some(s) => seq![JsonV::Object(seq![("content"@, JsonV::Str(s)), ("role"@, JsonV::Str("system"@))]), user],
        None => seq![user],
    }
}

/// The hint added to an API error when images were sent and the error
/// looks like the model does not take them.
pub open spec fn vision_hint(has_images: bool, msg: Seq<char>, code: Seq<char>, model: Seq<char>) -> Seq<char> {
    if has_images && (contains_text(msg, "image"@) || contains_text(msg, "vision"@) || contains_text(msg, "multimodal"@)
        || contains_text(code, "invalid_request"@)) {
        " — hint: model '"@ + model + "' may not support vision/image inputs. "@
    } else {
        Seq::empty()
    }
}

/// The reply's text, or the error it reports: the API's `error` with its
/// message, or a reply without `choices[0].message.content`.
pub open spec fn llm_reply(resp: Json, has_images: bool, model: Seq<char>) -> Result<Seq<char>, Seq<char>> {
    match get_field(resp, "error"@) {
        Some(err) => {
            let msg = match get_str(err, "message"@) {
                Some(m) => m,
                None => "unknown error"@,
            };
            let code = match get_str(err, "code"@) {
                Some(c) => c,
                None => Seq::empty(),
            };
            Err("llm API error: "@ + msg + vision_hint(has_images, msg, code, model))
        },
        None => {
            let content = match get_field(resp, "choices"@) {
                Some(Json::Array(cs)) => if cs@.len() > 0 {
                    match get_field(cs@[0], "message"@) {
                        Some(m) => get_str(m, "content"@),
                        None => None,
                    }
                } else {
                    None
                },
                _ => None,
            };
            match content {
                Some(c) => Ok(c),
                None => Err("llm response missing choices[0].message.content"@),
            }
        },
    }
}

impl LlmOperator {
    pub fn spec(&self) -> (r: OperatorSpec)
        ensures
            r.op_type@ == "llm"@,
            r.description@ == "OpenAI 兼容的 LLM 推理，返回文本内容"@,
            !r.iterate,
            !r.cache,
    {
        OperatorSpec::new("llm", "OpenAI 兼容的 LLM 推理，返回文本内容").with_cache(false)
    }

    /// The request the inputs describe; `url`, `model` and `prompt` are required.
    pub fn request(&self, inputs: &Json) -> (r: Result<LlmRequest, OperatorError>)
        ensures
            match llm_missing(*inputs) {
                Some(m) => r matches Err(OperatorError::Config(e)) && e@ == m,
                None => r matches Ok(q) && {
                    &&& Some(q.url@) == get_str(*inputs, "url"@)
                    &&& Some(q.model@) == get_str(*inputs, "model"@)
                    &&& Some(q.prompt@) == get_str(*inputs, "prompt"@)
                    &&& match get_str(*inputs, "system"@) {
                        Some(s) => q.system matches Some(x) && x@ == s,
                        None => q.system is None,
                    }
                    &&& crate::text::strs_view(q.images@) == images_of(*inputs).0
                    &&& q.has_images == images_of(*inputs).1
                    &&& q.skip_vision_check == (get_field(*inputs, "skip_vision_check"@) == Some(Json::Bool(true)))
                    &&& q.image_type@ == match get_str(*inputs, "image_type"@) {
                        Some(t) => t,
                        None => "image/jpeg"@,
                    }
                    &&& q.max_tokens as int == max_tokens_of(*inputs)
                    &&& jv(Json::Number(q.temperature)) == temperature_of(*inputs)
                },
            },
    {
        let url = match get(inputs, "url") {
            Some(Json::Str(s)) => to_string(s.as_str()),
            _ => {
                return Err(OperatorError::Config(to_string("llm 缺少 url")));
            },
        };
        let model = match get(inputs, "model") {
            Some(Json::Str(s)) => to_string(s.as_str()),
            _ => {
                return Err(OperatorError::Config(to_string("llm 缺少 model")));
            },
        };
        let prompt = match get(inputs, "prompt") {
            Some(Json::Str(s)) => to_string(s.as_str()),
            _ => {
                return Err(OperatorError::Config(to_string("llm 缺少 prompt")));
            },
        };
        let system = match get(inputs, "system") {
            Some(Json::Str(s)) => Some(to_string(s.as_str())),
            _ => None,
        };
        let (images, has_images) = extract_images(inputs);
        let skip_vision_check = match get(inputs, "skip_vision_check") {
            Some(Json::Bool(b)) => *b,
            _ => false,
        };
        let image_type = str_or(inputs, "image_type", "image/jpeg");
        let max_tokens: u64 = match get(inputs, "max_tokens") {
            Some(Json::Number(JsonNumber::Int(n))) => if 0 <= *n && *n <= 0xffff_ffff_ffff_ffff {
                *n as u64
            } else {
                4096
            },
            _ => 4096,
        };
        let temperature: JsonNumber = match get(inputs, "temperature") {
            Some(t) => match t {
                Json::Number(JsonNumber::Int(n)) => int_temperature(*n),
                Json::Number(_) => match json_clone(t) {
                    Json::Number(n) => n,
                    _ => JsonNumber::Float(FloatNum { mant: 0, exp: 0, text: to_string("0.0") }),
                },
                _ => JsonNumber::Float(FloatNum { mant: 0, exp: 0, text: to_string("0.0") }),
            },
            None => JsonNumber::Float(FloatNum { mant: 0, exp: 0, text: to_string("0.0") }),
        };
        Ok(LlmRequest {
            url,
            model,
            prompt,
            system,
            images,
            has_images,
            skip_vision_check,
            image_type,
            max_tokens,
            temperature,
        })
    }

    /// The chat messages of a request (see `llm_messages`).
    pub fn messages(&self, q: &LlmRequest) -> (r: Json)
        ensures
            jv(r) == JsonV::Array(
                llm_messages(
                    match q.system {
                        Some(s) => Some(s@),
                        None => None,
                    },
                    q.prompt@,
                    q.image_type@,
                    crate::text::strs_view(q.images@),
                ),
            ),
    {
        let mut parts: Vec<Json> = Vec::new();
        let mut text_part: Vec<(String, Json)> = Vec::new();
        text_part.push(entry("text", Json::Str(to_string(q.prompt.as_str()))));
        text_part.push(entry("type", Json::Str(to_string("text"))));
        let tp = Json::Object(text_part);
        proof {
            crate::dsl::refs::lemma_jv_object(tp);
            assert(crate::dsl::refs::entries_jv(text_part@) =~= seq![("text"@, JsonV::Str(q.prompt@)), ("type"@, JsonV::Str("text"@))]);
        }
        parts.push(tp);
        let ghost imgs = crate::text::strs_view(q.images@);
        let ghost mime = q.image_type@;
        let mut i: usize = 0;
        while i < q.images.len()
            invariant
                i <= q.images@.len(),
                imgs == crate::text::strs_view(q.images@),
                mime == q.image_type@,
                items_jv(parts@) == user_parts(q.prompt@, mime, imgs.subrange(0, i as int)),
            decreases q.images@.len() - i,
        {
            let mut url = String::new();
            push_str(&mut url, "data:");
            push_str(&mut url, q.image_type.as_str());
            push_str(&mut url, ";base64,");
            push_str(&mut url, q.images[i].as_str());
            let mut inner: Vec<(String, Json)> = Vec::new();
            inner.push(entry("url", Json::Str(url)));
            let inner_obj = Json::Object(inner);
            let mut part: Vec<(String, Json)> = Vec::new();
            part.push(entry("image_url", inner_obj));
            part.push(entry("type", Json::Str(to_string("image_url"))));
            let p = Json::Object(part);
            proof {
                crate::dsl::refs::lemma_jv_object(inner_obj);
                crate::dsl::refs::lemma_jv_object(p);
                assert(crate::dsl::refs::entries_jv(inner@) =~= seq![("url"@, JsonV::Str(data_url(mime, imgs[i as int])))]);
                assert(crate::dsl::refs::entries_jv(part@) =~= seq![
                    ("image_url"@, JsonV::Object(seq![("url"@, JsonV::Str(data_url(mime, imgs[i as int])))])),
                    ("type"@, JsonV::Str("image_url"@)),
                ]);
            }
            let ghost before = parts@;
            parts.push(p);
            proof {
                assert(imgs.subrange(0, i + 1) =~= imgs.subrange(0, i as int).push(imgs[i as int]));
                assert(items_jv(parts@) =~= items_jv(before).push(image_part(mime, imgs[i as int])));
                assert(user_parts(q.prompt@, mime, imgs.subrange(0, i + 1)) =~= user_parts(q.prompt@, mime, imgs.subrange(0, i as int)).push(image_part(mime, imgs[i as int])));
            }
            i = i + 1;
        }
        assert(imgs.subrange(0, imgs.len() as int) =~= imgs);
        let content = Json::Array(parts);
        proof {
            lemma_jv_array(content);
        }
        let mut user: Vec<(String, Json)> = Vec::new();
        user.push(entry("content", content));
        user.push(entry("role", Json::Str(to_string("user"))));
        let user_obj = Json::Object(user);
        proof {
            crate::dsl::refs::lemma_jv_object(user_obj);
            assert(crate::dsl::refs::entries_jv(user@) =~= seq![("content"@, JsonV::Array(user_parts(q.prompt@, mime, imgs))), ("role"@, JsonV::Str("user"@))]);
        }
        let mut msgs: Vec<Json> = Vec::new();
        match &q.system {
            Some(s) => {
                let mut sys: Vec<(String, Json)> = Vec::new();
                sys.push(entry("content", Json::Str(to_string(s.as_str()))));
                sys.push(entry("role", Json::Str(to_string("system"))));
                let sys_obj = Json::Object(sys);
                proof {
                    crate::dsl::refs::lemma_jv_object(sys_obj);
                    assert(crate::dsl::refs::entries_jv(sys@) =~= seq![("content"@, JsonV::Str(s@)), ("role"@, JsonV::Str("system"@))]);
                }
                msgs.push(sys_obj);
            },
            None => {},
        }
        msgs.push(user_obj);
        let r = Json::Array(msgs);
        proof {
            lemma_jv_array(r);
            assert(items_jv(msgs@) =~= llm_messages(
                match q.system {
                    Some(s) => Some(s@),
                    None => None,
                },
                q.prompt@,
                mime,
                imgs,
            ));
        }
        r
    }

    /// The body of the completion request: the model, the messages (see
    /// `messages`), the token limit and the temperature.
    pub fn body(&self, q: &LlmRequest) -> (r: Json)
        ensures
            jv(r) == llm_body(
                q.model@,
                llm_messages(
                    match q.system {
                        Some(s) => Some(s@),
                        None => None,
                    },
                    q.prompt@,
                    q.image_type@,
                    crate::text::strs_view(q.images@),
                ),
                q.max_tokens as int,
                jv(Json::Number(q.temperature)),
            ),
    {
        let msgs = self.messages(q);
        let t = json_clone(&Json::Number(match &q.temperature {
            JsonNumber::Int(n) => JsonNumber::Int(*n),
            JsonNumber::Float(f) => JsonNumber::Float(FloatNum { mant: f.mant, exp: f.exp, text: to_string(f.text.as_str()) }),
        }));
        let mut es: Vec<(String, Json)> = Vec::new();
        es.push(entry("max_tokens", Json::Number(JsonNumber::Int(q.max_tokens as i128))));
        es.push(entry("messages", msgs));
        es.push(entry("model", Json::Str(to_string(q.model.as_str()))));
        es.push(entry("temperature", t));
        let r = Json::Object(es);
        proof {
            crate::dsl::refs::lemma_jv_object(r);
            assert(crate::dsl::refs::entries_jv(es@) =~= seq![
                ("max_tokens"@, JsonV::Int(q.max_tokens as int)),
                ("messages"@, jv(msgs)),
                ("model"@, JsonV::Str(q.model@)),
                ("temperature"@, jv(Json::Number(q.temperature))),
            ]);
        }
        r
    }

    /// What a run sends, from its inputs alone: a configuration error when
    /// `url`, `model` or `prompt` is missing or no string (and then nothing
    /// is sent), else the endpoint and the body POSTed to it.
    pub fn outgoing(&self, inputs: &Json) -> (r: Result<(String, Json), OperatorError>)
        ensures
            match llm_missing(*inputs) {
                Some(m) => r matches Err(OperatorError::Config(e)) && e@ == m,
                None => r matches Ok((url, body)) && Some(url@) == get_str(*inputs, "url"@) && jv(body) == llm_body(
                    get_str(*inputs, "model"@)->0,
                    llm_messages(
                        get_str(*inputs, "system"@),
                        get_str(*inputs, "prompt"@)->0,
                        match get_str(*inputs, "image_type"@) {
                            Some(t) => t,
                            None => "image/jpeg"@,
                        },
                        images_of(*inputs).0,
                    ),
                    max_tokens_of(*inputs),
                    temperature_of(*inputs),
                ),
            },
    {
        match self.request(inputs) {
            Err(e) => Err(e),
            Ok(q) => {
                let body = self.body(&q);
                proof {
                    let sys = match q.system {
                        Some(x) => Some(x@),
                        None => None::<Seq<char>>,
                    };
                    assert(sys == get_str(*inputs, "system"@));
                }
                Ok((q.url, body))
            },
        }
    }

    /// The error for a reply whose status is not a success: the status and
    /// the first 500 characters of the body.
    pub fn status_error(&self, status: &str, body: &str) -> (r: OperatorError)
        ensures
            r matches OperatorError::Runtime(m) && m@ == "llm HTTP "@ + status@ + ": "@ + body@.take(
                if 500 < body@.len() { 500 } else { body@.len() as int },
            ),
    {
        let preview = safe_truncate(body, 500);
        let mut m = String::new();
        push_str(&mut m, "llm HTTP ");
        push_str(&mut m, status);
        push_str(&mut m, ": ");
        push_str(&mut m, preview.as_str());
        OperatorError::Runtime(m)
    }

    /// The reply's text, or the error it reports (see `llm_reply`).
    pub fn reply(&self, resp: &Json, has_images: bool, model: &str) -> (r: Result<String, OperatorError>)
        ensures
            match llm_reply(*resp, has_images, model@) {
                Ok(c) => r matches Ok(s) && s@ == c,
                Err(m) => r matches Err(OperatorError::Runtime(e)) && e@ == m,
            },
    {
        proof {
            reveal_strlit("");
        }
        match get(resp, "error") {
            Some(err) => {
                let msg = str_or(err, "message", "unknown error");
                let code = str_or(err, "code", "");
                assert(""@ =~= Seq::<char>::empty());
                let hint_needed = has_images && (text_contains(msg.as_str(), "image") || text_contains(
                    msg.as_str(),
                    "vision",
                ) || text_contains(msg.as_str(), "multimodal") || text_contains(code.as_str(), "invalid_request"));
                let mut m = String::new();
                push_str(&mut m, "llm API error: ");
                push_str(&mut m, msg.as_str());
                if hint_needed {
                    push_str(&mut m, " — hint: model '");
                    push_str(&mut m, model);
                    push_str(&mut m, "' may not support vision/image inputs. ");
                } else {
                    assert(m@ =~= m@ + Seq::<char>::empty());
                }
                Err(OperatorError::Runtime(m))
            },
            None => {
                let content: Option<String> = match get(resp, "choices") {
                    Some(Json::Array(cs)) => {
                        if cs.len() > 0 {
                            match get(&cs[0], "message") {
                                Some(m) => match get(m, "content") {
                                    Some(Json::Str(c)) => Some(to_string(c.as_str())),
                                    _ => None,
                                },
                                None => None,
                            }
                        } else {
                            None
                        }
                    },
                    _ => None,
                };
                match content {
                    Some(c) => Ok(c),
                    None => Err(OperatorError::Runtime(to_string("llm response missing choices[0].message.content"))),
                }
            },
        }
    }
}

} // verus!
