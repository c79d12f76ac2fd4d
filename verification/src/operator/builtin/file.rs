//! `file`: reads a local file or a remote URL into a JSON object. The
//! library decides which paths may be read, what type a file has, and what
//! the operator returns; the reading is left to the caller.

use vstd::prelude::*;
use crate::json::{Json, JsonNumber, JsonV, jv};
use crate::text::{to_string, chars_of, string_from_chars, split, split_chars, trim, trim_chars, strs_view, push_string};
use crate::dsl::refs::str_is;
use crate::operator::types::{OperatorError, OperatorSpec};
use crate::operator::builtin::base64::{b64_encode, b64_encode_bytes};

verus! {

pub struct FileOperator;

/// `str::to_lowercase`: Unicode lower case, character by character.
pub uninterp spec fn lowercase(s: Seq<char>) -> Seq<char>;

/// `str::to_lowercase` (std): the Unicode lower-case form of the text.
#[verifier::external_body]
fn to_lowercase(s: &str) -> (r: String)
    ensures
        r@ == lowercase(s@),
{
    s.to_lowercase()
}

/// The extension of a path as `Path::extension` finds it: the part of the
/// last component after its last `.`, if there is one.
pub uninterp spec fn path_extension(p: Seq<char>) -> Option<Seq<char>>;

/// `Path::extension` (std) of the path, as text.
#[verifier::external_body]
fn extension_of(p: &str) -> (r: Option<String>)
    ensures
        match path_extension(p@) {
            Some(e) => r matches Some(x) && x@ == e,
            None => r is None,
        },
{
    std::path::Path::new(p).extension().and_then(|e| e.to_str()).map(|e| e.to_string())
}

/// Whether a path begins with the components of another, as
/// `Path::starts_with` compares them (whole components only).
pub uninterp spec fn path_starts_with(p: Seq<char>, base: Seq<char>) -> bool;

/// `Path::starts_with` (std).
#[verifier::external_body]
fn starts_with_path(p: &str, base: &str) -> (r: bool)
    ensures
        r == path_starts_with(p@, base@),
{
    std::path::Path::new(p).starts_with(base)
}

/// The MIME type of a lower-case extension.
pub open spec fn mime_for(e: Seq<char>) -> Seq<char> {
    if e == "txt"@ {
        "text/plain"@
    } else if e == "md"@ {
        "text/markdown"@
    } else if e == "html"@ || e == "htm"@ {
        "text/html"@
    } else if e == "css"@ {
        "text/css"@
    } else if e == "js"@ {
        "application/javascript"@
    } else if e == "json"@ {
        "application/json"@
    } else if e == "yaml"@ || e == "yml"@ {
        "application/yaml"@
    } else if e == "xml"@ {
        "application/xml"@
    } else if e == "csv"@ {
        "text/csv"@
    } else if e == "png"@ {
        "image/png"@
    } else if e == "jpg"@ || e == "jpeg"@ {
        "image/jpeg"@
    } else if e == "gif"@ {
        "image/gif"@
    } else if e == "svg"@ {
        "image/svg+xml"@
    } else if e == "webp"@ {
        "image/webp"@
    } else if e == "ico"@ {
        "image/x-icon"@
    } else if e == "pdf"@ {
        "application/pdf"@
    } else if e == "zip"@ {
        "application/zip"@
    } else if e == "gz"@ {
        "application/gzip"@
    } else if e == "tar"@ {
        "application/x-tar"@
    } else if e == "mp3"@ {
        "audio/mpeg"@
    } else if e == "mp4"@ {
        "video/mp4"@
    } else if e == "wav"@ {
        "audio/wav"@
    } else if e == "ogg"@ {
        "audio/ogg"@
    } else if e == "webm"@ {
        "video/webm"@
    } else if e == "woff2"@ {
        "font/woff2"@
    } else if e == "ttf"@ {
        "font/ttf"@
    } else if e == "otf"@ {
        "font/otf"@
    } else {
        "application/octet-stream"@
    }
}

fn mime_of_lower(e: &str) -> (r: String)
    ensures
        r@ == mime_for(e@),
{
    let m = if str_is(e, "txt") {
        "text/plain"
    } else if str_is(e, "md") {
        "text/markdown"
    } else if str_is(e, "html") || str_is(e, "htm") {
        "text/html"
    } else if str_is(e, "css") {
        "text/css"
    } else if str_is(e, "js") {
        "application/javascript"
    } else if str_is(e, "json") {
        "application/json"
    } else if str_is(e, "yaml") || str_is(e, "yml") {
        "application/yaml"
    } else if str_is(e, "xml") {
        "application/xml"
    } else if str_is(e, "csv") {
        "text/csv"
    } else if str_is(e, "png") {
        "image/png"
    } else if str_is(e, "jpg") || str_is(e, "jpeg") {
        "image/jpeg"
    } else if str_is(e, "gif") {
        "image/gif"
    } else if str_is(e, "svg") {
        "image/svg+xml"
    } else if str_is(e, "webp") {
        "image/webp"
    } else if str_is(e, "ico") {
        "image/x-icon"
    } else if str_is(e, "pdf") {
        "application/pdf"
    } else if str_is(e, "zip") {
        "application/zip"
    } else if str_is(e, "gz") {
        "application/gzip"
    } else if str_is(e, "tar") {
        "application/x-tar"
    } else if str_is(e, "mp3") {
        "audio/mpeg"
    } else if str_is(e, "mp4") {
        "video/mp4"
    } else if str_is(e, "wav") {
        "audio/wav"
    } else if str_is(e, "ogg") {
        "audio/ogg"
    } else if str_is(e, "webm") {
        "video/webm"
    } else if str_is(e, "woff2") {
        "font/woff2"
    } else if str_is(e, "ttf") {
        "font/ttf"
    } else if str_is(e, "otf") {
        "font/otf"
    } else {
        "application/octet-stream"
    };
    to_string(m)
}

/// The MIME type of an extension, in any case.
pub fn extension_to_mimetype(ext: &str) -> (r: String)
    ensures
        r@ == mime_for(lowercase(ext@)),
{
    let lower = to_lowercase(ext);
    mime_of_lower(lower.as_str())
}

/// The MIME type of a file by the extension of its path.
pub fn detect_mimetype(path: &str) -> (r: String)
    ensures
        r@ == match path_extension(path@) {
            Some(e) => mime_for(lowercase(e)),
            None => "application/octet-stream"@,
        },
{
    match extension_of(path) {
        Some(e) => extension_to_mimetype(e.as_str()),
        None => to_string("application/octet-stream"),
    }
}

/// The trimmed, non-empty pieces.
pub open spec fn kept_roots(parts: Seq<Seq<char>>) -> Seq<Seq<char>>
    decreases parts.len(),
{
    if parts.len() == 0 {
        Seq::empty()
    } else {
        let rest = kept_roots(parts.drop_last());
        if trim(parts.last()).len() > 0 {
            rest.push(trim(parts.last()))
        } else {
            rest
        }
    }
}

proof fn lemma_kept_roots_len(parts: Seq<Seq<char>>)
    ensures
        kept_roots(parts).len() <= parts.len(),
    decreases parts.len(),
{
    if parts.len() > 0 {
        lemma_kept_roots_len(parts.drop_last());
    }
}

/// The allowed roots of a `:`-separated list, trimmed, with the empty ones
/// dropped, and the number dropped.
pub fn split_roots(raw: &str) -> (r: (Vec<String>, usize))
    ensures
        strs_view(r.0@) == kept_roots(split(raw@, ':')),
        r.1 == split(raw@, ':').len() - kept_roots(split(raw@, ':')).len(),
{
    let cs = chars_of(raw);
    let parts = split_chars(&cs, 0, cs.len(), ':');
    assert(cs@.subrange(0, cs@.len() as int) =~= cs@);
    let ghost all = split(raw@, ':');
    let mut kept: Vec<String> = Vec::new();
    let mut i: usize = 0;
    while i < parts.len()
        invariant
            i <= parts@.len(),
            parts@.map_values(|v: Vec<char>| v@) == all,
            strs_view(kept@) == kept_roots(all.subrange(0, i as int)),
        decreases parts@.len() - i,
    {
        assert(all.subrange(0, i + 1).drop_last() =~= all.subrange(0, i as int));
        assert(parts@[i as int]@ == all[i as int]);
        let t = trim_chars(&parts[i]);
        if t.len() > 0 {
            let s = string_from_chars(&t);
            push_string(&mut kept, s.as_str());
        }
        i = i + 1;
    }
    assert(all.subrange(0, all.len() as int) =~= all);
    proof {
        lemma_kept_roots_len(all);
    }
    let dropped = parts.len() - kept.len();
    (kept, dropped)
}

/// Whether a canonical path may be read under a `:`-separated list of
/// allowed roots: any path when the list is empty, no path when it holds
/// only empty pieces, otherwise a path under one of the roots.
pub fn is_allowed_path_with_roots(canonical: &str, roots: &str) -> (r: bool)
    ensures
        r == if roots@.len() == 0 {
            true
        } else {
            exists|i: int|
                0 <= i < kept_roots(split(roots@, ':')).len() && path_starts_with(
                    canonical@,
                    #[trigger] kept_roots(split(roots@, ':'))[i],
                )
        },
{
    proof {
        reveal_strlit("");
    }
    if str_is(roots, "") {
        return true;
    }
    assert(roots@.len() != 0) by {
        if roots@.len() == 0 {
            assert(roots@ =~= ""@);
        }
    }
    let (kept, _) = split_roots(roots);
    let ghost k = kept_roots(split(roots@, ':'));
    let mut i: usize = 0;
    while i < kept.len()
        invariant
            i <= kept@.len(),
            strs_view(kept@) == k,
            k == kept_roots(split(roots@, ':')),
            roots@.len() != 0,
            forall|j: int| 0 <= j < i ==> !path_starts_with(canonical@, #[trigger] k[j]),
        decreases kept@.len() - i,
    {
        assert(k[i as int] == kept@[i as int]@);
        if starts_with_path(canonical, kept[i].as_str()) {
            assert(path_starts_with(canonical@, k[i as int]));
            return true;
        }
        i = i + 1;
    }
    false
}

/// The operator's output for content read: `{"content": base64, "mimetype", "size"}`.
pub open spec fn file_output(bytes: Seq<u8>, mimetype: Seq<char>) -> JsonV {
    JsonV::Object(
        seq![
            ("content"@, JsonV::Str(b64_encode(bytes))),
            ("mimetype"@, JsonV::Str(mimetype)),
            ("size"@, JsonV::Int(bytes.len() as int)),
        ],
    )
}

impl FileOperator {
    pub fn spec(&self) -> (r: OperatorSpec)
        ensures
            r.op_type@ == "file"@,
            r.description@ == "读取本地文件或远程 URL，产出 JSON 对象"@,
            !r.iterate,
            !r.cache,
    {
        OperatorSpec::new("file", "读取本地文件或远程 URL，产出 JSON 对象").with_cache(false)
    }

    /// The output for the bytes read and their MIME type.
    pub fn output(&self, bytes: &Vec<u8>, mimetype: &str) -> (r: Json)
        requires
            bytes@.len() / 3 * 4 + 4 <= usize::MAX,
        ensures
            jv(r) == file_output(bytes@, mimetype@),
    {
        let content = b64_encode_bytes(bytes.as_slice());
        let mut es: Vec<(String, Json)> = Vec::new();
        es.push((to_string("content"), Json::Str(content)));
        es.push((to_string("mimetype"), Json::Str(to_string(mimetype))));
        es.push((to_string("size"), Json::Number(JsonNumber::Int(bytes.len() as i128))));
        let r = Json::Object(es);
        proof {
            crate::dsl::refs::lemma_jv_object(r);
            assert(crate::dsl::refs::entries_jv(es@) =~= seq![
                ("content"@, JsonV::Str(b64_encode(bytes@))),
                ("mimetype"@, JsonV::Str(mimetype@)),
                ("size"@, JsonV::Int(bytes@.len() as int)),
            ]);
        }
        r
    }

    /// The error when the inputs name neither a path nor a URL.
    pub fn missing_source(&self) -> (r: OperatorError)
        ensures
            r matches OperatorError::Config(m) && m@ == "file 算子需要 `path`（本地路径）或 `url`（远程地址）"@,
    {
        OperatorError::Config(to_string("file 算子需要 `path`（本地路径）或 `url`（远程地址）"))
    }
}

} // verus!
