//! Variable paths `{a.b.c}` and f-string templates `f"...{a.b}..."`.

use vstd::prelude::*;
use crate::json::{Json, jv, JsonV, json_clone};
use crate::text::{lead_ws, trail_ws, is_white, join, push_joined, push_char, debug_quote, push_debug_quoted, push_str, push_chars, to_string, slice_chars, chars_of, trim_bounds, trim_chars, split_chars, split, trim, strs_view, string_from_chars, ascii_alnum, is_ascii_alnum};


verus! {

/// A variable path parsed from the template syntax `{path.field}`: each
/// dot-separated segment is one element of `parts`.
#[derive(Debug, Clone, PartialEq)]
pub struct VariablePath {
    pub parts: Vec<String>,
}

impl VariablePath {
    pub open spec fn pv(&self) -> Seq<Seq<char>> {
        strs_view(self.parts@)
    }
}

/// Characters allowed in a path segment: ASCII letters, digits, `_` and `-`.
pub open spec fn is_path_char(c: char) -> bool {
    is_ascii_alnum(c) || c == '_' || c == '-'
}

/// The text between the braces of `{{...}}` or `{...}`.
pub open spec fn path_inner(t: Seq<char>) -> Option<Seq<char>> {
    if t.len() >= 4 && t[0] == '{' && t[1] == '{' && t[t.len() - 2] == '}' && t[t.len() - 1]
        == '}' {
        Some(t.subrange(2, t.len() - 2))
    } else if t.len() >= 2 && t[0] == '{' && t[t.len() - 1] == '}' {
        Some(t.subrange(1, t.len() - 1))
    } else {
        None
    }
}

pub open spec fn segment_ok(p: Seq<char>) -> bool {
    p.len() > 0 && forall|k: int| 0 <= k < p.len() ==> is_path_char(#[trigger] p[k])
}

/// The segments of a path body: split at `.`, each trimmed.
pub open spec fn path_segments(inner: Seq<char>) -> Seq<Seq<char>> {
    split(inner, '.').map_values(|p: Seq<char>| trim(p))
}

/// What `VariablePath::parse` gives for `s`.
pub open spec fn parse_path(s: Seq<char>) -> Option<Seq<Seq<char>>> {
    match path_inner(trim(s)) {
        None => None,
        Some(inner) => {
            let parts = path_segments(inner);
            if inner.len() > 0 && forall|i: int| 0 <= i < parts.len() ==> segment_ok(#[trigger] parts[i]) {
                Some(parts)
            } else {
                None
            }
        },
    }
}

/// Whether every character of `cs[a..b]` is a path character and the range is nonempty.
fn check_segment(cs: &Vec<char>) -> (r: bool)
    ensures
        r == segment_ok(cs@),
{
    if cs.len() == 0 {
        return false;
    }
    let mut i: usize = 0;
    while i < cs.len()
        invariant
            i <= cs@.len(),
            forall|k: int| 0 <= k < i ==> is_path_char(#[trigger] cs@[k]),
        decreases cs@.len() - i,
    {
        let c = cs[i];
        if !(ascii_alnum(c) || c == '_' || c == '-') {
            return false;
        }
        i = i + 1;
    }
    true
}

/// `VariablePath::parse` on the characters `cs[from..to]`.
#[verifier::loop_isolation(false)]
pub fn parse_path_chars(cs: &Vec<char>, from: usize, to: usize) -> (r: Option<VariablePath>)
    requires
        from <= to <= cs@.len(),
    ensures
        match r {
            Some(p) => parse_path(cs@.subrange(from as int, to as int)) == Some(p.pv()),
            None => parse_path(cs@.subrange(from as int, to as int)) is None,
        },
{
    let ghost s = cs@.subrange(from as int, to as int);
    let (a, b) = trim_bounds(cs, from, to);
    let ghost t = cs@.subrange(a as int, b as int);
    let n = b - a;
    let (ia, ib) = if n >= 4 && cs[a] == '{' && cs[a + 1] == '{' && cs[b - 2] == '}' && cs[b - 1]
        == '}' {
        assert(t.subrange(2, t.len() - 2) =~= cs@.subrange(a + 2, b - 2));
        (a + 2, b - 2)
    } else if n >= 2 && cs[a] == '{' && cs[b - 1] == '}' {
        assert(t.subrange(1, t.len() - 1) =~= cs@.subrange(a + 1, b - 1));
        (a + 1, b - 1)
    } else {
        return None;
    };
    assert(path_inner(t) == Some(cs@.subrange(ia as int, ib as int)));
    if ia == ib {
        return None;
    }
    let ghost inner = cs@.subrange(ia as int, ib as int);
    let pieces = split_chars(cs, ia, ib, '.');
    let ghost segs = path_segments(inner);
    assert(segs.len() == pieces@.len());
    let mut parts: Vec<String> = Vec::new();
    let mut i: usize = 0;
    while i < pieces.len()
        invariant
            i <= pieces@.len(),
            segs.len() == pieces@.len(),
            segs == path_segments(inner),
            pieces@.map_values(|v: Vec<char>| v@) == split(inner, '.'),
            strs_view(parts@) == segs.subrange(0, i as int),
            forall|k: int| 0 <= k < i ==> segment_ok(#[trigger] segs[k]),
        decreases pieces@.len() - i,
    {
        let seg = trim_chars(&pieces[i]);
        assert(seg@ == segs[i as int]);
        if !check_segment(&seg) {
            assert(!segment_ok(segs[i as int]));
            return None;
        }
        let st = string_from_chars(&seg);
        let ghost before = parts@;
        parts.push(st);
        assert(parts@ == before.push(st));
        assert(strs_view(parts@) =~= segs.subrange(0, i + 1)) by {
            assert forall|k: int| 0 <= k < i + 1 implies #[trigger] strs_view(parts@)[k] == segs.subrange(0, i + 1)[k] by {
                if k < i {
                    assert(parts@[k] == before[k]);
                    assert(strs_view(before)[k] == segs.subrange(0, i as int)[k]);
                }
            }
        }
        i = i + 1;
    }
    assert(segs.subrange(0, segs.len() as int) =~= segs);
    Some(VariablePath { parts })
}

proof fn lemma_split_plain(a: Seq<char>, b: Seq<char>, sep: char)
    requires
        forall|k: int| 0 <= k < b.len() ==> b[k] != sep,
    ensures
        split(a + b, sep) == split(a, sep).update(split(a, sep).len() - 1, split(a, sep).last() + b),
    decreases b.len(),
{
    crate::text::lemma_split_len(a, sep);
    if b.len() == 0 {
        assert(a + b =~= a);
        assert(split(a, sep).last() + b =~= split(a, sep).last());
        assert(split(a, sep).update(split(a, sep).len() - 1, split(a, sep).last()) =~= split(a, sep));
    } else {
        let b0 = b.drop_last();
        lemma_split_plain(a, b0, sep);
        assert((a + b).drop_last() =~= a + b0);
        assert((a + b).last() == b.last());
        crate::text::lemma_split_len(a + b0, sep);
        let r = split(a + b0, sep);
        let sa = split(a, sep);
        assert(b.last() != sep);
        assert(split(a + b, sep) == r.update(r.len() - 1, r.last().push(b.last())));
        assert(r.len() == sa.len());
        assert(r.last() == sa.last() + b0);
        assert(r.last().push(b.last()) =~= sa.last() + b);
        assert(split(a + b, sep) =~= sa.update(sa.len() - 1, sa.last() + b));
    }
}

proof fn lemma_no_white(p: Seq<char>)
    requires
        segment_ok(p),
    ensures
        trim(p) == p,
{
    assert(!is_white(p[0]));
    assert(!is_white(p.last()));
    assert(lead_ws(p) == 0);
    assert(p.skip(0) =~= p);
    assert(trail_ws(p) == 0);
    assert(p.take(p.len() as int) =~= p);
}

proof fn lemma_split_join(p: Seq<Seq<char>>)
    requires
        p.len() > 0,
        forall|i: int| 0 <= i < p.len() ==> segment_ok(#[trigger] p[i]),
    ensures
        split(join(p, '.'), '.') == p,
        join(p, '.').len() > 0,
        join(p, '.')[0] == p[0][0],
    decreases p.len(),
{
    let last = p.last();
    assert(segment_ok(p[p.len() - 1]));
    assert forall|k: int| 0 <= k < last.len() implies last[k] != '.' by {
        assert(is_path_char(last[k]));
    }
    if p.len() == 1 {
        lemma_split_plain(Seq::empty(), last, '.');
        assert(Seq::<char>::empty() + last =~= last);
        assert(split(last, '.') =~= p);
    } else {
        let q = p.drop_last();
        assert forall|i: int| 0 <= i < q.len() implies segment_ok(#[trigger] q[i]) by {
            assert(q[i] == p[i]);
        }
        lemma_split_join(q);
        let jq = join(q, '.');
        let a = jq + seq!['.'];
        assert(a.drop_last() =~= jq);
        assert(split(a, '.') == split(jq, '.').push(Seq::<char>::empty()));
        lemma_split_plain(a, last, '.');
        assert(join(p, '.') == jq + seq!['.'] + last);
        assert(split(join(p, '.'), '.') =~= p) by {
            assert(Seq::<char>::empty() + last =~= last);
        }
        assert(join(p, '.')[0] == jq[0]);
    }
}

/// A reference written out as `RefValue::to_value` writes it (`{a.b}`)
/// reads back, by `VariablePath::parse`, as the same path, provided it has
/// a segment and each segment is made of path characters.
pub proof fn lemma_path_round_trip(p: Seq<Seq<char>>)
    requires
        p.len() > 0,
        forall|i: int| 0 <= i < p.len() ==> segment_ok(#[trigger] p[i]),
    ensures
        parse_path(path_text(p)) == Some(p),
{
    lemma_split_join(p);
    let j = join(p, '.');
    let s = path_text(p);
    assert(segment_ok(p[0]));
    assert(is_path_char(p[0][0]));
    assert(s[0] == '{');
    assert(s[s.len() - 1] == '}');
    assert(!is_white(s[0]));
    assert(lead_ws(s) == 0);
    assert(s.skip(0) =~= s);
    assert(s.last() == '}');
    assert(!is_white(s.last()));
    assert(trail_ws(s) == 0);
    assert(s.take(s.len() as int) =~= s);
    assert(trim(s) == s);
    assert(s[1] == j[0]);
    assert(s.subrange(1, s.len() - 1) =~= j);
    assert(path_inner(s) == Some(j));
    assert forall|i: int| 0 <= i < p.len() implies trim(#[trigger] p[i]) == p[i] by {
        lemma_no_white(p[i]);
    }
    assert(path_segments(j) =~= p);
}

impl VariablePath {
    /// Parses `{...}` or `{{...}}` (surrounding whitespace allowed) into a
    /// variable path; `None` when the text is not such a path.
    pub fn parse(s: &str) -> (r: Option<VariablePath>)
        ensures
            match r {
                Some(p) => parse_path(s@) == Some(p.pv()),
                None => parse_path(s@) is None,
            },
    {
        let cs = chars_of(s);
        assert(cs@.subrange(0, cs@.len() as int) =~= cs@);
        parse_path_chars(&cs, 0, cs.len())
    }
}


/// One piece of an f-string template: literal text or a variable reference.
#[derive(Debug, Clone, PartialEq)]
pub enum TemplatePart {
    Lit(String),
    Ref(VariablePath),
}

/// The value of a template piece.
pub enum TPartV {
    Lit(Seq<char>),
    Ref(Seq<Seq<char>>),
}

impl TemplatePart {
    pub open spec fn tv(&self) -> TPartV {
        match self {
            TemplatePart::Lit(s) => TPartV::Lit(s@),
            TemplatePart::Ref(p) => TPartV::Ref(p.pv()),
        }
    }
}

pub open spec fn parts_view(ps: Seq<TemplatePart>) -> Seq<TPartV> {
    ps.map_values(|p: TemplatePart| p.tv())
}

/// Why an f-string is malformed.
pub enum FErr {
    /// It lacks the closing quote.
    NoClosingQuote,
    /// A `{` has no matching `}`.
    UnclosedRef,
    /// The text between braces is not a variable path.
    BadPath(Seq<char>),
    /// A `}` is not escaped.
    StrayBrace,
}

/// The first index `k >= j` with `s[k] == '}'`.
pub open spec fn close_index(s: Seq<char>, j: int) -> Option<int>
    decreases s.len() - j,
{
    if j < 0 || j >= s.len() {
        None
    } else if s[j] == '}' {
        Some(j)
    } else {
        close_index(s, j + 1)
    }
}

pub open spec fn flush(acc: Seq<TPartV>, lit: Seq<char>) -> Seq<TPartV> {
    if lit.len() > 0 {
        acc.push(TPartV::Lit(lit))
    } else {
        acc
    }
}

/// Scanning the body of an f-string from position `i`, with pending literal
/// text `lit` and the pieces `acc` found so far.
pub open spec fn fstr_go(s: Seq<char>, i: int, lit: Seq<char>, acc: Seq<TPartV>) -> Result<
    Seq<TPartV>,
    FErr,
>
    decreases s.len() - i,
{
    if i < 0 || i >= s.len() {
        Ok(flush(acc, lit))
    } else if s[i] == '\\' {
        if i + 1 < s.len() {
            let d = s[i + 1];
            if d == '{' || d == '}' {
                fstr_go(s, i + 2, lit.push(d), acc)
            } else {
                fstr_go(s, i + 2, lit.push('\\').push(d), acc)
            }
        } else {
            fstr_go(s, i + 1, lit.push('\\'), acc)
        }
    } else if s[i] == '{' {
        match close_index(s, i + 1) {
            None => Err(FErr::UnclosedRef),
            Some(k) => {
                let content = s.subrange(i + 1, k);
                match parse_path(seq!['{'] + content + seq!['}']) {
                    None => Err(FErr::BadPath(content)),
                    Some(p) => if i < k && k < s.len() {
                        fstr_go(s, k + 1, Seq::empty(), flush(acc, lit).push(TPartV::Ref(p)))
                    } else {
                        Err(FErr::UnclosedRef)
                    },
                }
            },
        }
    } else if s[i] == '}' {
        Err(FErr::StrayBrace)
    } else {
        fstr_go(s, i + 1, lit.push(s[i]), acc)
    }
}

/// What `TemplatePart::parse_fstring` gives for `s`: `Ok(None)` when `s` does
/// not start with `f"`.
pub open spec fn parse_fstring_spec(s: Seq<char>) -> Result<Option<Seq<TPartV>>, FErr> {
    if !(s.len() >= 2 && s[0] == 'f' && s[1] == '"') {
        Ok(None)
    } else if s.len() < 3 || s.last() != '"' {
        Err(FErr::NoClosingQuote)
    } else {
        match fstr_go(s.subrange(2, s.len() - 1), 0, Seq::empty(), Seq::empty()) {
            Ok(p) => Ok(Some(p)),
            Err(e) => Err(e),
        }
    }
}

/// The error message for a malformed f-string `s`.
pub open spec fn fstr_message(e: FErr, s: Seq<char>) -> Seq<char> {
    match e {
        FErr::NoClosingQuote => "f-string 缺少结尾引号: "@ + debug_quote(s),
        FErr::UnclosedRef => "f-string 中的引用缺少闭合 '}': "@ + debug_quote(s),
        FErr::BadPath(c) => "f-string 中非法变量路径 '{"@ + c + "}': "@ + debug_quote(s),
        FErr::StrayBrace => "f-string 中的 '}' 需转义为 '\\}': "@ + debug_quote(s),
    }
}

fn fstr_error(e: Ghost<FErr>, prefix: &str, content: Option<&Vec<char>>, cs: &Vec<char>) -> (m: String)
    requires
        match e@ {
            FErr::BadPath(c) => content.is_some() && content.unwrap()@ == c && prefix@
                == "f-string 中非法变量路径 '{"@,
            FErr::NoClosingQuote => content.is_none() && prefix@ == "f-string 缺少结尾引号: "@,
            FErr::UnclosedRef => content.is_none() && prefix@ == "f-string 中的引用缺少闭合 '}': "@,
            FErr::StrayBrace => content.is_none() && prefix@ == "f-string 中的 '}' 需转义为 '\\}': "@,
        },
    ensures
        m@ == fstr_message(e@, cs@),
{
    let mut m = to_string(prefix);
    match content {
        Some(c) => {
            push_chars(&mut m, c);
            push_str(&mut m, "}': ");
        },
        None => {},
    }
    push_debug_quoted(&mut m, cs);
    proof {
        reveal_strlit("}': ");
    }
    m
}

fn flush_lit(parts: &mut Vec<TemplatePart>, lit: &Vec<char>)
    ensures
        parts_view(final(parts)@) == flush(parts_view(old(parts)@), lit@),
{
    if lit.len() > 0 {
        let s = string_from_chars(lit);
        let ghost before = parts@;
        parts.push(TemplatePart::Lit(s));
        assert(parts_view(parts@) =~= parts_view(before).push(TPartV::Lit(lit@)));
    }
}

impl TemplatePart {
    /// Parses an `f"..."` template. Not starting with `f"` gives `Ok(None)`;
    /// a missing closing quote, an unclosed reference, an invalid path or an
    /// unescaped `}` give `Err`; `\{` and `\}` stand for literal braces and
    /// any other `\x` is kept as it is.
    #[verifier::loop_isolation(false)]
    pub fn parse_fstring(s: &str) -> (r: Result<Option<Vec<TemplatePart>>, String>)
        ensures
            match parse_fstring_spec(s@) {
                Ok(None) => r matches Ok(None),
                Ok(Some(p)) => r matches Ok(Some(v)) && parts_view(v@) == p,
                Err(e) => r matches Err(m) && m@ == fstr_message(e, s@),
            },
    {
        let cs = chars_of(s);
        let n = cs.len();
        if !(n >= 2 && cs[0] == 'f' && cs[1] == '"') {
            return Ok(None);
        }
        if n < 3 || cs[n - 1] != '"' {
            proof { reveal_strlit("f-string 缺少结尾引号: "); }
            return Err(fstr_error(Ghost(FErr::NoClosingQuote), "f-string 缺少结尾引号: ", None, &cs));
        }
        let end = n - 1;
        let ghost body = cs@.subrange(2, end as int);
        let mut parts: Vec<TemplatePart> = Vec::new();
        let mut lit: Vec<char> = Vec::new();
        let mut i: usize = 2;
        assert(parts_view(parts@) =~= Seq::<TPartV>::empty());
        assert(lit@ =~= Seq::<char>::empty());
        while i < end
            invariant
                2 <= i <= end + 1,
                end == n - 1,
                n == cs@.len(),
                body == cs@.subrange(2, end as int),
                fstr_go(body, 0, Seq::empty(), Seq::empty()) == fstr_go(
                    body,
                    i - 2,
                    lit@,
                    parts_view(parts@),
                ),
            decreases end - i,
        {
            let c = cs[i];
            let ghost j = i - 2;
            assert(body[j] == c);
            if c == '\\' {
                if i + 1 < end {
                    let d = cs[i + 1];
                    assert(body[j + 1] == d);
                    if d == '{' || d == '}' {
                        lit.push(d);
                    } else {
                        lit.push('\\');
                        lit.push(d);
                    }
                    i = i + 2;
                } else {
                    lit.push('\\');
                    i = i + 1;
                }
            } else if c == '{' {
                let mut k = i + 1;
                while k < end && cs[k] != '}'
                    invariant
                        i + 1 <= k <= end,
                        close_index(body, j + 1) == close_index(body, k - 2),
                    decreases end - k,
                {
                    assert(body[k - 2] != '}');
                    k = k + 1;
                }
                if k == end {
                    proof { reveal_strlit("f-string 中的引用缺少闭合 '}': "); }
                    return Err(
                        fstr_error(Ghost(FErr::UnclosedRef), "f-string 中的引用缺少闭合 '}': ", None, &cs),
                    );
                }
                assert(close_index(body, j + 1) == Some(k - 2));
                let content = slice_chars(&cs, i + 1, k);
                assert(content@ =~= body.subrange(j + 1, k - 2));
                let mut w: Vec<char> = Vec::new();
                w.push('{');
                let mut q: usize = 0;
                while q < content.len()
                    invariant
                        q <= content@.len(),
                        w@ == seq!['{'] + content@.subrange(0, q as int),
                    decreases content@.len() - q,
                {
                    w.push(content[q]);
                    assert(content@.subrange(0, q + 1) =~= content@.subrange(0, q as int).push(content@[q as int]));
                    q = q + 1;
                }
                w.push('}');
                assert(w@ =~= seq!['{'] + content@ + seq!['}']);
                assert(w@.subrange(0, w@.len() as int) =~= w@);
                match parse_path_chars(&w, 0, w.len()) {
                    None => {
                        proof { reveal_strlit("f-string 中非法变量路径 '{"); }
                        return Err(
                            fstr_error(
                                Ghost(FErr::BadPath(content@)),
                                "f-string 中非法变量路径 '{",
                                Some(&content),
                                &cs,
                            ),
                        );
                    },
                    Some(p) => {
                        flush_lit(&mut parts, &lit);
                        lit = Vec::new();
                        let ghost before = parts@;
                        parts.push(TemplatePart::Ref(p));
                        assert(parts_view(parts@) =~= parts_view(before).push(TPartV::Ref(p.pv())));
                        i = k + 1;
                    },
                }
            } else if c == '}' {
                proof { reveal_strlit("f-string 中的 '}' 需转义为 '\\}': "); }
                return Err(
                    fstr_error(Ghost(FErr::StrayBrace), "f-string 中的 '}' 需转义为 '\\}': ", None, &cs),
                );
            } else {
                lit.push(c);
                i = i + 1;
            }
        }
        flush_lit(&mut parts, &lit);
        assert(cs@ == s@);
        Ok(Some(parts))
    }
}


/// A JSON literal, a variable reference, or an f-string template.
#[derive(Debug, Clone, PartialEq)]
pub enum RefValue {
    Literal(Json),
    Ref(VariablePath),
    Template(Vec<TemplatePart>),
}

/// Literal text with `{` and `}` escaped as `\{` and `\}`.
pub open spec fn brace_escape(s: Seq<char>) -> Seq<char>
    decreases s.len(),
{
    if s.len() == 0 {
        Seq::empty()
    } else {
        let c = s.last();
        brace_escape(s.drop_last()) + (if c == '{' || c == '}' {
            seq!['\\', c]
        } else {
            seq![c]
        })
    }
}

/// `{a.b.c}` for the path `[a, b, c]`.
pub open spec fn path_text(p: Seq<Seq<char>>) -> Seq<char> {
    seq!['{'] + join(p, '.') + seq!['}']
}

pub open spec fn part_text(p: TPartV) -> Seq<char> {
    match p {
        TPartV::Lit(s) => brace_escape(s),
        TPartV::Ref(path) => path_text(path),
    }
}

pub open spec fn parts_text(ps: Seq<TPartV>) -> Seq<char>
    decreases ps.len(),
{
    if ps.len() == 0 {
        Seq::empty()
    } else {
        parts_text(ps.drop_last()) + part_text(ps.last())
    }
}

/// The string that writes a template back: `f"` + pieces + `"`.
pub open spec fn template_text(ps: Seq<TPartV>) -> Seq<char> {
    seq!['f', '"'] + parts_text(ps) + seq!['"']
}

fn push_path_text(out: &mut String, p: &VariablePath)
    ensures
        final(out)@ == old(out)@ + path_text(p.pv()),
{
    push_char(out, '{');
    push_joined(out, &p.parts, '.');
    push_char(out, '}');
}

fn push_brace_escaped(out: &mut String, s: &String)
    ensures
        final(out)@ == old(out)@ + brace_escape(s@),
{
    let cs = chars_of(s.as_str());
    let mut i: usize = 0;
    while i < cs.len()
        invariant
            i <= cs@.len(),
            cs@ == s@,
            out@ == old(out)@ + brace_escape(cs@.subrange(0, i as int)),
        decreases cs@.len() - i,
    {
        let c = cs[i];
        let ghost before = out@;
        if c == '{' || c == '}' {
            push_char(out, '\\');
        }
        push_char(out, c);
        assert(cs@.subrange(0, i + 1).drop_last() =~= cs@.subrange(0, i as int));
        assert(out@ =~= old(out)@ + brace_escape(cs@.subrange(0, i + 1)));
        i = i + 1;
    }
    assert(cs@.subrange(0, cs@.len() as int) =~= cs@);
}

impl RefValue {
    /// The plain JSON form: a literal as it is, a reference as the string
    /// `{a.b}`, a template as the string `f"..."` with literal braces escaped.
    pub fn to_value(&self) -> (r: Json)
        ensures
            match self {
                RefValue::Literal(v) => jv(r) == jv(*v),
                RefValue::Ref(p) => jv(r) == JsonV::Str(path_text(p.pv())),
                RefValue::Template(ps) => jv(r) == JsonV::Str(template_text(parts_view(ps@))),
            },
    {
        match self {
            RefValue::Literal(v) => json_clone(v),
            RefValue::Ref(p) => {
                let mut out = String::new();
                push_path_text(&mut out, p);
                assert(out@ =~= path_text(p.pv()));
                Json::Str(out)
            },
            RefValue::Template(ps) => {
                let mut out = String::new();
                push_char(&mut out, 'f');
                push_char(&mut out, '"');
                let ghost pv = parts_view(ps@);
                let mut i: usize = 0;
                while i < ps.len()
                    invariant
                        i <= ps@.len(),
                        pv == parts_view(ps@),
                        out@ == seq!['f', '"'] + parts_text(pv.subrange(0, i as int)),
                    decreases ps@.len() - i,
                {
                    match &ps[i] {
                        TemplatePart::Lit(s) => push_brace_escaped(&mut out, s),
                        TemplatePart::Ref(p) => push_path_text(&mut out, p),
                    }
                    assert(pv.subrange(0, i + 1).drop_last() =~= pv.subrange(0, i as int));
                    assert(out@ =~= seq!['f', '"'] + parts_text(pv.subrange(0, i + 1)));
                    i = i + 1;
                }
                push_char(&mut out, '"');
                assert(pv.subrange(0, ps@.len() as int) =~= pv);
                assert(out@ =~= template_text(pv));
                Json::Str(out)
            },
        }
    }
}

/// Template pieces as `parse_fstring` gives them: no empty literal, no two
/// literals in a row, and every reference, written back as `{a.b}`, reads
/// as the same path.
pub open spec fn parts_normal(ps: Seq<TPartV>) -> bool {
    &&& forall|k: int| #![trigger ps[k]] 0 <= k < ps.len() ==> (ps[k] matches TPartV::Lit(t) ==> t.len() > 0)
    &&& forall|k: int| #![trigger ps[k]] 0 <= k < ps.len() - 1 ==> !(ps[k] is Lit && ps[k + 1] is Lit)
    &&& forall|k: int| #![trigger ps[k]] 0 <= k < ps.len() ==> (ps[k] matches TPartV::Ref(p) ==> parse_path(path_text(p)) == Some(p))
}

/// A path that parses writes back to text that parses as itself.
proof fn lemma_parsed_path_writes_back(x: Seq<char>, p: Seq<Seq<char>>)
    requires
        parse_path(x) == Some(p),
    ensures
        parse_path(path_text(p)) == Some(p),
{
    let inner = path_inner(trim(x))->Some_0;
    crate::text::lemma_split_len(inner, '.');
    lemma_path_round_trip(p);
}

proof fn lemma_flush_normal(acc: Seq<TPartV>, lit: Seq<char>)
    requires
        parts_normal(acc),
        acc.len() == 0 || acc.last() is Ref,
    ensures
        parts_normal(flush(acc, lit)),
{
    let f = flush(acc, lit);
    if lit.len() > 0 {
        assert forall|k: int| 0 <= k < f.len() - 1 implies !(#[trigger] f[k] is Lit && f[k + 1] is Lit) by {
            if k + 1 == acc.len() {
                assert(f[k] == acc.last());
            } else {
                assert(f[k] == acc[k] && f[k + 1] == acc[k + 1]);
            }
        }
        assert forall|k: int| 0 <= k < f.len() implies (#[trigger] f[k] matches TPartV::Ref(p) ==> parse_path(path_text(p)) == Some(p)) by {
            if k < acc.len() {
                assert(f[k] == acc[k]);
            }
        }
        assert forall|k: int| 0 <= k < f.len() implies (#[trigger] f[k] matches TPartV::Lit(t) ==> t.len() > 0) by {
            if k < acc.len() {
                assert(f[k] == acc[k]);
            }
        }
    }
}

proof fn lemma_push_ref_normal(acc: Seq<TPartV>, p: Seq<Seq<char>>)
    requires
        parts_normal(acc),
        parse_path(path_text(p)) == Some(p),
    ensures
        parts_normal(acc.push(TPartV::Ref(p))),
{
    let f = acc.push(TPartV::Ref(p));
    assert forall|k: int| 0 <= k < f.len() - 1 implies !(#[trigger] f[k] is Lit && f[k + 1] is Lit) by {
        if k + 1 < acc.len() {
            assert(f[k] == acc[k] && f[k + 1] == acc[k + 1]);
        }
    }
    assert forall|k: int| 0 <= k < f.len() implies (#[trigger] f[k] matches TPartV::Ref(q) ==> parse_path(path_text(q)) == Some(q)) by {
        if k < acc.len() {
            assert(f[k] == acc[k]);
        }
    }
    assert forall|k: int| 0 <= k < f.len() implies (#[trigger] f[k] matches TPartV::Lit(t) ==> t.len() > 0) by {
        if k < acc.len() {
            assert(f[k] == acc[k]);
        }
    }
}

#[verifier::rlimit(40)]
proof fn lemma_fstr_go_normal(s: Seq<char>, i: int, lit: Seq<char>, acc: Seq<TPartV>)
    requires
        parts_normal(acc),
        acc.len() == 0 || acc.last() is Ref,
    ensures
        fstr_go(s, i, lit, acc) matches Ok(ps) ==> parts_normal(ps),
    decreases s.len() - i,
{
    if i < 0 || i >= s.len() {
        lemma_flush_normal(acc, lit);
    } else if s[i] == '\\' {
        if i + 1 < s.len() {
            let d = s[i + 1];
            if d == '{' || d == '}' {
                lemma_fstr_go_normal(s, i + 2, lit.push(d), acc);
            } else {
                lemma_fstr_go_normal(s, i + 2, lit.push('\\').push(d), acc);
            }
        } else {
            lemma_fstr_go_normal(s, i + 1, lit.push('\\'), acc);
        }
    } else if s[i] == '{' {
        match close_index(s, i + 1) {
            None => {},
            Some(k) => {
                let content = s.subrange(i + 1, k);
                match parse_path(seq!['{'] + content + seq!['}']) {
                    None => {},
                    Some(p) => if i < k && k < s.len() {
                        lemma_parsed_path_writes_back(seq!['{'] + content + seq!['}'], p);
                        lemma_flush_normal(acc, lit);
                        lemma_push_ref_normal(flush(acc, lit), p);
                        lemma_fstr_go_normal(s, k + 1, Seq::empty(), flush(acc, lit).push(TPartV::Ref(p)));
                    },
                }
            },
        }
    } else if s[i] == '}' {
    } else {
        lemma_fstr_go_normal(s, i + 1, lit.push(s[i]), acc);
    }
}

/// What `parse_fstring` gives has no empty literal and no two literals in
/// a row, and each of its references, written back as `{a.b}`, reads as
/// the same path.
pub proof fn lemma_fstring_parts_normal(s: Seq<char>)
    ensures
        parse_fstring_spec(s) matches Ok(Some(ps)) ==> parts_normal(ps),
{
    if s.len() >= 3 && s[0] == 'f' && s[1] == '"' && s.last() == '"' {
        lemma_fstr_go_normal(s.subrange(2, s.len() - 1), 0, Seq::empty(), Seq::empty());
    }
}

/// Whether a literal, written with its braces escaped, reads back as
/// itself from position `j` on. The reader takes a backslash and the
/// character after it together: such a backslash must not stand right
/// before a brace (the brace's own escape would be read as a plain
/// backslash), nor end the literal when a reference follows (`ref_next`:
/// the reference's `{` would be read as an escaped brace).
pub open spec fn literal_reads_back(t: Seq<char>, j: int, ref_next: bool) -> bool
    decreases t.len() - j,
{
    if j < 0 || j >= t.len() {
        true
    } else if t[j] == '\\' {
        if j + 1 < t.len() {
            !(t[j + 1] == '{' || t[j + 1] == '}') && literal_reads_back(t, j + 2, ref_next)
        } else {
            !ref_next
        }
    } else {
        literal_reads_back(t, j + 1, ref_next)
    }
}

/// Every literal piece reads back as itself (see `literal_reads_back`).
pub open spec fn literals_read_back(ps: Seq<TPartV>) -> bool {
    forall|k: int|
        #![trigger ps[k]]
        0 <= k < ps.len() ==> (ps[k] matches TPartV::Lit(t) ==> literal_reads_back(t, 0, k + 1 < ps.len()))
}

/// Joined segments hold no `}`.
proof fn lemma_join_no_close(p: Seq<Seq<char>>)
    requires
        forall|i: int| 0 <= i < p.len() ==> segment_ok(#[trigger] p[i]),
    ensures
        forall|k: int| 0 <= k < join(p, '.').len() ==> #[trigger] join(p, '.')[k] != '}',
    decreases p.len(),
{
    if p.len() > 1 {
        lemma_join_no_close(p.drop_last());
        let a = join(p.drop_last(), '.');
        let b = p.last();
        assert(segment_ok(b));
        assert forall|k: int| 0 <= k < join(p, '.').len() implies #[trigger] join(p, '.')[k] != '}' by {
            if k < a.len() {
                assert(join(p, '.')[k] == a[k]);
            } else if k > a.len() {
                assert(join(p, '.')[k] == b[k - a.len() - 1]);
                assert(is_path_char(b[k - a.len() - 1]));
            }
        }
    } else if p.len() == 1 {
        assert(segment_ok(p[0]));
        assert forall|k: int| 0 <= k < join(p, '.').len() implies #[trigger] join(p, '.')[k] != '}' by {
            assert(is_path_char(p[0][k]));
        }
    }
}

proof fn lemma_close_at(s: Seq<char>, a: int, b: int)
    requires
        0 <= a <= b < s.len(),
        s[b] == '}',
        forall|k: int| a <= k < b ==> s[k] != '}',
    ensures
        close_index(s, a) == Some(b),
    decreases b - a,
{
    if a < b {
        lemma_close_at(s, a + 1, b);
    }
}

proof fn lemma_parts_text_append(a: Seq<TPartV>, b: Seq<TPartV>)
    ensures
        parts_text(a + b) == parts_text(a) + parts_text(b),
    decreases b.len(),
{
    if b.len() == 0 {
        assert(a + b =~= a);
    } else {
        lemma_parts_text_append(a, b.drop_last());
        assert((a + b).drop_last() =~= a + b.drop_last());
        assert((a + b).last() == b.last());
    }
}

proof fn lemma_brace_escape_append(a: Seq<char>, b: Seq<char>)
    ensures
        brace_escape(a + b) == brace_escape(a) + brace_escape(b),
    decreases b.len(),
{
    if b.len() == 0 {
        assert(a + b =~= a);
    } else {
        lemma_brace_escape_append(a, b.drop_last());
        assert((a + b).drop_last() =~= a + b.drop_last());
        assert((a + b).last() == b.last());
    }
}

/// Scanning an escaped literal gathers it as pending text.
#[verifier::rlimit(40)]
proof fn lemma_scan_literal(s: Seq<char>, pos: int, t: Seq<char>, j: int, acc: Seq<TPartV>, ref_next: bool)
    requires
        0 <= pos,
        pos + brace_escape(t).len() <= s.len(),
        s.subrange(pos, pos + brace_escape(t).len()) == brace_escape(t),
        0 <= j <= t.len(),
        literal_reads_back(t, j, ref_next),
        ref_next ==> pos + brace_escape(t).len() < s.len() && s[pos + brace_escape(t).len()] == '{',
        !ref_next ==> pos + brace_escape(t).len() == s.len(),
    ensures
        fstr_go(s, pos + brace_escape(t.take(j)).len(), t.take(j), acc) == fstr_go(
            s,
            pos + brace_escape(t).len(),
            t,
            acc,
        ),
    decreases t.len() - j,
{
    if j == t.len() {
        assert(t.take(j) =~= t);
    } else {
        let c = t[j];
        let e = brace_escape(t);
        let ej = brace_escape(t.take(j));
        assert(t.take(j + 1).drop_last() =~= t.take(j));
        assert(t.take(j + 1).last() == c);
        assert(t =~= t.take(j + 1) + t.skip(j + 1));
        lemma_brace_escape_append(t.take(j + 1), t.skip(j + 1));
        let q = pos + ej.len();
        assert(s[q] == e[ej.len() as int]);
        if c == '{' || c == '}' {
            assert(e[ej.len() as int] == '\\');
            assert(s[q + 1] == e[ej.len() as int + 1]);
            assert(e[ej.len() as int + 1] == c);
            assert(t.take(j).push(c) =~= t.take(j + 1));
            lemma_scan_literal(s, pos, t, j + 1, acc, ref_next);
        } else if c == '\\' {
            if j + 1 < t.len() {
                let d = t[j + 1];
                assert(t.take(j + 2).drop_last() =~= t.take(j + 1));
                assert(t.take(j + 2).last() == d);
                assert(t =~= t.take(j + 2) + t.skip(j + 2));
                lemma_brace_escape_append(t.take(j + 2), t.skip(j + 2));
                assert(brace_escape(t.take(j + 2)) == ej + seq!['\\'] + seq![d]);
                assert(s[q + 1] == e[ej.len() as int + 1]);
                assert(e[ej.len() as int + 1] == d);
                assert(t.take(j).push('\\').push(d) =~= t.take(j + 2));
                lemma_scan_literal(s, pos, t, j + 2, acc, ref_next);
            } else {
                assert(t.take(j).push('\\') =~= t);
                assert(ej.len() + 1 == e.len());
            }
        } else {
            assert(e[ej.len() as int] == c);
            assert(t.take(j).push(c) =~= t.take(j + 1));
            lemma_scan_literal(s, pos, t, j + 1, acc, ref_next);
        }
    }
}

/// The pending text and pieces after the first `k` pieces.
pub open spec fn pending_after(ps: Seq<TPartV>, k: int) -> (Seq<char>, Seq<TPartV>) {
    if k > 0 && ps[k - 1] is Lit {
        (ps[k - 1]->Lit_0, ps.take(k - 1))
    } else {
        (Seq::empty(), ps.take(k))
    }
}

/// Scanning a written reference closes it as a piece.
#[verifier::rlimit(40)]
proof fn lemma_scan_ref(b: Seq<char>, pos: int, p: Seq<Seq<char>>, pend: Seq<char>, acc: Seq<TPartV>)
    requires
        0 <= pos,
        pos + path_text(p).len() <= b.len(),
        b.subrange(pos, pos + path_text(p).len()) == path_text(p),
        parse_path(path_text(p)) == Some(p),
    ensures
        fstr_go(b, pos, pend, acc) == fstr_go(b, pos + path_text(p).len(), Seq::empty(), flush(acc, pend).push(TPartV::Ref(p))),
{
    let inner = path_inner(trim(path_text(p)))->Some_0;
    crate::text::lemma_split_len(inner, '.');
    let jn = join(p, '.');
    lemma_join_no_close(p);
    let pt = path_text(p);
    assert(b[pos] == pt[0]);
    let close = pos + 1 + jn.len();
    assert(b[close] == pt[pt.len() - 1]);
    assert forall|q: int| pos + 1 <= q < close implies b[q] != '}' by {
        assert(b[q] == pt[q - pos]);
        assert(pt[q - pos] == jn[q - pos - 1]);
    }
    lemma_close_at(b, pos + 1, close);
    assert forall|q: int| 0 <= q < jn.len() implies #[trigger] b.subrange(pos + 1, close)[q] == jn[q] by {
        assert(b[pos + 1 + q] == pt[q + 1]);
    }
    assert(b.subrange(pos + 1, close) =~= jn);
}

/// Where piece `k` stands in the written pieces.
proof fn lemma_piece_at(ps: Seq<TPartV>, k: int)
    requires
        0 <= k < ps.len(),
    ensures
        parts_text(ps.take(k + 1)) == parts_text(ps.take(k)) + part_text(ps[k]),
        parts_text(ps.take(k + 1)).len() <= parts_text(ps).len(),
        parts_text(ps).subrange(parts_text(ps.take(k)).len() as int, parts_text(ps.take(k + 1)).len() as int) == part_text(ps[k]),
{
    assert(ps =~= ps.take(k + 1) + ps.skip(k + 1));
    lemma_parts_text_append(ps.take(k + 1), ps.skip(k + 1));
    assert(ps.take(k + 1).drop_last() =~= ps.take(k));
    assert(ps.take(k + 1).last() == ps[k]);
    let pre = parts_text(ps.take(k));
    let xt = part_text(ps[k]);
    assert(parts_text(ps).subrange(pre.len() as int, (pre.len() + xt.len()) as int) =~= xt);
}

/// The scan goes from piece `k` to piece `k + 1` without a change in what
/// it ends with.
#[verifier::rlimit(30)]
proof fn lemma_scan_step(ps: Seq<TPartV>, k: int)
    requires
        parts_normal(ps),
        literals_read_back(ps),
        0 <= k < ps.len(),
    ensures
        fstr_go(parts_text(ps), parts_text(ps.take(k)).len() as int, pending_after(ps, k).0, pending_after(ps, k).1)
            == fstr_go(
            parts_text(ps),
            parts_text(ps.take(k + 1)).len() as int,
            pending_after(ps, k + 1).0,
            pending_after(ps, k + 1).1,
        ),
{
    let b = parts_text(ps);
    let pos = parts_text(ps.take(k)).len() as int;
    let pend = pending_after(ps, k).0;
    let acc = pending_after(ps, k).1;
    lemma_piece_at(ps, k);
    match ps[k] {
        TPartV::Lit(t) => {
            if k > 0 {
                assert(!(ps[k - 1] is Lit && ps[k] is Lit));
            }
            let ref_next = k + 1 < ps.len();
            assert(literal_reads_back(t, 0, ref_next));
            if ref_next {
                assert(!(ps[k] is Lit && ps[k + 1] is Lit));
                lemma_piece_at(ps, k + 1);
                let p = ps[k + 1]->Ref_0;
                assert(part_text(ps[k + 1]) == path_text(p));
                assert(b[pos + brace_escape(t).len()] == path_text(p)[0]);
            } else {
                assert(ps.take(k + 1) =~= ps);
            }
            assert(t.take(0) =~= Seq::<char>::empty());
            lemma_scan_literal(b, pos, t, 0, acc, ref_next);
        },
        TPartV::Ref(p) => {
            assert(parse_path(path_text(p)) == Some(p));
            lemma_scan_ref(b, pos, p, pend, acc);
            if k > 0 && ps[k - 1] is Lit {
                assert(ps.take(k - 1).push(ps[k - 1]) =~= ps.take(k));
            }
            assert(ps.take(k).push(ps[k]) =~= ps.take(k + 1));
        },
    }
}

proof fn lemma_scan_parts(ps: Seq<TPartV>, k: int)
    requires
        parts_normal(ps),
        literals_read_back(ps),
        0 <= k <= ps.len(),
    ensures
        fstr_go(parts_text(ps), parts_text(ps.take(k)).len() as int, pending_after(ps, k).0, pending_after(ps, k).1) == Ok::<
            Seq<TPartV>,
            FErr,
        >(ps),
    decreases ps.len() - k,
{
    if k == ps.len() {
        assert(ps.take(k) =~= ps);
        if k > 0 && ps[k - 1] is Lit {
            assert(ps.take(k - 1).push(ps[k - 1]) =~= ps);
        }
    } else {
        lemma_scan_step(ps, k);
        lemma_scan_parts(ps, k + 1);
    }
}

/// Writing a template back and parsing it gives the same pieces, for
/// pieces as `parse_fstring` gives them (see `parts_normal`) whose
/// literals read back as themselves (see `literal_reads_back`: a backslash
/// that the reader would pair with a brace of the written text breaks the
/// round trip, and only such a one does).
pub proof fn lemma_template_round_trip(ps: Seq<TPartV>)
    requires
        parts_normal(ps),
        literals_read_back(ps),
    ensures
        parse_fstring_spec(template_text(ps)) == Ok::<Option<Seq<TPartV>>, FErr>(Some(ps)),
{
    let s = template_text(ps);
    assert(s.subrange(2, s.len() - 1) =~= parts_text(ps));
    assert(ps.take(0) =~= Seq::<TPartV>::empty());
    lemma_scan_parts(ps, 0);
}

} // verus!
