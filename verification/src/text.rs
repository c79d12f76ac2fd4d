//! Character-level helpers shared by the parsers: strings are handled as
//! sequences of `char`, the view that vstd gives to `str` and `String`.

use vstd::prelude::*;

verus! {

/// `std::string::String::push`: appends one character.
#[verifier::external_body]
pub fn push_char(s: &mut String, c: char)
    ensures
        final(s)@ == old(s)@.push(c),
{
    s.push(c);
}

/// The characters of `s`, in order.
pub fn chars_of(s: &str) -> (v: Vec<char>)
    ensures
        v@ == s@,
{
    let n = s.unicode_len();
    let mut v: Vec<char> = Vec::new();
    let mut i: usize = 0;
    while i < n
        invariant
            n == s@.len(),
            i <= n,
            v@ == s@.subrange(0, i as int),
        decreases n - i,
    {
        let c = s.get_char(i);
        v.push(c);
        i = i + 1;
    }
    v
}

/// A `String` holding exactly the characters `cs[from..to]`.
pub fn string_from_range(cs: &Vec<char>, from: usize, to: usize) -> (s: String)
    requires
        from <= to <= cs@.len(),
    ensures
        s@ == cs@.subrange(from as int, to as int),
{
    let mut s = String::new();
    let mut i = from;
    while i < to
        invariant
            from <= i <= to <= cs@.len(),
            s@ == cs@.subrange(from as int, i as int),
        decreases to - i,
    {
        push_char(&mut s, cs[i]);
        i = i + 1;
    }
    s
}

/// A `String` holding exactly the characters of `cs`.
pub fn string_from_chars(cs: &Vec<char>) -> (s: String)
    ensures
        s@ == cs@,
{
    string_from_range(cs, 0, cs.len())
}

/// Character-wise equality of two character vectors.
pub fn chars_eq(a: &Vec<char>, b: &Vec<char>) -> (r: bool)
    ensures
        r == (a@ == b@),
{
    if a.len() != b.len() {
        return false;
    }
    let mut i: usize = 0;
    while i < a.len()
        invariant
            a@.len() == b@.len(),
            i <= a@.len(),
            forall|k: int| 0 <= k < i ==> a@[k] == b@[k],
        decreases a@.len() - i,
    {
        if a[i] != b[i] {
            return false;
        }
        i = i + 1;
    }
    assert(a@ =~= b@);
    true
}

} // verus!

verus! {

/// ASCII letters and digits (`char::is_ascii_alphanumeric`).
pub open spec fn is_ascii_alnum(c: char) -> bool {
    ('0' <= c && c <= '9') || ('a' <= c && c <= 'z') || ('A' <= c && c <= 'Z')
}

/// Unicode `White_Space` (`char::is_whitespace`), as the code points listed
/// by the Unicode character database.
pub open spec fn is_white(c: char) -> bool {
    let u = c as u32;
    (0x09 <= u && u <= 0x0d) || u == 0x20 || u == 0x85 || u == 0xa0 || u == 0x1680
        || (0x2000 <= u && u <= 0x200a) || u == 0x2028 || u == 0x2029 || u == 0x202f
        || u == 0x205f || u == 0x3000
}

pub fn ascii_alnum(c: char) -> (r: bool)
    ensures
        r == is_ascii_alnum(c),
{
    ('0' <= c && c <= '9') || ('a' <= c && c <= 'z') || ('A' <= c && c <= 'Z')
}

pub fn white(c: char) -> (r: bool)
    ensures
        r == is_white(c),
{
    let u = c as u32;
    (0x09 <= u && u <= 0x0d) || u == 0x20 || u == 0x85 || u == 0xa0 || u == 0x1680
        || (0x2000 <= u && u <= 0x200a) || u == 0x2028 || u == 0x2029 || u == 0x202f
        || u == 0x205f || u == 0x3000
}

/// Number of leading whitespace characters of `s`.
pub open spec fn lead_ws(s: Seq<char>) -> nat
    decreases s.len(),
{
    if s.len() > 0 && is_white(s[0]) {
        1 + lead_ws(s.drop_first())
    } else {
        0
    }
}

/// Number of trailing whitespace characters of `s`.
pub open spec fn trail_ws(s: Seq<char>) -> nat
    decreases s.len(),
{
    if s.len() > 0 && is_white(s.last()) {
        1 + trail_ws(s.drop_last())
    } else {
        0
    }
}

/// `str::trim`: `s` without its leading and trailing whitespace.
pub open spec fn trim(s: Seq<char>) -> Seq<char> {
    let t = s.skip(lead_ws(s) as int);
    t.take(t.len() - trail_ws(t))
}

pub proof fn lemma_lead_ws(s: Seq<char>)
    ensures
        lead_ws(s) <= s.len(),
        forall|k: int| 0 <= k < lead_ws(s) ==> is_white(#[trigger] s[k]),
        lead_ws(s) < s.len() ==> !is_white(s[lead_ws(s) as int]),
    decreases s.len(),
{
    if s.len() > 0 && is_white(s[0]) {
        lemma_lead_ws(s.drop_first());
        assert forall|k: int| 0 <= k < lead_ws(s) implies is_white(#[trigger] s[k]) by {
            if k > 0 {
                assert(s[k] == s.drop_first()[k - 1]);
            }
        }
    }
}

pub proof fn lemma_trail_ws(s: Seq<char>)
    ensures
        trail_ws(s) <= s.len(),
        forall|k: int| s.len() - trail_ws(s) <= k < s.len() ==> is_white(#[trigger] s[k]),
        trail_ws(s) < s.len() ==> !is_white(s[s.len() - trail_ws(s) - 1]),
    decreases s.len(),
{
    if s.len() > 0 && is_white(s.last()) {
        lemma_trail_ws(s.drop_last());
        assert forall|k: int| s.len() - trail_ws(s) <= k < s.len() implies is_white(#[trigger] s[k]) by {
            if k < s.len() - 1 {
                assert(s[k] == s.drop_last()[k]);
            }
        }
    }
}

/// A whitespace prefix of length `n` followed by a non-whitespace character
/// (or the end) is exactly `lead_ws`.
proof fn lemma_lead_ws_char(s: Seq<char>, n: int)
    requires
        0 <= n <= s.len(),
        forall|k: int| 0 <= k < n ==> is_white(#[trigger] s[k]),
        n < s.len() ==> !is_white(s[n]),
    ensures
        lead_ws(s) == n,
    decreases n,
{
    if n > 0 {
        assert forall|k: int| 0 <= k < n - 1 implies is_white(#[trigger] s.drop_first()[k]) by {
            assert(s.drop_first()[k] == s[k + 1]);
        }
        lemma_lead_ws_char(s.drop_first(), n - 1);
    }
}

proof fn lemma_trail_ws_char(s: Seq<char>, n: int)
    requires
        0 <= n <= s.len(),
        forall|k: int| s.len() - n <= k < s.len() ==> is_white(#[trigger] s[k]),
        n < s.len() ==> !is_white(s[s.len() - n - 1]),
    ensures
        trail_ws(s) == n,
    decreases n,
{
    if n > 0 {
        assert forall|k: int| s.len() - 1 - (n - 1) <= k < s.len() - 1 implies is_white(
            #[trigger] s.drop_last()[k],
        ) by {
            assert(s.drop_last()[k] == s[k]);
        }
        lemma_trail_ws_char(s.drop_last(), n - 1);
    }
}

/// The bounds `(start, end)` of `trim(cs[from..to])` inside `cs`.
pub fn trim_bounds(cs: &Vec<char>, from: usize, to: usize) -> (r: (usize, usize))
    requires
        from <= to <= cs@.len(),
    ensures
        from <= r.0 <= r.1 <= to,
        cs@.subrange(r.0 as int, r.1 as int) == trim(cs@.subrange(from as int, to as int)),
{
    let ghost s = cs@.subrange(from as int, to as int);
    let mut a = from;
    while a < to && white(cs[a])
        invariant
            from <= a <= to <= cs@.len(),
            forall|k: int| from <= k < a ==> is_white(#[trigger] cs@[k]),
        decreases to - a,
    {
        a = a + 1;
    }
    proof {
        assert forall|k: int| 0 <= k < a - from implies is_white(#[trigger] s[k]) by {
            assert(s[k] == cs@[k + from]);
        }
        lemma_lead_ws_char(s, a - from);
    }
    let mut b = to;
    while b > a && white(cs[b - 1])
        invariant
            from <= a <= b <= to <= cs@.len(),
            forall|k: int| b <= k < to ==> is_white(#[trigger] cs@[k]),
        decreases b - a,
    {
        b = b - 1;
    }
    proof {
        let t = s.skip(lead_ws(s) as int);
        assert(t =~= cs@.subrange(a as int, to as int));
        assert forall|k: int| t.len() - (to - b) <= k < t.len() implies is_white(#[trigger] t[k]) by {
            assert(t[k] == cs@[k + a]);
        }
        if to - b < t.len() {
            assert(t[t.len() - (to - b) - 1] == cs@[b - 1]);
        }
        lemma_trail_ws_char(t, to - b);
        assert(t.take(t.len() - trail_ws(t)) =~= cs@.subrange(a as int, b as int));
    }
    (a, b)
}

/// `str::trim` on a character vector.
pub fn trim_chars(cs: &Vec<char>) -> (r: Vec<char>)
    ensures
        r@ == trim(cs@),
{
    let (a, b) = trim_bounds(cs, 0, cs.len());
    assert(cs@.subrange(0, cs@.len() as int) =~= cs@);
    slice_chars(cs, a, b)
}

/// `cs[from..to]` as a new vector.
pub fn slice_chars(cs: &Vec<char>, from: usize, to: usize) -> (r: Vec<char>)
    requires
        from <= to <= cs@.len(),
    ensures
        r@ == cs@.subrange(from as int, to as int),
{
    let mut r: Vec<char> = Vec::new();
    let mut i = from;
    while i < to
        invariant
            from <= i <= to <= cs@.len(),
            r@ == cs@.subrange(from as int, i as int),
        decreases to - i,
    {
        r.push(cs[i]);
        i = i + 1;
    }
    r
}

/// `str::split(sep)`: the pieces between occurrences of `sep`; there is one
/// more piece than there are separators.
pub open spec fn split(s: Seq<char>, sep: char) -> Seq<Seq<char>>
    decreases s.len(),
{
    if s.len() == 0 {
        seq![Seq::<char>::empty()]
    } else {
        let r = split(s.drop_last(), sep);
        if s.last() == sep {
            r.push(Seq::<char>::empty())
        } else {
            r.update(r.len() - 1, r.last().push(s.last()))
        }
    }
}

pub proof fn lemma_split_len(s: Seq<char>, sep: char)
    ensures
        split(s, sep).len() >= 1,
    decreases s.len(),
{
    if s.len() > 0 {
        lemma_split_len(s.drop_last(), sep);
    }
}

/// The views of a vector of strings.
pub open spec fn strs_view(v: Seq<String>) -> Seq<Seq<char>> {
    v.map_values(|s: String| s@)
}

/// `cs[from..to].split(sep)`, each piece as a character vector.
pub fn split_chars(cs: &Vec<char>, from: usize, to: usize, sep: char) -> (r: Vec<Vec<char>>)
    requires
        from <= to <= cs@.len(),
    ensures
        r@.map_values(|v: Vec<char>| v@) == split(cs@.subrange(from as int, to as int), sep),
{
    let mut r: Vec<Vec<char>> = Vec::new();
    let mut cur: Vec<char> = Vec::new();
    let mut i = from;
    while i < to
        invariant
            from <= i <= to <= cs@.len(),
            r@.map_values(|v: Vec<char>| v@).push(cur@) == split(
                cs@.subrange(from as int, i as int),
                sep,
            ),
        decreases to - i,
    {
        let ghost before = r@.map_values(|v: Vec<char>| v@).push(cur@);
        let c = cs[i];
        proof {
            let s = cs@.subrange(from as int, i + 1);
            assert(s.drop_last() =~= cs@.subrange(from as int, i as int));
            assert(s.last() == c);
        }
        if c == sep {
            let done = cur;
            r.push(done);
            cur = Vec::new();
            assert(r@.map_values(|v: Vec<char>| v@).push(cur@) =~= before.push(
                Seq::<char>::empty(),
            ));
        } else {
            cur.push(c);
            assert(r@.map_values(|v: Vec<char>| v@).push(cur@) =~= before.update(
                before.len() - 1,
                before.last().push(c),
            ));
        }
        i = i + 1;
    }
    r.push(cur);
    r
}

/// Lexicographic order of character sequences by code point (the order of
/// `str`'s `Ord`, and of the keys of a JSON object).
pub open spec fn str_lt(a: Seq<char>, b: Seq<char>) -> bool
    decreases a.len(),
{
    if a.len() == 0 {
        b.len() > 0
    } else if b.len() == 0 {
        false
    } else if a[0] != b[0] {
        (a[0] as int) < (b[0] as int)
    } else {
        str_lt(a.drop_first(), b.drop_first())
    }
}

} // verus!

verus! {

/// The result of a three-way comparison.
#[derive(Debug, Clone, Copy, PartialEq, Eq, Structural)]
pub enum Order {
    Less,
    Equal,
    Greater,
}

impl Order {
    pub open spec fn flip(self) -> Order {
        match self {
            Order::Less => Order::Greater,
            Order::Equal => Order::Equal,
            Order::Greater => Order::Less,
        }
    }

    pub fn reverse(self) -> (r: Order)
        ensures
            r == self.flip(),
    {
        match self {
            Order::Less => Order::Greater,
            Order::Equal => Order::Equal,
            Order::Greater => Order::Less,
        }
    }
}

/// Three-way lexicographic comparison by code point.
pub open spec fn str_order(a: Seq<char>, b: Seq<char>) -> Order
    decreases a.len(),
{
    if a.len() == 0 {
        if b.len() == 0 {
            Order::Equal
        } else {
            Order::Less
        }
    } else if b.len() == 0 {
        Order::Greater
    } else if a[0] != b[0] {
        if (a[0] as int) < (b[0] as int) {
            Order::Less
        } else {
            Order::Greater
        }
    } else {
        str_order(a.drop_first(), b.drop_first())
    }
}

pub proof fn lemma_str_order_equal(a: Seq<char>, b: Seq<char>)
    ensures
        (str_order(a, b) == Order::Equal) <==> (a == b),
    decreases a.len(),
{
    if a.len() > 0 && b.len() > 0 && a[0] == b[0] {
        lemma_str_order_equal(a.drop_first(), b.drop_first());
        if a.drop_first() == b.drop_first() {
            assert(a =~= seq![a[0]] + a.drop_first());
            assert(b =~= seq![b[0]] + b.drop_first());
        }
    } else if a.len() == 0 && b.len() == 0 {
        assert(a =~= b);
    }
}

pub proof fn lemma_str_order_flip(a: Seq<char>, b: Seq<char>)
    ensures
        str_order(b, a) == str_order(a, b).flip(),
    decreases a.len(),
{
    if a.len() > 0 && b.len() > 0 && a[0] == b[0] {
        lemma_str_order_flip(a.drop_first(), b.drop_first());
    } else if a.len() > 0 && b.len() > 0 {
        assert((a[0] as int) != (b[0] as int));
    }
}

pub proof fn lemma_str_order_trans(a: Seq<char>, b: Seq<char>, c: Seq<char>)
    requires
        str_order(a, b) != Order::Greater,
        str_order(b, c) != Order::Greater,
    ensures
        str_order(a, c) != Order::Greater,
        (str_order(a, b) == Order::Less || str_order(b, c) == Order::Less) ==> str_order(a, c)
            == Order::Less,
    decreases a.len(),
{
    if a.len() > 0 && b.len() > 0 && c.len() > 0 && a[0] == b[0] && b[0] == c[0] {
        lemma_str_order_trans(a.drop_first(), b.drop_first(), c.drop_first());
    }
}

/// Three-way comparison of `a[a0..a1]` with `b[b0..b1]`.
pub fn order_chars(a: &Vec<char>, a0: usize, a1: usize, b: &Vec<char>, b0: usize, b1: usize) -> (r: Order)
    requires
        a0 <= a1 <= a@.len(),
        b0 <= b1 <= b@.len(),
    ensures
        r == str_order(a@.subrange(a0 as int, a1 as int), b@.subrange(b0 as int, b1 as int)),
    decreases a1 - a0,
{
    let ghost sa = a@.subrange(a0 as int, a1 as int);
    let ghost sb = b@.subrange(b0 as int, b1 as int);
    if a0 == a1 {
        if b0 == b1 { Order::Equal } else { Order::Less }
    } else if b0 == b1 {
        Order::Greater
    } else if a[a0] != b[b0] {
        if a[a0] < b[b0] { Order::Less } else { Order::Greater }
    } else {
        assert(sa.drop_first() =~= a@.subrange(a0 + 1, a1 as int));
        assert(sb.drop_first() =~= b@.subrange(b0 + 1, b1 as int));
        order_chars(a, a0 + 1, a1, b, b0 + 1, b1)
    }
}

/// Three-way comparison of two strings by code point.
pub fn order_str(a: &str, b: &str) -> (r: Order)
    ensures
        r == str_order(a@, b@),
{
    let ca = chars_of(a);
    let cb = chars_of(b);
    assert(ca@.subrange(0, ca@.len() as int) =~= ca@);
    assert(cb@.subrange(0, cb@.len() as int) =~= cb@);
    order_chars(&ca, 0, ca.len(), &cb, 0, cb.len())
}

/// Appends the characters of `t` to `s`.
pub fn push_str(s: &mut String, t: &str)
    ensures
        final(s)@ == old(s)@ + t@,
{
    let cs = chars_of(t);
    let mut i: usize = 0;
    while i < cs.len()
        invariant
            i <= cs@.len(),
            cs@ == t@,
            s@ == old(s)@ + cs@.subrange(0, i as int),
        decreases cs@.len() - i,
    {
        push_char(s, cs[i]);
        assert(cs@.subrange(0, i + 1) =~= cs@.subrange(0, i as int).push(cs@[i as int]));
        i = i + 1;
    }
    assert(cs@.subrange(0, cs@.len() as int) =~= cs@);
}

/// Appends the characters of `cs` to `s`.
pub fn push_chars(s: &mut String, cs: &Vec<char>)
    ensures
        final(s)@ == old(s)@ + cs@,
{
    let mut i: usize = 0;
    while i < cs.len()
        invariant
            i <= cs@.len(),
            s@ == old(s)@ + cs@.subrange(0, i as int),
        decreases cs@.len() - i,
    {
        push_char(s, cs[i]);
        assert(cs@.subrange(0, i + 1) =~= cs@.subrange(0, i as int).push(cs@[i as int]));
        i = i + 1;
    }
    assert(cs@.subrange(0, cs@.len() as int) =~= cs@);
}

/// A copy of `s` as a `String`.
pub fn to_string(s: &str) -> (r: String)
    ensures
        r@ == s@,
{
    let mut r = String::new();
    push_str(&mut r, s);
    r
}

/// `s` written as Rust's `{:?}` writes a string whose characters are printable:
/// in double quotes, with `"` and `\` escaped and tab, newline and carriage
/// return written as escapes.
pub open spec fn debug_quote(s: Seq<char>) -> Seq<char> {
    seq!['"'] + debug_escape(s) + seq!['"']
}

pub open spec fn escape_char(c: char) -> Seq<char> {
    if c == '"' {
        seq!['\\', '"']
    } else if c == '\\' {
        seq!['\\', '\\']
    } else if c == '\n' {
        seq!['\\', 'n']
    } else if c == '\r' {
        seq!['\\', 'r']
    } else if c == '\t' {
        seq!['\\', 't']
    } else {
        seq![c]
    }
}

pub open spec fn debug_escape(s: Seq<char>) -> Seq<char>
    decreases s.len(),
{
    if s.len() == 0 {
        Seq::empty()
    } else {
        debug_escape(s.drop_last()) + escape_char(s.last())
    }
}

/// Appends `debug_quote(cs)` to `out`.
pub fn push_debug_quoted(out: &mut String, cs: &Vec<char>)
    ensures
        final(out)@ == old(out)@ + debug_quote(cs@),
{
    push_char(out, '"');
    let mut i: usize = 0;
    while i < cs.len()
        invariant
            i <= cs@.len(),
            out@ == old(out)@ + seq!['"'] + debug_escape(cs@.subrange(0, i as int)),
        decreases cs@.len() - i,
    {
        let c = cs[i];
        let ghost before = out@;
        if c == '"' {
            push_char(out, '\\');
            push_char(out, '"');
        } else if c == '\\' {
            push_char(out, '\\');
            push_char(out, '\\');
        } else if c == '\n' {
            push_char(out, '\\');
            push_char(out, 'n');
        } else if c == '\r' {
            push_char(out, '\\');
            push_char(out, 'r');
        } else if c == '\t' {
            push_char(out, '\\');
            push_char(out, 't');
        } else {
            push_char(out, c);
        }
        assert(out@ =~= before + escape_char(c));
        assert(cs@.subrange(0, i + 1).drop_last() =~= cs@.subrange(0, i as int));
        i = i + 1;
    }
    assert(cs@.subrange(0, cs@.len() as int) =~= cs@);
    push_char(out, '"');
}

} // verus!

verus! {

/// The pieces joined with `sep` between them (`[..].join(".")`).
pub open spec fn join(parts: Seq<Seq<char>>, sep: char) -> Seq<char>
    decreases parts.len(),
{
    if parts.len() == 0 {
        Seq::empty()
    } else if parts.len() == 1 {
        parts[0]
    } else {
        join(parts.drop_last(), sep) + seq![sep] + parts.last()
    }
}

/// Appends `join(strs_view(parts), sep)` to `out`.
pub fn push_joined(out: &mut String, parts: &Vec<String>, sep: char)
    ensures
        final(out)@ == old(out)@ + join(strs_view(parts@), sep),
{
    let ghost v = strs_view(parts@);
    let mut i: usize = 0;
    while i < parts.len()
        invariant
            i <= parts@.len(),
            v == strs_view(parts@),
            out@ == old(out)@ + join(v.subrange(0, i as int), sep),
        decreases parts@.len() - i,
    {
        let ghost before = out@;
        if i > 0 {
            push_char(out, sep);
        }
        push_str(out, parts[i].as_str());
        proof {
            let w = v.subrange(0, i + 1);
            assert(w.drop_last() =~= v.subrange(0, i as int));
            assert(w.last() == parts@[i as int]@);
            if i == 0 {
                assert(join(v.subrange(0, 0), sep) =~= Seq::<char>::empty());
                assert(out@ =~= old(out)@ + join(w, sep));
            } else {
                assert(out@ =~= old(out)@ + join(w, sep));
            }
        }
        i = i + 1;
    }
    assert(v.subrange(0, parts@.len() as int) =~= v);
}

} // verus!

verus! {

pub open spec fn digit_char(d: int) -> char {
    if d == 0 { '0' } else if d == 1 { '1' } else if d == 2 { '2' } else if d == 3 { '3' }
    else if d == 4 { '4' } else if d == 5 { '5' } else if d == 6 { '6' } else if d == 7 { '7' }
    else if d == 8 { '8' } else { '9' }
}

/// The decimal digits of `n`.
pub open spec fn nat_text(n: nat) -> Seq<char>
    decreases n,
{
    if n < 10 {
        seq![digit_char(n as int)]
    } else {
        nat_text(n / 10) + seq![digit_char((n % 10) as int)]
    }
}

/// The decimal form of an integer, with `-` before a negative one.
pub open spec fn int_text(n: int) -> Seq<char> {
    if n < 0 {
        seq!['-'] + nat_text((-n) as nat)
    } else {
        nat_text(n as nat)
    }
}

pub fn digit(d: u128) -> (c: char)
    requires
        d < 10,
    ensures
        c == digit_char(d as int),
{
    if d == 0 { '0' } else if d == 1 { '1' } else if d == 2 { '2' } else if d == 3 { '3' }
    else if d == 4 { '4' } else if d == 5 { '5' } else if d == 6 { '6' } else if d == 7 { '7' }
    else if d == 8 { '8' } else { '9' }
}

/// Appends the decimal digits of `n` to `out`.
pub fn push_u128(out: &mut String, n: u128)
    ensures
        final(out)@ == old(out)@ + nat_text(n as nat),
    decreases n,
{
    if n < 10 {
        push_char(out, digit(n));
    } else {
        push_u128(out, n / 10);
        push_char(out, digit(n % 10));
    }
    assert(final(out)@ =~= old(out)@ + nat_text(n as nat));
}

/// Appends the decimal form of `n` to `out`.
pub fn push_i128(out: &mut String, n: i128)
    ensures
        final(out)@ == old(out)@ + int_text(n as int),
{
    if n < 0 {
        push_char(out, '-');
        let m: u128 = if n == i128::MIN {
            0x8000_0000_0000_0000_0000_0000_0000_0000u128
        } else {
            (-n) as u128
        };
        push_u128(out, m);
        assert(final(out)@ =~= old(out)@ + int_text(n as int));
    } else {
        push_u128(out, n as u128);
    }
}

pub open spec fn hex_char(d: int) -> char {
    if d < 10 { digit_char(d) } else if d == 10 { 'a' } else if d == 11 { 'b' } else if d == 12 { 'c' }
    else if d == 13 { 'd' } else if d == 14 { 'e' } else { 'f' }
}

pub fn hex_digit(d: u32) -> (c: char)
    requires
        d < 16,
    ensures
        c == hex_char(d as int),
{
    if d < 10 { digit(d as u128) } else if d == 10 { 'a' } else if d == 11 { 'b' } else if d == 12 { 'c' }
    else if d == 13 { 'd' } else if d == 14 { 'e' } else { 'f' }
}

pub open spec fn is_digit(c: char) -> bool {
    '0' <= c && c <= '9'
}

pub open spec fn digit_value(c: char) -> int {
    (c as int) - ('0' as int)
}

/// The value of a nonempty run of decimal digits.
pub open spec fn digits_value(s: Seq<char>) -> int
    decreases s.len(),
{
    if s.len() == 0 {
        0
    } else {
        digits_value(s.drop_last()) * 10 + digit_value(s.last())
    }
}

pub open spec fn all_digits(s: Seq<char>) -> bool {
    forall|k: int| 0 <= k < s.len() ==> is_digit(#[trigger] s[k])
}

/// `<u64 as FromStr>`-style parsing of an unsigned decimal: an optional `+`
/// and at least one digit, nothing else; the value, if it is at most `max`.
pub open spec fn parse_unsigned(s: Seq<char>, max: int) -> Option<int> {
    let d = if s.len() > 0 && s[0] == '+' { s.drop_first() } else { s };
    if d.len() > 0 && all_digits(d) && digits_value(d) <= max {
        Some(digits_value(d))
    } else {
        None
    }
}

/// A parsed unsigned value is nonnegative.
pub proof fn lemma_parse_unsigned_nonneg(s: Seq<char>, max: int)
    ensures
        parse_unsigned(s, max) matches Some(v) ==> v >= 0,
{
    let d = if s.len() > 0 && s[0] == '+' { s.drop_first() } else { s };
    if all_digits(d) {
        lemma_digits_value_nonneg(d);
    }
}

pub proof fn lemma_digit_char(d: int)
    requires
        0 <= d < 10,
    ensures
        is_digit(digit_char(d)),
        digit_value(digit_char(d)) == d,
{
}

/// The decimal digits of `n` read back give `n`.
pub proof fn lemma_nat_text(n: nat)
    ensures
        nat_text(n).len() > 0,
        all_digits(nat_text(n)),
        digits_value(nat_text(n)) == n,
    decreases n,
{
    lemma_digit_char((n % 10) as int);
    if n < 10 {
        lemma_digit_char(n as int);
        let t = nat_text(n);
        assert(t.drop_last() =~= Seq::<char>::empty());
        assert(digits_value(t.drop_last()) == 0);
        assert(all_digits(t)) by {
            assert forall|k: int| 0 <= k < t.len() implies is_digit(#[trigger] t[k]) by {
                assert(k == 0);
            }
        }
    } else {
        lemma_nat_text(n / 10);
        let t = nat_text(n);
        assert(digits_value(t) == digits_value(t.drop_last()) * 10 + digit_value(t.last()));
        assert(t.drop_last() =~= nat_text(n / 10));
        assert forall|k: int| 0 <= k < t.len() implies is_digit(#[trigger] t[k]) by {
            if k < t.len() - 1 {
                assert(t[k] == nat_text(n / 10)[k]);
            }
        }
    }
}

proof fn lemma_digits_value_nonneg(s: Seq<char>)
    requires
        all_digits(s),
    ensures
        digits_value(s) >= 0,
    decreases s.len(),
{
    if s.len() > 0 {
        assert(all_digits(s.drop_last())) by {
            assert forall|k: int| 0 <= k < s.drop_last().len() implies is_digit(#[trigger] s.drop_last()[k]) by {
                assert(s.drop_last()[k] == s[k]);
            }
        }
        lemma_digits_value_nonneg(s.drop_last());
    }
}

/// Parses `cs[from..to]` as an unsigned decimal no larger than `max`.
#[verifier::loop_isolation(false)]
pub fn parse_unsigned_chars(cs: &Vec<char>, from: usize, to: usize, max: u64) -> (r: Option<u64>)
    requires
        from <= to <= cs@.len(),
    ensures
        match r {
            Some(v) => parse_unsigned(cs@.subrange(from as int, to as int), max as int) == Some(
                v as int,
            ),
            None => parse_unsigned(cs@.subrange(from as int, to as int), max as int) is None,
        },
{
    let ghost s = cs@.subrange(from as int, to as int);
    let start = if from < to && cs[from] == '+' { from + 1 } else { from };
    let ghost d = cs@.subrange(start as int, to as int);
    assert(d == (if s.len() > 0 && s[0] == '+' { s.drop_first() } else { s }));
    if start == to {
        return None;
    }
    let mut v: u64 = 0;
    let mut i = start;
    while i < to
        invariant
            from <= start <= i <= to <= cs@.len(),
            d == cs@.subrange(start as int, to as int),
            all_digits(cs@.subrange(start as int, i as int)),
            v as int == digits_value(cs@.subrange(start as int, i as int)),
            v <= max,
        decreases to - i,
    {
        let c = cs[i];
        let ghost pre = cs@.subrange(start as int, i as int);
        let ghost next = cs@.subrange(start as int, i + 1);
        assert(next.drop_last() =~= pre);
        if !('0' <= c && c <= '9') {
            assert(!is_digit(d[i - start]));
            return None;
        }
        let dv = (c as u32 - '0' as u32) as u64;
        assert(dv as int == digit_value(c));
        if dv > max || v > (max - dv) / 10 {
            proof {
                assert(all_digits(next)) by {
                    assert forall|k: int| 0 <= k < next.len() implies is_digit(#[trigger] next[k]) by {
                        if k < pre.len() {
                            assert(next[k] == pre[k]);
                        }
                    }
                }
                assert(digits_value(next) == v * 10 + dv);
                assert(v * 10 + dv > max) by (nonlinear_arith)
                    requires
                        dv > max || v > (max - dv) / 10,
                        dv <= 9,
                        v >= 0,
                ;
                // the value only grows with more digits
                lemma_digits_grow(d, (i + 1 - start) as int);
                assert(d.subrange(0, (i + 1 - start) as int) =~= next);
            }
            return None;
        }
        proof {
            assert(v * 10 + dv <= max) by (nonlinear_arith)
                requires
                    v <= (max - dv) / 10,
                    dv <= max,
            ;
        }
        v = v * 10 + dv;
        proof {
            assert(all_digits(next)) by {
                assert forall|k: int| 0 <= k < next.len() implies is_digit(#[trigger] next[k]) by {
                    if k < pre.len() {
                        assert(next[k] == pre[k]);
                    }
                }
            }
        }
        i = i + 1;
    }
    Some(v)
}

/// With all digits, the value of a prefix bounds the value of the whole.
proof fn lemma_digits_grow(s: Seq<char>, k: int)
    requires
        0 <= k <= s.len(),
    ensures
        all_digits(s) ==> digits_value(s.subrange(0, k)) <= digits_value(s),
    decreases s.len() - k,
{
    if k < s.len() && all_digits(s) {
        lemma_digits_grow(s.drop_last(), k);
        assert(s.drop_last().subrange(0, k) =~= s.subrange(0, k));
        assert(all_digits(s.drop_last())) by {
            assert forall|q: int| 0 <= q < s.drop_last().len() implies is_digit(#[trigger] s.drop_last()[q]) by {
                assert(s.drop_last()[q] == s[q]);
            }
        }
        lemma_digits_value_nonneg(s.drop_last());
        assert(digits_value(s) >= digits_value(s.drop_last())) by (nonlinear_arith)
            requires
                digits_value(s) == digits_value(s.drop_last()) * 10 + digit_value(s.last()),
                digits_value(s.drop_last()) >= 0,
                digit_value(s.last()) >= 0,
        ;
    } else if k == s.len() {
        assert(s.subrange(0, k) =~= s);
    }
}

} // verus!

verus! {

/// Appends a copy of `s`.
pub fn push_string(out: &mut Vec<String>, s: &str)
    ensures
        strs_view(final(out)@) == strs_view(old(out)@).push(s@),
{
    let ghost prev = out@;
    let x = to_string(s);
    out.push(x);
    assert(out@ == prev.push(x));
    assert(strs_view(out@) =~= strs_view(prev).push(x@));
}

} // verus!
