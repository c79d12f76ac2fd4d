//! The step graph of a pipeline in the earlier form. Dependencies come from
//! `after` lists, from references `{id.output...}` inside input strings and
//! the iteration source, and from `{{id.output}}` templates in JS code.
//! Steps sharing an identifier are one node (the first definition is kept).

use vstd::prelude::*;
use crate::text::{chars_of, strs_view, push_string, string_from_range};
use crate::json::{Json, JsonV, jv};
use crate::dsl::schema::{PipelineDef, StepDef, parse_ref_spec, parse_variable_ref};
use crate::dsl::refs::{str_is, known_first, lemma_jv_array, lemma_jv_object, items_jv, entries_jv, append_strings, all_known, lemma_all_known_add};
use crate::sorted::sorted_set_of;
use crate::text::nat_text;
use crate::dsl::validator::{first_piece, unique_upto, as_ints};
use crate::sorted::{sorted_dedup_of, sort_dedup};
use crate::graph::{layer_graph, layering_ok, graph_ok, graph_view, has_cycle, lemma_rest_is_cycle};

verus! {

/// The first position at or after `i` holding `c`.
pub open spec fn find_from(s: Seq<char>, c: char, i: int) -> Option<int>
    decreases s.len() - i,
{
    if i < 0 || i >= s.len() {
        None
    } else if s[i] == c {
        Some(i)
    } else {
        find_from(s, c, i + 1)
    }
}

pub proof fn lemma_find_from(s: Seq<char>, c: char, i: int)
    ensures
        find_from(s, c, i) matches Some(j) ==> i <= j < s.len() && s[j] == c,
        i >= 0 && find_from(s, c, i) is None ==> forall|k: int| i <= k < s.len() ==> s[k] != c,
    decreases s.len() - i,
{
    if 0 <= i < s.len() && s[i] != c {
        lemma_find_from(s, c, i + 1);
    }
}

/// The steps referred to by `{...}` pieces of a string, from `start`: each
/// `{` up to the next `}` is read as a reference; its first segment counts
/// if it names a known step.
pub open spec fn string_deps(s: Seq<char>, known: Seq<Seq<char>>, start: int) -> Seq<Seq<char>>
    decreases s.len() - start,
{
    if start < 0 || start > s.len() {
        Seq::empty()
    } else {
        match find_from(s, '{', start) {
            None => Seq::empty(),
            Some(b) => match find_from(s, '}', b) {
                None => Seq::empty(),
                Some(e) => {
                    proof {
                        lemma_find_from(s, '{', start);
                        lemma_find_from(s, '}', b);
                    }
                    (match parse_ref_spec(s.subrange(b, e + 1)) {
                        Some(p) => known_first(p, known),
                        None => Seq::empty(),
                    }) + string_deps(s, known, e + 1)
                },
            },
        }
    }
}

/// The references found in the strings of JSON data.
pub open spec fn sjson_deps(v: JsonV, known: Seq<Seq<char>>) -> Seq<Seq<char>>
    decreases v,
{
    match v {
        JsonV::Str(s) => string_deps(s, known, 0),
        JsonV::Array(items) => sitems_deps(items, known),
        JsonV::Object(es) => sentries_deps(es, known),
        _ => Seq::empty(),
    }
}

pub open spec fn sitems_deps(items: Seq<JsonV>, known: Seq<Seq<char>>) -> Seq<Seq<char>>
    decreases items,
{
    if items.len() == 0 {
        Seq::empty()
    } else {
        sitems_deps(items.drop_last(), known) + sjson_deps(items.last(), known)
    }
}

pub open spec fn sentries_deps(es: Seq<(Seq<char>, JsonV)>, known: Seq<Seq<char>>) -> Seq<Seq<char>>
    decreases es,
{
    if es.len() == 0 {
        Seq::empty()
    } else {
        sentries_deps(es.drop_last(), known) + sjson_deps(es.last().1, known)
    }
}

/// The appearances of a pattern's first capture group, in order.
pub uninterp spec fn captures_of(pattern: Seq<char>, text: Seq<char>) -> Option<Seq<Seq<char>>>;

/// `regex::Regex::new(pattern)` then `captures_iter(text)`, taking capture
/// group 1 of each match; `None` when the pattern does not compile. Only
/// the code-template pattern is given, whose group 1 takes part in every
/// match (indexing a group that did not take part would panic).
#[verifier::external_body]
fn regex_captures(pattern: &str, text: &str) -> (r: Option<Vec<String>>)
    requires
        pattern@ == code_template_pattern(),
    ensures
        match captures_of(pattern@, text@) {
            Some(c) => r matches Some(v) && strs_view(v@) == c,
            None => r is None,
        },
{
    match regex::Regex::new(pattern) {
        Ok(re) => Some(re.captures_iter(text).map(|c| c[1].to_string()).collect()),
        Err(_) => None,
    }
}

/// The pattern of a code template: `{{name.path}}`.
pub open spec fn code_template_pattern() -> Seq<char> {
    "\\{\\{([a-zA-Z_][\\w.]*)\\}\\}"@
}

/// Known steps named first in captured template paths (among the first `n`).
pub open spec fn captured_firsts(caps: Seq<Seq<char>>, known: Seq<Seq<char>>, n: int) -> Seq<Seq<char>>
    decreases n,
{
    if n <= 0 {
        Seq::empty()
    } else {
        captured_firsts(caps, known, n - 1) + if known.contains(first_piece(caps[n - 1])) {
            seq![first_piece(caps[n - 1])]
        } else {
            Seq::empty()
        }
    }
}

/// The steps a step's JS code refers to by `{{id...}}` templates.
pub open spec fn code_deps(step: StepDef, known: Seq<Seq<char>>) -> Seq<Seq<char>> {
    match step.code {
        Some(c) => match captures_of(code_template_pattern(), c@) {
            Some(caps) => captured_firsts(caps, known, caps.len() as int),
            None => Seq::empty(),
        },
        None => Seq::empty(),
    }
}

pub open spec fn inputs_deps(step: StepDef, known: Seq<Seq<char>>) -> Seq<Seq<char>> {
    match step.inputs {
        Some(j) => sjson_deps(jv(j), known),
        None => Seq::empty(),
    }
}

pub open spec fn over_deps(step: StepDef, known: Seq<Seq<char>>) -> Seq<Seq<char>> {
    match step.iterate {
        Some(c) => string_deps(c.over@, known, 0),
        None => Seq::empty(),
    }
}

/// The implicit dependencies of a step: those of its inputs, of its
/// iteration source and of its code, each sorted without repeats.
pub open spec fn implicit_deps(step: StepDef, known: Seq<Seq<char>>) -> Seq<Seq<char>> {
    sorted_dedup_of(inputs_deps(step, known)) + sorted_dedup_of(over_deps(step, known)) + sorted_dedup_of(
        code_deps(step, known),
    )
}

pub open spec fn after_of(step: StepDef) -> Seq<Seq<char>> {
    match step.after {
        Some(a) => strs_view(a@),
        None => Seq::empty(),
    }
}

/// Appends the steps referred to by `{...}` pieces of `s`.
pub fn string_deps_exec(s: &str, known: &Vec<String>, out: &mut Vec<String>)
    ensures
        strs_view(final(out)@) == strs_view(old(out)@) + string_deps(s@, strs_view(known@), 0),
{
    let cs = chars_of(s);
    let n = cs.len();
    let mut start: usize = 0;
    loop
        invariant
            start <= n,
            n == cs@.len(),
            cs@ == s@,
            strs_view(out@) + string_deps(s@, strs_view(known@), start as int) == strs_view(old(out)@)
                + string_deps(s@, strs_view(known@), 0),
        decreases n + 1 - start,
    {
        // the next `{`
        let mut b = start;
        while b < n && cs[b] != '{'
            invariant
                start <= b <= n,
                n == cs@.len(),
                forall|k: int| start <= k < b ==> cs@[k] != '{',
            decreases n - b,
        {
            b = b + 1;
        }
        proof {
            lemma_find_from(s@, '{', start as int);
            lemma_find_first(s@, '{', start as int, b as int);
        }
        if b == n {
            assert(string_deps(s@, strs_view(known@), start as int) =~= Seq::<Seq<char>>::empty());
            assert(strs_view(out@) =~= strs_view(old(out)@) + string_deps(s@, strs_view(known@), 0));
            return;
        }
        let mut e = b;
        while e < n && cs[e] != '}'
            invariant
                b <= e <= n,
                n == cs@.len(),
                forall|k: int| b <= k < e ==> cs@[k] != '}',
            decreases n - e,
        {
            e = e + 1;
        }
        proof {
            lemma_find_from(s@, '}', b as int);
            lemma_find_first(s@, '}', b as int, e as int);
        }
        if e == n {
            assert(string_deps(s@, strs_view(known@), start as int) =~= Seq::<Seq<char>>::empty());
            assert(strs_view(out@) =~= strs_view(old(out)@) + string_deps(s@, strs_view(known@), 0));
            return;
        }
        let piece = string_from_range(&cs, b, e + 1);
        let ghost before = strs_view(out@);
        match parse_variable_ref(piece.as_str()) {
            Some(v) => {
                if v.parts.len() > 0 && string_in(known, v.parts[0].as_str()) {
                    push_string(out, v.parts[0].as_str());
                }
                proof {
                    let kf = known_first(v.pv(), strs_view(known@));
                    assert(strs_view(out@) =~= before + kf);
                }
            },
            None => {},
        }
        proof {
            let rest = string_deps(s@, strs_view(known@), e + 1);
            assert(strs_view(out@) + rest =~= before + string_deps(s@, strs_view(known@), start as int));
        }
        start = e + 1;
    }
}

/// The first match from `i` is at `j` when nothing before `j` matches.
proof fn lemma_find_first(s: Seq<char>, c: char, i: int, j: int)
    requires
        0 <= i <= j <= s.len(),
        forall|k: int| i <= k < j ==> s[k] != c,
        j < s.len() ==> s[j] == c,
    ensures
        j < s.len() ==> find_from(s, c, i) == Some(j),
        j == s.len() ==> find_from(s, c, i) is None,
    decreases j - i,
{
    if i < j {
        lemma_find_first(s, c, i + 1, j);
    }
}

/// Whether `s` is one of the strings.
pub fn string_in(v: &Vec<String>, s: &str) -> (r: bool)
    ensures
        r == strs_view(v@).contains(s@),
{
    let mut i: usize = 0;
    while i < v.len()
        invariant
            i <= v@.len(),
            forall|k: int| 0 <= k < i ==> strs_view(v@)[k] != s@,
        decreases v@.len() - i,
    {
        if str_is(v[i].as_str(), s) {
            assert(strs_view(v@)[i as int] == s@);
            return true;
        }
        i = i + 1;
    }
    false
}

/// Appends the references found in the strings of `j`.
#[verifier::loop_isolation(false)]
pub fn collect_string_deps(j: &Json, known: &Vec<String>, out: &mut Vec<String>)
    ensures
        strs_view(final(out)@) == strs_view(old(out)@) + sjson_deps(jv(*j), strs_view(known@)),
    decreases j,
{
    match j {
        Json::Str(st) => string_deps_exec(st.as_str(), known, out),
        Json::Array(items) => {
            proof {
                lemma_jv_array(*j);
            }
            let ghost its = items_jv(items@);
            let mut i: usize = 0;
            while i < items.len()
                invariant
                    i <= items@.len(),
                    its == items_jv(items@),
                    strs_view(out@) == strs_view(old(out)@) + sitems_deps(its.subrange(0, i as int), strs_view(known@)),
                decreases items@.len() - i,
            {
                proof {
                    assert(decreases_to!(items => items[i as int]));
                }
                collect_string_deps(&items[i], known, out);
                proof {
                    let w = its.subrange(0, i + 1);
                    assert(w.drop_last() =~= its.subrange(0, i as int));
                }
                i = i + 1;
            }
            assert(its.subrange(0, items@.len() as int) =~= its);
        },
        Json::Object(es) => {
            proof {
                lemma_jv_object(*j);
            }
            let ghost ents = entries_jv(es@);
            let mut i: usize = 0;
            while i < es.len()
                invariant
                    i <= es@.len(),
                    ents == entries_jv(es@),
                    strs_view(out@) == strs_view(old(out)@) + sentries_deps(ents.subrange(0, i as int), strs_view(known@)),
                decreases es@.len() - i,
            {
                proof {
                    assert(decreases_to!(es => es[i as int]));
                    assert(decreases_to!(es[i as int] => es[i as int].1));
                }
                collect_string_deps(&es[i].1, known, out);
                proof {
                    let w = ents.subrange(0, i + 1);
                    assert(w.drop_last() =~= ents.subrange(0, i as int));
                }
                i = i + 1;
            }
            assert(ents.subrange(0, es@.len() as int) =~= ents);
        },
        _ => {
            assert(strs_view(out@) =~= strs_view(old(out)@) + sjson_deps(jv(*j), strs_view(known@)));
        },
    }
}

/// The steps a step's code refers to by templates.
fn code_deps_exec(step: &StepDef, known: &Vec<String>) -> (r: Vec<String>)
    ensures
        strs_view(r@) == code_deps(*step, strs_view(known@)),
{
    let mut out: Vec<String> = Vec::new();
    if let Some(c) = &step.code {
        let pat = "\\{\\{([a-zA-Z_][\\w.]*)\\}\\}";
        match regex_captures(pat, c.as_str()) {
            Some(caps) => {
                let mut k: usize = 0;
                while k < caps.len()
                    invariant
                        k <= caps@.len(),
                        strs_view(out@) == captured_firsts(strs_view(caps@), strs_view(known@), k as int),
                    decreases caps@.len() - k,
                {
                    let f = crate::dsl::validator::first_piece_exec(caps[k].as_str());
                    assert(strs_view(caps@)[k as int] == caps@[k as int]@);
                    if string_in(known, f.as_str()) {
                        push_string(&mut out, f.as_str());
                    }
                    assert(strs_view(out@) =~= captured_firsts(strs_view(caps@), strs_view(known@), k + 1));
                    k = k + 1;
                }
            },
            None => {},
        }
    }
    out
}

/// The implicit dependencies of a step.
pub fn implicit_deps_exec(step: &StepDef, known: &Vec<String>) -> (r: Vec<String>)
    ensures
        strs_view(r@) == implicit_deps(*step, strs_view(known@)),
        all_known(implicit_deps(*step, strs_view(known@)), strs_view(known@)),
{
    let mut a: Vec<String> = Vec::new();
    if let Some(j) = &step.inputs {
        collect_string_deps(j, known, &mut a);
    }
    assert(strs_view(a@) =~= inputs_deps(*step, strs_view(known@)));
    let mut b: Vec<String> = Vec::new();
    if let Some(c) = &step.iterate {
        string_deps_exec(c.over.as_str(), known, &mut b);
    }
    assert(strs_view(b@) =~= over_deps(*step, strs_view(known@)));
    let c = code_deps_exec(step, known);
    let mut out = sort_dedup(&a);
    let sb = sort_dedup(&b);
    let sc = sort_dedup(&c);
    append_strings(&mut out, &sb);
    append_strings(&mut out, &sc);
    proof {
        lemma_implicit_known(*step, strs_view(known@));
    }
    out
}

proof fn lemma_string_deps_known(s: Seq<char>, known: Seq<Seq<char>>, start: int)
    ensures
        all_known(string_deps(s, known, start), known),
    decreases s.len() - start,
{
    if 0 <= start <= s.len() {
        lemma_find_from(s, '{', start);
        if let Some(b) = find_from(s, '{', start) {
            lemma_find_from(s, '}', b);
            if let Some(e) = find_from(s, '}', b) {
                lemma_string_deps_known(s, known, e + 1);
                let head = match parse_ref_spec(s.subrange(b, e + 1)) {
                    Some(p) => known_first(p, known),
                    None => Seq::empty(),
                };
                lemma_all_known_add(head, string_deps(s, known, e + 1), known);
            }
        }
    }
}

proof fn lemma_sjson_known(v: JsonV, known: Seq<Seq<char>>)
    ensures
        all_known(sjson_deps(v, known), known),
    decreases v,
{
    match v {
        JsonV::Str(st) => lemma_string_deps_known(st, known, 0),
        JsonV::Array(items) => lemma_sitems_known(items, known),
        JsonV::Object(es) => lemma_sentries_known(es, known),
        _ => {},
    }
}

proof fn lemma_sitems_known(items: Seq<JsonV>, known: Seq<Seq<char>>)
    ensures
        all_known(sitems_deps(items, known), known),
    decreases items,
{
    if items.len() > 0 {
        lemma_sitems_known(items.drop_last(), known);
        lemma_sjson_known(items.last(), known);
        lemma_all_known_add(sitems_deps(items.drop_last(), known), sjson_deps(items.last(), known), known);
    }
}

proof fn lemma_sentries_known(es: Seq<(Seq<char>, JsonV)>, known: Seq<Seq<char>>)
    ensures
        all_known(sentries_deps(es, known), known),
    decreases es,
{
    if es.len() > 0 {
        lemma_sentries_known(es.drop_last(), known);
        lemma_sjson_known(es.last().1, known);
        lemma_all_known_add(sentries_deps(es.drop_last(), known), sjson_deps(es.last().1, known), known);
    }
}

proof fn lemma_captured_known(caps: Seq<Seq<char>>, known: Seq<Seq<char>>, n: int)
    ensures
        all_known(captured_firsts(caps, known, n), known),
    decreases n,
{
    if n > 0 {
        lemma_captured_known(caps, known, n - 1);
        let extra = if known.contains(first_piece(caps[n - 1])) {
            seq![first_piece(caps[n - 1])]
        } else {
            Seq::empty()
        };
        lemma_all_known_add(captured_firsts(caps, known, n - 1), extra, known);
    }
}

proof fn lemma_sorted_known(t: Seq<Seq<char>>, s: Seq<Seq<char>>, known: Seq<Seq<char>>)
    requires
        sorted_set_of(t, s),
        all_known(s, known),
    ensures
        all_known(t, known),
{
    assert forall|k: int| 0 <= k < t.len() implies known.contains(#[trigger] t[k]) by {
        assert(t.contains(t[k]));
        assert(s.contains(t[k]));
        let j = choose|j: int| 0 <= j < s.len() && s[j] == t[k];
    }
}

/// The implicit dependencies of a step are known steps.
pub proof fn lemma_implicit_known(step: StepDef, known: Seq<Seq<char>>)
    requires
        exists|t: Seq<Seq<char>>| sorted_set_of(t, inputs_deps(step, known)),
        exists|t: Seq<Seq<char>>| sorted_set_of(t, over_deps(step, known)),
        exists|t: Seq<Seq<char>>| sorted_set_of(t, code_deps(step, known)),
    ensures
        all_known(implicit_deps(step, known), known),
{
    match step.inputs {
        Some(j) => lemma_sjson_known(jv(j), known),
        None => {},
    }
    match step.iterate {
        Some(c) => lemma_string_deps_known(c.over@, known, 0),
        None => {},
    }
    match step.code {
        Some(c) => match captures_of(code_template_pattern(), c@) {
            Some(caps) => lemma_captured_known(caps, known, caps.len() as int),
            None => {},
        },
        None => {},
    }
    let a = sorted_dedup_of(inputs_deps(step, known));
    let b = sorted_dedup_of(over_deps(step, known));
    let c = sorted_dedup_of(code_deps(step, known));
    lemma_sorted_known(a, inputs_deps(step, known), known);
    lemma_sorted_known(b, over_deps(step, known), known);
    lemma_sorted_known(c, code_deps(step, known), known);
    lemma_all_known_add(a, b, known);
    lemma_all_known_add(a + b, c, known);
}

/// Why a DAG could not be built or sorted.
#[derive(Debug, Clone)]
pub enum DagError {
    /// A cycle: each unplaced step, written `id (n)` with the number of its
    /// dependencies left unplaced.
    CycleFound(Vec<String>),
    /// An `after` entry names no step.
    RefNotFound(String),
    /// The pipeline has no steps.
    EmptyGraph,
}

pub open spec fn all_ids(def: PipelineDef) -> Seq<Seq<char>> {
    Seq::new(def.steps@.len(), |i: int| def.steps@[i].id@)
}

/// The first `after` entry (steps in order, from step `i`) naming no step.
pub open spec fn missing_after(def: PipelineDef, ids: Seq<Seq<char>>, i: int) -> Option<Seq<char>>
    decreases def.steps@.len() - i,
{
    if i < 0 || i >= def.steps@.len() {
        None
    } else {
        match crate::engine::dag::first_unknown(after_of(def.steps@[i]), ids, 0) {
            Some(x) => Some(x),
            None => missing_after(def, ids, i + 1),
        }
    }
}

/// `after` entries of the steps (among the first `n`) named `x`.
pub open spec fn id_after(def: PipelineDef, x: Seq<char>, n: int) -> Seq<Seq<char>>
    decreases n,
{
    if n <= 0 {
        Seq::empty()
    } else {
        id_after(def, x, n - 1) + if def.steps@[n - 1].id@ == x {
            after_of(def.steps@[n - 1])
        } else {
            Seq::empty()
        }
    }
}

/// Implicit dependencies of the steps (among the first `n`) named `x`.
pub open spec fn id_implicit(def: PipelineDef, x: Seq<char>, n: int) -> Seq<Seq<char>>
    decreases n,
{
    if n <= 0 {
        Seq::empty()
    } else {
        id_implicit(def, x, n - 1) + if def.steps@[n - 1].id@ == x {
            implicit_deps(def.steps@[n - 1], all_ids(def))
        } else {
            Seq::empty()
        }
    }
}

/// Steps (among the first `n`) whose `after` lists name `x`, once per entry.
pub open spec fn rev_after(def: PipelineDef, x: Seq<char>, n: int) -> Seq<Seq<char>>
    decreases n,
{
    if n <= 0 {
        Seq::empty()
    } else {
        let a = after_of(def.steps@[n - 1]);
        rev_after(def, x, n - 1) + crate::engine::dag::hits(a, x, def.steps@[n - 1].id@, a.len() as int)
    }
}

/// Steps (among the first `n`) implicitly depending on `x`.
pub open spec fn rev_implicit(def: PipelineDef, x: Seq<char>, n: int) -> Seq<Seq<char>>
    decreases n,
{
    if n <= 0 {
        Seq::empty()
    } else {
        let d = implicit_deps(def.steps@[n - 1], all_ids(def));
        rev_implicit(def, x, n - 1) + crate::engine::dag::hits(d, x, def.steps@[n - 1].id@, d.len() as int)
    }
}

/// The step graph (borrowing the pipeline). Node `t` stands for the `t`-th
/// distinct identifier.
#[derive(Debug, Clone)]
pub struct Dag<'a> {
    def: &'a PipelineDef,
    nodes: Vec<usize>,
    preds: Vec<Vec<String>>,
    succs: Vec<Vec<String>>,
    graph: Vec<Vec<usize>>,
}

impl<'a> Dag<'a> {
    pub closed spec fn pipeline(&self) -> PipelineDef {
        *self.def
    }

    /// The distinct identifiers, in order of first definition.
    pub closed spec fn node_ids(&self) -> Seq<Seq<char>> {
        Seq::new(self.nodes@.len(), |t: int| self.def.steps@[self.nodes@[t] as int].id@)
    }

    /// The position of each node's defining step.
    pub closed spec fn node_steps(&self) -> Seq<int> {
        as_ints(self.nodes@)
    }

    pub closed spec fn preds_of(&self, t: int) -> Seq<Seq<char>> {
        strs_view(self.preds@[t]@)
    }

    pub closed spec fn succs_of(&self, t: int) -> Seq<Seq<char>> {
        strs_view(self.succs@[t]@)
    }

    pub closed spec fn edges(&self) -> Seq<Seq<usize>> {
        graph_view(self.graph@)
    }

    pub closed spec fn wf(&self) -> bool {
        let def = *self.def;
        let m = self.nodes@.len();
        &&& as_ints(self.nodes@) == unique_upto(all_ids(def), def.steps@.len() as int)
        &&& forall|t: int| 0 <= t < m ==> (#[trigger] self.nodes@[t]) < def.steps@.len()
        &&& self.preds@.len() == m
        &&& self.succs@.len() == m
        &&& self.graph@.len() == m
        &&& graph_ok(graph_view(self.graph@))
        &&& forall|t: int| 0 <= t < m ==> strs_view(#[trigger] self.preds@[t]@) == id_after(def, self.node_ids()[t], def.steps@.len() as int)
            + id_implicit(def, self.node_ids()[t], def.steps@.len() as int)
        &&& forall|t: int| 0 <= t < m ==> strs_view(#[trigger] self.succs@[t]@) == rev_after(def, self.node_ids()[t], def.steps@.len() as int)
            + rev_implicit(def, self.node_ids()[t], def.steps@.len() as int)
        &&& forall|t: int| 0 <= t < m ==> (#[trigger] self.graph@[t])@.len() == self.preds@[t]@.len()
        &&& forall|t: int, k: int| 0 <= t < m && 0 <= k < self.graph@[t]@.len() ==> self.node_ids()[#[trigger] self.graph@[t]@[k] as int]
            == self.preds@[t]@[k]@
    }
}

/// Every identifier has a first occurrence among the first `n`.
proof fn lemma_unique_covers(ids: Seq<Seq<char>>, n: int, i: int)
    requires
        0 <= i < n <= ids.len(),
    ensures
        exists|t: int| 0 <= t < unique_upto(ids, n).len() && ids[#[trigger] unique_upto(ids, n)[t]] == ids[i],
    decreases n,
{
    let u = unique_upto(ids, n);
    let p = unique_upto(ids, n - 1);
    if i < n - 1 {
        lemma_unique_covers(ids, n - 1, i);
        let t = choose|t: int| 0 <= t < p.len() && ids[#[trigger] p[t]] == ids[i];
        assert(u[t] == p[t]);
    } else if !ids.subrange(0, n - 1).contains(ids[n - 1]) {
        assert(u[p.len() as int] == n - 1);
    } else {
        let j = choose|j: int| 0 <= j < n - 1 && #[trigger] ids.subrange(0, n - 1)[j] == ids[n - 1];
        lemma_unique_covers(ids, n - 1, j);
        let t = choose|t: int| 0 <= t < p.len() && ids[#[trigger] p[t]] == ids[j];
        assert(u[t] == p[t]);
    }
}

/// The positions in `unique_upto` lie below `n`.
proof fn lemma_unique_bounds(ids: Seq<Seq<char>>, n: int)
    requires
        0 <= n <= ids.len(),
    ensures
        forall|t: int| 0 <= t < unique_upto(ids, n).len() ==> 0 <= #[trigger] unique_upto(ids, n)[t] < n,
    decreases n,
{
    if n > 0 {
        lemma_unique_bounds(ids, n - 1);
        let u = unique_upto(ids, n);
        let p = unique_upto(ids, n - 1);
        assert forall|t: int| 0 <= t < u.len() implies 0 <= #[trigger] u[t] < n by {
            if t < p.len() {
                assert(u[t] == p[t]);
            }
        }
    }
}

fn push_str_hits(out: &mut Vec<String>, list: &Vec<String>, x: &str, id: &str)
    ensures
        strs_view(final(out)@) == strs_view(old(out)@) + crate::engine::dag::hits(strs_view(list@), x@, id@, list@.len() as int),
{
    let mut k: usize = 0;
    while k < list.len()
        invariant
            k <= list@.len(),
            strs_view(out@) == strs_view(old(out)@) + crate::engine::dag::hits(strs_view(list@), x@, id@, k as int),
        decreases list@.len() - k,
    {
        assert(strs_view(list@)[k as int] == list@[k as int]@);
        if str_is(list[k].as_str(), x) {
            push_string(out, id);
        }
        assert(strs_view(out@) =~= strs_view(old(out)@) + crate::engine::dag::hits(strs_view(list@), x@, id@, k + 1));
        k = k + 1;
    }
}

fn after_list(step: &StepDef) -> (r: Vec<String>)
    ensures
        strs_view(r@) == after_of(*step),
{
    let mut r: Vec<String> = Vec::new();
    if let Some(a) = &step.after {
        append_strings(&mut r, a);
    }
    assert(strs_view(r@) =~= after_of(*step));
    r
}

impl<'a> Dag<'a> {
    /// Builds the graph. Fails on an empty pipeline or on an `after` entry
    /// naming no step (the first such, steps in order). Repeated
    /// identifiers are one node.
    pub fn from_pipeline(def: &'a PipelineDef) -> (r: Result<Dag<'a>, DagError>)
        ensures
            def.steps@.len() == 0 ==> r matches Err(DagError::EmptyGraph),
            def.steps@.len() > 0 && missing_after(*def, all_ids(*def), 0) is Some ==> (r matches Err(DagError::RefNotFound(x))
                && x@ == missing_after(*def, all_ids(*def), 0)->Some_0),
            def.steps@.len() > 0 && missing_after(*def, all_ids(*def), 0) is None ==> (r matches Ok(d) && d.wf()
                && d.pipeline() == *def),
    {
        let n = def.steps.len();
        if n == 0 {
            return Err(DagError::EmptyGraph);
        }
        let ghost iv = all_ids(*def);
        let mut ids: Vec<String> = Vec::new();
        let mut i: usize = 0;
        while i < n
            invariant
                i <= n,
                n == def.steps@.len(),
                strs_view(ids@) == iv.subrange(0, i as int),
                iv == all_ids(*def),
            decreases n - i,
        {
            push_string(&mut ids, def.steps[i].id.as_str());
            assert(strs_view(ids@) =~= iv.subrange(0, i + 1));
            i = i + 1;
        }
        assert(iv.subrange(0, n as int) =~= iv);
        assert(ids@.len() == n) by {
            assert(strs_view(ids@).len() == ids@.len());
        }
        // unknown `after` entries
        let mut i: usize = 0;
        while i < n
            invariant
                i <= n,
                n == def.steps@.len(),
                n > 0,
                strs_view(ids@) == iv,
                iv == all_ids(*def),
                missing_after(*def, iv, 0) == missing_after(*def, iv, i as int),
            decreases n - i,
        {
            let a = after_list(&def.steps[i]);
            let ghost av = after_of(def.steps@[i as int]);
            let mut k: usize = 0;
            while k < a.len()
                invariant
                    k <= a@.len(),
                    i < n,
                    n == def.steps@.len(),
                    n > 0,
                    av == strs_view(a@),
                    av == after_of(def.steps@[i as int]),
                    strs_view(ids@) == iv,
                    iv == all_ids(*def),
                    missing_after(*def, iv, 0) == missing_after(*def, iv, i as int),
                    crate::engine::dag::first_unknown(av, iv, 0) == crate::engine::dag::first_unknown(av, iv, k as int),
                decreases a@.len() - k,
            {
                assert(av[k as int] == a@[k as int]@);
                if !string_in(&ids, a[k].as_str()) {
                    return Err(DagError::RefNotFound(crate::text::to_string(a[k].as_str())));
                }
                k = k + 1;
            }
            i = i + 1;
        }
        // the distinct identifiers
        let mut nodes: Vec<usize> = Vec::new();
        let mut i: usize = 0;
        while i < n
            invariant
                i <= n,
                n == def.steps@.len(),
                strs_view(ids@) == iv,
                ids@.len() == n,
                as_ints(nodes@) == unique_upto(iv, i as int),
                forall|t: int| 0 <= t < nodes@.len() ==> (#[trigger] nodes@[t]) < i,
            decreases n - i,
        {
            assert(iv[i as int] == ids@[i as int]@);
            if !crate::dsl::validator::string_among_upto(&ids, i, ids[i].as_str()) {
                nodes.push(i);
            }
            assert(as_ints(nodes@) =~= unique_upto(iv, i + 1));
            i = i + 1;
        }
        let m = nodes.len();
        // each step's implicit dependencies
        let mut imp: Vec<Vec<String>> = Vec::new();
        let mut i: usize = 0;
        while i < n
            invariant
                i <= n,
                n == def.steps@.len(),
                strs_view(ids@) == iv,
                iv == all_ids(*def),
                imp@.len() == i,
                forall|k: int| 0 <= k < i ==> strs_view(#[trigger] imp@[k]@) == implicit_deps(def.steps@[k], iv),
                forall|k: int| 0 <= k < i ==> all_known(implicit_deps(#[trigger] def.steps@[k], iv), iv),
            decreases n - i,
        {
            let d = implicit_deps_exec(&def.steps[i], &ids);
            imp.push(d);
            i = i + 1;
        }
        Self::finish(def, ids, nodes, imp)
    }

    fn finish(def: &'a PipelineDef, ids: Vec<String>, nodes: Vec<usize>, imp: Vec<Vec<String>>) -> (r: Result<Dag<'a>, DagError>)
        requires
            def.steps@.len() > 0,
            strs_view(ids@) == all_ids(*def),
            ids@.len() == def.steps@.len(),
            missing_after(*def, all_ids(*def), 0) is None,
            as_ints(nodes@) == unique_upto(all_ids(*def), def.steps@.len() as int),
            forall|t: int| 0 <= t < nodes@.len() ==> (#[trigger] nodes@[t]) < def.steps@.len(),
            imp@.len() == def.steps@.len(),
            forall|k: int| 0 <= k < def.steps@.len() ==> strs_view(#[trigger] imp@[k]@) == implicit_deps(def.steps@[k], all_ids(*def)),
            forall|k: int| 0 <= k < def.steps@.len() ==> all_known(implicit_deps(#[trigger] def.steps@[k], all_ids(*def)), all_ids(*def)),
        ensures
            r matches Ok(d) && d.wf() && d.pipeline() == *def,
    {
        let n = def.steps.len();
        let m = nodes.len();
        let ghost iv = all_ids(*def);
        let ghost u = unique_upto(iv, n as int);
        // node identifiers
        let mut nids: Vec<String> = Vec::new();
        let mut t: usize = 0;
        while t < m
            invariant
                t <= m,
                m == nodes@.len(),
                n == def.steps@.len(),
                forall|t: int| 0 <= t < nodes@.len() ==> (#[trigger] nodes@[t]) < n,
                strs_view(nids@) == Seq::new(t as nat, |k: int| def.steps@[nodes@[k] as int].id@),
            decreases m - t,
        {
            push_string(&mut nids, def.steps[nodes[t]].id.as_str());
            assert(strs_view(nids@) =~= Seq::new((t + 1) as nat, |k: int| def.steps@[nodes@[k] as int].id@));
            t = t + 1;
        }
        let ghost nv = strs_view(nids@);
        assert(nids@.len() == m) by {
            assert(strs_view(nids@).len() == nids@.len());
        }
        // every identifier is some node's
        proof {
            assert forall|i: int| 0 <= i < n implies nv.contains(#[trigger] iv[i]) by {
                lemma_unique_covers(iv, n as int, i);
                let t = choose|t: int| 0 <= t < u.len() && iv[#[trigger] u[t]] == iv[i];
                assert(u[t] == nodes@[t] as int);
                assert(nv[t] == iv[i]);
            }
        }
        let mut preds: Vec<Vec<String>> = Vec::new();
        let mut graph: Vec<Vec<usize>> = Vec::new();
        let mut succs: Vec<Vec<String>> = Vec::new();
        let mut t: usize = 0;
        while t < m
            invariant
                t <= m,
                m == nodes@.len(),
                n == def.steps@.len(),
                nids@.len() == m,
                nv == strs_view(nids@),
                nv == Seq::new(m as nat, |k: int| def.steps@[nodes@[k] as int].id@),
                iv == all_ids(*def),
                strs_view(ids@) == iv,
                ids@.len() == n,
                missing_after(*def, iv, 0) is None,
                forall|i: int| 0 <= i < n ==> nv.contains(#[trigger] iv[i]),
                imp@.len() == n,
                forall|k: int| 0 <= k < n ==> strs_view(#[trigger] imp@[k]@) == implicit_deps(def.steps@[k], iv),
                forall|k: int| 0 <= k < n ==> all_known(implicit_deps(#[trigger] def.steps@[k], iv), iv),
                preds@.len() == t,
                graph@.len() == t,
                succs@.len() == t,
                forall|k: int| 0 <= k < t ==> strs_view(#[trigger] preds@[k]@) == id_after(*def, nv[k], n as int)
                    + id_implicit(*def, nv[k], n as int),
                forall|k: int| 0 <= k < t ==> strs_view(#[trigger] succs@[k]@) == rev_after(*def, nv[k], n as int)
                    + rev_implicit(*def, nv[k], n as int),
                forall|k: int| 0 <= k < t ==> (#[trigger] graph@[k])@.len() == preds@[k]@.len(),
                forall|k: int, j: int| 0 <= k < t && 0 <= j < graph@[k]@.len() ==> #[trigger] graph@[k]@[j] < m
                    && nv[graph@[k]@[j] as int] == preds@[k]@[j]@,
            decreases m - t,
        {
            let x = nids[t].as_str();
            assert(nv[t as int] == x@);
            // what node `t` depends on
            let mut p: Vec<String> = Vec::new();
            let mut i: usize = 0;
            while i < n
                invariant
                    i <= n,
                    n == def.steps@.len(),
                    iv == all_ids(*def),
                    missing_after(*def, iv, 0) is None,
                    strs_view(p@) == id_after(*def, x@, i as int),
                    all_known(strs_view(p@), iv),
                decreases n - i,
            {
                let ghost before = strs_view(p@);
                if str_is(def.steps[i].id.as_str(), x) {
                    let a = after_list(&def.steps[i]);
                    proof {
                        lemma_after_known(*def, iv, i as int);
                    }
                    append_strings(&mut p, &a);
                    proof {
                        lemma_all_known_add(before, strs_view(a@), iv);
                    }
                }
                i = i + 1;
            }
            let ghost pa = strs_view(p@);
            let mut i: usize = 0;
            while i < n
                invariant
                    i <= n,
                    n == def.steps@.len(),
                    iv == all_ids(*def),
                    imp@.len() == n,
                    forall|k: int| 0 <= k < n ==> strs_view(#[trigger] imp@[k]@) == implicit_deps(def.steps@[k], iv),
                    forall|k: int| 0 <= k < n ==> all_known(implicit_deps(#[trigger] def.steps@[k], iv), iv),
                    strs_view(p@) == pa + id_implicit(*def, x@, i as int),
                    all_known(strs_view(p@), iv),
                decreases n - i,
            {
                let ghost before = strs_view(p@);
                if str_is(def.steps[i].id.as_str(), x) {
                    append_strings(&mut p, &imp[i]);
                    proof {
                        lemma_all_known_add(before, strs_view(imp@[i as int]@), iv);
                    }
                }
                i = i + 1;
            }
            // as node positions
            let mut g: Vec<usize> = Vec::new();
            let mut k: usize = 0;
            while k < p.len()
                invariant
                    k <= p@.len(),
                    m == nids@.len(),
                    nv == strs_view(nids@),
                    forall|i: int| 0 <= i < n ==> nv.contains(#[trigger] iv[i]),
                    iv.len() == n,
                    all_known(strs_view(p@), iv),
                    g@.len() == k,
                    forall|j: int| 0 <= j < k ==> #[trigger] g@[j] < m && nv[g@[j] as int] == p@[j]@,
                decreases p@.len() - k,
            {
                proof {
                    assert(strs_view(p@)[k as int] == p@[k as int]@);
                    assert(iv.contains(p@[k as int]@));
                    let i = choose|i: int| 0 <= i < iv.len() && iv[i] == p@[k as int]@;
                    assert(nv.contains(iv[i]));
                }
                let q = string_position(&nids, p[k].as_str());
                g.push(q);
                k = k + 1;
            }
            // what depends on node `t`
            let mut out: Vec<String> = Vec::new();
            let mut i: usize = 0;
            while i < n
                invariant
                    i <= n,
                    n == def.steps@.len(),
                    strs_view(out@) == rev_after(*def, x@, i as int),
                decreases n - i,
            {
                let a = after_list(&def.steps[i]);
                push_str_hits(&mut out, &a, x, def.steps[i].id.as_str());
                i = i + 1;
            }
            let ghost ra = strs_view(out@);
            let mut i: usize = 0;
            while i < n
                invariant
                    i <= n,
                    n == def.steps@.len(),
                    iv == all_ids(*def),
                    imp@.len() == n,
                    forall|k: int| 0 <= k < n ==> strs_view(#[trigger] imp@[k]@) == implicit_deps(def.steps@[k], iv),
                    strs_view(out@) == ra + rev_implicit(*def, x@, i as int),
                decreases n - i,
            {
                push_str_hits(&mut out, &imp[i], x, def.steps[i].id.as_str());
                i = i + 1;
            }
            preds.push(p);
            graph.push(g);
            succs.push(out);
            t = t + 1;
        }
        let d = Dag { def, nodes, preds, succs, graph };
        proof {
            assert(d.node_ids() =~= nv);
            assert(graph_ok(graph_view(d.graph@))) by {
                assert forall|v: int, k: int| 0 <= v < graph_view(d.graph@).len() && 0 <= k < graph_view(d.graph@)[v].len()
                    implies (#[trigger] graph_view(d.graph@)[v][k]) < graph_view(d.graph@).len() by {
                    assert(graph_view(d.graph@)[v] == d.graph@[v]@);
                }
            }
        }
        Ok(d)
    }
}

/// The position of `s` among the strings.
fn string_position(v: &Vec<String>, s: &str) -> (r: usize)
    requires
        strs_view(v@).contains(s@),
    ensures
        r < v@.len(),
        strs_view(v@)[r as int] == s@,
{
    let mut i: usize = 0;
    while i < v.len()
        invariant
            i <= v@.len(),
            strs_view(v@).contains(s@),
            forall|k: int| 0 <= k < i ==> strs_view(v@)[k] != s@,
        decreases v@.len() - i,
    {
        if str_is(v[i].as_str(), s) {
            assert(strs_view(v@)[i as int] == s@);
            return i;
        }
        i = i + 1;
    }
    proof {
        let k = choose|k: int| 0 <= k < strs_view(v@).len() && strs_view(v@)[k] == s@;
    }
    0
}

proof fn lemma_missing_from(def: PipelineDef, ids: Seq<Seq<char>>, j: int, i: int)
    requires
        0 <= j <= i < def.steps@.len(),
        missing_after(def, ids, j) is None,
    ensures
        crate::engine::dag::first_unknown(after_of(def.steps@[i]), ids, 0) is None,
    decreases i - j,
{
    if j < i {
        lemma_missing_from(def, ids, j + 1, i);
    }
}

proof fn lemma_first_unknown(a: Seq<Seq<char>>, ids: Seq<Seq<char>>, k: int)
    requires
        0 <= k,
        crate::engine::dag::first_unknown(a, ids, k) is None,
    ensures
        forall|j: int| k <= j < a.len() ==> ids.contains(#[trigger] a[j]),
    decreases a.len() - k,
{
    if k < a.len() {
        lemma_first_unknown(a, ids, k + 1);
    }
}

/// With no unknown `after` entry, each step's `after` entries are known.
proof fn lemma_after_known(def: PipelineDef, ids: Seq<Seq<char>>, i: int)
    requires
        0 <= i < def.steps@.len(),
        missing_after(def, ids, 0) is None,
    ensures
        all_known(after_of(def.steps@[i]), ids),
{
    lemma_missing_from(def, ids, 0, i);
    lemma_first_unknown(after_of(def.steps@[i]), ids, 0);
}

/// How many of node `t`'s dependencies (counted with repeats) are among `rem`
/// (among the first `k`).
pub open spec fn unplaced_deps(g: Seq<Seq<usize>>, rem: Seq<usize>, t: int, k: int) -> nat
    decreases k,
{
    if k <= 0 {
        0
    } else {
        unplaced_deps(g, rem, t, k - 1) + if rem.contains(g[t][k - 1]) { 1nat } else { 0nat }
    }
}

/// `id (n)`: a step left unplaced, with its count of unplaced dependencies.
pub open spec fn cycle_entry(id: Seq<char>, n: nat) -> Seq<char> {
    id + seq![' ', '('] + nat_text(n) + seq![')']
}

pub open spec fn names_at(ids: Seq<Seq<char>>, l: Seq<usize>) -> Seq<Seq<char>> {
    l.map_values(|i: usize| ids[i as int])
}

fn contains_usize(v: &Vec<usize>, x: usize) -> (r: bool)
    ensures
        r == v@.contains(x),
{
    let mut i: usize = 0;
    while i < v.len()
        invariant
            i <= v@.len(),
            forall|k: int| 0 <= k < i ==> v@[k] != x,
        decreases v@.len() - i,
    {
        if v[i] == x {
            return true;
        }
        i = i + 1;
    }
    false
}

impl<'a> Dag<'a> {
    /// Layers of steps that can run in parallel (see the engine's DAG); a
    /// cycle is reported with each unplaced step and its count of unplaced
    /// dependencies.
    pub fn topological_sort(&self) -> (r: Result<Vec<Vec<String>>, DagError>)
        requires
            self.wf(),
        ensures
            exists|layers: Seq<Seq<usize>>, rem: Seq<usize>| {
                &&& layering_ok(self.edges(), layers, rem)
                &&& match r {
                    Ok(ls) => rem.len() == 0 && ls@.len() == layers.len() && forall|k: int|
                        0 <= k < layers.len() ==> strs_view(#[trigger] ls@[k]@) == names_at(self.node_ids(), layers[k]),
                    Err(DagError::CycleFound(v)) => rem.len() > 0 && v@.len() == rem.len() && forall|k: int|
                        0 <= k < rem.len() ==> (#[trigger] v@[k])@ == cycle_entry(
                            self.node_ids()[rem[k] as int],
                            unplaced_deps(self.edges(), rem, rem[k] as int, self.edges()[rem[k] as int].len() as int),
                        ),
                    Err(_) => false,
                }
            },
            r is Ok <==> !has_cycle(self.edges()),
    {
        let (layers, rem) = layer_graph(&self.graph);
        let ghost lv = layers@.map_values(|l: Vec<usize>| l@);
        let ghost g = self.edges();
        let m = self.nodes.len();
        proof {
            lemma_rest_is_cycle(g, lv, rem@);
        }
        let ghost lvl = choose|lvl: Seq<int>| crate::graph::levels_ok(g, lv, rem@, lvl);
        proof {
            reveal(crate::graph::levels_ok);
        }
        if rem.len() > 0 {
            let mut v: Vec<String> = Vec::new();
            let mut k: usize = 0;
            while k < rem.len()
                invariant
                    k <= rem@.len(),
                    m == self.nodes@.len(),
                    g == self.edges(),
                    self.wf(),
                    forall|i: int| 0 <= i < rem@.len() ==> (#[trigger] rem@[i]) < m,
                    v@.len() == k,
                    forall|j: int| 0 <= j < k ==> (#[trigger] v@[j])@ == cycle_entry(
                        self.node_ids()[rem@[j] as int],
                        unplaced_deps(g, rem@, rem@[j] as int, g[rem@[j] as int].len() as int),
                    ),
                decreases rem@.len() - k,
            {
                let t = rem[k];
                let gt = &self.graph[t];
                assert(g[t as int] == gt@);
                let mut c: u64 = 0;
                let mut j: usize = 0;
                while j < gt.len()
                    invariant
                        j <= gt@.len(),
                        g[t as int] == gt@,
                        c == unplaced_deps(g, rem@, t as int, j as int),
                        c <= j,
                    decreases gt@.len() - j,
                {
                    if contains_usize(&rem, gt[j]) {
                        c = c + 1;
                    }
                    j = j + 1;
                }
                let id = self.def.steps[self.nodes[t]].id.as_str();
                let mut e = crate::text::to_string(id);
                crate::text::push_char(&mut e, ' ');
                crate::text::push_char(&mut e, '(');
                crate::text::push_u128(&mut e, c as u128);
                crate::text::push_char(&mut e, ')');
                assert(e@ =~= cycle_entry(self.node_ids()[t as int], c as nat));
                v.push(e);
                k = k + 1;
            }
            return Err(DagError::CycleFound(v));
        }
        proof {
            assert forall|a: int, b: int| 0 <= a < layers@.len() && 0 <= b < layers@[a]@.len() implies #[trigger] layers@[a]@[b] < m by {
                assert(lv[a] == layers@[a]@);
                assert(lv[a][b] < g.len());
            }
        }
        let mut out: Vec<Vec<String>> = Vec::new();
        let mut k: usize = 0;
        while k < layers.len()
            invariant
                k <= layers@.len(),
                lv == layers@.map_values(|l: Vec<usize>| l@),
                m == self.nodes@.len(),
                self.wf(),
                forall|a: int, b: int| 0 <= a < layers@.len() && 0 <= b < layers@[a]@.len() ==> #[trigger] layers@[a]@[b] < m,
                out@.len() == k,
                forall|j: int| 0 <= j < k ==> strs_view(#[trigger] out@[j]@) == names_at(self.node_ids(), lv[j]),
            decreases layers@.len() - k,
        {
            let l = &layers[k];
            let mut names: Vec<String> = Vec::new();
            let mut j: usize = 0;
            while j < l.len()
                invariant
                    j <= l@.len(),
                    m == self.nodes@.len(),
                    self.wf(),
                    forall|b: int| 0 <= b < l@.len() ==> #[trigger] l@[b] < m,
                    strs_view(names@) == names_at(self.node_ids(), l@).subrange(0, j as int),
                decreases l@.len() - j,
            {
                push_string(&mut names, self.def.steps[self.nodes[l[j]]].id.as_str());
                assert(strs_view(names@) =~= names_at(self.node_ids(), l@).subrange(0, j + 1));
                j = j + 1;
            }
            assert(names_at(self.node_ids(), l@).subrange(0, l@.len() as int) =~= names_at(self.node_ids(), l@));
            out.push(names);
            k = k + 1;
        }
        Ok(out)
    }
}

impl<'a> Dag<'a> {
    fn node_position(&self, id: &str) -> (r: Option<usize>)
        requires
            self.wf(),
        ensures
            match r {
                Some(t) => t < self.node_ids().len() && self.node_ids()[t as int] == id@,
                None => !self.node_ids().contains(id@),
            },
    {
        let m = self.nodes.len();
        let mut t: usize = 0;
        while t < m
            invariant
                t <= m,
                m == self.nodes@.len(),
                self.wf(),
                forall|k: int| 0 <= k < t ==> self.node_ids()[k] != id@,
            decreases m - t,
        {
            if str_is(self.def.steps[self.nodes[t]].id.as_str(), id) {
                return Some(t);
            }
            t = t + 1;
        }
        None
    }

    /// Whether the dependencies form a cycle.
    pub fn has_cycle(&self) -> (r: bool)
        requires
            self.wf(),
        ensures
            r == has_cycle(self.edges()),
    {
        self.topological_sort().is_err()
    }

    /// The distinct step identifiers, in order of first definition.
    pub fn step_ids(&self) -> (r: Vec<String>)
        requires
            self.wf(),
        ensures
            strs_view(r@) == self.node_ids(),
    {
        let mut r: Vec<String> = Vec::new();
        let mut t: usize = 0;
        while t < self.nodes.len()
            invariant
                t <= self.nodes@.len(),
                self.wf(),
                strs_view(r@) == self.node_ids().subrange(0, t as int),
            decreases self.nodes@.len() - t,
        {
            push_string(&mut r, self.def.steps[self.nodes[t]].id.as_str());
            assert(strs_view(r@) =~= self.node_ids().subrange(0, t + 1));
            t = t + 1;
        }
        assert(self.node_ids().subrange(0, self.nodes@.len() as int) =~= self.node_ids());
        r
    }

    /// The (first) definition of step `id`.
    pub fn step(&self, id: &str) -> (r: Option<&'a StepDef>)
        requires
            self.wf(),
        ensures
            match r {
                Some(s) => exists|t: int| 0 <= t < self.node_ids().len() && self.node_ids()[t] == id@
                    && *s == self.pipeline().steps@[self.node_steps()[t]],
                None => !self.node_ids().contains(id@),
            },
    {
        match self.node_position(id) {
            Some(t) => {
                assert(self.node_steps()[t as int] == self.nodes@[t as int] as int);
                Some(&self.def.steps[self.nodes[t]])
            },
            None => None,
        }
    }

    /// What step `id` depends on.
    pub fn predecessors(&self, id: &str) -> (r: Option<&Vec<String>>)
        requires
            self.wf(),
        ensures
            match r {
                Some(v) => exists|t: int| 0 <= t < self.node_ids().len() && self.node_ids()[t] == id@
                    && strs_view(v@) == self.preds_of(t),
                None => !self.node_ids().contains(id@),
            },
    {
        match self.node_position(id) {
            Some(t) => {
                assert(strs_view(self.preds@[t as int]@) == self.preds_of(t as int));
                Some(&self.preds[t])
            },
            None => None,
        }
    }

    /// The steps depending on step `id`.
    pub fn successors(&self, id: &str) -> (r: Option<&Vec<String>>)
        requires
            self.wf(),
        ensures
            match r {
                Some(v) => exists|t: int| 0 <= t < self.node_ids().len() && self.node_ids()[t] == id@
                    && strs_view(v@) == self.succs_of(t),
                None => !self.node_ids().contains(id@),
            },
    {
        match self.node_position(id) {
            Some(t) => {
                assert(strs_view(self.succs@[t as int]@) == self.succs_of(t as int));
                Some(&self.succs[t])
            },
            None => None,
        }
    }
}

} // verus!
