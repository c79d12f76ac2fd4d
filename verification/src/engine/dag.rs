//! The step graph of a pipeline: steps depend on the steps their `after`
//! lists name, on the steps their inputs refer to, and on the step their
//! iteration draws from. Sorting it topologically gives layers of steps
//! that can run in parallel.

use vstd::prelude::*;
use crate::text::{strs_view, push_string};
use crate::dsl::step::{StepDef, StepId, StepOp, ids_view};
use crate::dsl::variable::RefValue;
use crate::dsl::pipeline::PipelineDef;
use crate::dsl::refs::{str_is, is_known, op_deps, op_deps_exec, known_first, push_known_first, op_inputs, rvs_deps, refvalue_deps};
use crate::dsl::validator::{step_ids, after_view, step_ids_exec, among, among_all};
use crate::sorted::{sorted_set_of, sort_dedup};
use crate::graph::{layer_graph, layering_ok, graph_ok, graph_view, has_cycle, lemma_rest_is_cycle, lemma_layering_orders_nodes};

verus! {

/// Why a DAG could not be built or sorted.
#[derive(Debug, Clone)]
pub enum DagError {
    /// A cycle: the steps that could not be placed.
    CycleFound(Vec<StepId>),
    /// An `after` entry names no step.
    RefNotFound(StepId),
    /// Two steps share an identifier.
    DuplicateStepId(StepId),
    /// The pipeline has no steps.
    EmptyGraph,
}

/// The position of the first identifier that repeats an earlier one, from `i`.
pub open spec fn first_dup_from(ids: Seq<Seq<char>>, i: int) -> Option<int>
    decreases ids.len() - i,
{
    if i < 0 || i >= ids.len() {
        None
    } else if ids.subrange(0, i).contains(ids[i]) {
        Some(i)
    } else {
        first_dup_from(ids, i + 1)
    }
}

/// The first entry of `a`, from `k`, that is not an identifier.
pub open spec fn first_unknown(a: Seq<Seq<char>>, ids: Seq<Seq<char>>, k: int) -> Option<Seq<char>>
    decreases a.len() - k,
{
    if k < 0 || k >= a.len() {
        None
    } else if !ids.contains(a[k]) {
        Some(a[k])
    } else {
        first_unknown(a, ids, k + 1)
    }
}

/// The first `after` entry (steps in order, from step `i`) naming no step.
pub open spec fn first_missing_after(def: PipelineDef, ids: Seq<Seq<char>>, i: int) -> Option<Seq<char>>
    decreases def.steps@.len() - i,
{
    if i < 0 || i >= def.steps@.len() {
        None
    } else {
        match first_unknown(after_view(def.steps@[i]), ids, 0) {
            Some(x) => Some(x),
            None => first_missing_after(def, ids, i + 1),
        }
    }
}

/// The step the iteration of `step` draws from, if it is a step.
pub open spec fn iterate_dep(step: StepDef, ids: Seq<Seq<char>>) -> Seq<Seq<char>> {
    match step.iterate {
        Some(c) => known_first(c.over.pv(), ids),
        None => Seq::empty(),
    }
}

/// Entries of `list` equal to `x`, each giving `id`.
pub open spec fn hits(list: Seq<Seq<char>>, x: Seq<char>, id: Seq<char>, k: int) -> Seq<Seq<char>>
    decreases k,
{
    if k <= 0 {
        Seq::empty()
    } else {
        hits(list, x, id, k - 1) + if list[k - 1] == x {
            seq![id]
        } else {
            Seq::empty()
        }
    }
}

/// The reverse `after` edges into `x` from the first `n` steps, in order.
pub open spec fn rev_after(preds: Seq<Seq<Seq<char>>>, ac: Seq<int>, ids: Seq<Seq<char>>, x: Seq<char>, n: int) -> Seq<Seq<char>>
    decreases n,
{
    if n <= 0 {
        Seq::empty()
    } else {
        rev_after(preds, ac, ids, x, n - 1) + hits(preds[n - 1].subrange(0, ac[n - 1]), x, ids[n - 1], ac[n - 1])
    }
}

/// The reverse reference edges into `x` from the first `n` steps, in order.
pub open spec fn rev_refs(preds: Seq<Seq<Seq<char>>>, ac: Seq<int>, ids: Seq<Seq<char>>, x: Seq<char>, n: int) -> Seq<Seq<char>>
    decreases n,
{
    if n <= 0 {
        Seq::empty()
    } else {
        let q = preds[n - 1].subrange(ac[n - 1], preds[n - 1].len() as int);
        rev_refs(preds, ac, ids, x, n - 1) + hits(q, x, ids[n - 1], q.len() as int)
    }
}

/// The graph of a pipeline's steps (borrowing the pipeline).
#[derive(Debug, Clone)]
pub struct Dag<'a> {
    def: &'a PipelineDef,
    /// For each step: its `after` entries, then the steps its inputs refer
    /// to (sorted, each once), then the step it iterates over.
    preds: Vec<Vec<StepId>>,
    /// How many of `preds` come from `after`.
    after_len: Vec<usize>,
    /// For each step: the steps depending on it.
    succs: Vec<Vec<StepId>>,
    /// `preds` as positions of steps.
    graph: Vec<Vec<usize>>,
}

impl<'a> Dag<'a> {
    /// The step identifiers, in the order of the definition.
    pub closed spec fn ids(&self) -> Seq<Seq<char>> {
        step_ids(*self.def)
    }

    /// The pipeline the graph was built from.
    pub closed spec fn pipeline(&self) -> PipelineDef {
        *self.def
    }

    /// What step `i` depends on, by name.
    pub closed spec fn preds_of(&self, i: int) -> Seq<Seq<char>> {
        ids_view(self.preds@[i]@)
    }

    /// How many of step `i`'s dependencies come from its `after` list.
    pub closed spec fn after_count(&self, i: int) -> int {
        self.after_len@[i] as int
    }

    /// The steps depending on step `i`, by name.
    pub closed spec fn succs_of(&self, i: int) -> Seq<Seq<char>> {
        ids_view(self.succs@[i]@)
    }

    /// The dependencies as step positions.
    pub closed spec fn edges(&self) -> Seq<Seq<usize>> {
        graph_view(self.graph@)
    }

    /// Every step's dependencies, by name.
    pub closed spec fn all_preds(&self) -> Seq<Seq<Seq<char>>> {
        Seq::new(self.preds@.len(), |i: int| ids_view(self.preds@[i]@))
    }

    pub closed spec fn after_counts(&self) -> Seq<int> {
        Seq::new(self.after_len@.len(), |i: int| self.after_len@[i] as int)
    }

    /// The shape every built graph has.
    pub closed spec fn wf(&self) -> bool {
        let n = self.def.steps@.len();
        &&& self.preds@.len() == n
        &&& self.after_len@.len() == n
        &&& self.succs@.len() == n
        &&& self.graph@.len() == n
        &&& graph_ok(graph_view(self.graph@))
        &&& forall|i: int| 0 <= i < n ==> #[trigger] self.after_len@[i] <= self.preds@[i]@.len()
        &&& forall|i: int| 0 <= i < n ==> (#[trigger] self.graph@[i])@.len() == self.preds@[i]@.len()
        &&& forall|i: int, k: int| 0 <= i < n && 0 <= k < self.graph@[i]@.len() ==> self.ids()[#[trigger] self.graph@[i]@[k] as int]
            == self.preds@[i]@[k].0@
        &&& forall|i: int, j: int| 0 <= i < j < n ==> self.ids()[i] != self.ids()[j]
        &&& forall|i: int| 0 <= i < n ==> self.succs_of(i) == rev_after(self.all_preds(), self.after_counts(), self.ids(), self.ids()[i], n as int)
            + rev_refs(self.all_preds(), self.after_counts(), self.ids(), self.ids()[i], n as int)
    }
}

/// The dependencies of step `i` of `def`: `p` is its `after` list (the
/// first `ac` entries), then the steps its inputs refer to, sorted, each
/// once, then the step it iterates over.
pub open spec fn preds_ok(def: PipelineDef, ids: Seq<Seq<char>>, i: int, p: Seq<Seq<char>>, ac: int) -> bool {
    let step = def.steps@[i];
    let it = iterate_dep(step, ids);
    &&& ac == after_view(step).len()
    &&& ac + it.len() <= p.len()
    &&& p.subrange(0, ac) == after_view(step)
    &&& sorted_set_of(p.subrange(ac, p.len() - it.len()), op_deps(step.op, ids))
    &&& p.subrange(p.len() - it.len(), p.len() as int) == it
}

/// The position of `name` among the identifiers.
fn index_of(ids: &Vec<StepId>, name: &str) -> (r: usize)
    requires
        ids_view(ids@).contains(name@),
    ensures
        r < ids@.len(),
        ids@[r as int].0@ == name@,
{
    let mut i: usize = 0;
    while i < ids.len()
        invariant
            i <= ids@.len(),
            ids_view(ids@).contains(name@),
            forall|k: int| 0 <= k < i ==> (#[trigger] ids@[k]).0@ != name@,
        decreases ids@.len() - i,
    {
        if str_is(ids[i].0.as_str(), name) {
            return i;
        }
        i = i + 1;
    }
    proof {
        let k = choose|k: int| 0 <= k < ids_view(ids@).len() && ids_view(ids@)[k] == name@;
        assert(ids@[k].0@ == name@);
    }
    0
}

fn push_id(out: &mut Vec<StepId>, s: &str)
    ensures
        ids_view(final(out)@) == ids_view(old(out)@).push(s@),
{
    let ghost prev = out@;
    let x = StepId::new(s);
    out.push(x);
    assert(ids_view(out@) =~= ids_view(prev).push(s@));
}

/// Step `i`'s dependencies.
fn step_preds(def: &PipelineDef, ids: &Vec<StepId>, i: usize) -> (r: (Vec<StepId>, usize))
    requires
        i < def.steps@.len(),
        ids_view(ids@) == step_ids(*def),
    ensures
        preds_ok(*def, step_ids(*def), i as int, ids_view(r.0@), r.1 as int),
        forall|k: int| 0 <= k < r.0@.len() ==> step_ids(*def).contains(#[trigger] r.0@[k].0@)
            || (k < r.1 as int),
{
    let step = &def.steps[i];
    let ghost iv = step_ids(*def);
    let mut p: Vec<StepId> = Vec::new();
    if let Some(a) = &step.after {
        let mut k: usize = 0;
        while k < a.len()
            invariant
                k <= a@.len(),
                ids_view(p@) == ids_view(a@).subrange(0, k as int),
            decreases a@.len() - k,
        {
            push_id(&mut p, a[k].0.as_str());
            assert(ids_view(p@) =~= ids_view(a@).subrange(0, k + 1));
            k = k + 1;
        }
        assert(ids_view(a@).subrange(0, a@.len() as int) =~= ids_view(a@));
    }
    assert(ids_view(p@) =~= after_view(*step));
    let ac = p.len();
    let deps = op_deps_exec(&step.op, ids);
    let mid = sort_dedup(&deps);
    let mut k: usize = 0;
    while k < mid.len()
        invariant
            k <= mid@.len(),
            ac <= p@.len(),
            ids_view(p@) == after_view(*step) + strs_view(mid@).subrange(0, k as int),
        decreases mid@.len() - k,
    {
        push_id(&mut p, mid[k].as_str());
        assert(ids_view(p@) =~= after_view(*step) + strs_view(mid@).subrange(0, k + 1));
        k = k + 1;
    }
    assert(strs_view(mid@).subrange(0, mid@.len() as int) =~= strs_view(mid@));
    let mut tail: Vec<String> = Vec::new();
    if let Some(c) = &step.iterate {
        push_known_first(&c.over.parts, ids, &mut tail);
    }
    assert(strs_view(tail@) =~= iterate_dep(*step, iv));
    let mut k: usize = 0;
    let ghost before = ids_view(p@);
    while k < tail.len()
        invariant
            k <= tail@.len(),
            ids_view(p@) == before + strs_view(tail@).subrange(0, k as int),
        decreases tail@.len() - k,
    {
        push_id(&mut p, tail[k].as_str());
        assert(ids_view(p@) =~= before + strs_view(tail@).subrange(0, k + 1));
        k = k + 1;
    }
    assert(strs_view(tail@).subrange(0, tail@.len() as int) =~= strs_view(tail@));
    proof {
        let pv = ids_view(p@);
        let it = iterate_dep(*step, iv);
        assert(pv =~= after_view(*step) + strs_view(mid@) + it);
        assert(pv.subrange(0, ac as int) =~= after_view(*step));
        assert(pv.subrange(ac as int, pv.len() - it.len()) =~= strs_view(mid@));
        assert(pv.subrange(pv.len() - it.len(), pv.len() as int) =~= it);
        assert forall|k: int| 0 <= k < p@.len() implies iv.contains(#[trigger] p@[k].0@) || (k < ac as int) by {
            assert(pv[k] == p@[k].0@);
            if k >= ac && k < pv.len() - it.len() {
                let x = pv[k];
                assert(strs_view(mid@)[k - ac] == x);
                assert(strs_view(mid@).contains(x));
                assert(op_deps(step.op, iv).contains(x));
                lemma_deps_known(step.op, iv, x);
            } else if k >= pv.len() - it.len() {
                assert(it[k - (pv.len() - it.len())] == pv[k]);
            }
        }
    }
    (p, ac)
}

/// Dependencies found in inputs are always known steps.
proof fn lemma_deps_known(op: crate::dsl::step::StepOp, ids: Seq<Seq<char>>, x: Seq<char>)
    requires
        op_deps(op, ids).contains(x),
    ensures
        ids.contains(x),
{
    crate::dsl::refs::lemma_op_deps_known(op, ids);
    let k = choose|k: int| 0 <= k < op_deps(op, ids).len() && op_deps(op, ids)[k] == x;
}

/// Appends `id` once for each entry of `list[from..]` equal to `x`.
fn push_hits(out: &mut Vec<StepId>, list: &Vec<StepId>, from: usize, to: usize, x: &str, id: &str)
    requires
        from <= to <= list@.len(),
    ensures
        ids_view(final(out)@) == ids_view(old(out)@) + hits(ids_view(list@).subrange(from as int, to as int), x@, id@, to - from),
{
    let ghost l = ids_view(list@).subrange(from as int, to as int);
    let mut k: usize = from;
    while k < to
        invariant
            from <= k <= to <= list@.len(),
            l == ids_view(list@).subrange(from as int, to as int),
            ids_view(out@) == ids_view(old(out)@) + hits(l, x@, id@, k - from),
        decreases to - k,
    {
        assert(l[k - from] == list@[k as int].0@);
        if str_is(list[k].0.as_str(), x) {
            push_id(out, id);
        }
        assert(ids_view(out@) =~= ids_view(old(out)@) + hits(l, x@, id@, k + 1 - from));
        k = k + 1;
    }
}

impl<'a> Dag<'a> {
    /// Builds the graph. Fails on an empty pipeline, on a repeated step
    /// identifier (the first repeat is named), or on an `after` entry naming
    /// no step (the first such, steps in order).
    pub fn from_pipeline(def: &'a PipelineDef) -> (r: Result<Dag<'a>, DagError>)
        ensures
            def.steps@.len() == 0 ==> r matches Err(DagError::EmptyGraph),
            def.steps@.len() > 0 && first_dup_from(step_ids(*def), 0) is Some ==> (r matches Err(DagError::DuplicateStepId(x))
                && x.0@ == step_ids(*def)[first_dup_from(step_ids(*def), 0)->Some_0]),
            def.steps@.len() > 0 && first_dup_from(step_ids(*def), 0) is None && first_missing_after(*def, step_ids(*def), 0) is Some
                ==> (r matches Err(DagError::RefNotFound(x)) && x.0@ == first_missing_after(*def, step_ids(*def), 0)->Some_0),
            def.steps@.len() > 0 && first_dup_from(step_ids(*def), 0) is None && first_missing_after(*def, step_ids(*def), 0) is None
                ==> (r matches Ok(d) && d.wf() && d.pipeline() == *def && d.ids() == step_ids(*def) && forall|i: int|
                0 <= i < def.steps@.len() ==> preds_ok(*def, step_ids(*def), i, #[trigger] d.preds_of(i), d.after_count(i))),
    {
        let n = def.steps.len();
        if n == 0 {
            return Err(DagError::EmptyGraph);
        }
        let ids = step_ids_exec(def);
        let ghost iv = step_ids(*def);
        assert(ids@.len() == n) by {
            assert(ids_view(ids@).len() == ids@.len());
        }
        // repeated identifiers
        let mut i: usize = 0;
        while i < n
            invariant
                i <= n,
                n == def.steps@.len(),
                ids@.len() == n,
                ids_view(ids@) == iv,
                iv == step_ids(*def),
                first_dup_from(iv, 0) == first_dup_from(iv, i as int),
            decreases n - i,
        {
            assert(iv[i as int] == ids@[i as int].0@);
            if among(&ids, i, ids[i].0.as_str()) {
                return Err(DagError::DuplicateStepId(StepId::new(ids[i].0.as_str())));
            }
            i = i + 1;
        }
        assert(first_dup_from(iv, 0) is None);
        // unknown `after` entries
        let mut i: usize = 0;
        while i < n
            invariant
                i <= n,
                n == def.steps@.len(),
                n > 0,
                ids_view(ids@) == iv,
                iv == step_ids(*def),
                first_dup_from(iv, 0) is None,
                first_missing_after(*def, iv, 0) == first_missing_after(*def, iv, i as int),
            decreases n - i,
        {
            let ghost av = after_view(def.steps@[i as int]);
            if let Some(a) = &def.steps[i].after {
                assert(av == ids_view(a@));
                let mut k: usize = 0;
                while k < a.len()
                    invariant
                        k <= a@.len(),
                        i < n,
                        n == def.steps@.len(),
                        n > 0,
                        av == ids_view(a@),
                        av == after_view(def.steps@[i as int]),
                        ids_view(ids@) == iv,
                        iv == step_ids(*def),
                        first_dup_from(iv, 0) is None,
                        first_missing_after(*def, iv, 0) == first_missing_after(*def, iv, i as int),
                        first_unknown(av, iv, 0) == first_unknown(av, iv, k as int),
                    decreases a@.len() - k,
                {
                    assert(av[k as int] == a@[k as int].0@);
                    if !among_all(&ids, a[k].0.as_str()) {
                        return Err(DagError::RefNotFound(StepId::new(a[k].0.as_str())));
                    }
                    k = k + 1;
                }
            } else {
                assert(av =~= Seq::<Seq<char>>::empty());
            }
            i = i + 1;
        }
        // dependencies
        let mut preds: Vec<Vec<StepId>> = Vec::new();
        let mut after_len: Vec<usize> = Vec::new();
        let mut graph: Vec<Vec<usize>> = Vec::new();
        let mut i: usize = 0;
        while i < n
            invariant
                i <= n,
                n == def.steps@.len(),
                ids@.len() == n,
                ids_view(ids@) == iv,
                iv == step_ids(*def),
                first_missing_after(*def, iv, 0) is None,
                preds@.len() == i,
                after_len@.len() == i,
                graph@.len() == i,
                forall|j: int| 0 <= j < i ==> preds_ok(*def, iv, j, ids_view(#[trigger] preds@[j]@), after_len@[j] as int),
                forall|j: int| 0 <= j < i ==> (#[trigger] graph@[j])@.len() == preds@[j]@.len(),
                forall|j: int, k: int| 0 <= j < i && 0 <= k < graph@[j]@.len() ==> #[trigger] graph@[j]@[k] < n
                    && iv[graph@[j]@[k] as int] == preds@[j]@[k].0@,
            decreases n - i,
        {
            let (p, ac) = step_preds(def, &ids, i);
            proof {
                lemma_after_known(*def, iv, i as int);
                assert(ids_view(p@).subrange(0, ac as int) == after_view(def.steps@[i as int]));
                assert forall|k2: int| 0 <= k2 < ac implies iv.contains(#[trigger] p@[k2].0@) by {
                    assert(ids_view(p@).subrange(0, ac as int)[k2] == p@[k2].0@);
                }
            }
            let mut g: Vec<usize> = Vec::new();
            let mut k: usize = 0;
            while k < p.len()
                invariant
                    k <= p@.len(),
                    ids@.len() == n,
                    ids_view(ids@) == iv,
                    g@.len() == k,
                    forall|k2: int| 0 <= k2 < p@.len() ==> iv.contains(#[trigger] p@[k2].0@) || (k2 < ac as int),
                    forall|k2: int| 0 <= k2 < ac ==> iv.contains(#[trigger] p@[k2].0@),
                    forall|k2: int| 0 <= k2 < k ==> #[trigger] g@[k2] < n && iv[g@[k2] as int] == p@[k2].0@,
                decreases p@.len() - k,
            {
                assert(iv.contains(p@[k as int].0@));
                let x = index_of(&ids, p[k].0.as_str());
                assert(iv[x as int] == ids@[x as int].0@);
                g.push(x);
                k = k + 1;
            }
            preds.push(p);
            after_len.push(ac);
            graph.push(g);
            i = i + 1;
        }
        proof {
            assert forall|a: int, b: int| 0 <= a < b < n implies iv[a] != iv[b] by {
                lemma_no_dup(iv, 0, b);
                if iv[a] == iv[b] {
                    assert(iv.subrange(0, b)[a] == iv[b]);
                }
            }
        }
        Ok(Dag::finish(def, preds, after_len, graph, &ids))
    }
}

/// Identifiers with no repeat from `i` on have no repeat at all past `i`.
proof fn lemma_no_dup(ids: Seq<Seq<char>>, i: int, b: int)
    requires
        0 <= i <= b < ids.len(),
        first_dup_from(ids, i) is None,
    ensures
        !ids.subrange(0, b).contains(ids[b]),
    decreases b - i,
{
    if i < b {
        lemma_no_dup(ids, i + 1, b);
    }
}

proof fn lemma_first_unknown(a: Seq<Seq<char>>, ids: Seq<Seq<char>>, k: int)
    requires
        0 <= k,
        first_unknown(a, ids, k) is None,
    ensures
        forall|j: int| k <= j < a.len() ==> ids.contains(#[trigger] a[j]),
    decreases a.len() - k,
{
    if k < a.len() {
        lemma_first_unknown(a, ids, k + 1);
    }
}

proof fn lemma_missing_from(def: PipelineDef, ids: Seq<Seq<char>>, j: int, i: int)
    requires
        0 <= j <= i < def.steps@.len(),
        first_missing_after(def, ids, j) is None,
    ensures
        first_unknown(after_view(def.steps@[i]), ids, 0) is None,
    decreases i - j,
{
    if j < i {
        lemma_missing_from(def, ids, j + 1, i);
    }
}

/// With no unknown `after` entry, step `i`'s `after` entries are all known.
proof fn lemma_after_known(def: PipelineDef, ids: Seq<Seq<char>>, i: int)
    requires
        0 <= i < def.steps@.len(),
        first_missing_after(def, ids, 0) is None,
    ensures
        forall|k: int| 0 <= k < after_view(def.steps@[i]).len() ==> ids.contains(#[trigger] after_view(def.steps@[i])[k]),
{
    lemma_missing_from(def, ids, 0, i);
    lemma_first_unknown(after_view(def.steps@[i]), ids, 0);
}

impl<'a> Dag<'a> {
    /// Completes the graph with the reverse edges.
    fn finish(
        def: &'a PipelineDef,
        preds: Vec<Vec<StepId>>,
        after_len: Vec<usize>,
        graph: Vec<Vec<usize>>,
        ids: &Vec<StepId>,
    ) -> (d: Dag<'a>)
        requires
            ids_view(ids@) == step_ids(*def),
            ids@.len() == def.steps@.len(),
            preds@.len() == def.steps@.len(),
            after_len@.len() == def.steps@.len(),
            graph@.len() == def.steps@.len(),
            forall|j: int| 0 <= j < def.steps@.len() ==> preds_ok(*def, step_ids(*def), j, ids_view(#[trigger] preds@[j]@), after_len@[j] as int),
            forall|j: int| 0 <= j < def.steps@.len() ==> (#[trigger] graph@[j])@.len() == preds@[j]@.len(),
            forall|j: int, k: int| 0 <= j < def.steps@.len() && 0 <= k < graph@[j]@.len() ==> #[trigger] graph@[j]@[k] < def.steps@.len()
                && step_ids(*def)[graph@[j]@[k] as int] == preds@[j]@[k].0@,
            forall|a: int, b: int| 0 <= a < b < def.steps@.len() ==> step_ids(*def)[a] != step_ids(*def)[b],
        ensures
            d.wf(),
            d.pipeline() == *def,
            d.ids() == step_ids(*def),
            forall|i: int| 0 <= i < def.steps@.len() ==> #[trigger] d.preds_of(i) == ids_view(preds@[i]@) && d.after_count(i) == after_len@[i] as int,
    {
        let n = def.steps.len();
        let ghost pv = Seq::new(preds@.len(), |i: int| ids_view(preds@[i]@));
        let ghost acv = Seq::new(after_len@.len(), |i: int| after_len@[i] as int);
        let ghost iv = step_ids(*def);
        proof {
            assert forall|j: int| 0 <= j < n implies #[trigger] after_len@[j] <= preds@[j]@.len() by {
                assert(preds_ok(*def, iv, j, ids_view(preds@[j]@), after_len@[j] as int));
            }
        }
        let mut succs: Vec<Vec<StepId>> = Vec::new();
        let mut t: usize = 0;
        while t < n
            invariant
                t <= n,
                n == def.steps@.len(),
                ids@.len() == n,
                ids_view(ids@) == iv,
                preds@.len() == n,
                after_len@.len() == n,
                pv == Seq::new(preds@.len(), |i: int| ids_view(preds@[i]@)),
                acv == Seq::new(after_len@.len(), |i: int| after_len@[i] as int),
                forall|j: int| 0 <= j < n ==> #[trigger] after_len@[j] <= preds@[j]@.len(),
                succs@.len() == t,
                forall|j: int| 0 <= j < t ==> ids_view(#[trigger] succs@[j]@) == rev_after(pv, acv, iv, iv[j], n as int) + rev_refs(pv, acv, iv, iv[j], n as int),
            decreases n - t,
        {
            let x = ids[t].0.as_str();
            assert(iv[t as int] == x@);
            let mut out: Vec<StepId> = Vec::new();
            let mut j: usize = 0;
            while j < n
                invariant
                    j <= n,
                    n == def.steps@.len(),
                    ids@.len() == n,
                    ids_view(ids@) == iv,
                    preds@.len() == n,
                    after_len@.len() == n,
                    pv == Seq::new(preds@.len(), |i: int| ids_view(preds@[i]@)),
                    acv == Seq::new(after_len@.len(), |i: int| after_len@[i] as int),
                    forall|j: int| 0 <= j < n ==> #[trigger] after_len@[j] <= preds@[j]@.len(),
                    ids_view(out@) == rev_after(pv, acv, iv, x@, j as int),
                decreases n - j,
            {
                assert(iv[j as int] == ids@[j as int].0@);
                assert(pv[j as int] == ids_view(preds@[j as int]@));
                push_hits(&mut out, &preds[j], 0, after_len[j], x, ids[j].0.as_str());
                j = j + 1;
            }
            let ghost ra = ids_view(out@);
            let mut j: usize = 0;
            while j < n
                invariant
                    j <= n,
                    n == def.steps@.len(),
                    ids@.len() == n,
                    ids_view(ids@) == iv,
                    preds@.len() == n,
                    after_len@.len() == n,
                    pv == Seq::new(preds@.len(), |i: int| ids_view(preds@[i]@)),
                    acv == Seq::new(after_len@.len(), |i: int| after_len@[i] as int),
                    forall|j: int| 0 <= j < n ==> #[trigger] after_len@[j] <= preds@[j]@.len(),
                    ids_view(out@) == ra + rev_refs(pv, acv, iv, x@, j as int),
                decreases n - j,
            {
                assert(iv[j as int] == ids@[j as int].0@);
                assert(pv[j as int] == ids_view(preds@[j as int]@));
                push_hits(&mut out, &preds[j], after_len[j], preds[j].len(), x, ids[j].0.as_str());
                j = j + 1;
            }
            succs.push(out);
            t = t + 1;
        }
        let d = Dag { def, preds, after_len, succs, graph };
        proof {
            assert(d.all_preds() == pv);
            assert(d.after_counts() == acv);
            assert(d.ids() == iv);
            assert(graph_ok(graph_view(d.graph@))) by {
                assert forall|v: int, k: int| 0 <= v < graph_view(d.graph@).len() && 0 <= k < graph_view(d.graph@)[v].len()
                    implies (#[trigger] graph_view(d.graph@)[v][k]) < graph_view(d.graph@).len() by {
                    assert(graph_view(d.graph@)[v] == d.graph@[v]@);
                }
            }
        }
        d
    }
}

/// Positions of steps, as their identifiers.
pub open spec fn names_of(ids: Seq<Seq<char>>, l: Seq<usize>) -> Seq<Seq<char>> {
    l.map_values(|i: usize| ids[i as int])
}

fn names_exec(ids: &Vec<StepId>, l: &Vec<usize>) -> (r: Vec<StepId>)
    requires
        forall|k: int| 0 <= k < l@.len() ==> (#[trigger] l@[k]) < ids@.len(),
    ensures
        ids_view(r@) == names_of(ids_view(ids@), l@),
{
    let mut r: Vec<StepId> = Vec::new();
    let mut k: usize = 0;
    while k < l.len()
        invariant
            k <= l@.len(),
            forall|k: int| 0 <= k < l@.len() ==> (#[trigger] l@[k]) < ids@.len(),
            ids_view(r@) == names_of(ids_view(ids@), l@).subrange(0, k as int),
        decreases l@.len() - k,
    {
        push_id(&mut r, ids[l[k]].0.as_str());
        assert(ids_view(r@) =~= names_of(ids_view(ids@), l@).subrange(0, k + 1));
        k = k + 1;
    }
    assert(names_of(ids_view(ids@), l@).subrange(0, l@.len() as int) =~= names_of(ids_view(ids@), l@));
    r
}

impl<'a> Dag<'a> {
    /// The position of step `id`.
    fn position(&self, id: &str) -> (r: Option<usize>)
        requires
            self.wf(),
        ensures
            match r {
                Some(i) => i < self.pipeline().steps@.len() && self.ids()[i as int] == id@,
                None => !self.ids().contains(id@),
            },
    {
        let n = self.def.steps.len();
        let mut i: usize = 0;
        while i < n
            invariant
                i <= n,
                n == self.def.steps@.len(),
                forall|k: int| 0 <= k < i ==> self.ids()[k] != id@,
            decreases n - i,
        {
            assert(self.ids()[i as int] == self.def.steps@[i as int].id.0@);
            if str_is(self.def.steps[i].id.0.as_str(), id) {
                return Some(i);
            }
            i = i + 1;
        }
        None
    }

    /// Layers of steps that can run in parallel: layer 0 holds the steps
    /// with no dependency, each later layer the steps whose dependencies all
    /// lie in earlier layers (at least one in the layer just before). A
    /// cycle leaves steps unplaced; they are reported.
    pub fn topological_sort(&self) -> (r: Result<Vec<Vec<StepId>>, DagError>)
        requires
            self.wf(),
        ensures
            exists|layers: Seq<Seq<usize>>, rem: Seq<usize>| {
                &&& layering_ok(self.edges(), layers, rem)
                &&& match r {
                    Ok(ls) => rem.len() == 0 && ls@.len() == layers.len() && forall|k: int|
                        0 <= k < layers.len() ==> ids_view(#[trigger] ls@[k]@) == names_of(self.ids(), layers[k]),
                    Err(DagError::CycleFound(v)) => rem.len() > 0 && ids_view(v@) == names_of(self.ids(), rem),
                    Err(_) => false,
                }
            },
            r is Ok <==> !has_cycle(self.edges()),
    {
        let (layers, rem) = layer_graph(&self.graph);
        let ghost lv = layers@.map_values(|l: Vec<usize>| l@);
        let ids = step_ids_exec(self.def);
        proof {
            lemma_rest_is_cycle(self.edges(), lv, rem@);
            reveal(crate::graph::levels_ok);
            assert(ids@.len() == self.def.steps@.len()) by {
                assert(ids_view(ids@).len() == ids@.len());
            }
        }
        if rem.len() > 0 {
            proof {
                let lvl = choose|lvl: Seq<int>| crate::graph::levels_ok(self.edges(), lv, rem@, lvl);
            }
            let v = names_exec(&ids, &rem);
            return Err(DagError::CycleFound(v));
        }
        proof {
            let lvl = choose|lvl: Seq<int>| crate::graph::levels_ok(self.edges(), lv, rem@, lvl);
            assert forall|a: int, b: int| 0 <= a < layers@.len() && 0 <= b < layers@[a]@.len() implies #[trigger] layers@[a]@[b] < ids@.len() by {
                assert(lv[a] == layers@[a]@);
                assert(lv[a][b] < self.edges().len());
            }
        }
        let mut out: Vec<Vec<StepId>> = Vec::new();
        let mut k: usize = 0;
        while k < layers.len()
            invariant
                k <= layers@.len(),
                lv == layers@.map_values(|l: Vec<usize>| l@),
                ids_view(ids@) == self.ids(),
                ids@.len() == self.def.steps@.len(),
                layering_ok(self.edges(), lv, rem@),
                forall|a: int, b: int| 0 <= a < layers@.len() && 0 <= b < layers@[a]@.len() ==> #[trigger] layers@[a]@[b] < ids@.len(),
                out@.len() == k,
                forall|j: int| 0 <= j < k ==> ids_view(#[trigger] out@[j]@) == names_of(self.ids(), lv[j]),
            decreases layers@.len() - k,
        {
            let l = names_exec(&ids, &layers[k]);
            out.push(l);
            k = k + 1;
        }
        Ok(out)
    }

    /// The positions in `edges()` stand for the steps' dependencies by name:
    /// there is one position per step, step `i` has one edge per entry of
    /// `preds_of(i)`, its `k`-th edge leads to the step whose identifier is
    /// that entry, and no two steps share an identifier. With it, what
    /// `topological_sort` says of positions holds of step names.
    pub proof fn lemma_edges_named(&self)
        requires
            self.wf(),
        ensures
            self.ids().len() == self.pipeline().steps@.len(),
            self.edges().len() == self.ids().len(),
            forall|i: int| 0 <= i < self.ids().len() ==> (#[trigger] self.edges()[i]).len() == self.preds_of(i).len(),
            forall|i: int, k: int|
                0 <= i < self.ids().len() && 0 <= k < self.edges()[i].len() ==> #[trigger] self.edges()[i][k]
                    < self.ids().len() && self.ids()[self.edges()[i][k] as int] == self.preds_of(i)[k],
            forall|i: int, j: int| 0 <= i < j < self.ids().len() ==> self.ids()[i] != self.ids()[j],
    {
        let n = self.def.steps@.len() as int;
        assert forall|i: int| 0 <= i < n implies (#[trigger] self.edges()[i]).len() == self.preds_of(i).len() by {
            assert(self.edges()[i] == self.graph@[i]@);
            assert(self.graph@[i]@.len() == self.preds@[i]@.len());
        }
        assert forall|i: int, k: int| 0 <= i < n && 0 <= k < self.edges()[i].len() implies #[trigger] self.edges()[i][k]
            < n && self.ids()[self.edges()[i][k] as int] == self.preds_of(i)[k] by {
            assert(self.edges()[i] == self.graph@[i]@);
            assert(graph_ok(self.edges()));
            assert(self.ids()[self.graph@[i]@[k] as int] == self.preds@[i]@[k].0@);
        }
    }

    /// Whether the steps' dependencies form a cycle.
    pub fn has_cycle(&self) -> (r: bool)
        requires
            self.wf(),
        ensures
            r == has_cycle(self.edges()),
    {
        self.topological_sort().is_err()
    }

    /// The step identifiers, in the order of the definition.
    pub fn step_ids(&self) -> (r: Vec<StepId>)
        requires
            self.wf(),
        ensures
            ids_view(r@) == self.ids(),
    {
        step_ids_exec(self.def)
    }

    /// The step with identifier `id`.
    pub fn step(&self, id: &StepId) -> (r: Option<&'a StepDef>)
        requires
            self.wf(),
        ensures
            r is Some <==> self.ids().contains(id.0@),
            match r {
                Some(s) => exists|i: int| 0 <= i < self.pipeline().steps@.len() && self.ids()[i] == id.0@
                    && *s == self.pipeline().steps@[i],
                None => !self.ids().contains(id.0@),
            },
    {
        match self.position(id.0.as_str()) {
            Some(i) => Some(&self.def.steps[i]),
            None => None,
        }
    }

    /// What step `id` depends on.
    pub fn predecessors(&self, id: &StepId) -> (r: Option<&Vec<StepId>>)
        requires
            self.wf(),
        ensures
            match r {
                Some(v) => exists|i: int| 0 <= i < self.pipeline().steps@.len() && self.ids()[i] == id.0@
                    && ids_view(v@) == self.preds_of(i),
                None => !self.ids().contains(id.0@),
            },
    {
        match self.position(id.0.as_str()) {
            Some(i) => {
                assert(ids_view(self.preds@[i as int]@) == self.preds_of(i as int));
                Some(&self.preds[i])
            },
            None => None,
        }
    }

    /// The steps depending on step `id`.
    pub fn successors(&self, id: &StepId) -> (r: Option<&Vec<StepId>>)
        requires
            self.wf(),
        ensures
            match r {
                Some(v) => exists|i: int| 0 <= i < self.pipeline().steps@.len() && self.ids()[i] == id.0@
                    && ids_view(v@) == self.succs_of(i),
                None => !self.ids().contains(id.0@),
            },
    {
        match self.position(id.0.as_str()) {
            Some(i) => {
                assert(ids_view(self.succs@[i as int]@) == self.succs_of(i as int));
                Some(&self.succs[i])
            },
            None => None,
        }
    }
}

/// `rv` is the value of one of the operator's inputs that can hold a
/// reference: every `RefValue` field of every kind of operator, each
/// header value of an HTTP step included.
pub open spec fn op_input_field(op: StepOp, rv: RefValue) -> bool {
    match op {
        StepOp::Http(i) => i.url == rv || i.body == Some(rv) || (i.headers matches Some(h) && exists|k: int|
            0 <= k < h@.len() && #[trigger] h@[k].1 == rv),
        StepOp::Js(i) => i.code == rv || i.data == Some(rv),
        StepOp::Filter(i) => i.data == Some(rv) || i.value == Some(rv),
        StepOp::Sort(i) => i.data == Some(rv),
        StepOp::Dedup(i) => i.data == Some(rv),
        StepOp::Merge(i) => i.a == Some(rv) || i.b == rv,
        StepOp::Base64(i) => i.data == Some(rv),
        StepOp::Noop => false,
        StepOp::Var(i) => i.value == Some(rv),
        StepOp::File(i) => i.path == Some(rv) || i.url == Some(rv),
        StepOp::Command(i) => i.command == rv || i.stdin == Some(rv),
        StepOp::Llm(i) => i.url == rv || i.prompt == rv || i.system == Some(rv) || i.images_b64 == Some(rv) || i.api_key
            == Some(rv),
    }
}

proof fn lemma_field_is_input(op: StepOp, rv: RefValue)
    requires
        op_input_field(op, rv),
    ensures
        op_inputs(op).contains(rv),
{
    reveal(op_inputs);
    let s = op_inputs(op);
    match op {
        StepOp::Http(i) => {
            let hs = match i.headers {
                Some(h) => h@.map_values(|e: (String, RefValue)| e.1),
                None => Seq::empty(),
            };
            let b = crate::dsl::refs::opt_rv(i.body);
            assert(s == b + hs + seq![i.url]);
            if i.url == rv {
                assert(s[s.len() - 1] == rv);
            } else if i.body == Some(rv) {
                assert(s[0] == rv);
            } else {
                let h = i.headers->Some_0;
                let k = choose|k: int| 0 <= k < h@.len() && #[trigger] h@[k].1 == rv;
                assert(hs[k] == rv);
                assert(s[b.len() + k] == rv);
            }
        },
        StepOp::Js(i) => {
            if i.code == rv {
                assert(s[0] == rv);
            } else {
                assert(s[1] == rv);
            }
        },
        StepOp::Filter(i) => {
            let a = crate::dsl::refs::opt_rv(i.data);
            if i.data == Some(rv) {
                assert(s[0] == rv);
            } else {
                assert(s[a.len() as int] == rv);
            }
        },
        StepOp::Merge(i) => {
            let a = crate::dsl::refs::opt_rv(i.a);
            if i.a == Some(rv) {
                assert(s[0] == rv);
            } else {
                assert(s[a.len() as int] == rv);
            }
        },
        StepOp::File(i) => {
            let a = crate::dsl::refs::opt_rv(i.path);
            if i.path == Some(rv) {
                assert(s[0] == rv);
            } else {
                assert(s[a.len() as int] == rv);
            }
        },
        StepOp::Command(i) => {
            if i.command == rv {
                assert(s[0] == rv);
            } else {
                assert(s[1] == rv);
            }
        },
        StepOp::Llm(i) => {
            let a = crate::dsl::refs::opt_rv(i.api_key);
            let b = crate::dsl::refs::opt_rv(i.images_b64);
            let c = crate::dsl::refs::opt_rv(i.system);
            assert(s == a + b + seq![i.prompt] + c + seq![i.url]);
            if i.api_key == Some(rv) {
                assert(s[0] == rv);
            } else if i.images_b64 == Some(rv) {
                assert(s[a.len() as int] == rv);
            } else if i.prompt == rv {
                assert(s[(a.len() + b.len()) as int] == rv);
            } else if i.system == Some(rv) {
                assert(s[(a.len() + b.len() + 1) as int] == rv);
            } else {
                assert(s[s.len() - 1] == rv);
            }
        },
        _ => {
            assert(s[0] == rv);
        },
    }
}

proof fn lemma_rvs_deps_has(s: Seq<RefValue>, known: Seq<Seq<char>>, m: int, x: Seq<char>)
    requires
        0 <= m < s.len(),
        refvalue_deps(s[m], known).contains(x),
    ensures
        rvs_deps(s, known).contains(x),
    decreases s.len(),
{
    let d = rvs_deps(s.drop_last(), known);
    let e = refvalue_deps(s.last(), known);
    if m == s.len() - 1 {
        let j = choose|j: int| 0 <= j < e.len() && e[j] == x;
        assert((d + e)[d.len() + j] == x);
    } else {
        lemma_rvs_deps_has(s.drop_last(), known, m, x);
        let j = choose|j: int| 0 <= j < d.len() && d[j] == x;
        assert((d + e)[j] == x);
    }
}

impl<'a> Dag<'a> {
    /// Every reference in a step's inputs that names a step is a
    /// dependency of the step: for each input field of step `i`'s operator
    /// (any field of any kind of operator), each step its value refers to
    /// (a reference's first segment, or that of a reference inside a
    /// template or inside literal data, when it names a step) is among the
    /// step's predecessors.
    pub proof fn lemma_input_refs_are_preds(&self, i: int, rv: RefValue, x: Seq<char>)
        requires
            self.wf(),
            self.ids() == step_ids(self.pipeline()),
            forall|k: int|
                0 <= k < self.pipeline().steps@.len() ==> preds_ok(
                    self.pipeline(),
                    step_ids(self.pipeline()),
                    k,
                    #[trigger] self.preds_of(k),
                    self.after_count(k),
                ),
            0 <= i < self.pipeline().steps@.len(),
            op_input_field(self.pipeline().steps@[i].op, rv),
            refvalue_deps(rv, self.ids()).contains(x),
        ensures
            self.preds_of(i).contains(x),
    {
        let def = self.pipeline();
        let ids = self.ids();
        let op = def.steps@[i].op;
        lemma_field_is_input(op, rv);
        let m = choose|m: int| 0 <= m < op_inputs(op).len() && op_inputs(op)[m] == rv;
        lemma_rvs_deps_has(op_inputs(op), ids, m, x);
        assert(op_deps(op, ids).contains(x));
        let p = self.preds_of(i);
        assert(preds_ok(def, ids, i, p, self.after_count(i)));
        let it = iterate_dep(def.steps@[i], ids);
        let mid = p.subrange(self.after_count(i), p.len() - it.len());
        assert(mid.contains(x));
        let j = choose|j: int| 0 <= j < mid.len() && mid[j] == x;
        assert(p[self.after_count(i) + j] == x);
    }

    /// A step is laid out in a later layer than every step its inputs refer
    /// to: in any layering of the graph with nothing left over (what
    /// `topological_sort` returns on success), the layer holding step `i`
    /// comes after the layer holding the step named `x`.
    pub proof fn lemma_input_refs_come_first(
        &self,
        layers: Seq<Seq<usize>>,
        i: int,
        rv: RefValue,
        x: Seq<char>,
        k1: int,
        i1: int,
        k2: int,
        i2: int,
    )
        requires
            self.wf(),
            self.ids() == step_ids(self.pipeline()),
            forall|k: int|
                0 <= k < self.pipeline().steps@.len() ==> preds_ok(
                    self.pipeline(),
                    step_ids(self.pipeline()),
                    k,
                    #[trigger] self.preds_of(k),
                    self.after_count(k),
                ),
            layering_ok(self.edges(), layers, Seq::empty()),
            0 <= i < self.pipeline().steps@.len(),
            op_input_field(self.pipeline().steps@[i].op, rv),
            refvalue_deps(rv, self.ids()).contains(x),
            0 <= k1 < layers.len(),
            0 <= i1 < layers[k1].len(),
            layers[k1][i1] == i,
            0 <= k2 < layers.len(),
            0 <= i2 < layers[k2].len(),
            self.ids()[layers[k2][i2] as int] == x,
        ensures
            k2 < k1,
    {
        self.lemma_input_refs_are_preds(i, rv, x);
        self.lemma_edges_named();
        lemma_layering_orders_nodes(self.edges(), layers, Seq::empty());
        let p = self.preds_of(i);
        let q = choose|q: int| 0 <= q < p.len() && p[q] == x;
        let e = self.edges()[i][q];
        assert(self.ids()[e as int] == x);
        let w = layers[k2][i2];
        assert(w < self.ids().len()) by {
            let lvl = choose|lvl: Seq<int>| crate::graph::levels_ok(self.edges(), layers, Seq::empty(), lvl);
            reveal(crate::graph::levels_ok);
            assert(layers[k2][i2] < self.edges().len());
        }
        assert(e as int == w as int);
        assert(layers[k1][i1] == i);
        assert(layers[k2][i2] == self.edges()[layers[k1][i1] as int][q]);
    }
}

} // verus!
