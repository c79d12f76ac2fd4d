//! The decisions of a pipeline run and of an iterated step, as step
//! functions: from the state and what just happened to the next state and
//! what to do. The caller runs the steps and the chunks and reports back.

use vstd::prelude::*;
use crate::json::{Json, JsonV, jv, json_clone};
use crate::dsl::step::{StepId, ids_view};
use crate::engine::runner::{first_failure, layer_failure};
use crate::error::WeaveflowError;

verus! {

/// Where a run stands: its layers, the next layer to start, and whether it
/// has ended.
pub struct RunState {
    pub layers: Vec<Vec<StepId>>,
    pub next: usize,
    pub over: bool,
}

/// What happened: the run starts, or the steps of the layer started last
/// have ended, each with its error if it failed.
pub enum RunEvent {
    Start,
    LayerDone(Vec<(StepId, Option<String>)>),
}

/// What to do next.
pub enum RunAction {
    /// Run the steps of layer `index` in parallel.
    RunLayer { index: usize, steps: Vec<StepId> },
    /// A step failed: mark the steps of the later layers skipped and end
    /// the run with the error.
    Fail { error: String, skipped: Vec<StepId> },
    /// Every layer has run: build the output and complete the run.
    Finish,
    /// The run has ended; nothing to do.
    Idle,
}

pub struct RunStateV {
    pub layers: Seq<Seq<Seq<char>>>,
    pub next: int,
    pub over: bool,
}

pub enum RunActionV {
    RunLayer(int, Seq<Seq<char>>),
    Fail(Seq<char>, Seq<Seq<char>>),
    Finish,
    Idle,
}

pub enum RunEventV {
    Start,
    LayerDone(Option<Seq<char>>),
}

pub open spec fn layers_view(v: Seq<Vec<StepId>>) -> Seq<Seq<Seq<char>>> {
    v.map_values(|l: Vec<StepId>| ids_view(l@))
}

impl RunState {
    pub open spec fn view(&self) -> RunStateV {
        RunStateV { layers: layers_view(self.layers@), next: self.next as int, over: self.over }
    }
}

impl RunAction {
    pub open spec fn view(&self) -> RunActionV {
        match self {
            RunAction::RunLayer { index, steps } => RunActionV::RunLayer(*index as int, ids_view(steps@)),
            RunAction::Fail { error, skipped } => RunActionV::Fail(error@, ids_view(skipped@)),
            RunAction::Finish => RunActionV::Finish,
            RunAction::Idle => RunActionV::Idle,
        }
    }
}

impl RunEvent {
    /// An ended layer is seen through its first failure (see
    /// `first_failure`).
    pub open spec fn view(&self) -> RunEventV {
        match self {
            RunEvent::Start => RunEventV::Start,
            RunEvent::LayerDone(o) => RunEventV::LayerDone(first_failure(o@, o@.len() as int)),
        }
    }
}

/// The steps of the layers from `from` on, in order.
pub open spec fn steps_from(layers: Seq<Seq<Seq<char>>>, from: int) -> Seq<Seq<char>>
    decreases layers.len() - from,
{
    if from < 0 || from >= layers.len() {
        Seq::empty()
    } else {
        layers[from] + steps_from(layers, from + 1)
    }
}

/// Start layer `k`, or finish when there is none.
pub open spec fn start_layer(s: RunStateV, k: int) -> (RunStateV, RunActionV) {
    if k < s.layers.len() {
        (RunStateV { next: k + 1, ..s }, RunActionV::RunLayer(k, s.layers[k]))
    } else {
        (RunStateV { next: k, over: true, ..s }, RunActionV::Finish)
    }
}

/// A run goes layer by layer; the first failure in a layer ends it, and the
/// steps of the later layers are skipped.
pub open spec fn run_step(s: RunStateV, ev: RunEventV) -> (RunStateV, RunActionV) {
    if s.over {
        (s, RunActionV::Idle)
    } else {
        match ev {
            RunEventV::Start => start_layer(s, 0),
            RunEventV::LayerDone(f) => match f {
                Some(m) => (RunStateV { over: true, ..s }, RunActionV::Fail(m, steps_from(s.layers, s.next))),
                None => start_layer(s, s.next),
            },
        }
    }
}

impl RunState {
    /// A run over the given layers, not started.
    pub fn new(layers: Vec<Vec<StepId>>) -> (r: RunState)
        ensures
            r@ == (RunStateV { layers: layers_view(layers@), next: 0, over: false }),
    {
        RunState { layers, next: 0, over: false }
    }
}

fn copy_ids(v: &Vec<StepId>, out: &mut Vec<StepId>)
    ensures
        ids_view(final(out)@) == ids_view(old(out)@) + ids_view(v@),
{
    let ghost start = ids_view(out@);
    let mut i: usize = 0;
    while i < v.len()
        invariant
            i <= v@.len(),
            ids_view(out@) == start + ids_view(v@).take(i as int),
        decreases v@.len() - i,
    {
        let ghost prev = out@;
        out.push(StepId::new(v[i].0.as_str()));
        assert(ids_view(out@) =~= ids_view(prev).push(v@[i as int].0@));
        assert(ids_view(v@).take(i + 1) =~= ids_view(v@).take(i as int).push(v@[i as int].0@));
        i = i + 1;
    }
    assert(ids_view(v@).take(v@.len() as int) =~= ids_view(v@));
}

/// The steps of the layers from `from` on (see `steps_from`).
fn steps_after(layers: &Vec<Vec<StepId>>, from: usize) -> (r: Vec<StepId>)
    ensures
        ids_view(r@) == steps_from(layers_view(layers@), from as int),
    decreases layers@.len() - from,
{
    let ghost lv = layers_view(layers@);
    if from >= layers.len() {
        let r: Vec<StepId> = Vec::new();
        assert(ids_view(r@) =~= Seq::<Seq<char>>::empty());
        return r;
    }
    let mut r: Vec<StepId> = Vec::new();
    copy_ids(&layers[from], &mut r);
    let rest = steps_after(layers, from + 1);
    copy_ids(&rest, &mut r);
    assert(lv[from as int] == ids_view(layers@[from as int]@));
    assert(ids_view(r@) =~= lv[from as int] + steps_from(lv, from + 1));
    r
}

fn start_layer_exec(layers: Vec<Vec<StepId>>, k: usize) -> (r: (RunState, RunAction))
    ensures
        (r.0@, r.1@) == start_layer(RunStateV { layers: layers_view(layers@), next: 0, over: false }, k as int),
{
    let ghost lv = layers_view(layers@);
    if k < layers.len() {
        let mut steps: Vec<StepId> = Vec::new();
        copy_ids(&layers[k], &mut steps);
        assert(ids_view(steps@) =~= lv[k as int]);
        (RunState { layers, next: k + 1, over: false }, RunAction::RunLayer { index: k, steps })
    } else {
        (RunState { layers, next: k, over: true }, RunAction::Finish)
    }
}

/// One decision of a run (see `run_step`).
pub fn run_next(s: RunState, ev: &RunEvent) -> (r: (RunState, RunAction))
    ensures
        (r.0@, r.1@) == run_step(s@, ev@),
{
    if s.over {
        return (s, RunAction::Idle);
    }
    match ev {
        RunEvent::Start => start_layer_exec(s.layers, 0),
        RunEvent::LayerDone(outcomes) => {
            match layer_failure(outcomes) {
                Some(m) => {
                    let skipped = steps_after(&s.layers, s.next);
                    let next = s.next;
                    (RunState { layers: s.layers, next, over: true }, RunAction::Fail { error: m, skipped })
                },
                None => {
                    let next = s.next;
                    start_layer_exec(s.layers, next)
                },
            }
        },
    }
}


/// The next state and the actions of a run over a sequence of events.
pub open spec fn run_trace(s: RunStateV, evs: Seq<RunEventV>) -> (RunStateV, Seq<RunActionV>)
    decreases evs.len(),
{
    if evs.len() == 0 {
        (s, Seq::empty())
    } else {
        let (s1, a) = run_step(s, evs[0]);
        let (s2, acts) = run_trace(s1, evs.drop_first());
        (s2, seq![a] + acts)
    }
}

/// A run that is not started.
pub open spec fn fresh_run(layers: Seq<Seq<Seq<char>>>) -> RunStateV {
    RunStateV { layers, next: 0, over: false }
}

/// `n` layers that end without failure.
pub open spec fn clean_layers(n: int) -> Seq<RunEventV> {
    Seq::new(n as nat, |i: int| RunEventV::LayerDone(None))
}

/// Starting layers `from`, `from + 1`, ..: `n` of them.
pub open spec fn layer_starts(layers: Seq<Seq<Seq<char>>>, from: int, n: int) -> Seq<RunActionV> {
    Seq::new(n as nat, |i: int| RunActionV::RunLayer(from + i, layers[from + i]))
}

/// Nothing to do, `n` times.
pub open spec fn idles(n: int) -> Seq<RunActionV> {
    Seq::new(n as nat, |i: int| RunActionV::Idle)
}

/// An ended run stays ended and does nothing, whatever happens.
pub proof fn lemma_ended_run_idle(s: RunStateV, evs: Seq<RunEventV>)
    requires
        s.over,
    ensures
        run_trace(s, evs) == (s, idles(evs.len() as int)),
    decreases evs.len(),
{
    if evs.len() > 0 {
        lemma_ended_run_idle(s, evs.drop_first());
        assert(seq![RunActionV::Idle] + idles(evs.len() - 1) =~= idles(evs.len() as int));
    }
}

#[verifier::rlimit(40)]
proof fn lemma_fail_from(layers: Seq<Seq<Seq<char>>>, j: int, k: int, m: Seq<char>, rest: Seq<RunEventV>)
    requires
        0 <= j <= k < layers.len(),
    ensures
        run_trace(
            RunStateV { layers, next: j + 1, over: false },
            clean_layers(k - j) + seq![RunEventV::LayerDone(Some(m))] + rest,
        ) == (RunStateV { layers, next: k + 1, over: true }, layer_starts(layers, j + 1, k - j) + seq![
            RunActionV::Fail(m, steps_from(layers, k + 1)),
        ] + idles(rest.len() as int)),
    decreases k - j,
{
    let s = RunStateV { layers, next: j + 1, over: false };
    let evs = clean_layers(k - j) + seq![RunEventV::LayerDone(Some(m))] + rest;
    if j == k {
        assert(evs[0] == RunEventV::LayerDone(Some(m)));
        assert(evs.drop_first() =~= rest);
        lemma_ended_run_idle(RunStateV { layers, next: k + 1, over: true }, rest);
        assert(layer_starts(layers, j + 1, 0) =~= Seq::<RunActionV>::empty());
        assert(seq![RunActionV::Fail(m, steps_from(layers, k + 1))] + idles(rest.len() as int) =~= layer_starts(
            layers,
            j + 1,
            0,
        ) + seq![RunActionV::Fail(m, steps_from(layers, k + 1))] + idles(rest.len() as int));
    } else {
        assert(evs[0] == RunEventV::LayerDone(None));
        assert(evs.drop_first() =~= clean_layers(k - (j + 1)) + seq![RunEventV::LayerDone(Some(m))] + rest);
        lemma_fail_from(layers, j + 1, k, m, rest);
        let tail = layer_starts(layers, j + 2, k - j - 1) + seq![RunActionV::Fail(m, steps_from(layers, k + 1))]
            + idles(rest.len() as int);
        assert(seq![RunActionV::RunLayer(j + 1, layers[j + 1])] + tail =~= layer_starts(layers, j + 1, k - j) + seq![
            RunActionV::Fail(m, steps_from(layers, k + 1)),
        ] + idles(rest.len() as int));
    }
}

/// A failed step ends the whole run. When the layers before layer `k` end
/// without failure and layer `k` ends with failure `m` (a layer's failure
/// is its first failed step's error: see `first_failure`), the run starts
/// layers `0` to `k` in order, then fails with `m`, reporting every step of
/// the later layers as skipped, and does nothing more, whatever follows.
pub proof fn lemma_failure_ends_run(layers: Seq<Seq<Seq<char>>>, k: int, m: Seq<char>, rest: Seq<RunEventV>)
    requires
        0 <= k < layers.len(),
    ensures
        run_trace(
            fresh_run(layers),
            seq![RunEventV::Start] + clean_layers(k) + seq![RunEventV::LayerDone(Some(m))] + rest,
        ) == (RunStateV { layers, next: k + 1, over: true }, layer_starts(layers, 0, k + 1) + seq![
            RunActionV::Fail(m, steps_from(layers, k + 1)),
        ] + idles(rest.len() as int)),
{
    let evs = seq![RunEventV::Start] + clean_layers(k) + seq![RunEventV::LayerDone(Some(m))] + rest;
    assert(evs[0] == RunEventV::Start);
    assert(evs.drop_first() =~= clean_layers(k) + seq![RunEventV::LayerDone(Some(m))] + rest);
    lemma_fail_from(layers, 0, k, m, rest);
    assert(seq![RunActionV::RunLayer(0, layers[0])] + (layer_starts(layers, 1, k) + seq![
        RunActionV::Fail(m, steps_from(layers, k + 1)),
    ] + idles(rest.len() as int)) =~= layer_starts(layers, 0, k + 1) + seq![
        RunActionV::Fail(m, steps_from(layers, k + 1)),
    ] + idles(rest.len() as int));
}

#[verifier::rlimit(40)]
proof fn lemma_clean_from(layers: Seq<Seq<Seq<char>>>, j: int, rest: Seq<RunEventV>)
    requires
        1 <= j <= layers.len(),
    ensures
        run_trace(RunStateV { layers, next: j, over: false }, clean_layers(layers.len() - j + 1) + rest) == (
        RunStateV { layers, next: layers.len() as int, over: true },
        layer_starts(layers, j, layers.len() - j) + seq![RunActionV::Finish] + idles(rest.len() as int),
        ),
    decreases layers.len() - j,
{
    let n = layers.len() as int;
    let evs = clean_layers(n - j + 1) + rest;
    assert(evs[0] == RunEventV::LayerDone(None));
    assert(evs.drop_first() =~= clean_layers(n - (j + 1) + 1) + rest);
    if j == n {
        assert(evs.drop_first() =~= rest);
        lemma_ended_run_idle(RunStateV { layers, next: n, over: true }, rest);
        assert(seq![RunActionV::Finish] + idles(rest.len() as int) =~= layer_starts(layers, j, 0) + seq![
            RunActionV::Finish,
        ] + idles(rest.len() as int));
    } else {
        lemma_clean_from(layers, j + 1, rest);
        assert(seq![RunActionV::RunLayer(j, layers[j])] + (layer_starts(layers, j + 1, n - j - 1) + seq![
            RunActionV::Finish,
        ] + idles(rest.len() as int)) =~= layer_starts(layers, j, n - j) + seq![RunActionV::Finish] + idles(
            rest.len() as int,
        ));
    }
}

/// A run in which no step fails starts every layer, in order, then
/// finishes, and does nothing more, whatever follows.
pub proof fn lemma_clean_run_finishes(layers: Seq<Seq<Seq<char>>>, rest: Seq<RunEventV>)
    ensures
        run_trace(fresh_run(layers), seq![RunEventV::Start] + clean_layers(layers.len() as int) + rest) == (
        RunStateV { layers, next: layers.len() as int, over: true },
        layer_starts(layers, 0, layers.len() as int) + seq![RunActionV::Finish] + idles(rest.len() as int),
        ),
{
    let n = layers.len() as int;
    let evs = seq![RunEventV::Start] + clean_layers(n) + rest;
    assert(evs[0] == RunEventV::Start);
    assert(evs.drop_first() =~= clean_layers(n) + rest);
    if n == 0 {
        assert(evs.drop_first() =~= rest);
        lemma_ended_run_idle(RunStateV { layers, next: 0, over: true }, rest);
        assert(seq![RunActionV::Finish] + idles(rest.len() as int) =~= layer_starts(layers, 0, 0) + seq![
            RunActionV::Finish,
        ] + idles(rest.len() as int));
    } else {
        assert(clean_layers(n) =~= clean_layers(n - 1 + 1));
        lemma_clean_from(layers, 1, rest);
        assert(seq![RunActionV::RunLayer(0, layers[0])] + (layer_starts(layers, 1, n - 1) + seq![
            RunActionV::Finish,
        ] + idles(rest.len() as int)) =~= layer_starts(layers, 0, n) + seq![RunActionV::Finish] + idles(
            rest.len() as int,
        ));
    }
}

/// Where an iterated step stands: the number of chunks, how many run at
/// once, how many have been started, how many have ended, the most
/// attempts any took, the results so far (in chunk order), and whether it
/// has ended.
pub struct IterState {
    pub total: usize,
    pub workers: usize,
    pub next: usize,
    pub done: u64,
    pub max_attempts: u32,
    pub results: Vec<Json>,
    pub over: bool,
}

/// What happened: the iteration starts, or the chunks started last have
/// ended, in chunk order, each with its result and attempts, or its error
/// and attempts.
pub enum IterEvent {
    Start,
    WaveDone(Vec<Result<(Json, u32), (WeaveflowError, u32)>>),
}

/// What to do next. `reports` are the progress counts to report, in order.
pub enum IterAction {
    /// Start chunks `from..to` at once.
    Dispatch { from: usize, to: usize, reports: Vec<u64> },
    /// Every chunk has ended: join the results.
    Finish { reports: Vec<u64> },
    /// The chunk at position `chunk` of the last wave failed: the step
    /// fails with that chunk's error and attempts.
    Fail { chunk: usize, attempts: u32, reports: Vec<u64> },
    /// The iteration has ended; nothing to do.
    Idle,
}

pub struct IterStateV {
    pub total: int,
    pub workers: int,
    pub next: int,
    pub done: int,
    pub max_attempts: int,
    pub results: Seq<JsonV>,
    pub over: bool,
}

pub enum IterActionV {
    Dispatch(int, int, Seq<int>),
    Finish(Seq<int>),
    Fail(int, int, Seq<int>),
    Idle,
}

/// A chunk's outcome: whether it succeeded, its result, its attempts.
pub type ChunkV = (bool, JsonV, int);

pub enum IterEventV {
    Start,
    WaveDone(Seq<ChunkV>),
}

pub open spec fn u64s_view(v: Seq<u64>) -> Seq<int> {
    v.map_values(|x: u64| x as int)
}

pub open spec fn chunk_view(r: Result<(Json, u32), (WeaveflowError, u32)>) -> ChunkV {
    match r {
        Ok((j, a)) => (true, jv(j), a as int),
        Err((_, a)) => (false, JsonV::Null, a as int),
    }
}

pub open spec fn results_view(v: Seq<Json>) -> Seq<JsonV> {
    v.map_values(|j: Json| jv(j))
}

impl IterState {
    pub open spec fn view(&self) -> IterStateV {
        IterStateV {
            total: self.total as int,
            workers: self.workers as int,
            next: self.next as int,
            done: self.done as int,
            max_attempts: self.max_attempts as int,
            results: results_view(self.results@),
            over: self.over,
        }
    }
}

impl IterEvent {
    pub open spec fn view(&self) -> IterEventV {
        match self {
            IterEvent::Start => IterEventV::Start,
            IterEvent::WaveDone(w) => IterEventV::WaveDone(w@.map_values(|r: Result<(Json, u32), (WeaveflowError, u32)>| chunk_view(r))),
        }
    }
}

impl IterAction {
    pub open spec fn view(&self) -> IterActionV {
        match self {
            IterAction::Dispatch { from, to, reports } => IterActionV::Dispatch(*from as int, *to as int, u64s_view(reports@)),
            IterAction::Finish { reports } => IterActionV::Finish(u64s_view(reports@)),
            IterAction::Fail { chunk, attempts, reports } => IterActionV::Fail(*chunk as int, *attempts as int, u64s_view(reports@)),
            IterAction::Idle => IterActionV::Idle,
        }
    }
}

/// The number of chunks, among the first `n`, before the first that failed.
pub open spec fn ok_prefix(w: Seq<ChunkV>, n: int) -> int
    decreases n,
{
    if n <= 0 {
        0
    } else {
        let p = ok_prefix(w, n - 1);
        if p < n - 1 {
            p
        } else if w[n - 1].0 {
            n
        } else {
            n - 1
        }
    }
}

/// The progress counts reported as `m` more chunks end after `d0`: every
/// tenth, and the last.
pub open spec fn reports_of(d0: int, total: int, m: int) -> Seq<int>
    decreases m,
{
    if m <= 0 {
        Seq::empty()
    } else {
        reports_of(d0, total, m - 1) + if (d0 + m) % 10 == 0 || d0 + m == total {
            seq![d0 + m]
        } else {
            Seq::empty()
        }
    }
}

/// The most attempts, starting from `m0`, over the first `m` chunks.
pub open spec fn max_of(m0: int, w: Seq<ChunkV>, m: int) -> int
    decreases m,
{
    if m <= 0 {
        m0
    } else {
        let a = max_of(m0, w, m - 1);
        if w[m - 1].2 > a {
            w[m - 1].2
        } else {
            a
        }
    }
}

/// Start the next wave of at most `workers` chunks, or finish.
pub open spec fn dispatch(s: IterStateV, reports: Seq<int>) -> (IterStateV, IterActionV) {
    if s.next < s.total {
        let to = if s.next + s.workers < s.total {
            s.next + s.workers
        } else {
            s.total
        };
        (IterStateV { next: to, ..s }, IterActionV::Dispatch(s.next, to, reports))
    } else {
        (IterStateV { over: true, ..s }, IterActionV::Finish(reports))
    }
}

/// Chunks run in waves of at most `workers`, in order; the results of a
/// wave are taken in chunk order up to its first failure, which ends the
/// step.
pub open spec fn iter_step(s: IterStateV, ev: IterEventV) -> (IterStateV, IterActionV) {
    if s.over {
        (s, IterActionV::Idle)
    } else {
        match ev {
            IterEventV::Start => dispatch(s, Seq::empty()),
            IterEventV::WaveDone(w) => {
                let m = ok_prefix(w, w.len() as int);
                let reps = reports_of(s.done, s.total, m);
                let s2 = IterStateV {
                    done: s.done + m,
                    max_attempts: max_of(s.max_attempts, w, m),
                    results: s.results + w.take(m).map_values(|c: ChunkV| c.1),
                    ..s
                };
                if m < w.len() {
                    (IterStateV { over: true, ..s2 }, IterActionV::Fail(m, w[m].2, reps))
                } else {
                    dispatch(s2, reps)
                }
            },
        }
    }
}

impl IterState {
    /// An iteration over `total` chunks, `workers` at a time, not started.
    pub fn new(total: usize, workers: usize) -> (r: IterState)
        ensures
            r@ == (IterStateV {
                total: total as int,
                workers: workers as int,
                next: 0,
                done: 0,
                max_attempts: 1,
                results: Seq::empty(),
                over: false,
            }),
    {
        let r = IterState { total, workers, next: 0, done: 0, max_attempts: 1, results: Vec::new(), over: false };
        assert(results_view(r.results@) =~= Seq::<JsonV>::empty());
        r
    }
}

fn dispatch_exec(s: IterState, reports: Vec<u64>) -> (r: (IterState, IterAction))
    ensures
        (r.0@, r.1@) == dispatch(s@, u64s_view(reports@)),
{
    if s.next < s.total {
        let to = if s.workers < s.total - s.next {
            s.next + s.workers
        } else {
            s.total
        };
        let from = s.next;
        (IterState { next: to, ..s }, IterAction::Dispatch { from, to, reports })
    } else {
        (IterState { over: true, ..s }, IterAction::Finish { reports })
    }
}

/// One decision of an iterated step (see `iter_step`).
#[verifier::loop_isolation(false)]
pub fn iter_next(s: IterState, ev: &IterEvent) -> (r: (IterState, IterAction))
    requires
        ev matches IterEvent::WaveDone(w) ==> s.done + w@.len() <= u64::MAX,
    ensures
        (r.0@, r.1@) == iter_step(s@, ev@),
{
    if s.over {
        return (s, IterAction::Idle);
    }
    match ev {
        IterEvent::Start => {
            let reports: Vec<u64> = Vec::new();
            assert(u64s_view(reports@) =~= Seq::<int>::empty());
            dispatch_exec(s, reports)
        },
        IterEvent::WaveDone(w) => {
            let ghost wv = w@.map_values(|r: Result<(Json, u32), (WeaveflowError, u32)>| chunk_view(r));
            let ghost s0 = s@;
            assert(ev@ == IterEventV::WaveDone(wv));
            let mut st = s;
            let mut reports: Vec<u64> = Vec::new();
            let mut k: usize = 0;
            while k < w.len()
                invariant
                    k <= w@.len(),
                    wv == w@.map_values(|r: Result<(Json, u32), (WeaveflowError, u32)>| chunk_view(r)),
                    ev@ == IterEventV::WaveDone(wv),
                    !s0.over,
                    ok_prefix(wv, k as int) == k,
                    s0.done + w@.len() <= u64::MAX,
                    st@ == (IterStateV {
                        done: s0.done + k,
                        max_attempts: max_of(s0.max_attempts, wv, k as int),
                        results: s0.results + wv.take(k as int).map_values(|c: ChunkV| c.1),
                        ..s0
                    }),
                    u64s_view(reports@) == reports_of(s0.done, s0.total, k as int),
                decreases w@.len() - k,
            {
                assert(wv[k as int] == chunk_view(w@[k as int]));
                match &w[k] {
                    Ok((j, a)) => {
                        let c = json_clone(j);
                        let ghost rprev = st.results@;
                        st.results.push(c);
                        st.done = st.done + 1;
                        if *a > st.max_attempts {
                            st.max_attempts = *a;
                        }
                        if crate::engine::iterate::should_report(st.done, st.total as u64) {
                            reports.push(st.done);
                        }
                        proof {
                            assert(wv.take(k + 1).map_values(|c: ChunkV| c.1) =~= wv.take(k as int).map_values(|c: ChunkV| c.1).push(jv(*j)));
                            assert(results_view(st.results@) =~= results_view(rprev).push(jv(*j)));
                        }
                        assert(u64s_view(reports@) =~= reports_of(s0.done, s0.total, k + 1));
                        k = k + 1;
                    },
                    Err((_, a)) => {
                        assert(ok_prefix(wv, wv.len() as int) == k) by {
                            lemma_ok_prefix_stops(wv, k as int, wv.len() as int);
                        }
                        let att = *a;
                        assert(wv[k as int].2 == att as int);
                        assert(wv.len() == w@.len());
                        let out = IterState { over: true, ..st };
                        let act = IterAction::Fail { chunk: k, attempts: att, reports };
                        proof {
                            let m = ok_prefix(wv, wv.len() as int);
                            assert(m == k);
                            assert(ev@ == IterEventV::WaveDone(wv));
                            let s2 = IterStateV {
                                done: s0.done + m,
                                max_attempts: max_of(s0.max_attempts, wv, m),
                                results: s0.results + wv.take(m).map_values(|c: ChunkV| c.1),
                                ..s0
                            };
                            assert(out@ == IterStateV { over: true, ..s2 });
                            assert(act@ == IterActionV::Fail(m, wv[m].2, reports_of(s0.done, s0.total, m)));
                            assert(m < wv.len());
                            assert((out@, act@) == iter_step(s0, IterEventV::WaveDone(wv)));
                        }
                        return (out, act);
                    },
                }
            }
            assert(wv.len() == w@.len());
            dispatch_exec(st, reports)
        },
    }
}

proof fn lemma_ok_prefix_stops(w: Seq<ChunkV>, k: int, n: int)
    requires
        0 <= k < n <= w.len(),
        ok_prefix(w, k) == k,
        !w[k].0,
    ensures
        ok_prefix(w, n) == k,
    decreases n - k,
{
    if n > k + 1 {
        lemma_ok_prefix_stops(w, k, n - 1);
    }
}

/// What the caller answers a dispatch with: the outcomes of the chunks it
/// started, in chunk order.
pub open spec fn wave_of(cs: Seq<ChunkV>, a: IterActionV) -> IterEventV {
    match a {
        IterActionV::Dispatch(from, to, _) => IterEventV::WaveDone(cs.subrange(from, to)),
        _ => IterEventV::Start,
    }
}

/// An iteration driven on: each dispatch answered from `cs`, for at most
/// `fuel` waves, stopping at the first action that is no dispatch.
pub open spec fn drive(s: IterStateV, a: IterActionV, cs: Seq<ChunkV>, fuel: nat) -> (IterStateV, IterActionV)
    decreases fuel,
{
    if fuel == 0 || !(a is Dispatch) {
        (s, a)
    } else {
        let (s2, a2) = iter_step(s, wave_of(cs, a));
        drive(s2, a2, cs, (fuel - 1) as nat)
    }
}

/// An iteration that is not started.
pub open spec fn fresh_iter(total: int, workers: int) -> IterStateV {
    IterStateV { total, workers, next: 0, done: 0, max_attempts: 1, results: Seq::empty(), over: false }
}

/// The results the chunks gave, in chunk order.
pub open spec fn chunk_results(cs: Seq<ChunkV>) -> Seq<JsonV> {
    cs.map_values(|c: ChunkV| c.1)
}

proof fn lemma_ok_prefix_all(w: Seq<ChunkV>, n: int)
    requires
        0 <= n <= w.len(),
        forall|i: int| 0 <= i < n ==> (#[trigger] w[i]).0,
    ensures
        ok_prefix(w, n) == n,
    decreases n,
{
    if n > 0 {
        lemma_ok_prefix_all(w, n - 1);
    }
}

proof fn lemma_max_of_split(m0: int, cs: Seq<ChunkV>, from: int, to: int, k: int)
    requires
        0 <= from <= to <= cs.len(),
        0 <= k <= to - from,
    ensures
        max_of(max_of(m0, cs, from), cs.subrange(from, to), k) == max_of(m0, cs, from + k),
    decreases k,
{
    if k > 0 {
        lemma_max_of_split(m0, cs, from, to, k - 1);
        assert(cs.subrange(from, to)[k - 1] == cs[from + k - 1]);
    }
}

/// More fuel changes nothing once the iteration is past its dispatches.
proof fn lemma_drive_fuel(s: IterStateV, a: IterActionV, cs: Seq<ChunkV>, fuel: nat)
    requires
        !(drive(s, a, cs, fuel).1 is Dispatch),
    ensures
        drive(s, a, cs, fuel + 1) == drive(s, a, cs, fuel),
    decreases fuel,
{
    if fuel > 0 && a is Dispatch {
        let (s2, a2) = iter_step(s, wave_of(cs, a));
        lemma_drive_fuel(s2, a2, cs, (fuel - 1) as nat);
    }
}

#[verifier::rlimit(40)]
proof fn lemma_drive_from(cs: Seq<ChunkV>, workers: int, from: int, to: int, reps: Seq<int>, fuel: nat)
    requires
        workers >= 1,
        forall|i: int| 0 <= i < cs.len() ==> (#[trigger] cs[i]).0,
        0 <= from < to <= cs.len(),
        to == (if from + workers < cs.len() { from + workers } else { cs.len() as int }),
        fuel >= cs.len() - from,
    ensures
        ({
            let s = IterStateV {
                total: cs.len() as int,
                workers,
                next: to,
                done: from,
                max_attempts: max_of(1, cs, from),
                results: chunk_results(cs.take(from)),
                over: false,
            };
            let (sf, af) = drive(s, IterActionV::Dispatch(from, to, reps), cs, fuel);
            &&& af is Finish
            &&& sf.results == chunk_results(cs)
            &&& sf.max_attempts == max_of(1, cs, cs.len() as int)
            &&& sf.done == cs.len()
        }),
    decreases cs.len() - from,
{
    let n = cs.len() as int;
    let s = IterStateV {
        total: n,
        workers,
        next: to,
        done: from,
        max_attempts: max_of(1, cs, from),
        results: chunk_results(cs.take(from)),
        over: false,
    };
    let w = cs.subrange(from, to);
    lemma_ok_prefix_all(w, w.len() as int);
    lemma_max_of_split(1, cs, from, to, to - from);
    assert(w.take(to - from) =~= w);
    assert(chunk_results(cs.take(from)) + w.take(to - from).map_values(|c: ChunkV| c.1) =~= chunk_results(cs.take(to)));
    let m = ok_prefix(w, w.len() as int);
    let reps2 = reports_of(from, n, m);
    let s2 = IterStateV {
        done: from + m,
        max_attempts: max_of(s.max_attempts, w, m),
        results: s.results + w.take(m).map_values(|c: ChunkV| c.1),
        ..s
    };
    assert(iter_step(s, wave_of(cs, IterActionV::Dispatch(from, to, reps))) == dispatch(s2, reps2));
    let (s3, a3) = dispatch(s2, reps2);
    assert(drive(s, IterActionV::Dispatch(from, to, reps), cs, fuel) == drive(s3, a3, cs, (fuel - 1) as nat));
    assert(s2.results == chunk_results(cs.take(to)));
    assert(s2.max_attempts == max_of(1, cs, to));
    assert(s2.done == to);
    if to < n {
        let to2 = if to + workers < n { to + workers } else { n };
        lemma_drive_from(cs, workers, to, to2, reps2, (fuel - 1) as nat);
    } else {
        assert(cs.take(to) =~= cs);
        assert(a3 is Finish);
        assert(drive(s3, a3, cs, (fuel - 1) as nat) == (s3, a3));
    }
}

/// An iterated step whose chunks all succeed ends with every chunk's
/// result, in chunk order, whatever the number of workers (the waves it
/// runs in), and with the most attempts any chunk took, at least one. Each
/// dispatch is answered with the outcomes of the chunks it started.
pub proof fn lemma_iteration_in_order(cs: Seq<ChunkV>, workers: int)
    requires
        workers >= 1,
        forall|i: int| 0 <= i < cs.len() ==> (#[trigger] cs[i]).0,
    ensures
        ({
            let (s0, a0) = iter_step(fresh_iter(cs.len() as int, workers), IterEventV::Start);
            let (sf, af) = drive(s0, a0, cs, (cs.len() + 1) as nat);
            &&& af is Finish
            &&& sf.results == chunk_results(cs)
            &&& sf.max_attempts == max_of(1, cs, cs.len() as int)
            &&& sf.done == cs.len()
        }),
{
    let n = cs.len() as int;
    if n > 0 {
        let to = if workers < n { workers } else { n };
        assert(cs.take(0) =~= Seq::<ChunkV>::empty());
        assert(chunk_results(cs.take(0)) =~= Seq::<JsonV>::empty());
        let s0 = IterStateV {
            total: n,
            workers,
            next: to,
            done: 0,
            max_attempts: max_of(1, cs, 0),
            results: chunk_results(cs.take(0)),
            over: false,
        };
        assert(iter_step(fresh_iter(n, workers), IterEventV::Start) == (s0, IterActionV::Dispatch(0, to, Seq::empty())));
        lemma_drive_from(cs, workers, 0, to, Seq::empty(), n as nat);
        assert(drive(s0, IterActionV::Dispatch(0, to, Seq::empty()), cs, (n + 1) as nat) == drive(
            s0,
            IterActionV::Dispatch(0, to, Seq::empty()),
            cs,
            n as nat,
        )) by {
            lemma_drive_fuel(s0, IterActionV::Dispatch(0, to, Seq::empty()), cs, n as nat);
        }
    } else {
        assert(chunk_results(cs) =~= Seq::<JsonV>::empty());
    }
}

} // verus!
