//! Layering of a dependency graph (Kahn's algorithm, round by round).
//!
//! Nodes are `0..n`; `preds[v]` lists the nodes `v` depends on (repeats
//! allowed). Layer 0 holds the nodes with no predecessor; layer `k + 1` the
//! nodes not yet placed all of whose predecessors are placed. What is never
//! placed lies on a cycle or downstream of one.

use vstd::prelude::*;

verus! {

/// Every predecessor is a node.
pub open spec fn graph_ok(g: Seq<Seq<usize>>) -> bool {
    forall|v: int, k: int| 0 <= v < g.len() && 0 <= k < g[v].len() ==> (#[trigger] g[v][k]) < g.len()
}

pub open spec fn strictly_increasing(s: Seq<usize>) -> bool {
    forall|i: int, j: int| 0 <= i < j < s.len() ==> s[i] < s[j]
}

/// `lvl[v]` is the layer of `v`, or `-1` when `v` is left over.
#[verifier::opaque]
pub open spec fn levels_ok(g: Seq<Seq<usize>>, layers: Seq<Seq<usize>>, rem: Seq<usize>, lvl: Seq<int>) -> bool {
    let n = g.len();
    &&& lvl.len() == n
    &&& forall|v: int| 0 <= v < n ==> -1 <= #[trigger] lvl[v] < layers.len()
    &&& forall|k: int| 0 <= k < layers.len() ==> (#[trigger] layers[k]).len() > 0 && strictly_increasing(layers[k])
    &&& forall|k: int, i: int|
        0 <= k < layers.len() && 0 <= i < layers[k].len() ==> (#[trigger] layers[k][i]) < n && lvl[layers[k][i] as int] == k
    &&& forall|v: int| 0 <= v < n && lvl[v] >= 0 ==> (#[trigger] layers[lvl[v]]).contains(v as usize)
    &&& strictly_increasing(rem)
    &&& forall|i: int| 0 <= i < rem.len() ==> (#[trigger] rem[i]) < n
    &&& forall|v: int| 0 <= v < n ==> (#[trigger] lvl[v] == -1 <==> rem.contains(v as usize))
    &&& forall|v: int, k: int|
        0 <= v < n && 0 <= k < g[v].len() && lvl[v] >= 0 ==> 0 <= lvl[g[v][k] as int] < lvl[v] && #[trigger] g[v][k] < n
    &&& forall|v: int| 0 <= v < n && #[trigger] lvl[v] > 0 ==> exists|k: int|
        0 <= k < g[v].len() && lvl[#[trigger] g[v][k] as int] == lvl[v] - 1
    &&& forall|v: int| 0 <= v < n && #[trigger] lvl[v] == -1 ==> exists|k: int|
        0 <= k < g[v].len() && lvl[#[trigger] g[v][k] as int] == -1
}

/// The layers and the left-over nodes of a graph.
pub open spec fn layering_ok(g: Seq<Seq<usize>>, layers: Seq<Seq<usize>>, rem: Seq<usize>) -> bool {
    exists|lvl: Seq<int>| levels_ok(g, layers, rem, lvl)
}

/// Node `v` lies in some layer.
pub open spec fn in_some_layer(layers: Seq<Seq<usize>>, v: usize) -> bool {
    exists|k: int| 0 <= k < layers.len() && #[trigger] layers[k].contains(v)
}

/// When nothing is left over, every node lies in exactly one layer, and
/// every node it depends on lies in an earlier layer.
pub proof fn lemma_layering_orders_nodes(g: Seq<Seq<usize>>, layers: Seq<Seq<usize>>, rem: Seq<usize>)
    requires
        layering_ok(g, layers, rem),
        rem.len() == 0,
    ensures
        forall|v: usize| v < g.len() ==> #[trigger] in_some_layer(layers, v),
        forall|k1: int, i1: int, k2: int, i2: int|
            0 <= k1 < layers.len() && 0 <= i1 < layers[k1].len() && 0 <= k2 < layers.len() && 0 <= i2 < layers[k2].len()
                && #[trigger] layers[k1][i1] == #[trigger] layers[k2][i2] ==> k1 == k2,
        forall|k: int, i: int, j: int, k2: int, i2: int|
            0 <= k < layers.len() && 0 <= i < layers[k].len() && 0 <= j < g[layers[k][i] as int].len() && 0 <= k2
                < layers.len() && 0 <= i2 < layers[k2].len() && #[trigger] layers[k2][i2] == #[trigger] g[layers[k][i] as int][j]
                ==> k2 < k,
{
    let lvl = choose|lvl: Seq<int>| levels_ok(g, layers, rem, lvl);
    reveal(levels_ok);
    assert forall|v: usize| v < g.len() implies #[trigger] in_some_layer(layers, v) by {
        assert(!rem.contains(v));
        assert(lvl[v as int] != -1);
        assert(layers[lvl[v as int]].contains(v));
    }
    assert forall|k1: int, i1: int, k2: int, i2: int|
        0 <= k1 < layers.len() && 0 <= i1 < layers[k1].len() && 0 <= k2 < layers.len() && 0 <= i2 < layers[k2].len()
            && #[trigger] layers[k1][i1] == #[trigger] layers[k2][i2] implies k1 == k2 by {
        assert(lvl[layers[k1][i1] as int] == k1);
        assert(lvl[layers[k2][i2] as int] == k2);
    }
    assert forall|k: int, i: int, j: int, k2: int, i2: int|
        0 <= k < layers.len() && 0 <= i < layers[k].len() && 0 <= j < g[layers[k][i] as int].len() && 0 <= k2
            < layers.len() && 0 <= i2 < layers[k2].len() && #[trigger] layers[k2][i2] == #[trigger] g[layers[k][i] as int][j]
            implies k2 < k by {
        let v = layers[k][i] as int;
        assert(lvl[v] == k);
        assert(v < g.len());
        assert(0 <= lvl[g[v][j] as int] < lvl[v]);
        assert(lvl[layers[k2][i2] as int] == k2);
    }
}

pub open spec fn graph_view(preds: Seq<Vec<usize>>) -> Seq<Seq<usize>> {
    preds.map_values(|p: Vec<usize>| p@)
}

/// Whether every predecessor of `v` is placed.
fn preds_placed(p: &Vec<usize>, placed: &Vec<bool>) -> (r: bool)
    requires
        forall|k: int| 0 <= k < p@.len() ==> (#[trigger] p@[k]) < placed@.len(),
    ensures
        r == forall|k: int| 0 <= k < p@.len() ==> placed@[#[trigger] p@[k] as int],
{
    let mut k: usize = 0;
    while k < p.len()
        invariant
            k <= p@.len(),
            forall|k: int| 0 <= k < p@.len() ==> (#[trigger] p@[k]) < placed@.len(),
            forall|j: int| 0 <= j < k ==> placed@[#[trigger] p@[j] as int],
        decreases p@.len() - k,
    {
        if !placed[p[k]] {
            return false;
        }
        k = k + 1;
    }
    true
}

/// The number of nodes below `m` left unplaced.
pub open spec fn count_unplaced(lvl: Seq<int>, m: int) -> nat
    decreases m,
{
    if m <= 0 {
        0
    } else {
        count_unplaced(lvl, m - 1) + (if lvl[m - 1] == -1 { 1nat } else { 0nat })
    }
}

/// Placing nodes only lowers the count; placing node `x` lowers it strictly.
proof fn lemma_count_drops(a: Seq<int>, b: Seq<int>, m: int, x: int)
    requires
        0 <= m <= a.len(),
        a.len() == b.len(),
        forall|v: int| 0 <= v < m && b[v] == -1 ==> a[v] == -1,
    ensures
        count_unplaced(b, m) <= count_unplaced(a, m),
        0 <= x < m && a[x] == -1 && b[x] != -1 ==> count_unplaced(b, m) < count_unplaced(a, m),
    decreases m,
{
    if m > 0 {
        lemma_count_drops(a, b, m - 1, x);
    }
}

/// The invariant of the layering: what holds after each round.
#[verifier::opaque]
pub closed spec fn rounds_ok(g: Seq<Seq<usize>>, lv: Seq<Seq<usize>>, lvl: Seq<int>) -> bool {
    let n = g.len();
    &&& lvl.len() == n
    &&& forall|v: int| 0 <= v < n ==> -1 <= #[trigger] lvl[v] < lv.len()
    &&& forall|k: int| 0 <= k < lv.len() ==> (#[trigger] lv[k]).len() > 0 && strictly_increasing(lv[k])
    &&& forall|k: int, i: int|
        0 <= k < lv.len() && 0 <= i < lv[k].len() ==> (#[trigger] lv[k][i]) < n && lvl[lv[k][i] as int] == k
    &&& forall|v: int| 0 <= v < n && lvl[v] >= 0 ==> (#[trigger] lv[lvl[v]]).contains(v as usize)
    &&& forall|v: int, k: int|
        0 <= v < n && 0 <= k < g[v].len() && lvl[v] >= 0 ==> 0 <= lvl[g[v][k] as int] < lvl[v] && #[trigger] g[v][k] < n
    &&& forall|v: int| 0 <= v < n && #[trigger] lvl[v] > 0 ==> exists|k: int|
        0 <= k < g[v].len() && lvl[#[trigger] g[v][k] as int] == lvl[v] - 1
}

/// Every unplaced node waits on a node that is unplaced or in the last layer.
#[verifier::opaque]
pub closed spec fn frontier_ok(g: Seq<Seq<usize>>, lvl: Seq<int>, last: int) -> bool {
    forall|v: int| 0 <= v < g.len() && #[trigger] lvl[v] == -1 ==> exists|k: int|
        0 <= k < g[v].len() && (lvl[#[trigger] g[v][k] as int] == -1 || lvl[g[v][k] as int] == last)
}

/// The next layer of a round: unplaced nodes whose predecessors are placed,
/// and only they, in increasing order.
#[verifier::opaque]
pub closed spec fn next_layer_ok(g: Seq<Seq<usize>>, before: Seq<int>, lay: Seq<usize>) -> bool {
    &&& strictly_increasing(lay)
    &&& forall|i: int| 0 <= i < lay.len() ==> (#[trigger] lay[i]) < g.len() && before[lay[i] as int] == -1
    &&& forall|i: int, k: int| 0 <= i < lay.len() && 0 <= k < g[lay[i] as int].len() ==>
        before[#[trigger] g[lay[i] as int][k] as int] >= 0
    &&& forall|w: int| 0 <= w < g.len() && before[w] == -1 ==> (lay.contains(w as usize) || exists|k: int|
        0 <= k < g[w].len() && #[trigger] before[g[w][k] as int] == -1)
}

/// Placing the next layer keeps the invariant.
proof fn lemma_round(g: Seq<Seq<usize>>, lv: Seq<Seq<usize>>, before: Seq<int>, lvl: Seq<int>, lay: Seq<usize>)
    requires
        graph_ok(g),
        g.len() <= usize::MAX,
        rounds_ok(g, lv, before),
        lv.len() > 0 ==> frontier_ok(g, before, lv.len() - 1),
        next_layer_ok(g, before, lay),
        lay.len() > 0,
        lvl.len() == g.len(),
        forall|w: int| 0 <= w < g.len() ==> (#[trigger] lvl[w]) == (if lay.contains(w as usize) {
            lv.len() as int
        } else {
            before[w]
        }),
    ensures
        rounds_ok(g, lv.push(lay), lvl),
        frontier_ok(g, lvl, lv.len() as int),
{
    reveal(rounds_ok);
    reveal(frontier_ok);
    reveal(next_layer_ok);
    let n = g.len();
    let k = lv.len() as int;
    let nl = lv.push(lay);
    assert forall|kk: int, i: int|
        0 <= kk < nl.len() && 0 <= i < nl[kk].len() implies (#[trigger] nl[kk][i]) < n && lvl[nl[kk][i] as int] == kk by {
        if kk < k {
            let e = nl[kk][i];
            assert(lv[kk][i] == e);
            if lay.contains(e) {
                let j = choose|j: int| 0 <= j < lay.len() && #[trigger] lay[j] == e;
                assert(before[lay[j] as int] == -1);
            }
        } else {
            assert(lay.contains(lay[i]));
        }
    }
    assert forall|w: int| 0 <= w < n && lvl[w] >= 0 implies (#[trigger] nl[lvl[w]]).contains(w as usize) by {
        if !lay.contains(w as usize) {
            assert(lv[before[w]].contains(w as usize));
        }
    }
    assert forall|v: int, kk: int|
        0 <= v < n && 0 <= kk < g[v].len() && lvl[v] >= 0 implies 0 <= lvl[g[v][kk] as int] < lvl[v]
            && #[trigger] g[v][kk] < n by {
        let u = g[v][kk];
        if lay.contains(v as usize) {
            let i = choose|i: int| 0 <= i < lay.len() && #[trigger] lay[i] == v as usize;
            assert(before[g[lay[i] as int][kk] as int] >= 0);
        } else {
            assert(0 <= before[u as int] < before[v]);
        }
        if lay.contains(u) {
            let j = choose|j: int| 0 <= j < lay.len() && #[trigger] lay[j] == u;
            assert(before[lay[j] as int] == -1);
        }
    }
    assert forall|v: int| 0 <= v < n && #[trigger] lvl[v] > 0 implies exists|kk: int|
        0 <= kk < g[v].len() && lvl[#[trigger] g[v][kk] as int] == lvl[v] - 1 by {
        if lay.contains(v as usize) {
            let i = choose|i: int| 0 <= i < lay.len() && #[trigger] lay[i] == v as usize;
            let kk = choose|kk: int| 0 <= kk < g[v].len() && (before[#[trigger] g[v][kk] as int] == -1
                || before[g[v][kk] as int] == k - 1);
            assert(before[g[lay[i] as int][kk] as int] >= 0);
            let u = g[v][kk];
            if lay.contains(u) {
                let j = choose|j: int| 0 <= j < lay.len() && #[trigger] lay[j] == u;
                assert(before[lay[j] as int] == -1);
            }
            assert(lvl[u as int] == k - 1);
        } else {
            let kk = choose|kk: int| 0 <= kk < g[v].len() && before[#[trigger] g[v][kk] as int] == before[v] - 1;
            let u = g[v][kk];
            if lay.contains(u) {
                let j = choose|j: int| 0 <= j < lay.len() && #[trigger] lay[j] == u;
                assert(before[lay[j] as int] == -1);
            }
            assert(lvl[u as int] == lvl[v] - 1);
        }
    }
    assert forall|v: int| 0 <= v < n && #[trigger] lvl[v] == -1 implies exists|kk: int|
        0 <= kk < g[v].len() && (lvl[#[trigger] g[v][kk] as int] == -1 || lvl[g[v][kk] as int] == k) by {
        assert(!lay.contains(v as usize));
        let kk = choose|kk: int| 0 <= kk < g[v].len() && #[trigger] before[g[v][kk] as int] == -1;
        let u = g[v][kk];
        assert(lvl[u as int] == -1 || lvl[u as int] == k);
    }
    assert forall|kk: int| 0 <= kk < nl.len() implies (#[trigger] nl[kk]).len() > 0 && strictly_increasing(nl[kk]) by {}
}

/// Computes the next layer: unplaced nodes whose predecessors are all placed.
fn next_layer(preds: &Vec<Vec<usize>>, placed: &Vec<bool>, Ghost(before): Ghost<Seq<int>>) -> (lay: Vec<usize>)
    requires
        graph_ok(graph_view(preds@)),
        placed@.len() == preds@.len(),
        before.len() == preds@.len(),
        forall|w: int| 0 <= w < preds@.len() ==> (#[trigger] placed@[w] <==> before[w] >= 0),
        forall|w: int| 0 <= w < preds@.len() ==> -1 <= #[trigger] before[w],
    ensures
        next_layer_ok(graph_view(preds@), before, lay@),
{
    let ghost g = graph_view(preds@);
    let n = preds.len();
    let mut layer: Vec<usize> = Vec::new();
    let mut v: usize = 0;
    while v < n
        invariant
            v <= n,
            n == preds@.len(),
            g == graph_view(preds@),
            graph_ok(g),
            placed@.len() == n,
            before.len() == n,
            forall|w: int| 0 <= w < n ==> (#[trigger] placed@[w] <==> before[w] >= 0),
            forall|w: int| 0 <= w < n ==> -1 <= #[trigger] before[w],
            strictly_increasing(layer@),
            forall|i: int| 0 <= i < layer@.len() ==> (#[trigger] layer@[i]) < v && before[layer@[i] as int] == -1,
            forall|i: int, k: int| 0 <= i < layer@.len() && 0 <= k < g[layer@[i] as int].len() ==>
                before[#[trigger] g[layer@[i] as int][k] as int] >= 0,
            forall|w: int| 0 <= w < v && before[w] == -1 ==> (layer@.contains(w as usize) || exists|k: int|
                0 <= k < g[w].len() && #[trigger] before[g[w][k] as int] == -1),
        decreases n - v,
    {
        let ghost old_layer = layer@;
        if !placed[v] {
            proof {
                assert(preds@[v as int]@ == g[v as int]);
                assert forall|k: int| 0 <= k < preds@[v as int]@.len() implies (#[trigger] preds@[v as int]@[k]) < placed@.len() by {
                    assert(g[v as int][k] == preds@[v as int]@[k]);
                }
            }
            if preds_placed(&preds[v], &placed) {
                layer.push(v);
                proof {
                    assert(layer@[layer@.len() - 1] == v);
                    assert forall|i: int, k: int| 0 <= i < layer@.len() && 0 <= k < g[layer@[i] as int].len() implies
                        before[#[trigger] g[layer@[i] as int][k] as int] >= 0 by {
                        if i == layer@.len() - 1 {
                            assert(g[v as int][k] == preds@[v as int]@[k]);
                            assert(placed@[preds@[v as int]@[k] as int]);
                        } else {
                            assert(layer@[i] == old_layer[i]);
                        }
                    }
                }
            } else {
                proof {
                    let k = choose|k: int| 0 <= k < preds@[v as int]@.len() && !placed@[#[trigger] preds@[v as int]@[k] as int];
                    assert(g[v as int][k] == preds@[v as int]@[k]);
                    assert(before[g[v as int][k] as int] == -1);
                }
            }
        }
        proof {
            assert forall|w: int| 0 <= w < v + 1 && before[w] == -1 implies (layer@.contains(w as usize) || exists|k: int|
                0 <= k < g[w].len() && #[trigger] before[g[w][k] as int] == -1) by {
                if w < v && old_layer.contains(w as usize) {
                    let i = choose|i: int| 0 <= i < old_layer.len() && #[trigger] old_layer[i] == w as usize;
                    assert(layer@[i] == w as usize);
                }
            }
        }
        v = v + 1;
    }
    proof {
        reveal(next_layer_ok);
    }
    layer
}

/// Splits the nodes into layers, each in increasing order, and the nodes
/// left over, in increasing order.
pub fn layer_graph(preds: &Vec<Vec<usize>>) -> (r: (Vec<Vec<usize>>, Vec<usize>))
    requires
        graph_ok(graph_view(preds@)),
    ensures
        layering_ok(graph_view(preds@), r.0@.map_values(|l: Vec<usize>| l@), r.1@),
{
    let ghost g = graph_view(preds@);
    let n = preds.len();
    let mut placed: Vec<bool> = Vec::new();
    let mut i: usize = 0;
    while i < n
        invariant
            i <= n,
            n == preds@.len(),
            placed@.len() == i,
            forall|v: int| 0 <= v < i ==> !(#[trigger] placed@[v]),
        decreases n - i,
    {
        placed.push(false);
        i = i + 1;
    }
    let mut layers: Vec<Vec<usize>> = Vec::new();
    let ghost mut lvl: Seq<int> = Seq::new(n as nat, |v: int| -1int);
    let ghost mut unplaced: nat = count_unplaced(lvl, n as int);
    proof {
        reveal(rounds_ok);
        assert(layers@.map_values(|l: Vec<usize>| l@) =~= Seq::<Seq<usize>>::empty());
    }
    loop
        invariant
            n == preds@.len(),
            g == graph_view(preds@),
            graph_ok(g),
            placed@.len() == n,
            rounds_ok(g, layers@.map_values(|l: Vec<usize>| l@), lvl),
            forall|v: int| 0 <= v < n ==> (#[trigger] placed@[v] <==> lvl[v] >= 0),
            forall|v: int| 0 <= v < n ==> -1 <= #[trigger] lvl[v],
            lvl.len() == n,
            layers@.len() > 0 ==> frontier_ok(g, lvl, layers@.len() - 1),
            unplaced == count_unplaced(lvl, n as int),
        decreases unplaced,
    {
        let ghost before = lvl;
        let ghost lv = layers@.map_values(|l: Vec<usize>| l@);
        let layer = next_layer(preds, &placed, Ghost(lvl));
        if layer.len() == 0 {
            proof {
                reveal(next_layer_ok);
                assert forall|w: int| 0 <= w < n && #[trigger] lvl[w] == -1 implies exists|k: int|
                    0 <= k < g[w].len() && lvl[#[trigger] g[w][k] as int] == -1 by {
                    assert(!layer@.contains(w as usize));
                }
            }
            return layers_and_rest(layers, placed, Ghost(lvl), Ghost(g), preds);
        }
        // place the layer
        proof {
            reveal(next_layer_ok);
        }
        let k = layers.len();
        let mut t: usize = 0;
        while t < layer.len()
            invariant
                t <= layer@.len(),
                n == preds@.len(),
                g == graph_view(preds@),
                placed@.len() == n,
                lvl.len() == n,
                k == lv.len(),
                next_layer_ok(g, before, layer@),
                forall|i: int| 0 <= i < layer@.len() ==> (#[trigger] layer@[i]) < n,
                forall|w: int| 0 <= w < n ==> (#[trigger] lvl[w]) == (if layer@.subrange(0, t as int).contains(w as usize) {
                    k as int
                } else {
                    before[w]
                }),
                forall|w: int| 0 <= w < n ==> (#[trigger] placed@[w] <==> lvl[w] >= 0),
            decreases layer@.len() - t,
        {
            let w = layer[t];
            placed.set(w, true);
            proof {
                lvl = lvl.update(w as int, k as int);
                assert forall|x: int| 0 <= x < n implies (#[trigger] lvl[x]) == (if layer@.subrange(0, t + 1).contains(x as usize) {
                    k as int
                } else {
                    before[x]
                }) by {
                    if layer@.subrange(0, t + 1).contains(x as usize) && x != w {
                        let i = choose|i: int| 0 <= i < t + 1 && #[trigger] layer@.subrange(0, t + 1)[i] == x as usize;
                        assert(layer@.subrange(0, t as int)[i] == x as usize);
                    }
                    if layer@.subrange(0, t as int).contains(x as usize) {
                        let i = choose|i: int| 0 <= i < t && #[trigger] layer@.subrange(0, t as int)[i] == x as usize;
                        assert(layer@.subrange(0, t + 1)[i] == x as usize);
                    }
                    if x == w {
                        assert(layer@.subrange(0, t + 1)[t as int] == x as usize);
                    }
                }
            }
            t = t + 1;
        }
        proof {
            assert(layer@.subrange(0, layer@.len() as int) =~= layer@);
            lemma_round(g, lv, before, lvl, layer@);
            reveal(next_layer_ok);
            assert(lvl[layer@[0] as int] == k as int);
            lemma_count_drops(before, lvl, n as int, layer@[0] as int);
            unplaced = count_unplaced(lvl, n as int);
        }
        let ghost lay = layer@;
        layers.push(layer);
        proof {
            assert(layers@.map_values(|l: Vec<usize>| l@) =~= lv.push(lay));
        }
    }
}

/// Collects the nodes left unplaced once no further layer forms.
fn layers_and_rest(
    layers: Vec<Vec<usize>>,
    placed: Vec<bool>,
    Ghost(lvl): Ghost<Seq<int>>,
    Ghost(g): Ghost<Seq<Seq<usize>>>,
    preds: &Vec<Vec<usize>>,
) -> (r: (Vec<Vec<usize>>, Vec<usize>))
    requires
        g == graph_view(preds@),
        graph_ok(g),
        placed@.len() == g.len(),
        rounds_ok(g, layers@.map_values(|l: Vec<usize>| l@), lvl),
        forall|v: int| 0 <= v < g.len() ==> (#[trigger] placed@[v] <==> lvl[v] >= 0),
        forall|v: int| 0 <= v < g.len() && #[trigger] lvl[v] == -1 ==> exists|k: int|
            0 <= k < g[v].len() && lvl[#[trigger] g[v][k] as int] == -1,
    ensures
        layering_ok(graph_view(preds@), r.0@.map_values(|l: Vec<usize>| l@), r.1@),
{
    reveal(rounds_ok);
    let n = placed.len();
    // the nodes left over, in increasing order
    let mut rem: Vec<usize> = Vec::new();
    let mut v: usize = 0;
    while v < n
        invariant
            v <= n,
            n == preds@.len(),
            placed@.len() == n,
            lvl.len() == n,
            forall|w: int| 0 <= w < n ==> (#[trigger] placed@[w] <==> lvl[w] >= 0),
            strictly_increasing(rem@),
            forall|i: int| 0 <= i < rem@.len() ==> (#[trigger] rem@[i]) < v,
            forall|w: int| 0 <= w < v ==> (#[trigger] lvl[w] == -1 <==> rem@.contains(w as usize)),
            forall|w: int| 0 <= w < n ==> -1 <= #[trigger] lvl[w],
        decreases n - v,
    {
        let ghost old_rem = rem@;
        if !placed[v] {
            rem.push(v);
        }
        proof {
            assert forall|w: int| 0 <= w < v + 1 implies (#[trigger] lvl[w] == -1 <==> rem@.contains(w as usize)) by {
                if w < v {
                    if old_rem.contains(w as usize) {
                        let i = choose|i: int| 0 <= i < old_rem.len() && #[trigger] old_rem[i] == w as usize;
                        assert(rem@[i] == w as usize);
                    }
                    if rem@.contains(w as usize) {
                        let i = choose|i: int| 0 <= i < rem@.len() && #[trigger] rem@[i] == w as usize;
                        if i < old_rem.len() {
                            assert(old_rem[i] == w as usize);
                        }
                    }
                } else {
                    if !placed@[w] {
                        assert(rem@[rem@.len() - 1] == w as usize);
                    } else if rem@.contains(w as usize) {
                        let i = choose|i: int| 0 <= i < rem@.len() && #[trigger] rem@[i] == w as usize;
                        assert(old_rem[i] < v);
                    }
                }
            }
        }
        v = v + 1;
    }
    proof {
        let lv = layers@.map_values(|l: Vec<usize>| l@);
        reveal(levels_ok);
        assert(levels_ok(g, lv, rem@, lvl));
    }
    (layers, rem)
}

/// Node `v` depends on some member of `s`.
pub open spec fn fed_by(g: Seq<Seq<usize>>, s: Seq<usize>, v: int) -> bool {
    exists|k: int| 0 <= k < g[v].len() && s.contains(#[trigger] g[v][k])
}

/// A nonempty set of nodes each of which depends on a member of the set.
pub open spec fn cycle_set(g: Seq<Seq<usize>>, s: Seq<usize>) -> bool {
    &&& s.len() > 0
    &&& forall|i: int| 0 <= i < s.len() ==> (#[trigger] s[i]) < g.len()
    &&& forall|i: int| 0 <= i < s.len() ==> fed_by(g, s, #[trigger] s[i] as int)
}

/// The graph has a cycle: some set of nodes feeds itself.
pub open spec fn has_cycle(g: Seq<Seq<usize>>) -> bool {
    exists|s: Seq<usize>| cycle_set(g, s)
}

/// With nothing left over, every member of a self-feeding set lies above layer `j`.
proof fn lemma_above(g: Seq<Seq<usize>>, layers: Seq<Seq<usize>>, rem: Seq<usize>, lvl: Seq<int>, s: Seq<usize>, j: int)
    requires
        levels_ok(g, layers, rem, lvl),
        rem.len() == 0,
        cycle_set(g, s),
        j >= -1,
    ensures
        forall|i: int| 0 <= i < s.len() ==> lvl[#[trigger] s[i] as int] > j,
    decreases j + 1,
{
    reveal(levels_ok);
    assert forall|i: int| 0 <= i < s.len() implies lvl[#[trigger] s[i] as int] >= 0 by {
        let v = s[i] as int;
        assert(v < g.len());
        if lvl[v] == -1 {
            assert(rem.contains(v as usize));
        }
    }
    if j >= 0 {
        lemma_above(g, layers, rem, lvl, s, j - 1);
        assert forall|i: int| 0 <= i < s.len() implies lvl[#[trigger] s[i] as int] > j by {
            let v = s[i] as int;
            assert(fed_by(g, s, v));
            let k = choose|k: int| 0 <= k < g[v].len() && s.contains(#[trigger] g[v][k]);
            let w = g[v][k];
            let i2 = choose|i2: int| 0 <= i2 < s.len() && s[i2] == w;
            assert(lvl[s[i2] as int] > j - 1);
            assert(lvl[v] >= 0);
            assert(0 <= lvl[w as int] < lvl[v]);
        }
    }
}

/// What layering leaves over is nonempty exactly when the graph has a cycle.
pub proof fn lemma_rest_is_cycle(g: Seq<Seq<usize>>, layers: Seq<Seq<usize>>, rem: Seq<usize>)
    requires
        graph_ok(g),
        layering_ok(g, layers, rem),
    ensures
        rem.len() > 0 <==> has_cycle(g),
{
    let lvl = choose|lvl: Seq<int>| levels_ok(g, layers, rem, lvl);
    if rem.len() > 0 {
        reveal(levels_ok);
        assert forall|i: int| 0 <= i < rem.len() implies fed_by(g, rem, #[trigger] rem[i] as int) by {
            let v = rem[i] as int;
            assert(rem.contains(v as usize));
            assert(lvl[v] == -1);
            let k = choose|k: int| 0 <= k < g[v].len() && lvl[#[trigger] g[v][k] as int] == -1;
            assert(g[v][k] < g.len());
            assert(rem.contains(g[v][k]));
        }
        assert(cycle_set(g, rem));
    } else {
        if has_cycle(g) {
            let s = choose|s: Seq<usize>| cycle_set(g, s);
            lemma_above(g, layers, rem, lvl, s, layers.len() as int);
            reveal(levels_ok);
            assert(lvl[s[0] as int] > layers.len());
            assert(s[0] < g.len());
        }
    }
}

} // verus!
