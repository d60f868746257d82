//! The layers of a breadth-first search over node indices: which indices
//! a frontier lists, and how marking a newly found index keeps a layer
//! exact.

use vstd::prelude::*;

verus! {

/// Whether `v` is among the indices of `f`.
pub open spec fn in_list(f: Seq<usize>, v: int) -> bool {
    exists|t: int| 0 <= t < f.len() && #[trigger] f[t] as int == v
}

/// Whether `f` lists exactly the visited indices below `n` at `level`:
/// each listed index is such an index, and each such index is listed.
pub closed spec fn layer_ok(f: Seq<usize>, visited: Seq<bool>, level: Seq<usize>, n: int, k: int) -> bool {
    &&& forall|t: int| 0 <= t < f.len() ==> #[trigger] f[t] < n && visited[f[t] as int] && level[f[t] as int] == k
    &&& forall|v: int| 0 <= v < n && visited[v] && #[trigger] level[v] == k ==> in_list(f, v)
}

/// What a layer says of one index.
pub proof fn lemma_layer_at(f: Seq<usize>, visited: Seq<bool>, level: Seq<usize>, n: int, k: int, v: int)
    requires
        layer_ok(f, visited, level, n, k),
        0 <= v < n,
    ensures
        in_list(f, v) <==> (visited[v] && level[v] == k),
{
    if in_list(f, v) {
        let t = choose|t: int| 0 <= t < f.len() && #[trigger] f[t] as int == v;
        assert(f[t] < n);
    }
}

/// The first layer: the start index alone, at level zero.
pub proof fn lemma_layer_start(f: Seq<usize>, visited: Seq<bool>, level: Seq<usize>, n: int, fi: int)
    requires
        f.len() == 1,
        f[0] as int == fi,
        0 <= fi < n,
        level[fi] == 0,
        forall|v: int| 0 <= v < n ==> (#[trigger] visited[v] <==> v == fi),
    ensures
        layer_ok(f, visited, level, n, 0),
{
    assert(visited[fi]);
    assert forall|v: int| 0 <= v < n && visited[v] && #[trigger] level[v] == 0 implies in_list(f, v) by {
        assert(f[0] as int == v);
    }
}

/// An empty layer, at a level that no visited index has reached.
pub proof fn lemma_layer_empty(visited: Seq<bool>, level: Seq<usize>, n: int, k: int)
    requires
        forall|v: int| 0 <= v < n && #[trigger] visited[v] ==> level[v] < k,
    ensures
        layer_ok(Seq::empty(), visited, level, n, k),
{
}

/// Marking an unvisited index at another level keeps a layer as it is.
pub proof fn lemma_layer_discover(f: Seq<usize>, visited: Seq<bool>, level: Seq<usize>, n: int, k: int, v: int, lv: usize)
    requires
        layer_ok(f, visited, level, n, k),
        0 <= v < n,
        visited.len() == n,
        level.len() == n,
        !visited[v],
        lv != k,
    ensures
        layer_ok(f, visited.update(v, true), level.update(v, lv), n, k),
{
    let vis1 = visited.update(v, true);
    let lev1 = level.update(v, lv);
    assert forall|t: int| 0 <= t < f.len() implies #[trigger] f[t] < n && vis1[f[t] as int] && lev1[f[t] as int] == k by {
        assert(visited[f[t] as int]);
    }
    assert forall|w: int| 0 <= w < n && vis1[w] && #[trigger] lev1[w] == k implies in_list(f, w) by {
        assert(w != v);
        assert(visited[w] && level[w] == k);
    }
}

/// Marking an unvisited index at a layer's level and appending it keeps
/// the layer exact.
pub proof fn lemma_layer_push(f: Seq<usize>, visited: Seq<bool>, level: Seq<usize>, n: int, k: usize, v: usize)
    requires
        layer_ok(f, visited, level, n, k as int),
        v < n,
        visited.len() == n,
        level.len() == n,
        !visited[v as int],
    ensures
        layer_ok(f.push(v), visited.update(v as int, true), level.update(v as int, k), n, k as int),
{
    let vis1 = visited.update(v as int, true);
    let lev1 = level.update(v as int, k);
    let f1 = f.push(v);
    assert forall|t: int| 0 <= t < f1.len() implies #[trigger] f1[t] < n && vis1[f1[t] as int] && lev1[f1[t] as int] == k by {
        if t < f.len() {
            assert(f1[t] == f[t]);
            assert(visited[f[t] as int]);
        }
    }
    assert forall|w: int| 0 <= w < n && vis1[w] && #[trigger] lev1[w] == k implies in_list(f1, w) by {
        if w == v {
            assert(f1[f.len() as int] == v);
        } else {
            assert(visited[w] && level[w] == k);
            let t = choose|t: int| 0 <= t < f.len() && #[trigger] f[t] as int == w;
            assert(f1[t] == f[t]);
        }
    }
}

} // verus!
