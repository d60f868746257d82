//! The dependency graph between packages, and the order in which to load
//! them so that every package's dependencies are loaded before it.

use vstd::prelude::*;
use crate::package::manifest::PackageManifest;
use crate::text::{
    lemma_pair_lt_irreflexive, lemma_pair_lt_total, lemma_pair_lt_transitive, lemma_seq_lt_irreflexive,
    lemma_seq_lt_transitive, pair_lt, seq_lt, str_eq, str_lt,
};

verus! {

/// The names of a list of strings.
pub open spec fn names_of(v: Seq<String>) -> Seq<Seq<char>> {
    v.map_values(|s: String| s@)
}

/// The dependency names a manifest declares.
pub open spec fn dependency_names(m: PackageManifest) -> Seq<Seq<char>> {
    m.dependencies@.map_values(|d: (String, crate::package::manifest::DependencySpec)| d.0@)
}

/// Package name to the names of the packages it depends on. Each package
/// name occurs once.
#[derive(Debug, Default)]
pub struct DependencyGraph {
    pub edges: Vec<(String, Vec<String>)>,
}

/// A dependency cycle: each package depends on the next, and the last is the first.
#[derive(Debug, Clone, PartialEq, Eq)]
pub struct DependencyCycle {
    pub cycle: Vec<String>,
}

impl DependencyGraph {
    /// Package names are distinct.
    pub open spec fn wf(self) -> bool {
        forall|i: int, j: int|
            0 <= i < j < self.edges@.len() ==> self.edges@[i].0@ != self.edges@[j].0@
    }

    /// Whether `name` is a package of the graph.
    pub open spec fn has_node(self, name: Seq<char>) -> bool {
        exists|i: int| 0 <= i < self.edges@.len() && #[trigger] self.edges@[i].0@ == name
    }

    /// Whether package `a` declares a dependency on `b`.
    pub open spec fn depends(self, a: Seq<char>, b: Seq<char>) -> bool {
        exists|i: int|
            0 <= i < self.edges@.len() && #[trigger] self.edges@[i].0@ == a && names_of(
                self.edges@[i].1@,
            ).contains(b)
    }

    /// Whether `order` lists every package exactly once, each after all of
    /// its dependencies that are packages of the graph.
    pub open spec fn is_load_order(self, order: Seq<Seq<char>>) -> bool {
        &&& order.len() == self.edges@.len()
        &&& forall|a: int, b: int| 0 <= a < b < order.len() ==> order[a] != order[b]
        &&& forall|n: Seq<char>| self.has_node(n) <==> order.contains(n)
        &&& forall|p: int, d: Seq<char>|
            0 <= p < order.len() && self.depends(order[p], d) && self.has_node(d) ==> exists|q: int|
                0 <= q < p && order[q] == d
    }

    /// Whether the closed chain `cycle` passes no package twice before it
    /// closes.
    pub open spec fn is_simple(cycle: Seq<Seq<char>>) -> bool {
        forall|a: int, b: int| 0 <= a < b < cycle.len() - 1 ==> cycle[a] != cycle[b]
    }

    /// Whether `cycle` is a closed chain of dependencies between packages of
    /// the graph.
    pub open spec fn is_cycle(self, cycle: Seq<Seq<char>>) -> bool {
        &&& cycle.len() >= 2
        &&& cycle[0] == cycle[cycle.len() - 1]
        &&& forall|k: int|
            0 <= k < cycle.len() - 1 ==> self.has_node(#[trigger] cycle[k]) && self.depends(
                cycle[k],
                cycle[k + 1],
            )
    }
}


proof fn lemma_positions_descend(pos: spec_fn(int) -> int, x: int)
    requires
        x >= 1,
        forall|y: int| 0 <= y < x ==> pos(y + 1) < #[trigger] pos(y),
    ensures
        pos(x) < pos(0),
    decreases x,
{
    if x > 1 {
        lemma_positions_descend(pos, x - 1);
        assert(pos((x - 1) + 1) < pos(x - 1));
    } else {
        assert(pos(0int + 1) < pos(0));
    }
}

impl DependencyGraph {
    /// Law: where the packages have a load order, no dependency cycle
    /// runs through them; so `load_order` fails exactly when there is a
    /// cycle.
    pub proof fn lemma_load_order_rules_out_cycles(self, order: Seq<Seq<char>>, c: Seq<Seq<char>>)
        requires
            self.is_load_order(order),
        ensures
            !self.is_cycle(c),
    {
        if !self.is_cycle(c) {
            return;
        }
        let last = c.len() - 1;
        assert forall|x: int| 0 <= x < c.len() implies self.has_node(#[trigger] c[x]) by {
            if x == last {
                assert(self.has_node(c[0]));
            } else {
                assert(self.has_node(c[x]));
            }
        }
        assert forall|x: int| 0 <= x < c.len() implies order.contains(#[trigger] c[x]) by {
            assert(self.has_node(c[x]));
        }
        let pos = |x: int| choose|p: int| 0 <= p < order.len() && order[p] == c[x];
        assert forall|x: int| 0 <= x < c.len() implies 0 <= #[trigger] pos(x) < order.len() && order[pos(x)] == c[x] by {
            assert(order.contains(c[x]));
        }
        assert forall|y: int| 0 <= y < last implies pos(y + 1) < #[trigger] pos(y) by {
            assert(0 <= pos(y) < order.len() && order[pos(y)] == c[y]);
            assert(0 <= pos(y + 1) < order.len() && order[pos(y + 1)] == c[y + 1]);
            assert(self.depends(c[y], c[y + 1]));
            assert(self.has_node(c[y + 1]));
            assert(self.depends(order[pos(y)], c[y + 1]));
            let q = choose|q: int| 0 <= q < pos(y) && order[q] == c[y + 1];
            if q != pos(y + 1) {
                if q < pos(y + 1) {
                    assert(order[q] != order[pos(y + 1)]);
                } else {
                    assert(order[pos(y + 1)] != order[q]);
                }
            }
        }
        lemma_positions_descend(pos, last);
        assert(pos(last) == pos(0)) by {
            assert(c[last] == c[0]);
        }
    }
}

/// The state of a package during the depth-first search.
#[derive(Clone, Copy, PartialEq, Eq, Structural)]
pub(crate) enum Mark {
    Unvisited,
    InProgress,
    Done,
}

/// An adjacency list over package indices `0..n`.
pub(crate) open spec fn adj_ok(adj: Seq<Vec<usize>>, n: int) -> bool {
    &&& adj.len() == n
    &&& forall|i: int, k: int| 0 <= i < n && 0 <= k < adj[i]@.len() ==> (#[trigger] adj[i]@[k]) < n
}

/// The nodes on the search path are exactly those in progress, and each
/// depends on the next.
pub(crate) open spec fn path_ok(adj: Seq<Vec<usize>>, marks: Seq<Mark>, path: Seq<usize>) -> bool {
    &&& forall|k: int| 0 <= k < path.len() ==> (#[trigger] path[k]) < marks.len()
    &&& forall|i: usize| (i as int) < marks.len() ==> (marks[i as int] == Mark::InProgress <==> path.contains(i))
    &&& forall|k: int| 0 <= k < path.len() - 1 ==> adj[path[k] as int]@.contains(#[trigger] path[k + 1])
    &&& forall|a: int, b: int| 0 <= a < b < path.len() ==> path[a] != path[b]
}

/// The finished nodes are exactly those in `order`, each once; the
/// dependencies of a finished node are finished, and listed before it.
pub(crate) open spec fn order_ok(adj: Seq<Vec<usize>>, marks: Seq<Mark>, order: Seq<usize>) -> bool {
    &&& forall|k: int| 0 <= k < order.len() ==> (#[trigger] order[k]) < marks.len() && marks[order[k] as int] == Mark::Done
    &&& forall|i: usize| (i as int) < marks.len() && marks[i as int] == Mark::Done ==> order.contains(i)
    &&& forall|a: int, b: int| 0 <= a < b < order.len() ==> order[a] != order[b]
    &&& forall|k: int, j: int| 0 <= k < order.len() && 0 <= j < adj[order[k] as int]@.len() ==>
        marks[(#[trigger] adj[order[k] as int]@[j]) as int] == Mark::Done
    &&& forall|a: int, b: int| #![trigger adj[order[a] as int]@.contains(order[b])]
        0 <= a < order.len() && 0 <= b < order.len() && adj[order[a] as int]@.contains(order[b]) ==> b < a
}

/// A closed chain of edges that passes no node twice before it closes.
pub(crate) open spec fn index_cycle(adj: Seq<Vec<usize>>, c: Seq<usize>) -> bool {
    &&& c.len() >= 2
    &&& c[0] == c[c.len() - 1]
    &&& forall|a: int, b: int| 0 <= a < b < c.len() - 1 ==> c[a] != c[b]
    &&& forall|k: int| 0 <= k < c.len() ==> (#[trigger] c[k]) < adj.len()
    &&& forall|k: int| 0 <= k < c.len() - 1 ==> adj[c[k] as int]@.contains(#[trigger] c[k + 1])
}

/// Number of unvisited nodes.
pub(crate) open spec fn unvisited(m: Seq<Mark>) -> nat
    decreases m.len(),
{
    if m.len() == 0 {
        0
    } else {
        unvisited(m.drop_last()) + if m.last() == Mark::Unvisited { 1nat } else { 0nat }
    }
}

/// Marks only ever leave `Unvisited`.
pub(crate) open spec fn marks_grow(before: Seq<Mark>, after: Seq<Mark>) -> bool {
    &&& before.len() == after.len()
    &&& forall|i: int| 0 <= i < before.len() && before[i] != Mark::Unvisited ==> after[i] != Mark::Unvisited
}

proof fn lemma_unvisited_shrinks(before: Seq<Mark>, after: Seq<Mark>, v: int)
    requires
        marks_grow(before, after),
    ensures
        unvisited(after) <= unvisited(before),
        0 <= v < before.len() && before[v] == Mark::Unvisited && after[v] != Mark::Unvisited
            ==> unvisited(after) < unvisited(before),
    decreases before.len(),
{
    if before.len() > 0 {
        lemma_unvisited_shrinks(before.drop_last(), after.drop_last(), v);
    }
}

/// Depth-first visit of `v`: on success `v` and everything it depends on
/// are finished and appended to `order` after their dependencies; on
/// failure the returned chain is a cycle.
pub(crate) fn visit(
    adj: &Vec<Vec<usize>>,
    v: usize,
    marks: &mut Vec<Mark>,
    path: &mut Vec<usize>,
    order: &mut Vec<usize>,
) -> (r: Result<(), Vec<usize>>)
    requires
        adj_ok(adj@, old(marks)@.len() as int),
        v < old(marks)@.len(),
        path_ok(adj@, old(marks)@, old(path)@),
        order_ok(adj@, old(marks)@, old(order)@),
        old(path)@.len() > 0 ==> adj@[old(path)@.last() as int]@.contains(v),
    ensures
        match r {
            Ok(()) => {
                &&& final(marks)@[v as int] == Mark::Done
                &&& final(path)@ == old(path)@
                &&& marks_grow(old(marks)@, final(marks)@)
                &&& forall|i: int| 0 <= i < old(marks)@.len() && old(marks)@[i] != Mark::Unvisited ==> #[trigger] final(marks)@[i] == old(marks)@[i]
                &&& path_ok(adj@, final(marks)@, final(path)@)
                &&& order_ok(adj@, final(marks)@, final(order)@)
                &&& final(order)@.len() >= old(order)@.len()
                &&& final(order)@.take(old(order)@.len() as int) == old(order)@
            },
            Err(c) => index_cycle(adj@, c@),
        },
    decreases unvisited(old(marks)@),
{
    let ghost entry = marks@;
    if marks[v] == Mark::Done {
        assert(order@.take(order@.len() as int) =~= order@);
        return Ok(());
    }
    if marks[v] == Mark::InProgress {
        let mut start: usize = 0;
        while start < path.len() && path[start] != v
            invariant
                start <= path@.len(),
                forall|j: int| 0 <= j < start ==> path@[j] != v,
            decreases path@.len() - start,
        {
            start += 1;
        }
        assert(path@.contains(v));
        assert(start < path@.len());
        let mut cycle: Vec<usize> = Vec::new();
        let mut k = start;
        while k < path.len()
            invariant
                start <= k <= path@.len(),
                cycle@ == path@.subrange(start as int, k as int),
            decreases path@.len() - k,
        {
            cycle.push(path[k]);
            k += 1;
            assert(cycle@ =~= path@.subrange(start as int, k as int));
        }
        cycle.push(v);
        proof {
            let c = cycle@;
            assert(c =~= path@.subrange(start as int, path@.len() as int).push(v));
            assert(path@.len() > 0);
            assert forall|k: int| 0 <= k < c.len() - 1 implies adj@[c[k] as int]@.contains(
                #[trigger] c[k + 1],
            ) by {
                if k < c.len() - 2 {
                    assert(c[k] == path@[start + k]);
                    assert(c[k + 1] == path@[start + k + 1]);
                } else {
                    assert(c[k] == path@.last());
                }
            }
            assert forall|k: int| 0 <= k < c.len() implies (#[trigger] c[k]) < adj@.len() by {
                if k < c.len() - 1 {
                    assert(c[k] == path@[start + k]);
                }
            }
        }
        return Err(cycle);
    }
    let ghost path_entry = path@;
    let ghost order_entry = order@;
    marks.set(v, Mark::InProgress);
    path.push(v);
    let ghost path0 = path@;
    proof {
        assert(!path_entry.contains(v));
        assert forall|i: usize| (i as int) < marks@.len() implies (marks@[i as int] == Mark::InProgress
            <==> path@.contains(i)) by {
            if i != v {
                if path_entry.contains(i) {
                    let k = choose|k: int| 0 <= k < path_entry.len() && path_entry[k] == i;
                    assert(path@[k] == i);
                }
                if path@.contains(i) {
                    let k = choose|k: int| 0 <= k < path@.len() && path@[k] == i;
                    assert(path@ == path_entry.push(v));
                    assert(path@[path@.len() - 1] == v);
                    assert(k < path_entry.len());
                    assert(path_entry[k] == i);
                }
            } else {
                assert(path@[path@.len() - 1] == v);
            }
        }
        assert forall|k: int| 0 <= k < path@.len() - 1 implies adj@[path@[k] as int]@.contains(
            #[trigger] path@[k + 1],
        ) by {
            if k < path@.len() - 2 {
                assert(path@[k] == path_entry[k]);
                assert(path@[k + 1] == path_entry[k + 1]);
            }
        }
        assert forall|k: int| 0 <= k < order@.len() implies (#[trigger] order@[k]) < marks@.len()
            && marks@[order@[k] as int] == Mark::Done by {
            assert(entry[order@[k] as int] == Mark::Done);
        }
        assert forall|i: usize| (i as int) < marks@.len() && marks@[i as int] == Mark::Done implies order@.contains(
            i,
        ) by {
            assert(entry[i as int] == Mark::Done);
        }
        assert forall|k: int, j: int| 0 <= k < order@.len() && 0 <= j < adj@[order@[k] as int]@.len()
            implies marks@[(#[trigger] adj@[order@[k] as int]@[j]) as int] == Mark::Done by {
            assert(order_entry == order@);
            let w = adj@[order_entry[k] as int]@[j];
            assert(entry[w as int] == Mark::Done);
        }
        lemma_unvisited_shrinks(entry, marks@, v as int);
        assert(order_ok(adj@, marks@, order@));
    }
    let deps = &adj[v];
    let mut k: usize = 0;
    while k < deps.len()
        invariant
            adj_ok(adj@, entry.len() as int),
            deps == adj@[v as int],
            v < entry.len(),
            k <= deps@.len(),
            path@ == path0,
            path0.last() == v,
            entry == old(marks)@,
            path_ok(adj@, marks@, path@),
            order_ok(adj@, marks@, order@),
            marks@[v as int] == Mark::InProgress,
            marks_grow(entry, marks@),
            forall|i: int| 0 <= i < entry.len() && entry[i] != Mark::Unvisited ==> #[trigger] marks@[i] == entry[i],
            unvisited(marks@) < unvisited(entry),
            forall|j: int| 0 <= j < k ==> marks@[deps@[j] as int] == Mark::Done,
            order@.len() >= old(order)@.len(),
            order@.take(old(order)@.len() as int) == old(order)@,
        decreases deps@.len() - k,
    {
        let d = deps[k];
        let ghost before = marks@;
        let ghost order_before = order@;
        assert(unvisited(marks@) < unvisited(old(marks)@));
        let res = visit(adj, d, marks, path, order);
        match res {
            Ok(()) => {},
            Err(c) => {
                return Err(c);
            },
        }
        proof {
            lemma_unvisited_shrinks(before, marks@, d as int);
            assert(order@.take(old(order)@.len() as int) =~= order_before.take(old(order)@.len() as int));
        }
        k += 1;
    }
    let ghost m1 = marks@;
    let ghost o1 = order@;
    path.pop();
    marks.set(v, Mark::Done);
    order.push(v);
    proof {
        assert(path@ =~= path_entry);
        assert(forall|j: int| 0 <= j < deps@.len() ==> m1[deps@[j] as int] == Mark::Done);
        assert forall|i: usize| (i as int) < marks@.len() implies (marks@[i as int] == Mark::InProgress
            <==> path@.contains(i)) by {
            if i != v {
                if path_entry.contains(i) {
                    let k = choose|k: int| 0 <= k < path_entry.len() && path_entry[k] == i;
                    assert(path0[k] == i);
                }
                if path0.contains(i) {
                    let k = choose|k: int| 0 <= k < path0.len() && path0[k] == i;
                    assert(k < path_entry.len());
                    assert(path_entry[k] == i);
                }
            }
        }
        assert forall|k: int| 0 <= k < order@.len() implies (#[trigger] order@[k]) < marks@.len()
            && marks@[order@[k] as int] == Mark::Done by {
            if k < o1.len() {
                assert(order@[k] == o1[k]);
                assert(m1[o1[k] as int] == Mark::Done);
            }
        }
        assert forall|i: usize| (i as int) < marks@.len() && marks@[i as int] == Mark::Done implies order@.contains(
            i,
        ) by {
            if i != v {
                assert(m1[i as int] == Mark::Done);
                let k = choose|k: int| 0 <= k < o1.len() && o1[k] == i;
                assert(order@[k] == i);
            } else {
                assert(order@[order@.len() - 1] == v);
            }
        }
        assert(!o1.contains(v));
        assert forall|a: int, b: int| 0 <= a < b < order@.len() implies order@[a] != order@[b] by {
            if b == order@.len() - 1 {
                assert(order@[a] == o1[a]);
            } else {
                assert(order@[a] == o1[a]);
                assert(order@[b] == o1[b]);
            }
        }
        assert(!deps@.contains(v)) by {
            if deps@.contains(v) {
                let j = choose|j: int| 0 <= j < deps@.len() && deps@[j] == v;
                assert(m1[v as int] == Mark::Done);
            }
        }
        assert forall|k: int, j: int| 0 <= k < order@.len() && 0 <= j < adj@[order@[k] as int]@.len()
            implies marks@[(#[trigger] adj@[order@[k] as int]@[j]) as int] == Mark::Done by {
            if k < o1.len() {
                assert(order@[k] == o1[k]);
                let w = adj@[o1[k] as int]@[j];
                assert(m1[w as int] == Mark::Done);
            } else {
                assert(order@[k] == v);
                let w = deps@[j];
                assert(m1[w as int] == Mark::Done);
            }
        }
        assert forall|a: int, b: int| #![trigger adj@[order@[a] as int]@.contains(order@[b])]
            0 <= a < order@.len() && 0 <= b < order@.len() && adj@[order@[a] as int]@.contains(order@[b]) implies b < a by {
            if a < o1.len() {
                assert(order@[a] == o1[a]);
                if b == o1.len() {
                    assert(order@[b] == v);
                    let j = choose|j: int| 0 <= j < adj@[o1[a] as int]@.len() && adj@[o1[a] as int]@[j] == v;
                    assert(m1[adj@[o1[a] as int]@[j] as int] == Mark::Done);
                } else {
                    assert(order@[b] == o1[b]);
                }
            } else {
                assert(order@[a] == v);
                if b == a {
                    assert(deps@.contains(v));
                }
            }
        }
        assert(order@.take(old(order)@.len() as int) =~= o1.take(old(order)@.len() as int));
    }
    Ok(())
}


/// Whether the indices `r` are in `str` order of the names they denote
/// (equal names in any order).
spec fn sorted_by_name(r: Seq<usize>, edges: Seq<(String, Vec<String>)>) -> bool {
    forall|a: int, b: int|
        0 <= a < b < r.len() ==> !seq_lt(edges[#[trigger] r[b] as int].0@, edges[#[trigger] r[a] as int].0@)
}

/// Insertion sort of indices by the names they denote, `str` order.
fn sort_by_name(idx: Vec<usize>, edges: &Vec<(String, Vec<String>)>) -> (r: Vec<usize>)
    requires
        forall|k: int| 0 <= k < idx@.len() ==> (#[trigger] idx@[k]) < edges@.len(),
    ensures
        r@.len() == idx@.len(),
        forall|x: usize| r@.contains(x) <==> idx@.contains(x),
        forall|k: int| 0 <= k < r@.len() ==> (#[trigger] r@[k]) < edges@.len(),
        sorted_by_name(r@, edges@),
{
    let mut r: Vec<usize> = Vec::new();
    let mut i: usize = 0;
    while i < idx.len()
        invariant
            i <= idx@.len(),
            forall|k: int| 0 <= k < idx@.len() ==> (#[trigger] idx@[k]) < edges@.len(),
            r@.len() == i,
            forall|x: usize| r@.contains(x) <==> idx@.take(i as int).contains(x),
            forall|k: int| 0 <= k < r@.len() ==> (#[trigger] r@[k]) < edges@.len(),
            sorted_by_name(r@, edges@),
        decreases idx@.len() - i,
    {
        let x = idx[i];
        let mut p: usize = 0;
        while p < r.len() && !str_lt(edges[x].0.as_str(), edges[r[p]].0.as_str())
            invariant
                p <= r@.len(),
                x < edges@.len(),
                forall|k: int| 0 <= k < r@.len() ==> (#[trigger] r@[k]) < edges@.len(),
                forall|k: int| 0 <= k < p ==> !seq_lt(edges@[x as int].0@, edges@[#[trigger] r@[k] as int].0@),
            decreases r@.len() - p,
        {
            p += 1;
        }
        let ghost before = r@;
        r.insert(p, x);
        proof {
            assert(r@ == before.insert(p as int, x));
            assert(idx@.take(i + 1) =~= idx@.take(i as int).push(x));
            assert forall|y: usize| r@.contains(y) <==> idx@.take(i + 1).contains(y) by {
                if r@.contains(y) {
                    let k = choose|k: int| 0 <= k < r@.len() && r@[k] == y;
                    if k < p {
                        assert(before[k] == y);
                    } else if k > p {
                        assert(before[k - 1] == y);
                    }
                    assert(y == x || before.contains(y));
                    if y == x {
                        assert(idx@.take(i + 1)[i as int] == x);
                    } else {
                        let t = idx@.take(i as int);
                        let m = choose|m: int| 0 <= m < t.len() && t[m] == y;
                        assert(idx@.take(i + 1)[m] == y);
                    }
                }
                if idx@.take(i + 1).contains(y) {
                    let t = idx@.take(i + 1);
                    let m = choose|m: int| 0 <= m < t.len() && t[m] == y;
                    if m == i {
                        assert(r@[p as int] == y);
                    } else {
                        assert(idx@.take(i as int)[m] == y);
                        assert(before.contains(y));
                        let k = choose|k: int| 0 <= k < before.len() && before[k] == y;
                        if k < p {
                            assert(r@[k] == y);
                        } else {
                            assert(r@[k + 1] == y);
                        }
                    }
                }
            }
            assert forall|k: int| 0 <= k < r@.len() implies (#[trigger] r@[k]) < edges@.len() by {
                if k < p {
                    assert(r@[k] == before[k]);
                } else if k > p {
                    assert(r@[k] == before[k - 1]);
                }
            }
            let ghost nx = edges@[x as int].0@;
            assert(p < before.len() ==> seq_lt(nx, edges@[before[p as int] as int].0@));
            assert forall|a: int, b: int| 0 <= a < b < r@.len() implies !seq_lt(
                edges@[#[trigger] r@[b] as int].0@,
                edges@[#[trigger] r@[a] as int].0@,
            ) by {
                let ra = r@[a];
                let rb = r@[b];
                if b < p {
                    assert(ra == before[a] && rb == before[b]);
                } else if b == p {
                    assert(ra == before[a] && rb == x);
                } else if a < p {
                    assert(ra == before[a] && rb == before[b - 1]);
                } else if a == p {
                    assert(ra == x && rb == before[b - 1]);
                    let ny = edges@[rb as int].0@;
                    let nz = edges@[before[p as int] as int].0@;
                    if b - 1 > p {
                        assert(!seq_lt(ny, nz));
                    } else {
                        lemma_seq_lt_irreflexive(ny);
                    }
                    if seq_lt(ny, nx) {
                        lemma_seq_lt_transitive(ny, nx, nz);
                    }
                } else {
                    assert(ra == before[a - 1] && rb == before[b - 1]);
                }
            }
        }
        i += 1;
    }
    assert(idx@.take(idx@.len() as int) =~= idx@);
    r
}

/// The index of the package named `name`, if any.
fn index_of_name(edges: &Vec<(String, Vec<String>)>, name: &str) -> (r: Option<usize>)
    ensures
        match r {
            Some(j) => j < edges@.len() && edges@[j as int].0@ == name@,
            None => forall|j: int| 0 <= j < edges@.len() ==> edges@[j].0@ != name@,
        },
{
    let mut j: usize = 0;
    while j < edges.len()
        invariant
            j <= edges@.len(),
            forall|k: int| 0 <= k < j ==> edges@[k].0@ != name@,
        decreases edges@.len() - j,
    {
        if str_eq(edges[j].0.as_str(), name) {
            return Some(j);
        }
        j += 1;
    }
    None
}

/// The adjacency list of the graph over package indices, each list
/// sorted by name: `j` follows `i` when package `i` depends on package `j`.
fn adjacency(g: &DependencyGraph) -> (adj: Vec<Vec<usize>>)
    requires
        g.wf(),
    ensures
        adj_ok(adj@, g.edges@.len() as int),
        forall|i: int, j: usize| 0 <= i < g.edges@.len() ==> (adj@[i]@.contains(j) <==> (
            (j as int) < g.edges@.len() && names_of(g.edges@[i].1@).contains(g.edges@[j as int].0@))),
{
    let n = g.edges.len();
    let mut adj: Vec<Vec<usize>> = Vec::new();
    let mut i: usize = 0;
    while i < n
        invariant
            n == g.edges@.len(),
            g.wf(),
            i <= n,
            adj@.len() == i,
            forall|a: int, k: int| 0 <= a < i && 0 <= k < adj@[a]@.len() ==> (#[trigger] adj@[a]@[k]) < n,
            forall|a: int, j: usize| 0 <= a < i ==> (adj@[a]@.contains(j) <==> ((j as int) < n
                && names_of(g.edges@[a].1@).contains(g.edges@[j as int].0@))),
        decreases n - i,
    {
        let deps = &g.edges[i].1;
        let mut found: Vec<usize> = Vec::new();
        let mut k: usize = 0;
        while k < deps.len()
            invariant
                n == g.edges@.len(),
                g.wf(),
                deps == g.edges@[i as int].1,
                k <= deps@.len(),
                forall|m: int| 0 <= m < found@.len() ==> (#[trigger] found@[m]) < n,
                forall|j: usize| found@.contains(j) <==> ((j as int) < n && names_of(deps@.take(k as int)).contains(
                    g.edges@[j as int].0@)),
            decreases deps@.len() - k,
        {
            let ghost before = found@;
            let hit = index_of_name(&g.edges, deps[k].as_str());
            if let Some(j) = hit {
                found.push(j);
            }
            proof {
                let nb = names_of(deps@.take(k as int));
                let na = names_of(deps@.take(k + 1));
                assert(na =~= nb.push(deps@[k as int]@));
                assert forall|j: usize| found@.contains(j) <==> ((j as int) < n && na.contains(g.edges@[j as int].0@)) by {
                    if found@.contains(j) {
                        let m = choose|m: int| 0 <= m < found@.len() && found@[m] == j;
                        if m < before.len() {
                            assert(before[m] == j);
                            assert(before.contains(j));
                            assert(nb.contains(g.edges@[j as int].0@));
                            let q = choose|q: int| 0 <= q < nb.len() && nb[q] == g.edges@[j as int].0@;
                            assert(na[q] == nb[q]);
                            assert(na.contains(g.edges@[j as int].0@));
                        } else {
                            assert(na[k as int] == deps@[k as int]@);
                        }
                    }
                    if (j as int) < n && na.contains(g.edges@[j as int].0@) {
                        let q = choose|q: int| 0 <= q < na.len() && na[q] == g.edges@[j as int].0@;
                        if q < k {
                            assert(nb[q] == na[q]);
                            assert(before.contains(j));
                            let m = choose|m: int| 0 <= m < before.len() && before[m] == j;
                            assert(found@[m] == j);
                        } else {
                            match hit {
                                Some(h) => {
                                    if h != j {
                                        assert(g.edges@[h as int].0@ == g.edges@[j as int].0@);
                                    }
                                    assert(found@[found@.len() - 1] == j);
                                },
                                None => {
                                    assert(g.edges@[j as int].0@ != deps@[k as int]@);
                                },
                            }
                        }
                    }
                }
            }
            k += 1;
        }
        assert(deps@.take(deps@.len() as int) =~= deps@);
        let sorted = sort_by_name(found, &g.edges);
        adj.push(sorted);
        proof {
            assert(adj@[i as int] == sorted);
        }
        i += 1;
    }
    adj
}

proof fn lemma_range_cardinality(n: nat)
    requires
        n <= usize::MAX + 1,
    ensures
        Set::new(|i: usize| (i as int) < n).finite(),
        Set::new(|i: usize| (i as int) < n).len() == n,
    decreases n,
{
    if n == 0 {
        assert(Set::new(|i: usize| (i as int) < n) =~= Set::empty());
    } else {
        lemma_range_cardinality((n - 1) as nat);
        let smaller = Set::new(|i: usize| (i as int) < n - 1);
        let top = (n - 1) as usize;
        assert(top as int == n - 1);
        assert(!smaller.contains(top));
        assert(Set::new(|i: usize| (i as int) < n) =~= smaller.insert(top));
    }
}

/// A duplicate-free sequence of indices below `n` that holds every index
/// below `n` has length `n`.
proof fn lemma_permutation_len(order: Seq<usize>, n: nat)
    requires
        n <= usize::MAX + 1,
        order.no_duplicates(),
        forall|k: int| 0 <= k < order.len() ==> (order[k] as int) < n,
        forall|i: usize| (i as int) < n ==> order.contains(i),
    ensures
        order.len() == n,
{
    order.unique_seq_to_set();
    lemma_range_cardinality(n);
    assert(order.to_set() =~= Set::new(|i: usize| (i as int) < n));
}

/// The index of the last manifest for package `name`, or -1.
pub open spec fn last_named(ms: Seq<&PackageManifest>, name: Seq<char>) -> int
    decreases ms.len(),
{
    if ms.len() == 0 {
        -1
    } else if ms.last().package.name@ == name {
        ms.len() - 1
    } else {
        last_named(ms.drop_last(), name)
    }
}

proof fn lemma_last_named(ms: Seq<&PackageManifest>, name: Seq<char>)
    ensures
        -1 <= last_named(ms, name) < ms.len(),
        last_named(ms, name) >= 0 ==> ms[last_named(ms, name)].package.name@ == name,
        last_named(ms, name) == -1 <==> forall|i: int| 0 <= i < ms.len() ==> ms[i].package.name@ != name,
    decreases ms.len(),
{
    if ms.len() > 0 {
        lemma_last_named(ms.drop_last(), name);
        if ms.last().package.name@ != name {
            assert forall|i: int| 0 <= i < ms.len() - 1 implies ms[i] == ms.drop_last()[i] by {}
        }
    }
}

impl DependencyGraph {
    /// Build the graph from manifests: each package depends on the
    /// dependencies its manifest declares. Of several manifests with the
    /// same package name, the last one counts.
    pub fn build(manifests: &[&PackageManifest]) -> (g: Self)
        ensures
            g.wf(),
            forall|n: Seq<char>| g.has_node(n) <==> last_named(manifests@, n) >= 0,
            forall|k: int| 0 <= k < g.edges@.len() ==> names_of(#[trigger] g.edges@[k].1@)
                == dependency_names(*manifests@[last_named(manifests@, g.edges@[k].0@)]),
    {
        let mut edges: Vec<(String, Vec<String>)> = Vec::new();
        let mut m: usize = 0;
        while m < manifests.len()
            invariant
                m <= manifests@.len(),
                forall|i: int, j: int| 0 <= i < j < edges@.len() ==> edges@[i].0@ != edges@[j].0@,
                forall|n: Seq<char>| (exists|e: int| 0 <= e < edges@.len() && #[trigger] edges@[e].0@ == n)
                    <==> last_named(manifests@.take(m as int), n) >= 0,
                forall|k: int| 0 <= k < edges@.len() ==> names_of(#[trigger] edges@[k].1@)
                    == dependency_names(*manifests@.take(m as int)[last_named(manifests@.take(m as int), edges@[k].0@)]),
            decreases manifests@.len() - m,
        {
            let manifest = manifests[m];
            let mut deps: Vec<String> = Vec::new();
            let mut d: usize = 0;
            while d < manifest.dependencies.len()
                invariant
                    d <= manifest.dependencies@.len(),
                    names_of(deps@) == dependency_names(*manifest).take(d as int),
                decreases manifest.dependencies@.len() - d,
            {
                let ghost olddeps = deps@;
                deps.push(manifest.dependencies[d].0.clone());
                assert(deps@ == olddeps.push(manifest.dependencies@[d as int].0));
                assert(names_of(deps@) =~= names_of(olddeps).push(manifest.dependencies@[d as int].0@));
                assert(dependency_names(*manifest).take(d + 1) =~= dependency_names(*manifest).take(d as int).push(manifest.dependencies@[d as int].0@));
                d += 1;
                assert(names_of(deps@) =~= dependency_names(*manifest).take(d as int));
            }
            assert(dependency_names(*manifest).take(d as int) =~= dependency_names(*manifest));
            let name = manifest.package.name.clone();
            let ghost old_edges = edges@;
            let ghost before = manifests@.take(m as int);
            let ghost after = manifests@.take(m + 1);
            proof {
                assert(after.drop_last() =~= before);
                assert(after.last() == manifest);
            }
            match index_of_name(&edges, name.as_str()) {
                Some(e) => {
                    edges.set(e, (name, deps));
                    proof {
                        assert forall|n: Seq<char>| (exists|q: int| 0 <= q < edges@.len() && #[trigger] edges@[q].0@ == n)
                            <==> last_named(after, n) >= 0 by {
                            if n == manifest.package.name@ {
                                assert(edges@[e as int].0@ == n);
                            } else {
                                if exists|q: int| 0 <= q < edges@.len() && #[trigger] edges@[q].0@ == n {
                                    let q = choose|q: int| 0 <= q < edges@.len() && #[trigger] edges@[q].0@ == n;
                                    assert(old_edges[q].0@ == n);
                                }
                                if last_named(before, n) >= 0 {
                                    let q = choose|q: int| 0 <= q < old_edges.len() && #[trigger] old_edges[q].0@ == n;
                                    assert(edges@[q].0@ == n);
                                }
                            }
                        }
                        assert forall|k: int| 0 <= k < edges@.len() implies names_of(#[trigger] edges@[k].1@)
                            == dependency_names(*after[last_named(after, edges@[k].0@)]) by {
                            if k != e {
                                assert(edges@[k] == old_edges[k]);
                                assert(old_edges[k].0@ != old_edges[e as int].0@);
                                lemma_last_named(before, old_edges[k].0@);
                                assert(after[last_named(before, old_edges[k].0@)] == before[last_named(before, old_edges[k].0@)]);
                            }
                        }
                    }
                },
                None => {
                    edges.push((name, deps));
                    proof {
                        assert forall|n: Seq<char>| (exists|q: int| 0 <= q < edges@.len() && #[trigger] edges@[q].0@ == n)
                            <==> last_named(after, n) >= 0 by {
                            if n == manifest.package.name@ {
                                assert(edges@[edges@.len() - 1].0@ == n);
                            } else {
                                if exists|q: int| 0 <= q < edges@.len() && #[trigger] edges@[q].0@ == n {
                                    let q = choose|q: int| 0 <= q < edges@.len() && #[trigger] edges@[q].0@ == n;
                                    assert(old_edges[q].0@ == n);
                                }
                                if last_named(before, n) >= 0 {
                                    let q = choose|q: int| 0 <= q < old_edges.len() && #[trigger] old_edges[q].0@ == n;
                                    assert(edges@[q].0@ == n);
                                }
                            }
                        }
                        assert forall|k: int| 0 <= k < edges@.len() implies names_of(#[trigger] edges@[k].1@)
                            == dependency_names(*after[last_named(after, edges@[k].0@)]) by {
                            if k < old_edges.len() {
                                assert(edges@[k] == old_edges[k]);
                                lemma_last_named(before, old_edges[k].0@);
                                assert(after[last_named(before, old_edges[k].0@)] == before[last_named(before, old_edges[k].0@)]);
                            }
                        }
                    }
                },
            }
            m += 1;
        }
        assert(manifests@.take(manifests@.len() as int) =~= manifests@);
        Self { edges }
    }
}


/// The names of the packages at the given indices.
fn names_at(edges: &Vec<(String, Vec<String>)>, idx: &Vec<usize>) -> (r: Vec<String>)
    requires
        forall|k: int| 0 <= k < idx@.len() ==> (#[trigger] idx@[k]) < edges@.len(),
    ensures
        r@.len() == idx@.len(),
        forall|k: int| 0 <= k < idx@.len() ==> (#[trigger] r@[k])@ == edges@[idx@[k] as int].0@,
{
    let mut r: Vec<String> = Vec::new();
    let mut k: usize = 0;
    while k < idx.len()
        invariant
            k <= idx@.len(),
            forall|m: int| 0 <= m < idx@.len() ==> (#[trigger] idx@[m]) < edges@.len(),
            r@.len() == k,
            forall|m: int| 0 <= m < k ==> (#[trigger] r@[m])@ == edges@[idx@[m] as int].0@,
        decreases idx@.len() - k,
    {
        r.push(edges[idx[k]].0.clone());
        k += 1;
    }
    r
}

impl DependencyGraph {
    /// The package names, in the graph's order.
    pub fn names(&self) -> (r: Vec<String>)
        ensures
            names_of(r@) == self.edges@.map_values(|e: (String, Vec<String>)| e.0@),
    {
        let mut r: Vec<String> = Vec::new();
        let mut k: usize = 0;
        while k < self.edges.len()
            invariant
                k <= self.edges@.len(),
                r@.len() == k,
                forall|m: int| 0 <= m < k ==> (#[trigger] r@[m])@ == self.edges@[m].0@,
            decreases self.edges@.len() - k,
        {
            r.push(self.edges[k].0.clone());
            k += 1;
        }
        assert(names_of(r@) =~= self.edges@.map_values(|e: (String, Vec<String>)| e.0@));
        r
    }

    /// An order in which to load every package so that each loads after
    /// the packages it depends on; dependencies on names that are not
    /// packages of the graph are ignored. If no such order exists, a cycle
    /// of dependencies. Packages and dependencies are explored in name order.
    pub fn load_order(&self) -> (r: Result<Vec<String>, DependencyCycle>)
        requires
            self.wf(),
        ensures
            match r {
                Ok(order) => self.is_load_order(names_of(order@)) && forall|c: Seq<Seq<char>>|
                    !#[trigger] self.is_cycle(c),
                Err(c) => self.is_cycle(names_of(c.cycle@)) && Self::is_simple(names_of(c.cycle@)),
            },
    {
        let n = self.edges.len();
        let adj = adjacency(self);
        let mut all: Vec<usize> = Vec::new();
        let mut i: usize = 0;
        while i < n
            invariant
                n == self.edges@.len(),
                i <= n,
                all@.len() == i,
                forall|k: int| 0 <= k < i ==> (#[trigger] all@[k]) == k,
            decreases n - i,
        {
            all.push(i);
            i += 1;
        }
        let sorted = sort_by_name(all, &self.edges);
        proof {
            assert forall|x: usize| (x as int) < n implies sorted@.contains(x) by {
                assert(all@[x as int] == x);
            }
        }
        let mut marks: Vec<Mark> = Vec::new();
        let mut i: usize = 0;
        while i < n
            invariant
                i <= n,
                marks@.len() == i,
                forall|k: int| 0 <= k < i ==> marks@[k] == Mark::Unvisited,
            decreases n - i,
        {
            marks.push(Mark::Unvisited);
            i += 1;
        }
        let mut path: Vec<usize> = Vec::new();
        let mut order: Vec<usize> = Vec::new();
        let mut k: usize = 0;
        while k < sorted.len()
            invariant
                n == self.edges@.len(),
                self.wf(),
                adj_ok(adj@, n as int),
                forall|i: int, j: usize| 0 <= i < n ==> (adj@[i]@.contains(j) <==> ((j as int) < n
                    && names_of(self.edges@[i].1@).contains(self.edges@[j as int].0@))),
                k <= sorted@.len(),
                sorted@.len() == n,
                forall|x: usize| (x as int) < n ==> sorted@.contains(x),
                forall|m: int| 0 <= m < sorted@.len() ==> (#[trigger] sorted@[m]) < n,
                marks@.len() == n,
                path@.len() == 0,
                path_ok(adj@, marks@, path@),
                order_ok(adj@, marks@, order@),
                forall|j: int| 0 <= j < k ==> marks@[sorted@[j] as int] == Mark::Done,
            decreases sorted@.len() - k,
        {
            let ghost before = marks@;
            match visit(&adj, sorted[k], &mut marks, &mut path, &mut order) {
                Ok(()) => {},
                Err(c) => {
                    let cycle = names_at(&self.edges, &c);
                    proof {
                        let cn = names_of(cycle@);
                        assert forall|q: int| 0 <= q < cn.len() - 1 implies self.has_node(#[trigger] cn[q])
                            && self.depends(cn[q], cn[q + 1]) by {
                            assert(cn[q] == self.edges@[c@[q] as int].0@);
                            assert(cn[q + 1] == self.edges@[c@[q + 1] as int].0@);
                            assert(adj@[c@[q] as int]@.contains(c@[q + 1]));
                        }
                        assert(cn[0] == self.edges@[c@[0] as int].0@);
                        assert(cn[cn.len() - 1] == self.edges@[c@[c@.len() - 1] as int].0@);
                        assert forall|a: int, b: int| 0 <= a < b < cn.len() - 1 implies cn[a] != cn[b] by {
                            assert(cn[a] == self.edges@[c@[a] as int].0@);
                            assert(cn[b] == self.edges@[c@[b] as int].0@);
                            assert(c@[a] != c@[b]);
                            if c@[a] < c@[b] {
                                assert(self.edges@[c@[a] as int].0@ != self.edges@[c@[b] as int].0@);
                            } else {
                                assert(self.edges@[c@[b] as int].0@ != self.edges@[c@[a] as int].0@);
                            }
                        }
                    }
                    return Err(DependencyCycle { cycle });
                },
            }
            k += 1;
        }
        proof {
            assert forall|x: usize| (x as int) < n implies marks@[x as int] == Mark::Done by {
                assert(sorted@.contains(x));
                let j = choose|j: int| 0 <= j < sorted@.len() && sorted@[j] == x;
                assert(marks@[sorted@[j] as int] == Mark::Done);
            }
            assert(order@.no_duplicates());
            lemma_permutation_len(order@, n as nat);
        }
        let names = names_at(&self.edges, &order);
        proof {
            let on = names_of(names@);
            assert forall|a: int, b: int| 0 <= a < b < on.len() implies on[a] != on[b] by {
                assert(on[a] == self.edges@[order@[a] as int].0@);
                assert(on[b] == self.edges@[order@[b] as int].0@);
            }
            assert forall|nm: Seq<char>| self.has_node(nm) <==> on.contains(nm) by {
                if self.has_node(nm) {
                    let i = choose|i: int| 0 <= i < self.edges@.len() && #[trigger] self.edges@[i].0@ == nm;
                    assert(marks@[i as usize as int] == Mark::Done);
                    assert(order@.contains(i as usize));
                    let q = choose|q: int| 0 <= q < order@.len() && order@[q] == i as usize;
                    assert(on[q] == nm);
                }
                if on.contains(nm) {
                    let q = choose|q: int| 0 <= q < on.len() && on[q] == nm;
                    assert(self.edges@[order@[q] as int].0@ == nm);
                }
            }
            assert forall|p: int, d: Seq<char>| 0 <= p < on.len() && self.depends(on[p], d)
                && self.has_node(d) implies exists|q: int| 0 <= q < p && on[q] == d by {
                let i = order@[p];
                assert(on[p] == self.edges@[i as int].0@);
                let i2 = choose|i2: int| 0 <= i2 < self.edges@.len() && #[trigger] self.edges@[i2].0@ == on[p]
                    && names_of(self.edges@[i2].1@).contains(d);
                assert(i2 == i as int);
                let j = choose|j: int| 0 <= j < self.edges@.len() && #[trigger] self.edges@[j].0@ == d;
                assert(adj@[i as int]@.contains(j as usize));
                assert(marks@[j as usize as int] == Mark::Done);
                assert(order@.contains(j as usize));
                let q = choose|q: int| 0 <= q < order@.len() && order@[q] == j as usize;
                assert(adj@[order@[p] as int]@.contains(order@[q]));
                assert(q < p);
                assert(on[q] == d);
            }
            assert forall|c: Seq<Seq<char>>| !#[trigger] self.is_cycle(c) by {
                self.lemma_load_order_rules_out_cycles(on, c);
            }
        }
        Ok(names)
    }
}


/// The character view of a pair of strings.
pub open spec fn pair_view(p: (String, String)) -> (Seq<char>, Seq<char>) {
    (p.0@, p.1@)
}

/// The character views of a list of string pairs.
pub open spec fn pair_views(v: Seq<(String, String)>) -> Seq<(Seq<char>, Seq<char>)> {
    v.map_values(|p: (String, String)| pair_view(p))
}

/// `pair_lt` on two pairs of strings.
fn pair_less(x: &(String, String), y: &(String, String)) -> (r: bool)
    ensures
        r == pair_lt(pair_view(*x), pair_view(*y)),
{
    if str_lt(x.0.as_str(), y.0.as_str()) {
        true
    } else if str_eq(x.0.as_str(), y.0.as_str()) {
        str_lt(x.1.as_str(), y.1.as_str())
    } else {
        false
    }
}

/// Insert `x` into the strictly increasing list `r`, unless it is already there.
fn insert_sorted(r: &mut Vec<(String, String)>, x: (String, String))
    requires
        forall|a: int, b: int| 0 <= a < b < old(r)@.len() ==> pair_lt(pair_view(old(r)@[a]), pair_view(old(r)@[b])),
    ensures
        forall|a: int, b: int| 0 <= a < b < final(r)@.len() ==> pair_lt(pair_view(final(r)@[a]), pair_view(final(r)@[b])),
        forall|y: (Seq<char>, Seq<char>)| #[trigger] pair_views(final(r)@).contains(y)
            <==> (pair_views(old(r)@).contains(y) || y == pair_view(x)),
{
    let ghost before = r@;
    let mut p: usize = 0;
    while p < r.len() && pair_less(&r[p], &x)
        invariant
            p <= r@.len(),
            r@ == before,
            forall|q: int| 0 <= q < p ==> pair_lt(pair_view(r@[q]), pair_view(x)),
        decreases r@.len() - p,
    {
        p += 1;
    }
    let ghost bv = pair_views(before);
    if p < r.len() && !pair_less(&x, &r[p]) {
        proof {
            if pair_view(x) != pair_view(before[p as int]) {
                lemma_pair_lt_total(pair_view(x), pair_view(before[p as int]));
            }
            assert(bv[p as int] == pair_view(x));
            assert forall|y: (Seq<char>, Seq<char>)| bv.contains(y) <==> (bv.contains(y) || y == pair_view(x)) by {
                if y == pair_view(x) {
                    assert(bv.contains(y));
                }
            }
        }
        return;
    }
    r.insert(p, x);
    proof {
        let after = r@;
        assert(after == before.insert(p as int, x));
        assert forall|a: int, b: int| 0 <= a < b < after.len() implies pair_lt(pair_view(after[a]), pair_view(after[b])) by {
            if b < p {
                assert(after[a] == before[a] && after[b] == before[b]);
            } else if b == p {
                assert(after[a] == before[a]);
            } else if a == p {
                assert(after[b] == before[b - 1]);
                if b - 1 > p {
                    assert(pair_lt(pair_view(before[p as int]), pair_view(before[b - 1])));
                    lemma_pair_lt_transitive(pair_view(x), pair_view(before[p as int]), pair_view(before[b - 1]));
                }
            } else if a < p {
                assert(after[a] == before[a]);
                assert(after[b] == before[b - 1]);
                if a < b - 1 {
                } else {
                    assert(a == b - 1);
                    assert(false);
                }
            } else {
                assert(after[a] == before[a - 1]);
                assert(after[b] == before[b - 1]);
            }
        }
        let av = pair_views(after);
        assert forall|y: (Seq<char>, Seq<char>)| av.contains(y) <==> (bv.contains(y) || y == pair_view(x)) by {
            if av.contains(y) {
                let k = choose|k: int| 0 <= k < av.len() && av[k] == y;
                if k < p {
                    assert(bv[k] == y);
                } else if k > p {
                    assert(bv[k - 1] == y);
                }
            }
            if bv.contains(y) {
                let k = choose|k: int| 0 <= k < bv.len() && bv[k] == y;
                if k < p {
                    assert(av[k] == y);
                } else {
                    assert(av[k + 1] == y);
                }
            }
            if y == pair_view(x) {
                assert(av[p as int] == y);
            }
        }
    }
}

impl DependencyGraph {
    /// Whether `(name, dep)` is a declared dependency on a name that is not
    /// a package of the graph.
    pub open spec fn is_missing(self, pair: (Seq<char>, Seq<char>)) -> bool {
        self.depends(pair.0, pair.1) && !self.has_node(pair.1)
    }

    /// Every `(package, dependency)` pair whose dependency is not a package
    /// of the graph, each once, in increasing order.
    pub fn missing_dependencies(&self) -> (r: Vec<(String, String)>)
        requires
            self.wf(),
        ensures
            forall|a: int, b: int| 0 <= a < b < r@.len() ==> pair_lt(pair_view(r@[a]), pair_view(r@[b])),
            forall|y: (Seq<char>, Seq<char>)| #[trigger] pair_views(r@).contains(y)
                <==> self.is_missing(y),
    {
        let mut r: Vec<(String, String)> = Vec::new();
        let mut i: usize = 0;
        while i < self.edges.len()
            invariant
                self.wf(),
                i <= self.edges@.len(),
                forall|a: int, b: int| 0 <= a < b < r@.len() ==> pair_lt(pair_view(r@[a]), pair_view(r@[b])),
                forall|y: (Seq<char>, Seq<char>)| #[trigger] pair_views(r@).contains(y)
                    <==> (self.is_missing(y) && exists|e: int| 0 <= e < i && #[trigger] self.edges@[e].0@ == y.0),
            decreases self.edges@.len() - i,
        {
            let deps = &self.edges[i].1;
            let mut d: usize = 0;
            while d < deps.len()
                invariant
                    self.wf(),
                    i < self.edges@.len(),
                    deps == self.edges@[i as int].1,
                    d <= deps@.len(),
                    forall|a: int, b: int| 0 <= a < b < r@.len() ==> pair_lt(pair_view(r@[a]), pair_view(r@[b])),
                    forall|y: (Seq<char>, Seq<char>)| #[trigger] pair_views(r@).contains(y)
                        <==> (self.is_missing(y) && (exists|e: int| 0 <= e < i && #[trigger] self.edges@[e].0@ == y.0)
                        || (y.0 == self.edges@[i as int].0@ && names_of(deps@.take(d as int)).contains(y.1)
                        && !self.has_node(y.1))),
                decreases deps@.len() - d,
            {
                let dep = &deps[d];
                let ghost old_r = r@;
                let ghost nb = names_of(deps@.take(d as int));
                let ghost na = names_of(deps@.take(d + 1));
                proof {
                    assert(na =~= nb.push(dep@));
                }
                let hit = index_of_name(&self.edges, dep.as_str());
                if hit.is_none() {
                    insert_sorted(&mut r, (self.edges[i].0.clone(), dep.clone()));
                }
                proof {
                    let rv = pair_views(r@);
                    let ov = pair_views(old_r);
                    assert forall|y: (Seq<char>, Seq<char>)| rv.contains(y)
                        <==> (self.is_missing(y) && (exists|e: int| 0 <= e < i && #[trigger] self.edges@[e].0@ == y.0)
                        || (y.0 == self.edges@[i as int].0@ && na.contains(y.1) && !self.has_node(y.1))) by {
                        if na.contains(y.1) && !nb.contains(y.1) {
                            assert(y.1 == dep@) by {
                                let q = choose|q: int| 0 <= q < na.len() && na[q] == y.1;
                                if q < nb.len() {
                                    assert(nb[q] == na[q]);
                                }
                            }
                        }
                        if nb.contains(y.1) {
                            let q = choose|q: int| 0 <= q < nb.len() && nb[q] == y.1;
                            assert(na[q] == y.1);
                        }
                        if y.1 == dep@ {
                            assert(na[nb.len() as int] == dep@);
                            match hit {
                                Some(h) => {
                                    assert(self.edges@[h as int].0@ == dep@);
                                    assert(self.has_node(dep@));
                                },
                                None => {
                                    if self.has_node(dep@) {
                                        let q = choose|q: int| 0 <= q < self.edges@.len() && #[trigger] self.edges@[q].0@ == dep@;
                                    }
                                },
                            }
                        }
                    }
                }
                d += 1;
            }
            proof {
                assert(deps@.take(deps@.len() as int) =~= deps@);
                let rv = pair_views(r@);
                assert forall|y: (Seq<char>, Seq<char>)| rv.contains(y) <==> (self.is_missing(y)
                    && exists|e: int| 0 <= e < i + 1 && #[trigger] self.edges@[e].0@ == y.0) by {
                    if y.0 == self.edges@[i as int].0@ && names_of(deps@).contains(y.1) && !self.has_node(y.1) {
                        assert(self.depends(y.0, y.1));
                    }
                    if self.is_missing(y) && (exists|e: int| 0 <= e < i + 1 && #[trigger] self.edges@[e].0@ == y.0) {
                        let e = choose|e: int| 0 <= e < i + 1 && #[trigger] self.edges@[e].0@ == y.0;
                        if e == i {
                            let i2 = choose|i2: int| 0 <= i2 < self.edges@.len() && #[trigger] self.edges@[i2].0@ == y.0
                                && names_of(self.edges@[i2].1@).contains(y.1);
                            assert(i2 == i);
                        }
                    }
                }
            }
            i += 1;
        }
        proof {
            let rv = pair_views(r@);
            assert forall|y: (Seq<char>, Seq<char>)| rv.contains(y) <==> self.is_missing(y) by {
                if self.is_missing(y) {
                    let e = choose|e: int| 0 <= e < self.edges@.len() && #[trigger] self.edges@[e].0@ == y.0
                        && names_of(self.edges@[e].1@).contains(y.1);
                }
            }
        }
        r
    }
}

} // verus!
