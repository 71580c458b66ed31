//! Rerooting dynamic programming on a tree: the value of the whole tree seen from every vertex
//! as the root, in `O(n)` operations of the algebra.
use vstd::prelude::*;
use vstd::pervasive::strictly_cloned;

verus! {

/// The operations of a tree DP: values `V` are merged over the neighbours of a vertex, carried
/// across an edge with `apply_edge` and finished at a vertex with `apply_node`.
///
/// `merge` with `identity` must form a monoid; the order in which the neighbours of a vertex
/// are merged is the order in which their edges were added.
pub trait RerootingAlgebra: Sized {
    type V: Clone;
    type E: Clone;
    type N: Clone;

    /// The instance is ready for use.
    spec fn wf(&self) -> bool;

    spec fn identity_spec(&self) -> Self::V;

    spec fn merge_spec(&self, a: Self::V, b: Self::V) -> Self::V;

    spec fn apply_edge_spec(&self, val: Self::V, edge: Self::E) -> Self::V;

    spec fn apply_node_spec(&self, val: Self::V, node: Self::N) -> Self::V;

    /// Associativity, the two identity laws, and that a clone of a value equals it.
    proof fn lemma_merge_laws(&self, a: Self::V, b: Self::V, c: Self::V)
        requires
            self.wf(),
        ensures
            self.merge_spec(self.merge_spec(a, b), c) == self.merge_spec(a, self.merge_spec(b, c)),
            self.merge_spec(self.identity_spec(), a) == a,
            self.merge_spec(a, self.identity_spec()) == a,
            strictly_cloned(a, b) ==> a == b,
    ;

    fn identity(&self) -> (r: Self::V)
        requires
            self.wf(),
        ensures
            r == self.identity_spec(),
    ;

    fn merge(&self, a: &Self::V, b: &Self::V) -> (r: Self::V)
        requires
            self.wf(),
        ensures
            r == self.merge_spec(*a, *b),
    ;

    fn apply_edge(&self, val: &Self::V, edge: &Self::E) -> (r: Self::V)
        requires
            self.wf(),
        ensures
            r == self.apply_edge_spec(*val, *edge),
    ;

    fn apply_node(&self, val: &Self::V, node: &Self::N) -> (r: Self::V)
        requires
            self.wf(),
        ensures
            r == self.apply_node_spec(*val, *node),
    ;
}

/// The values merged from the left; the identity for none.
pub open spec fn merge_all<RA: RerootingAlgebra>(ra: RA, s: Seq<RA::V>) -> RA::V
    decreases s.len(),
{
    if s.len() == 0 {
        ra.identity_spec()
    } else {
        ra.merge_spec(merge_all(ra, s.drop_last()), s.last())
    }
}

/// Merging a concatenation merges the two merged halves.
proof fn lemma_merge_all_concat<RA: RerootingAlgebra>(ra: RA, s: Seq<RA::V>, t: Seq<RA::V>)
    requires
        ra.wf(),
    ensures
        merge_all(ra, s + t) == ra.merge_spec(merge_all(ra, s), merge_all(ra, t)),
    decreases t.len(),
{
    if t.len() == 0 {
        assert(s + t =~= s);
        ra.lemma_merge_laws(merge_all(ra, s), merge_all(ra, s), merge_all(ra, s));
    } else {
        lemma_merge_all_concat(ra, s, t.drop_last());
        assert((s + t).drop_last() =~= s + t.drop_last());
        assert((s + t).last() == t.last());
        ra.lemma_merge_laws(merge_all(ra, s), merge_all(ra, t.drop_last()), t.last());
    }
}

/// The prefix and suffix steps, and what merging all but one element gives.
proof fn lemma_merge_all_parts<RA: RerootingAlgebra>(ra: RA, s: Seq<RA::V>, i: int)
    requires
        ra.wf(),
        0 <= i < s.len(),
    ensures
        merge_all(ra, s.take(i + 1)) == ra.merge_spec(merge_all(ra, s.take(i)), s[i]),
        merge_all(ra, s.skip(i)) == ra.merge_spec(s[i], merge_all(ra, s.skip(i + 1))),
        merge_all(ra, s.remove(i)) == ra.merge_spec(merge_all(ra, s.take(i)), merge_all(ra, s.skip(i + 1))),
        s[i] == ra.identity_spec() ==> merge_all(ra, s) == merge_all(ra, s.remove(i)),
{
    assert(s.take(i + 1).drop_last() =~= s.take(i));
    assert(s.skip(i) =~= seq![s[i]] + s.skip(i + 1));
    lemma_merge_all_concat(ra, seq![s[i]], s.skip(i + 1));
    assert(seq![s[i]].drop_last() =~= Seq::<RA::V>::empty());
    ra.lemma_merge_laws(s[i], s[i], s[i]);
    assert(merge_all(ra, Seq::<RA::V>::empty()) == ra.identity_spec());
    assert(merge_all(ra, seq![s[i]]) == s[i]);
    assert(s.remove(i) =~= s.take(i) + s.skip(i + 1));
    lemma_merge_all_concat(ra, s.take(i), s.skip(i + 1));
    assert(s =~= s.take(i) + s.skip(i));
    lemma_merge_all_concat(ra, s.take(i), s.skip(i));
    if s[i] == ra.identity_spec() {
        ra.lemma_merge_laws(merge_all(ra, s.skip(i + 1)), s[i], s[i]);
    }
}

/// What vertex `v` sends to the neighbour in its slot `t`: the merge of the messages `v` receives
/// from its other neighbours, finished at `v` and carried across the edge of slot `t`.
pub open spec fn sent<RA: RerootingAlgebra>(
    ra: RA,
    ends: Seq<(usize, usize)>,
    edges: Seq<RA::E>,
    nodes: Seq<RA::N>,
    msgs: Seq<Seq<RA::V>>,
    v: int,
    t: int,
) -> RA::V {
    ra.apply_edge_spec(
        ra.apply_node_spec(merge_all(ra, msgs[v].remove(t)), nodes[v]),
        edges[incidences(ends, v, ends.len() as int)[t].1 as int],
    )
}

/// `msgs[u][s]` is the message that `u` receives from the neighbour in its slot `s` (slots in
/// the order the edges were added), and every message is what that neighbour sends across the
/// edge.
pub open spec fn messages_agree<RA: RerootingAlgebra>(
    ra: RA,
    ends: Seq<(usize, usize)>,
    edges: Seq<RA::E>,
    nodes: Seq<RA::N>,
    msgs: Seq<Seq<RA::V>>,
) -> bool {
    let n = nodes.len() as int;
    let m = ends.len() as int;
    &&& msgs.len() == n
    &&& forall|u: int| 0 <= u < n ==> #[trigger] msgs[u].len() == incidences(ends, u, m).len()
    &&& forall|u: int, s: int, t: int|
        #![trigger msgs[u][s], incidences(ends, incidences(ends, u, m)[s].0 as int, m)[t]]
        0 <= u < n && 0 <= s < incidences(ends, u, m).len() && 0 <= t < incidences(
            ends,
            incidences(ends, u, m)[s].0 as int,
            m,
        ).len() && incidences(ends, incidences(ends, u, m)[s].0 as int, m)[t].1 == incidences(ends, u, m)[s].1
            ==> msgs[u][s] == sent(ra, ends, edges, nodes, msgs, incidences(ends, u, m)[s].0 as int, t)
}

/// The incidences of vertex `u` among the first `k` edges, in the order the edges were added:
/// for each edge, its other end and its index (a loop appears twice).
pub open spec fn incidences(ends: Seq<(usize, usize)>, u: int, k: int) -> Seq<(usize, usize)>
    decreases k,
{
    if k <= 0 {
        seq![]
    } else {
        incidences(ends, u, k - 1) + (if ends[k - 1].0 == u {
            seq![(ends[k - 1].1, (k - 1) as usize)]
        } else {
            seq![]
        }) + (if ends[k - 1].1 == u {
            seq![(ends[k - 1].0, (k - 1) as usize)]
        } else {
            seq![]
        })
    }
}

/// Edge `e` joins `u` to `w`.
pub open spec fn joins(ends: Seq<(usize, usize)>, e: int, u: int, w: int) -> bool {
    (ends[e].0 == u && ends[e].1 == w) || (ends[e].1 == u && ends[e].0 == w)
}

/// `par` and `depth` root the graph at vertex `0`: every other vertex has a parent edge to a
/// vertex one step closer to `0`, and every edge is the parent edge of exactly one vertex.
pub open spec fn rooted_at_zero(n: int, ends: Seq<(usize, usize)>, par: Seq<int>, depth: Seq<int>) -> bool {
    &&& n >= 1
    &&& par.len() == n
    &&& depth.len() == n
    &&& depth[0] == 0
    &&& forall|u: int|
        1 <= u < n ==> 0 <= #[trigger] par[u] < ends.len() && 0 < depth[u] < n && exists|w: int|
            0 <= w < n && joins(ends, par[u], u, w) && depth[w] == depth[u] - 1
    &&& forall|u: int, v: int| 1 <= u < n && 1 <= v < n && u != v ==> #[trigger] par[u] != #[trigger] par[v]
    &&& forall|e: int| #![trigger ends[e]] 0 <= e < ends.len() ==> exists|u: int| 1 <= u < n && #[trigger] par[u] == e
}

/// The vertices `0..n` and the edges form a tree: connected and without cycles, given by a
/// rooting at `0`.
pub open spec fn is_tree(n: int, ends: Seq<(usize, usize)>) -> bool {
    &&& forall|e: int| 0 <= e < ends.len() ==> (#[trigger] ends[e]).0 < n && ends[e].1 < n
    &&& exists|par: Seq<int>, depth: Seq<int>| rooted_at_zero(n, ends, par, depth)
}

/// Adding an edge leaves the incidences among the earlier edges unchanged.
proof fn lemma_incidences_prefix(ends: Seq<(usize, usize)>, x: (usize, usize), u: int, k: int)
    requires
        0 <= k <= ends.len(),
    ensures
        incidences(ends.push(x), u, k) == incidences(ends, u, k),
    decreases k,
{
    if k > 0 {
        lemma_incidences_prefix(ends, x, u, k - 1);
    }
}

/// The entries of the incidence list: each names an edge among the first `k` and its other end.
proof fn lemma_incidences_entries(ends: Seq<(usize, usize)>, u: int, k: int)
    requires
        0 <= k <= ends.len(),
        ends.len() < usize::MAX,
    ensures
        forall|s: int|
            0 <= s < incidences(ends, u, k).len() ==> 0 <= (#[trigger] incidences(ends, u, k)[s]).1 < k && joins(
                ends,
                incidences(ends, u, k)[s].1 as int,
                u,
                incidences(ends, u, k)[s].0 as int,
            ),
    decreases k,
{
    if k > 0 {
        lemma_incidences_entries(ends, u, k - 1);
        let prev = incidences(ends, u, k - 1);
        let cur = incidences(ends, u, k);
        let a: Seq<(usize, usize)> = if ends[k - 1].0 == u {
            seq![(ends[k - 1].1, (k - 1) as usize)]
        } else {
            seq![]
        };
        let b: Seq<(usize, usize)> = if ends[k - 1].1 == u {
            seq![(ends[k - 1].0, (k - 1) as usize)]
        } else {
            seq![]
        };
        assert(cur =~= prev + a + b);
        assert forall|s: int| 0 <= s < cur.len() implies 0 <= (#[trigger] cur[s]).1 < k && joins(
            ends,
            cur[s].1 as int,
            u,
            cur[s].0 as int,
        ) by {
            if s < prev.len() {
                assert(cur[s] == prev[s]);
            } else if s < prev.len() + a.len() {
                assert(cur[s] == a[s - prev.len()]);
            } else {
                assert(cur[s] == b[s - prev.len() - a.len()]);
            }
        }
    }
}

/// Every edge among the first `k` that joins `u` to `v` is in the incidence list of `u`.
proof fn lemma_incidences_complete(ends: Seq<(usize, usize)>, u: int, k: int, e: int, v: int)
    requires
        0 <= e < k <= ends.len(),
        ends.len() < usize::MAX,
        joins(ends, e, u, v),
    ensures
        exists|s: int| 0 <= s < incidences(ends, u, k).len() && #[trigger] incidences(ends, u, k)[s] == (v as usize, e as usize),
    decreases k,
{
    let cur = incidences(ends, u, k);
    let prev = incidences(ends, u, k - 1);
    if e < k - 1 {
        lemma_incidences_complete(ends, u, k - 1, e, v);
        let s = choose|s: int| 0 <= s < prev.len() && #[trigger] prev[s] == (v as usize, e as usize);
        assert(cur[s] == prev[s]);
    } else {
        lemma_incidences_entries(ends, v, 0);
        if ends[e].0 == u {
            assert(cur[prev.len() as int] == (v as usize, e as usize));
        } else {
            assert(cur[cur.len() - 1] == (v as usize, e as usize));
        }
    }
}

/// Without loops, the edges in an incidence list strictly increase, so none appears twice.
proof fn lemma_incidences_distinct(ends: Seq<(usize, usize)>, u: int, k: int)
    requires
        0 <= k <= ends.len(),
        ends.len() < usize::MAX,
        forall|e: int| 0 <= e < ends.len() ==> (#[trigger] ends[e]).0 != ends[e].1,
    ensures
        forall|s1: int, s2: int|
            0 <= s1 < s2 < incidences(ends, u, k).len() ==> (#[trigger] incidences(ends, u, k)[s1]).1 < (
            #[trigger] incidences(ends, u, k)[s2]).1,
    decreases k,
{
    if k > 0 {
        lemma_incidences_distinct(ends, u, k - 1);
        lemma_incidences_entries(ends, u, k - 1);
        let prev = incidences(ends, u, k - 1);
        let cur = incidences(ends, u, k);
        assert(ends[k - 1].0 != ends[k - 1].1);
        let a: Seq<(usize, usize)> = if ends[k - 1].0 == u {
            seq![(ends[k - 1].1, (k - 1) as usize)]
        } else {
            seq![]
        };
        let b: Seq<(usize, usize)> = if ends[k - 1].1 == u {
            seq![(ends[k - 1].0, (k - 1) as usize)]
        } else {
            seq![]
        };
        assert(cur =~= prev + a + b);
        assert(a.len() + b.len() <= 1);
        assert forall|s1: int, s2: int| 0 <= s1 < s2 < cur.len() implies (#[trigger] cur[s1]).1 < (#[trigger] cur[s2]).1 by {
            assert(cur[s1] == prev[s1]);
            assert(prev[s1].1 < k - 1);
            if s2 < prev.len() {
                assert(cur[s2] == prev[s2]);
            } else if a.len() == 1 {
                assert(cur[s2] == a[0]);
            } else {
                assert(cur[s2] == b[0]);
            }
        }
    }
}

/// What a rooting gives: no loops, and an edge that is not the parent edge of `u` leads to a
/// vertex whose parent edge it is, one step farther from `0`.
proof fn lemma_rooted_edges(n: int, ends: Seq<(usize, usize)>, par: Seq<int>, depth: Seq<int>)
    requires
        rooted_at_zero(n, ends, par, depth),
    ensures
        forall|e: int| 0 <= e < ends.len() ==> (#[trigger] ends[e]).0 != ends[e].1,
        forall|u: int, v: int, e: int|
            0 <= u < n && 0 <= e < ends.len() && #[trigger] joins(ends, e, u, v) && (u == 0 || par[u] != e) ==> 1
                <= v < n && #[trigger] par[v] == e && depth[u] == depth[v] - 1,
{
    assert forall|e: int| 0 <= e < ends.len() implies (#[trigger] ends[e]).0 != ends[e].1 by {
        let c = choose|c: int| 1 <= c < n && #[trigger] par[c] == e;
        let w = choose|w: int| 0 <= w < n && joins(ends, par[c], c, w) && depth[w] == depth[c] - 1;
    }
    assert forall|u: int, v: int, e: int|
        0 <= u < n && 0 <= e < ends.len() && #[trigger] joins(ends, e, u, v) && (u == 0 || par[u] != e) implies 1
            <= v < n && #[trigger] par[v] == e && depth[u] == depth[v] - 1 by {
        let c = choose|c: int| 1 <= c < n && #[trigger] par[c] == e;
        let w = choose|w: int| 0 <= w < n && joins(ends, par[c], c, w) && depth[w] == depth[c] - 1;
        assert(c != u);
    }
}

/// The number of `false` entries.
spec fn unvisited(v: Seq<bool>) -> nat
    decreases v.len(),
{
    if v.len() == 0 {
        0
    } else {
        unvisited(v.drop_last()) + if v.last() {
            0nat
        } else {
            1nat
        }
    }
}

proof fn lemma_unvisited_mark(v: Seq<bool>, i: int)
    requires
        0 <= i < v.len(),
        !v[i],
    ensures
        unvisited(v.update(i, true)) + 1 == unvisited(v),
    decreases v.len(),
{
    if i < v.len() - 1 {
        assert(v.update(i, true).drop_last() =~= v.drop_last().update(i, true));
        lemma_unvisited_mark(v.drop_last(), i);
    } else {
        assert(v.update(i, true).drop_last() =~= v.drop_last());
    }
}

proof fn lemma_unvisited_none(v: Seq<bool>)
    requires
        forall|i: int| 0 <= i < v.len() ==> #[trigger] v[i],
    ensures
        unvisited(v) == 0,
    decreases v.len(),
{
    if v.len() > 0 {
        lemma_unvisited_none(v.drop_last());
    }
}

/// Slot `s` of `u` leads to a vertex `v` whose parent slot points back to `u` along the same
/// edge, and `v` comes after `u` in the order.
spec fn child_link(a: Seq<Seq<(usize, usize)>>, pslot: Seq<usize>, pos: Seq<int>, u: int, s: int) -> bool {
    let v = a[u][s].0 as int;
    &&& 1 <= v < a.len()
    &&& pslot[v] < a[v].len()
    &&& a[v][pslot[v] as int] == (u as usize, a[u][s].1)
    &&& pos[u] < pos[v]
}

/// The parent slot of `w` leads to a vertex in whose list `w` sits in a slot other than its
/// parent slot.
spec fn parent_link(a: Seq<Seq<(usize, usize)>>, pslot: Seq<usize>, w: int) -> bool {
    let p = a[w][pslot[w] as int].0 as int;
    exists|t: int| 0 <= t < a[p].len() && t != pslot[p] && #[trigger] a[p][t] == (w as usize, a[w][pslot[w] as int].1)
}

/// A traversal of the tree from `0`: an order in which each vertex comes after its parent, and
/// for each vertex the slot of its parent edge (none for `0`).
spec fn traversal(a: Seq<Seq<(usize, usize)>>, order: Seq<usize>, pslot: Seq<usize>, pos: Seq<int>) -> bool {
    let n = a.len();
    &&& n >= 1
    &&& order.len() == n
    &&& pslot.len() == n
    &&& pos.len() == n
    &&& forall|j: int| 0 <= j < n ==> (#[trigger] order[j]) < n && pos[order[j] as int] == j
    &&& forall|w: int| 0 <= w < n ==> 0 <= #[trigger] pos[w] < n && order[pos[w]] == w
    &&& order[0] == 0
    &&& pslot[0] >= a[0].len()
    &&& forall|w: int| 1 <= w < n ==> (#[trigger] pslot[w]) < a[w].len() && parent_link(a, pslot, w)
    &&& forall|u: int, s: int| 0 <= u < n && 0 <= s < a[u].len() && s != pslot[u] ==> #[trigger] child_link(a, pslot, pos, u, s)
    &&& forall|u: int, s1: int, s2: int|
        0 <= u < n && 0 <= s1 < a[u].len() && 0 <= s2 < a[u].len() && s1 != s2 ==> (#[trigger] a[u][s1]).1 != (
        #[trigger] a[u][s2]).1
    &&& forall|u: int, s: int| 0 <= u < n && 0 <= s < a[u].len() ==> (#[trigger] a[u][s]).0 < n
}

proof fn lemma_unvisited_count_false(n: nat)
    ensures
        unvisited(Seq::new(n, |i: int| false)) == n,
    decreases n,
{
    if n > 0 {
        assert(Seq::new(n, |i: int| false).drop_last() =~= Seq::new((n - 1) as nat, |i: int| false));
        lemma_unvisited_count_false((n - 1) as nat);
    }
}

/// The incidence lists of `0..n` among all edges are well formed.
proof fn lemma_all_incidences(ends: Seq<(usize, usize)>, n: int)
    requires
        ends.len() < usize::MAX,
        forall|e: int| 0 <= e < ends.len() ==> (#[trigger] ends[e]).0 != ends[e].1,
    ensures
        forall|u: int, s: int|
            0 <= u < n && 0 <= s < incidences(ends, u, ends.len() as int).len() ==> 0 <= (#[trigger] incidences(
                ends,
                u,
                ends.len() as int,
            )[s]).1 < ends.len() && joins(
                ends,
                incidences(ends, u, ends.len() as int)[s].1 as int,
                u,
                incidences(ends, u, ends.len() as int)[s].0 as int,
            ),
        forall|u: int, s1: int, s2: int|
            0 <= u < n && 0 <= s1 < s2 < incidences(ends, u, ends.len() as int).len() ==> (#[trigger] incidences(
                ends,
                u,
                ends.len() as int,
            )[s1]).1 < (#[trigger] incidences(ends, u, ends.len() as int)[s2]).1,
{
    let m = ends.len() as int;
    assert forall|u: int, s: int|
        0 <= u < n && 0 <= s < incidences(ends, u, m).len() implies 0 <= (#[trigger] incidences(ends, u, m)[s]).1 < m
            && joins(ends, incidences(ends, u, m)[s].1 as int, u, incidences(ends, u, m)[s].0 as int) by {
        lemma_incidences_entries(ends, u, m);
    }
    assert forall|u: int, s1: int, s2: int|
        0 <= u < n && 0 <= s1 < s2 < incidences(ends, u, m).len() implies (#[trigger] incidences(ends, u, m)[s1]).1 < (
        #[trigger] incidences(ends, u, m)[s2]).1 by {
        lemma_incidences_distinct(ends, u, m);
    }
}

/// When every vertex seen has all its neighbours seen, and `0` is seen, every vertex of a
/// rooted tree is seen.
proof fn lemma_all_seen(
    n: int,
    ends: Seq<(usize, usize)>,
    par: Seq<int>,
    depth: Seq<int>,
    seen: Seq<bool>,
    w: int,
)
    requires
        rooted_at_zero(n, ends, par, depth),
        ends.len() < usize::MAX,
        seen.len() == n,
        seen[0],
        forall|u: int, s: int|
            0 <= u < n && seen[u] && 0 <= s < incidences(ends, u, ends.len() as int).len() ==> seen[(#[trigger] incidences(
                ends,
                u,
                ends.len() as int,
            )[s]).0 as int],
        0 <= w < n,
    ensures
        seen[w],
    decreases depth[w],
{
    if w != 0 {
        let p = choose|p: int| 0 <= p < n && joins(ends, par[w], w, p) && depth[p] == depth[w] - 1;
        assert(0 <= par[w] < ends.len());
        if p != 0 {
            assert(0 <= par[p] < ends.len());
            lemma_all_seen(n, ends, par, depth, seen, p);
        }
        lemma_incidences_complete(ends, p, ends.len() as int, par[w], w);
        let s = choose|s: int|
            0 <= s < incidences(ends, p, ends.len() as int).len() && #[trigger] incidences(ends, p, ends.len() as int)[s]
                == (w as usize, par[w] as usize);
    }
}

/// The properties of a finished breadth-first traversal of a rooted tree.
proof fn lemma_traversal_final(
    a: Seq<Seq<(usize, usize)>>,
    ends: Seq<(usize, usize)>,
    par: Seq<int>,
    depth: Seq<int>,
    seen: Seq<bool>,
    order: Seq<usize>,
    pslot: Seq<usize>,
    pos: Seq<int>,
)
    requires
        rooted_at_zero(a.len() as int, ends, par, depth),
        ends.len() < usize::MAX,
        forall|e: int| 0 <= e < ends.len() ==> (#[trigger] ends[e]).0 < a.len() && ends[e].1 < a.len(),
        forall|u: int| 0 <= u < a.len() ==> #[trigger] a[u] == incidences(ends, u, ends.len() as int),
        seen.len() == a.len(),
        pslot.len() == a.len(),
        pos.len() == a.len(),
        1 <= order.len(),
        order.len() + unvisited(seen) == a.len(),
        forall|j: int| 0 <= j < order.len() ==> (#[trigger] order[j]) < a.len() && seen[order[j] as int] && pos[order[j] as int] == j,
        forall|w: int| 0 <= w < a.len() && #[trigger] seen[w] ==> 0 <= pos[w] < order.len() && order[pos[w]] == w,
        order[0] == 0,
        pslot[0] == a[0].len(),
        forall|w: int|
            1 <= w < a.len() && #[trigger] seen[w] ==> pslot[w] < a[w].len() && a[w][pslot[w] as int].1 == par[w]
                && seen[a[w][pslot[w] as int].0 as int] && pos[a[w][pslot[w] as int].0 as int] < pos[w],
        forall|u: int, s: int|
            0 <= u < a.len() && seen[u] && 0 <= s < incidences(ends, u, ends.len() as int).len() ==> seen[(#[trigger] incidences(
                ends,
                u,
                ends.len() as int,
            )[s]).0 as int],
    ensures
        traversal(a, order, pslot, pos),
{
    let n = a.len() as int;
    let m = ends.len() as int;
    lemma_rooted_edges(n, ends, par, depth);
    lemma_all_incidences(ends, n);
    assert(seen[0]) by {
        assert(seen[order[0] as int]);
    }
    assert forall|w: int| 0 <= w < n implies #[trigger] seen[w] by {
        lemma_all_seen(n, ends, par, depth, seen, w);
    }
    lemma_unvisited_none(seen);
    let ps = pslot;
    assert forall|w: int| 1 <= w < n implies (#[trigger] ps[w]) < a[w].len() && parent_link(a, ps, w) by {
        assert(seen[w]);
        let p = a[w][ps[w] as int].0 as int;
        let e = par[w];
        assert(0 <= par[w] < m);
        assert(a[w][ps[w] as int] == incidences(ends, w, m)[ps[w] as int]);
        assert(joins(ends, e, w, p));
        assert(joins(ends, e, p, w));
        lemma_incidences_complete(ends, p, m, e, w);
        let t = choose|t: int| 0 <= t < incidences(ends, p, m).len() && #[trigger] incidences(ends, p, m)[t] == (w as usize, e as usize);
        assert(a[p][t] == (w as usize, e as usize));
        if p != 0 {
            assert(seen[p]);
            assert(a[p][ps[p] as int].1 == par[p]);
            assert(0 <= par[p] < m);
            assert(p != w);
        }
    }
    assert forall|u: int, s: int| 0 <= u < n && 0 <= s < a[u].len() && s != ps[u] implies #[trigger] child_link(a, ps, pos, u, s) by {
        let v = a[u][s].0 as int;
        let e = a[u][s].1 as int;
        assert(a[u][s] == incidences(ends, u, m)[s]);
        assert(joins(ends, e, u, v));
        if u != 0 {
            assert(seen[u]);
            let q = ps[u] as int;
            if q < s {
                assert(a[u][q].1 < a[u][s].1);
            } else {
                assert(a[u][s].1 < a[u][q].1);
            }
        }
        assert(1 <= v < n && par[v] == e);
        assert(seen[v]);
        assert(a[v][ps[v] as int] == incidences(ends, v, m)[ps[v] as int]);
        assert(joins(ends, e, v, a[v][ps[v] as int].0 as int));
    }
    assert forall|u: int, s1: int, s2: int|
        0 <= u < n && 0 <= s1 < a[u].len() && 0 <= s2 < a[u].len() && s1 != s2 implies (#[trigger] a[u][s1]).1 != (
        #[trigger] a[u][s2]).1 by {
        if s1 < s2 {
            assert(incidences(ends, u, m)[s1].1 < incidences(ends, u, m)[s2].1);
        } else {
            assert(incidences(ends, u, m)[s2].1 < incidences(ends, u, m)[s1].1);
        }
    }
    assert forall|u: int, s: int| 0 <= u < n && 0 <= s < a[u].len() implies (#[trigger] a[u][s]).0 < n by {
        assert(a[u][s] == incidences(ends, u, m)[s]);
        let e = a[u][s].1 as int;
        assert(ends[e].0 < n && ends[e].1 < n);
    }
    lemma_unvisited_none(seen);
    assert(order.len() == n);
    assert(forall|j: int| 0 <= j < n ==> (#[trigger] order[j]) < n && pos[order[j] as int] == j);
    assert forall|w: int| 0 <= w < n implies 0 <= #[trigger] pos[w] < n && order[pos[w]] == w by {
        assert(seen[w]);
    }
    assert(pslot[0] >= a[0].len());
}

/// The values after the upward pass: every child slot holds the value of the child's subtree
/// carried across the edge, the parent slot the identity, and `sub[w]` finishes `w`'s row.
spec fn upward_done<RA: RerootingAlgebra>(
    ra: RA,
    a: Seq<Seq<(usize, usize)>>,
    edges: Seq<RA::E>,
    nodes: Seq<RA::N>,
    pslot: Seq<usize>,
    dp: Seq<Seq<RA::V>>,
    sub: Seq<RA::V>,
    w: int,
) -> bool {
    &&& dp[w].len() == a[w].len()
    &&& (w != 0 ==> dp[w][pslot[w] as int] == ra.identity_spec())
    &&& forall|s: int|
        0 <= s < a[w].len() && s != pslot[w] ==> #[trigger] dp[w][s] == ra.apply_edge_spec(
            sub[a[w][s].0 as int],
            edges[a[w][s].1 as int],
        )
    &&& sub[w] == ra.apply_node_spec(merge_all(ra, dp[w]), nodes[w])
}

/// A parent comes before its child in the order.
proof fn lemma_parent_before(a: Seq<Seq<(usize, usize)>>, order: Seq<usize>, pslot: Seq<usize>, pos: Seq<int>, w: int)
    requires
        traversal(a, order, pslot, pos),
        1 <= w < a.len(),
    ensures
        pslot[w] < a[w].len(),
        0 <= a[w][pslot[w] as int].0 < a.len(),
        pos[a[w][pslot[w] as int].0 as int] < pos[w],
{
    assert(pslot[w] < a[w].len() && parent_link(a, pslot, w));
    let p = a[w][pslot[w] as int].0 as int;
    let t = choose|t: int| 0 <= t < a[p].len() && t != pslot[p] && #[trigger] a[p][t] == (w as usize, a[w][pslot[w] as int].1);
    assert(child_link(a, pslot, pos, p, t));
}

/// What the parent `p` of `w` sends down: the merge of `p`'s row without slot `t` (the slot of
/// `w`), finished at `p` and carried across the edge.
spec fn down_message<RA: RerootingAlgebra>(
    ra: RA,
    a: Seq<Seq<(usize, usize)>>,
    edges: Seq<RA::E>,
    nodes: Seq<RA::N>,
    rows: Seq<Seq<RA::V>>,
    p: int,
    t: int,
) -> RA::V {
    ra.apply_edge_spec(ra.apply_node_spec(merge_all(ra, rows[p].remove(t)), nodes[p]), edges[a[p][t].1 as int])
}

/// The parent slot of `w` holds what its parent sends down to it.
spec fn down_done<RA: RerootingAlgebra>(
    ra: RA,
    a: Seq<Seq<(usize, usize)>>,
    edges: Seq<RA::E>,
    nodes: Seq<RA::N>,
    pslot: Seq<usize>,
    rows: Seq<Seq<RA::V>>,
    w: int,
) -> bool {
    let p = a[w][pslot[w] as int].0 as int;
    forall|t: int|
        0 <= t < a[p].len() && #[trigger] a[p][t] == (w as usize, a[w][pslot[w] as int].1) ==> rows[w][pslot[w] as int]
            == down_message(ra, a, edges, nodes, rows, p, t)
}

/// Two systems of messages that both agree on a tree carry the same message from a vertex `v`
/// to its parent.
proof fn lemma_up_unique<RA: RerootingAlgebra>(
    ra: RA,
    ends: Seq<(usize, usize)>,
    edges: Seq<RA::E>,
    nodes: Seq<RA::N>,
    par: Seq<int>,
    depth: Seq<int>,
    msgs1: Seq<Seq<RA::V>>,
    msgs2: Seq<Seq<RA::V>>,
    v: int,
)
    requires
        rooted_at_zero(nodes.len() as int, ends, par, depth),
        ends.len() < usize::MAX,
        forall|e: int| 0 <= e < ends.len() ==> (#[trigger] ends[e]).0 < nodes.len() && ends[e].1 < nodes.len(),
        messages_agree(ra, ends, edges, nodes, msgs1),
        messages_agree(ra, ends, edges, nodes, msgs2),
        1 <= v < nodes.len(),
    ensures
        forall|p: int, t: int|
            0 <= p < nodes.len() && 0 <= t < incidences(ends, p, ends.len() as int).len() && #[trigger] incidences(
                ends,
                p,
                ends.len() as int,
            )[t] == (v as usize, par[v] as usize) ==> msgs1[p][t] == msgs2[p][t],
    decreases nodes.len() - depth[v],
{
    let n = nodes.len() as int;
    let m = ends.len() as int;
    lemma_rooted_edges(n, ends, par, depth);
    lemma_all_incidences(ends, n);
    assert(0 <= par[v] < m && 0 < depth[v] < n);
    let w = choose|w: int| 0 <= w < n && joins(ends, par[v], v, w) && depth[w] == depth[v] - 1;
    lemma_incidences_complete(ends, v, m, par[v], w);
    let inv = incidences(ends, v, m);
    let pv = choose|s: int| 0 <= s < inv.len() && #[trigger] inv[s] == (w as usize, par[v] as usize);
    assert forall|s: int| 0 <= s < inv.len() && s != pv implies #[trigger] msgs1[v][s] == msgs2[v][s] by {
        let c = inv[s].0 as int;
        let e = inv[s].1 as int;
        if s < pv {
            assert(inv[s].1 < inv[pv].1);
        } else {
            assert(inv[pv].1 < inv[s].1);
        }
        assert(joins(ends, e, v, c));
        assert(1 <= c < n && par[c] == e && depth[v] == depth[c] - 1);
        assert(0 < depth[c] < n) by {
            assert(0 <= par[c] < m);
        }
        lemma_up_unique(ra, ends, edges, nodes, par, depth, msgs1, msgs2, c);
    }
    assert(msgs1[v].remove(pv) =~= msgs2[v].remove(pv)) by {
        assert(msgs1[v].len() == inv.len());
        assert(msgs2[v].len() == inv.len());
        assert forall|i: int| 0 <= i < msgs1[v].remove(pv).len() implies msgs1[v].remove(pv)[i] == msgs2[v].remove(pv)[i] by {
            if i < pv {
                assert(msgs1[v][i] == msgs2[v][i]);
            } else {
                assert(msgs1[v][i + 1] == msgs2[v][i + 1]);
            }
        }
    }
    assert forall|p: int, t: int|
        0 <= p < n && 0 <= t < incidences(ends, p, m).len() && #[trigger] incidences(ends, p, m)[t] == (v as usize, par[v] as usize)
        implies msgs1[p][t] == msgs2[p][t] by {
        assert(incidences(ends, incidences(ends, p, m)[t].0 as int, m)[pv].1 == incidences(ends, p, m)[t].1);
        assert(msgs1[p][t] == sent(ra, ends, edges, nodes, msgs1, v, pv));
        assert(msgs2[p][t] == sent(ra, ends, edges, nodes, msgs2, v, pv));
    }
}

/// Two systems of messages that both agree on a tree carry the same message from the parent of
/// `w` to `w`.
proof fn lemma_down_unique<RA: RerootingAlgebra>(
    ra: RA,
    ends: Seq<(usize, usize)>,
    edges: Seq<RA::E>,
    nodes: Seq<RA::N>,
    par: Seq<int>,
    depth: Seq<int>,
    msgs1: Seq<Seq<RA::V>>,
    msgs2: Seq<Seq<RA::V>>,
    w: int,
)
    requires
        rooted_at_zero(nodes.len() as int, ends, par, depth),
        ends.len() < usize::MAX,
        forall|e: int| 0 <= e < ends.len() ==> (#[trigger] ends[e]).0 < nodes.len() && ends[e].1 < nodes.len(),
        messages_agree(ra, ends, edges, nodes, msgs1),
        messages_agree(ra, ends, edges, nodes, msgs2),
        1 <= w < nodes.len(),
    ensures
        forall|s: int|
            0 <= s < incidences(ends, w, ends.len() as int).len() && (#[trigger] incidences(ends, w, ends.len() as int)[s]).1
                == par[w] ==> msgs1[w][s] == msgs2[w][s],
    decreases depth[w],
{
    let n = nodes.len() as int;
    let m = ends.len() as int;
    lemma_rooted_edges(n, ends, par, depth);
    lemma_all_incidences(ends, n);
    assert(0 <= par[w] < m && 0 < depth[w] < n);
    let p = choose|p: int| 0 <= p < n && joins(ends, par[w], w, p) && depth[p] == depth[w] - 1;
    lemma_incidences_complete(ends, p, m, par[w], w);
    let inp = incidences(ends, p, m);
    let t = choose|t: int| 0 <= t < inp.len() && #[trigger] inp[t] == (w as usize, par[w] as usize);
    assert forall|q: int| 0 <= q < inp.len() && q != t implies #[trigger] msgs1[p][q] == msgs2[p][q] by {
        let c = inp[q].0 as int;
        let e = inp[q].1 as int;
        if q < t {
            assert(inp[q].1 < inp[t].1);
        } else {
            assert(inp[t].1 < inp[q].1);
        }
        assert(joins(ends, e, p, c));
        if p != 0 && e == par[p] {
            assert(0 <= par[p] < m);
            lemma_down_unique(ra, ends, edges, nodes, par, depth, msgs1, msgs2, p);
        } else {
            assert(1 <= c < n && par[c] == e);
            lemma_up_unique(ra, ends, edges, nodes, par, depth, msgs1, msgs2, c);
        }
    }
    assert(msgs1[p].remove(t) =~= msgs2[p].remove(t)) by {
        assert(msgs1[p].len() == inp.len());
        assert(msgs2[p].len() == inp.len());
        assert forall|i: int| 0 <= i < msgs1[p].remove(t).len() implies msgs1[p].remove(t)[i] == msgs2[p].remove(t)[i] by {
            if i < t {
                assert(msgs1[p][i] == msgs2[p][i]);
            } else {
                assert(msgs1[p][i + 1] == msgs2[p][i + 1]);
            }
        }
    }
    let inw = incidences(ends, w, m);
    assert forall|s: int| 0 <= s < inw.len() && (#[trigger] inw[s]).1 == par[w] implies msgs1[w][s] == msgs2[w][s] by {
        assert(joins(ends, par[w], w, inw[s].0 as int));
        assert(inw[s].0 == p);
        assert(incidences(ends, inw[s].0 as int, m)[t].1 == inw[s].1);
        assert(msgs1[w][s] == sent(ra, ends, edges, nodes, msgs1, p, t));
        assert(msgs2[w][s] == sent(ra, ends, edges, nodes, msgs2, p, t));
    }
}

/// On a tree the message equations have exactly one solution, so the messages, and with them
/// the answers of `solve`, are determined by the tree, the vertex and edge data and the algebra.
pub proof fn lemma_messages_unique<RA: RerootingAlgebra>(
    ra: RA,
    ends: Seq<(usize, usize)>,
    edges: Seq<RA::E>,
    nodes: Seq<RA::N>,
    msgs1: Seq<Seq<RA::V>>,
    msgs2: Seq<Seq<RA::V>>,
)
    requires
        is_tree(nodes.len() as int, ends),
        ends.len() < usize::MAX,
        messages_agree(ra, ends, edges, nodes, msgs1),
        messages_agree(ra, ends, edges, nodes, msgs2),
    ensures
        msgs1 == msgs2,
{
    let n = nodes.len() as int;
    let m = ends.len() as int;
    let (par, depth) = choose|par: Seq<int>, depth: Seq<int>| rooted_at_zero(n, ends, par, depth);
    lemma_rooted_edges(n, ends, par, depth);
    lemma_all_incidences(ends, n);
    assert forall|u: int| 0 <= u < n implies #[trigger] msgs1[u] =~= msgs2[u] by {
        let inu = incidences(ends, u, m);
        assert forall|s: int| 0 <= s < inu.len() implies msgs1[u][s] == msgs2[u][s] by {
            let v = inu[s].0 as int;
            let e = inu[s].1 as int;
            assert(joins(ends, e, u, v));
            if u != 0 && e == par[u] {
                lemma_down_unique(ra, ends, edges, nodes, par, depth, msgs1, msgs2, u);
            } else {
                assert(1 <= v < n && par[v] == e);
                lemma_up_unique(ra, ends, edges, nodes, par, depth, msgs1, msgs2, v);
            }
        }
    }
    assert(msgs1 =~= msgs2);
}

/// Rerooting DP over a tree given by its vertices and edges.
pub struct RerootingDP<RA: RerootingAlgebra> {
    n: usize,
    adj: Vec<Vec<(usize, usize)>>,
    ends: Ghost<Seq<(usize, usize)>>,
    edges: Vec<RA::E>,
    nodes: Vec<RA::N>,
    dp: Vec<Vec<RA::V>>,
    logic: RA,
}

impl<RA: RerootingAlgebra> RerootingDP<RA> {
    /// The vertex data.
    pub closed spec fn nodes_spec(&self) -> Seq<RA::N> {
        self.nodes@
    }

    /// The endpoints of the edges, in the order they were added.
    pub closed spec fn ends_spec(&self) -> Seq<(usize, usize)> {
        self.ends@
    }

    /// The edge data, in the order the edges were added.
    pub closed spec fn edges_spec(&self) -> Seq<RA::E> {
        self.edges@
    }

    pub closed spec fn logic_spec(&self) -> RA {
        self.logic
    }

    /// After `solve`: `messages()[u][i]` is the value that the `i`-th neighbour of `u` sends to
    /// `u` across their edge.
    pub closed spec fn messages(&self) -> Seq<Seq<RA::V>> {
        Seq::new(self.dp@.len(), |u: int| self.dp@[u]@)
    }

    spec fn adj_view(&self) -> Seq<Seq<(usize, usize)>> {
        Seq::new(self.adj@.len(), |u: int| self.adj@[u]@)
    }

    pub closed spec fn wf(&self) -> bool {
        &&& self.n == self.nodes@.len()
        &&& self.adj@.len() == self.n
        &&& self.dp@.len() == self.n
        &&& self.edges@.len() == self.ends@.len()
        &&& self.ends@.len() < usize::MAX
        &&& forall|e: int| 0 <= e < self.ends@.len() ==> (#[trigger] self.ends@[e]).0 < self.n && self.ends@[e].1 < self.n
        &&& forall|u: int| 0 <= u < self.n ==> (#[trigger] self.adj@[u])@ == incidences(self.ends@, u, self.ends@.len() as int)
    }

    /// Breadth-first traversal from `0`, recording for each vertex the slot of its parent edge.
    fn traverse(&self) -> (res: (Vec<usize>, Vec<usize>, Ghost<Seq<int>>))
        requires
            self.wf(),
            is_tree(self.n as int, self.ends@),
        ensures
            traversal(self.adj_view(), res.0@, res.1@, res.2@),
    {
        let n = self.n;
        let ghost a = self.adj_view();
        let ghost ends = self.ends@;
        let ghost m = ends.len() as int;
        let ghost (par, depth) = choose|par: Seq<int>, depth: Seq<int>| rooted_at_zero(n as int, ends, par, depth);
        proof {
            lemma_rooted_edges(n as int, ends, par, depth);
            lemma_all_incidences(ends, n as int);
            assert forall|u: int| 0 <= u < n implies #[trigger] a[u] == incidences(ends, u, m) by {
                assert(self.adj@[u]@ == incidences(ends, u, m));
            }
        }
        let mut visited: Vec<bool> = vec![false; n];
        proof {
            assert(n >= 1);
            lemma_unvisited_count_false(n as nat);
            assert(visited@ =~= Seq::new(n as nat, |i: int| false));
            lemma_unvisited_mark(visited@, 0);
        }
        visited.set(0, true);
        let mut pslot: Vec<usize> = vec![usize::MAX; n];
        let root_len = self.adj[0].len();
        pslot.set(0, root_len);
        let mut order: Vec<usize> = Vec::new();
        order.push(0);
        let ghost mut pos: Seq<int> = Seq::new(n as nat, |w: int| 0int);
        let mut head: usize = 0;
        while head < order.len()
            invariant
                n == self.n,
                self.wf(),
                a == self.adj_view(),
                rooted_at_zero(n as int, ends, par, depth),
                ends == self.ends@,
                m == ends.len(),
                forall|u: int| 0 <= u < n ==> #[trigger] a[u] == incidences(ends, u, m),
                forall|e: int| 0 <= e < ends.len() ==> (#[trigger] ends[e]).0 != ends[e].1,
                forall|u: int, v: int, e: int|
                    0 <= u < n && 0 <= e < ends.len() && #[trigger] joins(ends, e, u, v) && (u == 0 || par[u] != e) ==> 1
                        <= v < n && #[trigger] par[v] == e && depth[u] == depth[v] - 1,
                forall|u: int, s: int|
                    0 <= u < n && 0 <= s < incidences(ends, u, m).len() ==> 0 <= (#[trigger] incidences(ends, u, m)[s]).1
                        < m && joins(ends, incidences(ends, u, m)[s].1 as int, u, incidences(ends, u, m)[s].0 as int),
                forall|u: int, s1: int, s2: int|
                    0 <= u < n && 0 <= s1 < s2 < incidences(ends, u, m).len() ==> (#[trigger] incidences(ends, u, m)[s1]).1 < (
                    #[trigger] incidences(ends, u, m)[s2]).1,
                visited@.len() == n,
                pslot@.len() == n,
                pos.len() == n,
                1 <= order@.len(),
                order@.len() + unvisited(visited@) == n,
                forall|j: int| 0 <= j < order@.len() ==> (#[trigger] order@[j]) < n && visited@[order@[j] as int] && pos[order@[j] as int] == j,
                forall|w: int| 0 <= w < n && #[trigger] visited@[w] ==> 0 <= pos[w] < order@.len() && order@[pos[w]] == w,
                order@[0] == 0,
                pslot@[0] == a[0].len(),
                forall|w: int|
                    1 <= w < n && #[trigger] visited@[w] ==> pslot@[w] < a[w].len() && a[w][pslot@[w] as int].1 == par[w]
                        && visited@[a[w][pslot@[w] as int].0 as int] && pos[a[w][pslot@[w] as int].0 as int] < pos[w],
                head <= order@.len(),
                forall|j: int, s: int|
                    0 <= j < head && 0 <= s < a[order@[j] as int].len() ==> visited@[(#[trigger] a[order@[j] as int][s]).0 as int],
            decreases n - head,
        {
            let u = order[head];
            let len_u = self.adj[u].len();
            let mut i: usize = 0;
            while i < len_u
                invariant
                    n == self.n,
                    self.wf(),
                    a == self.adj_view(),
                    rooted_at_zero(n as int, ends, par, depth),
                    ends == self.ends@,
                    m == ends.len(),
                    forall|u: int| 0 <= u < n ==> #[trigger] a[u] == incidences(ends, u, m),
                    forall|e: int| 0 <= e < ends.len() ==> (#[trigger] ends[e]).0 != ends[e].1,
                    forall|u: int, v: int, e: int|
                        0 <= u < n && 0 <= e < ends.len() && #[trigger] joins(ends, e, u, v) && (u == 0 || par[u] != e)
                            ==> 1 <= v < n && #[trigger] par[v] == e && depth[u] == depth[v] - 1,
                    forall|u: int, s: int|
                        0 <= u < n && 0 <= s < incidences(ends, u, m).len() ==> 0 <= (#[trigger] incidences(ends, u, m)[s]).1
                            < m && joins(ends, incidences(ends, u, m)[s].1 as int, u, incidences(ends, u, m)[s].0 as int),
                    forall|u: int, s1: int, s2: int|
                        0 <= u < n && 0 <= s1 < s2 < incidences(ends, u, m).len() ==> (#[trigger] incidences(ends, u, m)[s1]).1
                            < (#[trigger] incidences(ends, u, m)[s2]).1,
                    visited@.len() == n,
                    pslot@.len() == n,
                    pos.len() == n,
                    1 <= order@.len(),
                    order@.len() + unvisited(visited@) == n,
                    forall|j: int|
                        0 <= j < order@.len() ==> (#[trigger] order@[j]) < n && visited@[order@[j] as int] && pos[order@[j] as int] == j,
                    forall|w: int| 0 <= w < n && #[trigger] visited@[w] ==> 0 <= pos[w] < order@.len() && order@[pos[w]] == w,
                    order@[0] == 0,
                    pslot@[0] == a[0].len(),
                    forall|w: int|
                        1 <= w < n && #[trigger] visited@[w] ==> pslot@[w] < a[w].len() && a[w][pslot@[w] as int].1 == par[w]
                            && visited@[a[w][pslot@[w] as int].0 as int] && pos[a[w][pslot@[w] as int].0 as int] < pos[w],
                    head < order@.len(),
                    u == order@[head as int],
                    len_u == a[u as int].len(),
                    i <= len_u,
                    forall|j: int, s: int|
                        0 <= j < head && 0 <= s < a[order@[j] as int].len() ==> visited@[(#[trigger] a[order@[j] as int][s]).0 as int],
                    forall|s: int| 0 <= s < i ==> visited@[(#[trigger] a[u as int][s]).0 as int],
                decreases len_u - i,
            {
                if i == pslot[u] {
                    proof {
                        assert(u != 0);
                    }
                } else {
                    let (v, e) = self.adj[u][i];
                    proof {
                        assert(a[u as int][i as int] == (v, e));
                        assert(e < m && joins(ends, e as int, u as int, v as int));
                        if u != 0 {
                            assert(visited@[u as int]);
                            let ps = pslot@[u as int] as int;
                            if ps < i {
                                assert(a[u as int][ps].1 < a[u as int][i as int].1);
                            } else {
                                assert(a[u as int][i as int].1 < a[u as int][ps].1);
                            }
                        }
                        assert(1 <= v < n && par[v as int] == e);
                    }
                    if !visited[v] {
                        let len_v = self.adj[v].len();
                        proof {
                            assert(joins(ends, e as int, v as int, u as int));
                            lemma_incidences_complete(ends, v as int, m, e as int, u as int);
                            assert(a[v as int] == incidences(ends, v as int, m));
                            let s0 = choose|s: int|
                                0 <= s < incidences(ends, v as int, m).len() && #[trigger] incidences(ends, v as int, m)[s]
                                    == (u as usize, e as usize);
                            assert(a[v as int][s0] == (u, e));
                        }
                        let mut t: usize = 0;
                        while t < len_v && self.adj[v][t].1 != e
                            invariant
                                self.wf(),
                                n == self.n,
                                a == self.adj_view(),
                                v < n,
                                len_v == a[v as int].len(),
                                t <= len_v,
                                forall|t2: int| 0 <= t2 < t ==> (#[trigger] a[v as int][t2]).1 != e,
                                exists|s: int| 0 <= s < a[v as int].len() && #[trigger] a[v as int][s] == (u, e),
                            decreases len_v - t,
                        {
                            t += 1;
                        }
                        proof {
                            let s0 = choose|s: int| 0 <= s < a[v as int].len() && #[trigger] a[v as int][s] == (u, e);
                            assert(t < len_v) by {
                                if t >= len_v {
                                    assert(a[v as int][s0].1 != e);
                                }
                            }
                            assert(a[v as int][t as int].1 == e);
                            assert(joins(ends, e as int, v as int, a[v as int][t as int].0 as int));
                            lemma_unvisited_mark(visited@, v as int);
                        }
                        visited.set(v, true);
                        pslot.set(v, t);
                        proof {
                            pos = pos.update(v as int, order@.len() as int);
                        }
                        order.push(v);
                    }
                }
                i += 1;
            }
            head += 1;
        }
        proof {
            assert forall|u: int, s: int|
                0 <= u < n && visited@[u] && 0 <= s < incidences(ends, u, m).len() implies visited@[(#[trigger] incidences(
                    ends,
                    u,
                    m,
                )[s]).0 as int] by {
                let j = pos[u];
                assert(a[order@[j] as int][s] == incidences(ends, u, m)[s]);
            }
            lemma_traversal_final(a, ends, par, depth, visited@, order@, pslot@, pos);
        }
        (order, pslot, Ghost(pos))
    }

    spec fn rows(&self) -> Seq<Seq<RA::V>> {
        Seq::new(self.dp@.len(), |u: int| self.dp@[u]@)
    }

    /// From the leaves up: the value of each subtree, and the rows of child values.
    fn upward(&mut self, order: &Vec<usize>, pslot: &Vec<usize>, Ghost(pos): Ghost<Seq<int>>) -> (sub: Vec<RA::V>)
        requires
            old(self).wf(),
            old(self).logic.wf(),
            traversal(old(self).adj_view(), order@, pslot@, pos),
        ensures
            final(self).wf(),
            final(self).adj == old(self).adj,
            final(self).ends == old(self).ends,
            final(self).edges == old(self).edges,
            final(self).nodes == old(self).nodes,
            final(self).logic == old(self).logic,
            sub@.len() == old(self).n,
            forall|w: int|
                0 <= w < old(self).n ==> #[trigger] upward_done(
                    old(self).logic,
                    old(self).adj_view(),
                    old(self).edges@,
                    old(self).nodes@,
                    pslot@,
                    final(self).rows(),
                    sub@,
                    w,
                ),
    {
        let n = self.n;
        let ghost a = self.adj_view();
        let ghost ra = self.logic;
        let mut sub: Vec<RA::V> = Vec::new();
        let mut i: usize = 0;
        while i < n
            invariant
                i <= n,
                sub@.len() == i,
                self.logic.wf(),
            decreases n - i,
        {
            sub.push(self.logic.identity());
            i += 1;
        }
        let mut k: usize = 0;
        while k < n
            invariant
                self.wf(),
                self.logic.wf(),
                n == self.n,
                a == self.adj_view(),
                ra == self.logic,
                self.adj == old(self).adj,
                self.ends == old(self).ends,
                self.edges == old(self).edges,
                self.nodes == old(self).nodes,
                self.logic == old(self).logic,
                traversal(a, order@, pslot@, pos),
                k <= n,
                sub@.len() == n,
                forall|w: int|
                    0 <= w < n && pos[w] >= n - k ==> #[trigger] upward_done(
                        ra,
                        a,
                        self.edges@,
                        self.nodes@,
                        pslot@,
                        self.rows(),
                        sub@,
                        w,
                    ),
            decreases n - k,
        {
            let j = n - 1 - k;
            let u = order[j];
            let len_u = self.adj[u].len();
            let ghost pu = pslot@[u as int];
            let mut row: Vec<RA::V> = Vec::new();
            let mut prod = self.logic.identity();
            let mut s: usize = 0;
            while s < len_u
                invariant
                    self.wf(),
                    self.logic.wf(),
                    n == self.n,
                    a == self.adj_view(),
                    ra == self.logic,
                    traversal(a, order@, pslot@, pos),
                    u < n,
                    len_u == a[u as int].len(),
                    pu == pslot@[u as int],
                    s <= len_u,
                    row@.len() == s,
                    prod == merge_all(ra, row@),
                    sub@.len() == n,
                    forall|t: int| 0 <= t < s && t == pu ==> row@[t] == ra.identity_spec(),
                    forall|t: int|
                        0 <= t < s && t != pu ==> #[trigger] row@[t] == ra.apply_edge_spec(
                            sub@[a[u as int][t].0 as int],
                            self.edges@[a[u as int][t].1 as int],
                        ),
                decreases len_u - s,
            {
                let ghost old_row = row@;
                if s == pslot[u] {
                    let id = self.logic.identity();
                    proof {
                        ra.lemma_merge_laws(prod, prod, prod);
                        assert(old_row.push(id).drop_last() =~= old_row);
                    }
                    row.push(id);
                } else {
                    let (v, e) = self.adj[u][s];
                    proof {
                        assert(a[u as int][s as int] == (v, e));
                        assert(v < n);
                        assert(e < self.edges@.len()) by {
                            assert(self.adj@[u as int]@ == incidences(self.ends@, u as int, self.ends@.len() as int));
                            lemma_incidences_entries(self.ends@, u as int, self.ends@.len() as int);
                        }
                    }
                    let lifted = self.logic.apply_edge(&sub[v], &self.edges[e]);
                    prod = self.logic.merge(&prod, &lifted);
                    proof {
                        assert(old_row.push(lifted).drop_last() =~= old_row);
                    }
                    row.push(lifted);
                }
                s += 1;
            }
            let val = self.logic.apply_node(&prod, &self.nodes[u]);
            let ghost old_sub = sub@;
            let ghost old_rows = self.rows();
            sub.set(u, val);
            self.dp.set(u, row);
            proof {
                assert(pos[u as int] == j);
                assert forall|w: int| 0 <= w < n && pos[w] >= n - (k + 1) implies #[trigger] upward_done(
                    ra,
                    a,
                    self.edges@,
                    self.nodes@,
                    pslot@,
                    self.rows(),
                    sub@,
                    w,
                ) by {
                    if w == u {
                        assert(self.rows()[w] == row@);
                        assert forall|t: int| 0 <= t < a[w].len() && t != pslot@[w] implies #[trigger] self.rows()[w][t]
                            == ra.apply_edge_spec(sub@[a[w][t].0 as int], self.edges@[a[w][t].1 as int]) by {
                            assert(child_link(a, pslot@, pos, w, t));
                            let v = a[w][t].0 as int;
                            assert(v != u);
                            assert(sub@[v] == old_sub[v]);
                        }
                    } else {
                        assert(pos[w] >= n - k);
                        assert(upward_done(ra, a, self.edges@, self.nodes@, pslot@, old_rows, old_sub, w));
                        assert(self.rows()[w] == old_rows[w]);
                        assert(sub@[w] == old_sub[w]);
                        assert forall|t: int| 0 <= t < a[w].len() && t != pslot@[w] implies #[trigger] self.rows()[w][t]
                            == ra.apply_edge_spec(sub@[a[w][t].0 as int], self.edges@[a[w][t].1 as int]) by {
                            assert(child_link(a, pslot@, pos, w, t));
                            let v = a[w][t].0 as int;
                            assert(old_rows[w][t] == ra.apply_edge_spec(old_sub[v], self.edges@[a[w][t].1 as int]));
                            assert(v != u);
                        }
                    }
                }
            }
            k += 1;
        }
        sub
    }

    /// From the root down: fills the parent slot of every row with what the parent sends, and
    /// finishes every vertex with its whole row.
    fn downward(&mut self, order: &Vec<usize>, pslot: &Vec<usize>, Ghost(pos): Ghost<Seq<int>>) -> (ans: Vec<RA::V>)
        requires
            old(self).wf(),
            old(self).logic.wf(),
            traversal(old(self).adj_view(), order@, pslot@, pos),
            forall|w: int| 0 <= w < old(self).n ==> #[trigger] old(self).rows()[w].len() == old(self).adj_view()[w].len(),
        ensures
            final(self).wf(),
            final(self).adj == old(self).adj,
            final(self).ends == old(self).ends,
            final(self).edges == old(self).edges,
            final(self).nodes == old(self).nodes,
            final(self).logic == old(self).logic,
            ans@.len() == old(self).n,
            forall|w: int| 0 <= w < old(self).n ==> #[trigger] final(self).rows()[w].len() == old(self).rows()[w].len(),
            forall|w: int, x: int|
                0 <= w < old(self).n && 0 <= x < old(self).rows()[w].len() && x != pslot@[w] ==> #[trigger] final(self).rows()[w][x]
                    == old(self).rows()[w][x],
            forall|w: int|
                1 <= w < old(self).n ==> #[trigger] down_done(
                    old(self).logic,
                    old(self).adj_view(),
                    old(self).edges@,
                    old(self).nodes@,
                    pslot@,
                    final(self).rows(),
                    w,
                ),
            forall|w: int|
                0 <= w < old(self).n ==> #[trigger] ans@[w] == old(self).logic.apply_node_spec(
                    merge_all(old(self).logic, final(self).rows()[w]),
                    old(self).nodes@[w],
                ),
    {
        let n = self.n;
        let ghost a = self.adj_view();
        let ghost ra = self.logic;
        let ghost rows0 = self.rows();
        let mut ans: Vec<RA::V> = Vec::new();
        let mut i: usize = 0;
        while i < n
            invariant
                i <= n,
                ans@.len() == i,
                self.logic.wf(),
            decreases n - i,
        {
            ans.push(self.logic.identity());
            i += 1;
        }
        let mut j: usize = 0;
        while j < n
            invariant
                self.wf(),
                self.logic.wf(),
                n == self.n,
                a == self.adj_view(),
                ra == self.logic,
                self.adj == old(self).adj,
                self.ends == old(self).ends,
                self.edges == old(self).edges,
                self.nodes == old(self).nodes,
                self.logic == old(self).logic,
                rows0 == old(self).rows(),
                traversal(a, order@, pslot@, pos),
                j <= n,
                ans@.len() == n,
                forall|w: int| 0 <= w < n ==> #[trigger] self.rows()[w].len() == a[w].len(),
                forall|w: int| 0 <= w < n ==> #[trigger] rows0[w].len() == a[w].len(),
                forall|w: int, x: int|
                    0 <= w < n && 0 <= x < a[w].len() && x != pslot@[w] ==> #[trigger] self.rows()[w][x] == rows0[w][x],
                forall|w: int|
                    1 <= w < n && pos[a[w][pslot@[w] as int].0 as int] < j ==> #[trigger] down_done(
                        ra,
                        a,
                        self.edges@,
                        self.nodes@,
                        pslot@,
                        self.rows(),
                        w,
                    ),
                forall|w: int|
                    1 <= w < n && pos[a[w][pslot@[w] as int].0 as int] >= j ==> #[trigger] self.rows()[w][pslot@[w] as int]
                        == rows0[w][pslot@[w] as int],
                forall|w: int|
                    0 <= w < n && pos[w] < j ==> #[trigger] ans@[w] == ra.apply_node_spec(merge_all(ra, self.rows()[w]), self.nodes@[w]),
            decreases n - j,
        {
            let u = order[j];
            let len_u = self.adj[u].len();
            let ghost start = self.rows();
            let ghost row = start[u as int];
            let mut l: Vec<RA::V> = Vec::new();
            l.push(self.logic.identity());
            let mut s: usize = 0;
            while s < len_u
                invariant
                    self.wf(),
                    self.logic.wf(),
                    ra == self.logic,
                    n == self.n,
                    u < n,
                    start == self.rows(),
                    row == start[u as int],
                    len_u == row.len(),
                    s <= len_u,
                    l@.len() == s + 1,
                    forall|k: int| 0 <= k <= s ==> #[trigger] l@[k] == merge_all(ra, row.take(k)),
                decreases len_u - s,
            {
                proof {
                    lemma_merge_all_parts(ra, row, s as int);
                }
                let x = self.logic.merge(&l[s], &self.dp[u][s]);
                l.push(x);
                s += 1;
            }
            let mut rr: Vec<RA::V> = Vec::new();
            rr.push(self.logic.identity());
            proof {
                assert(row.skip(len_u as int) =~= Seq::<RA::V>::empty());
            }
            let mut k: usize = 0;
            while k < len_u
                invariant
                    self.wf(),
                    self.logic.wf(),
                    ra == self.logic,
                    n == self.n,
                    u < n,
                    start == self.rows(),
                    row == start[u as int],
                    len_u == row.len(),
                    k <= len_u,
                    rr@.len() == k + 1,
                    forall|q: int| 0 <= q <= k ==> #[trigger] rr@[q] == merge_all(ra, row.skip(len_u - q)),
                decreases len_u - k,
            {
                let t = len_u - 1 - k;
                proof {
                    lemma_merge_all_parts(ra, row, t as int);
                }
                let x = self.logic.merge(&self.dp[u][t], &rr[k]);
                rr.push(x);
                k += 1;
            }
            let fin = self.logic.apply_node(&l[len_u], &self.nodes[u]);
            proof {
                assert(row.take(len_u as int) =~= row);
            }
            ans.set(u, fin);
            let mut s: usize = 0;
            while s < len_u
                invariant
                    self.wf(),
                    self.logic.wf(),
                    ra == self.logic,
                    n == self.n,
                    a == self.adj_view(),
                    traversal(a, order@, pslot@, pos),
                    self.adj == old(self).adj,
                    self.ends == old(self).ends,
                    self.edges == old(self).edges,
                    self.nodes == old(self).nodes,
                    self.logic == old(self).logic,
                    u < n,
                    u == order@[j as int],
                    row == start[u as int],
                    len_u == row.len(),
                    len_u == a[u as int].len(),
                    s <= len_u,
                    l@.len() == len_u + 1,
                    rr@.len() == len_u + 1,
                    forall|q: int| 0 <= q <= len_u ==> #[trigger] l@[q] == merge_all(ra, row.take(q)),
                    forall|q: int| 0 <= q <= len_u ==> #[trigger] rr@[q] == merge_all(ra, row.skip(len_u - q)),
                    forall|w: int| 0 <= w < n ==> #[trigger] self.rows()[w].len() == start[w].len(),
                    forall|w: int| 0 <= w < n ==> #[trigger] start[w].len() == a[w].len(),
                    forall|w: int|
                        0 <= w < n && (w == 0 || a[w][pslot@[w] as int].0 != u) ==> #[trigger] self.rows()[w] == start[w],
                    forall|w: int, x: int|
                        0 <= w < n && 0 <= x < start[w].len() && x != pslot@[w] ==> #[trigger] self.rows()[w][x] == start[w][x],
                    forall|w: int|
                        1 <= w < n && a[w][pslot@[w] as int].0 == u && (forall|t: int|
                            0 <= t < s && t != pslot@[u as int] ==> a[u as int][t].0 != w) ==> #[trigger] self.rows()[w][pslot@[w] as int]
                            == start[w][pslot@[w] as int],
                    forall|t: int|
                        0 <= t < s && t != pslot@[u as int] ==> #[trigger] self.rows()[a[u as int][t].0 as int][pslot@[a[u as int][t].0 as int] as int]
                            == down_message(ra, a, self.edges@, self.nodes@, start, u as int, t),
                decreases len_u - s,
            {
                if s != pslot[u] {
                    let (v, e) = self.adj[u][s];
                    proof {
                        assert(a[u as int][s as int] == (v, e));
                        assert(child_link(a, pslot@, pos, u as int, s as int));
                        assert(e < self.edges@.len()) by {
                            assert(self.adj@[u as int]@ == incidences(self.ends@, u as int, self.ends@.len() as int));
                            lemma_incidences_entries(self.ends@, u as int, self.ends@.len() as int);
                        }
                        lemma_merge_all_parts(ra, row, s as int);
                        assert(len_u - (len_u - 1 - s) == s + 1);
                        assert(rr@[len_u - 1 - s] == merge_all(ra, row.skip(s + 1)));
                        assert(l@[s as int] == merge_all(ra, row.take(s as int)));
                    }
                    let without = self.logic.merge(&l[s], &rr[len_u - 1 - s]);
                    let fin = self.logic.apply_node(&without, &self.nodes[u]);
                    let msg = self.logic.apply_edge(&fin, &self.edges[e]);
                    proof {
                        assert(without == merge_all(ra, row.remove(s as int)));
                        assert(msg == down_message(ra, a, self.edges@, self.nodes@, start, u as int, s as int));
                    }
                    let pv = pslot[v];
                    let ghost before = self.rows();
                    proof {
                        assert(v < self.dp@.len());
                        assert(before[v as int] == self.dp@[v as int]@);
                        assert(start[v as int].len() == a[v as int].len());
                        assert(pv < self.dp@[v as int]@.len());
                    }
                    self.dp[v].set(pv, msg);
                    proof {
                        assert(self.rows()[v as int] == before[v as int].update(pv as int, msg));
                        assert forall|w: int| 0 <= w < n && w != v implies #[trigger] self.rows()[w] == before[w] by {}
                        assert(v != u);
                        assert(a[v as int][pv as int].0 == u);
                        assert forall|t: int| 0 <= t < s + 1 && t != pslot@[u as int] implies #[trigger] self.rows()[a[u as int][t].0 as int][pslot@[a[u as int][t].0 as int] as int]
                            == down_message(ra, a, self.edges@, self.nodes@, start, u as int, t) by {
                            if t < s {
                                assert(child_link(a, pslot@, pos, u as int, t));
                                if a[u as int][t].0 == v {
                                    assert(a[v as int][pslot@[v as int] as int].1 == a[u as int][t].1);
                                    assert(a[u as int][t].1 == e);
                                    assert(a[u as int][t].1 != a[u as int][s as int].1);
                                }
                                assert(self.rows()[a[u as int][t].0 as int] == before[a[u as int][t].0 as int]);
                            } else {
                                assert(t == s);
                                assert(self.rows()[v as int][pv as int] == msg);
                            }
                        }
                    }
                }
                s += 1;
            }
            proof {
                let cur = self.rows();
                assert(pos[u as int] == j);
                assert forall|w: int|
                    1 <= w < n && pos[a[w][pslot@[w] as int].0 as int] < j + 1 implies #[trigger] down_done(
                        ra,
                        a,
                        self.edges@,
                        self.nodes@,
                        pslot@,
                        cur,
                        w,
                    ) by {
                    let p = a[w][pslot@[w] as int].0 as int;
                    assert(pslot@[w] < a[w].len() && parent_link(a, pslot@, w));
                    if p == u {
                        let tt = choose|t: int| 0 <= t < a[p].len() && t != pslot@[p] && #[trigger] a[p][t] == (w as usize, a[w][pslot@[w] as int].1);
                        assert(cur[w][pslot@[w] as int] == down_message(ra, a, self.edges@, self.nodes@, start, u as int, tt));
                        assert(cur[u as int] == start[u as int]);
                        assert forall|t: int| 0 <= t < a[p].len() && #[trigger] a[p][t] == (w as usize, a[w][pslot@[w] as int].1) implies cur[w][pslot@[w] as int]
                            == down_message(ra, a, self.edges@, self.nodes@, cur, p, t) by {
                            if t != tt {
                                assert(a[p][t].1 != a[p][tt].1);
                            }
                        }
                    } else {
                        assert(pos[p] < j);
                        assert(down_done(ra, a, self.edges@, self.nodes@, pslot@, start, w));
                        assert(cur[w] == start[w]);
                        assert(pslot@[p] < a[p].len() || p == 0);
                        if p != 0 {
                            lemma_parent_before(a, order@, pslot@, pos, p);
                        }
                        assert(cur[p] == start[p]);
                    }
                }
                assert forall|w: int|
                    1 <= w < n && pos[a[w][pslot@[w] as int].0 as int] >= j + 1 implies #[trigger] cur[w][pslot@[w] as int]
                        == rows0[w][pslot@[w] as int] by {
                    assert(cur[w] == start[w]);
                }
                assert forall|w: int|
                    0 <= w < n && pos[w] < j + 1 implies #[trigger] ans@[w] == ra.apply_node_spec(merge_all(ra, cur[w]), self.nodes@[w]) by {
                    if w != u {
                        if w != 0 {
                            lemma_parent_before(a, order@, pslot@, pos, w);
                        }
                        assert(cur[w] == start[w]);
                    } else {
                        if w != 0 {
                            assert(pslot@[w] < a[w].len() && parent_link(a, pslot@, w));
                        }
                        assert(cur[w] == start[w]);
                    }
                }
                assert forall|w: int, x: int|
                    0 <= w < n && 0 <= x < a[w].len() && x != pslot@[w] implies #[trigger] cur[w][x] == rows0[w][x] by {
                    assert(start[w][x] == rows0[w][x]);
                }
            }
            j += 1;
        }
        ans
    }

    /// The DP value of the whole tree rooted at each vertex: `ans[u]` finishes at `u` the merge,
    /// in the order the edges were added, of the messages from all neighbours of `u`.
    pub fn solve(&mut self) -> (ans: Vec<RA::V>)
        requires
            old(self).wf(),
            old(self).logic_spec().wf(),
            is_tree(old(self).nodes_spec().len() as int, old(self).ends_spec()),
        ensures
            final(self).wf(),
            final(self).nodes_spec() == old(self).nodes_spec(),
            final(self).ends_spec() == old(self).ends_spec(),
            final(self).edges_spec() == old(self).edges_spec(),
            final(self).logic_spec() == old(self).logic_spec(),
            ans@.len() == old(self).nodes_spec().len(),
            messages_agree(
                old(self).logic_spec(),
                old(self).ends_spec(),
                old(self).edges_spec(),
                old(self).nodes_spec(),
                final(self).messages(),
            ),
            forall|u: int|
                0 <= u < ans@.len() ==> #[trigger] ans@[u] == old(self).logic_spec().apply_node_spec(
                    merge_all(old(self).logic_spec(), final(self).messages()[u]),
                    old(self).nodes_spec()[u],
                ),
    {
        let ghost a = self.adj_view();
        let ghost ra = self.logic;
        let ghost ends = self.ends@;
        let ghost m = ends.len() as int;
        let ghost n = self.n as int;
        let (order, pslot, Ghost(pos)) = self.traverse();
        let sub = self.upward(&order, &pslot, Ghost(pos));
        let ghost rows1 = self.rows();
        proof {
            assert(self.adj_view() =~= a);
            assert(self.logic == ra);
            assert forall|w: int| 0 <= w < n implies #[trigger] rows1[w].len() == a[w].len() by {
                assert(upward_done(ra, a, self.edges@, self.nodes@, pslot@, rows1, sub@, w));
            }
        }
        let ans = self.downward(&order, &pslot, Ghost(pos));
        proof {
            let fin = self.rows();
            assert(self.adj_view() =~= a);
            assert(self.logic == ra);
            assert(self.messages() == fin);
            assert forall|u: int| 0 <= u < n implies #[trigger] a[u] == incidences(ends, u, m) by {
                assert(self.adj@[u]@ == incidences(ends, u, m));
            }
            assert forall|u: int, s: int, t: int|
                #![trigger fin[u][s], incidences(ends, incidences(ends, u, m)[s].0 as int, m)[t]]
                0 <= u < n && 0 <= s < incidences(ends, u, m).len() && 0 <= t < incidences(
                    ends,
                    incidences(ends, u, m)[s].0 as int,
                    m,
                ).len() && incidences(ends, incidences(ends, u, m)[s].0 as int, m)[t].1 == incidences(ends, u, m)[s].1
                implies fin[u][s] == sent(ra, ends, self.edges@, self.nodes@, fin, incidences(ends, u, m)[s].0 as int, t) by {
                assert(a[u] == incidences(ends, u, m));
                let v = a[u][s].0 as int;
                let e = a[u][s].1;
                assert(0 <= v < n);
                assert(a[v] == incidences(ends, v, m));
                if s != pslot@[u] {
                    assert(child_link(a, pslot@, pos, u, s));
                    let pv = pslot@[v] as int;
                    if t != pv {
                        assert(a[v][t].1 != a[v][pv].1);
                    }
                    assert(upward_done(ra, a, self.edges@, self.nodes@, pslot@, rows1, sub@, u));
                    assert(upward_done(ra, a, self.edges@, self.nodes@, pslot@, rows1, sub@, v));
                    assert(rows1[u][s] == ra.apply_edge_spec(sub@[v], self.edges@[e as int]));
                    assert(fin[u][s] == rows1[u][s]);
                    lemma_merge_all_parts(ra, rows1[v], pv);
                    assert(rows1[v].remove(pv) =~= fin[v].remove(pv));
                } else {
                    assert(u != 0);
                    assert(pslot@[u] < a[u].len() && parent_link(a, pslot@, u));
                    assert(down_done(ra, a, self.edges@, self.nodes@, pslot@, fin, u));
                    let tt = choose|tt: int| 0 <= tt < a[v].len() && tt != pslot@[v] && #[trigger] a[v][tt] == (u as usize, e);
                    if t != tt {
                        assert(a[v][t].1 != a[v][tt].1);
                    }
                    assert(a[v][t] == (u as usize, e));
                }
            }
            assert forall|u: int| 0 <= u < n implies #[trigger] fin[u].len() == incidences(ends, u, m).len() by {
                assert(a[u] == incidences(ends, u, m));
            }
        }
        ans
    }

    /// A DP over the vertices `0..nodes_data.len()` with no edges yet.
    pub fn new(nodes_data: Vec<RA::N>, logic: RA) -> (r: Self)
        ensures
            r.wf(),
            r.nodes_spec() == nodes_data@,
            r.ends_spec() == Seq::<(usize, usize)>::empty(),
            r.logic_spec() == logic,
    {
        let n = nodes_data.len();
        let mut adj: Vec<Vec<(usize, usize)>> = Vec::new();
        let mut dp: Vec<Vec<RA::V>> = Vec::new();
        let mut i: usize = 0;
        while i < n
            invariant
                i <= n,
                adj@.len() == i,
                dp@.len() == i,
                forall|u: int| 0 <= u < i ==> (#[trigger] adj@[u])@ == Seq::<(usize, usize)>::empty(),
            decreases n - i,
        {
            adj.push(Vec::new());
            dp.push(Vec::new());
            i += 1;
        }
        let ends = Ghost(Seq::<(usize, usize)>::empty());
        RerootingDP { n, adj, ends, edges: Vec::new(), nodes: nodes_data, dp, logic }
    }

    /// Adds an undirected edge between `u` and `v`.
    pub fn add_edge(&mut self, u: usize, v: usize, edge_data: RA::E)
        requires
            old(self).wf(),
            u < old(self).nodes_spec().len(),
            v < old(self).nodes_spec().len(),
            old(self).ends_spec().len() + 1 < usize::MAX,
        ensures
            final(self).wf(),
            final(self).ends_spec() == old(self).ends_spec().push((u, v)),
            final(self).edges_spec() == old(self).edges_spec().push(edge_data),
            final(self).nodes_spec() == old(self).nodes_spec(),
            final(self).logic_spec() == old(self).logic_spec(),
    {
        let k = self.edges.len();
        let ghost old_ends = self.ends@;
        let ghost old_adj = self.adj@;
        self.edges.push(edge_data);
        self.adj[u].push((v, k));
        self.adj[v].push((u, k));
        proof {
            let ends = old_ends.push((u, v));
            self.ends = Ghost(ends);
            assert forall|w: int| 0 <= w < self.n implies (#[trigger] self.adj@[w])@ == incidences(ends, w, ends.len() as int) by {
                lemma_incidences_prefix(old_ends, (u, v), w, k as int);
                assert(old_adj[w]@ == incidences(old_ends, w, k as int));
                assert(ends[k as int] == (u, v));
            }
        }
    }
}

} // verus!
