//! The crossing total depends on the set of edges, not on their order.
use vstd::prelude::*;
use vstd::set_lib::{lemma_map_size, lemma_set_disjoint_lens};
use crate::geometry::lemma_cross_symmetric;
use crate::graph::{Graph, crossings_in, crossing_pairs_upto, total_crossings, edge_crossings, is_max_per_edge};

verus! {

/// The pairs `(r, s)` with `r < s < hi` whose edges cross.
pub open spec fn row_set(g: Graph, r: int, hi: int) -> Set<(int, int)>
    decreases hi - r,
{
    if hi <= r + 1 {
        Set::empty()
    } else if g.edges_cross(hi - 1, r) {
        row_set(g, r, hi - 1).insert((r, hi - 1))
    } else {
        row_set(g, r, hi - 1)
    }
}

/// The crossing pairs `(r, s)`, `r < s`, whose first edge is below `i`.
pub open spec fn pair_set_upto(g: Graph, i: int) -> Set<(int, int)>
    decreases i,
{
    if i <= 0 {
        Set::empty()
    } else {
        pair_set_upto(g, i - 1).union(row_set(g, i - 1, g.edges@.len() as int))
    }
}

/// All pairs `(r, s)`, `r < s`, of crossing edges.
pub open spec fn crossing_set(g: Graph) -> Set<(int, int)> {
    pair_set_upto(g, g.edges@.len() as int)
}

proof fn lemma_row_set(g: Graph, r: int, hi: int)
    ensures
        row_set(g, r, hi).finite(),
        row_set(g, r, hi).len() == crossings_in(g, r, r + 1, hi),
        forall|p: (int, int)|
            #[trigger] row_set(g, r, hi).contains(p) <==> (p.0 == r && r < p.1 < hi
                && g.edges_cross(p.1, r)),
    decreases hi - r,
{
    if hi > r + 1 {
        lemma_row_set(g, r, hi - 1);
        assert(!row_set(g, r, hi - 1).contains((r, hi - 1)));
    }
}

proof fn lemma_pair_set_upto(g: Graph, i: int)
    requires
        0 <= i,
    ensures
        pair_set_upto(g, i).finite(),
        pair_set_upto(g, i).len() == crossing_pairs_upto(g, i),
        forall|p: (int, int)|
            #[trigger] pair_set_upto(g, i).contains(p) <==> (0 <= p.0 < i && p.0 < p.1
                < g.edges@.len() && g.edges_cross(p.1, p.0)),
    decreases i,
{
    if i > 0 {
        let n = g.edges@.len() as int;
        lemma_pair_set_upto(g, i - 1);
        lemma_row_set(g, i - 1, n);
        let a = pair_set_upto(g, i - 1);
        let b = row_set(g, i - 1, n);
        assert(a.disjoint(b));
        lemma_set_disjoint_lens(a, b);
    }
}

/// The crossing total counts the set of crossing pairs.
pub proof fn lemma_total_is_set_size(g: Graph)
    ensures
        crossing_set(g).finite(),
        total_crossings(g) == crossing_set(g).len(),
        forall|p: (int, int)|
            #[trigger] crossing_set(g).contains(p) <==> (0 <= p.0 < p.1 < g.edges@.len()
                && g.edges_cross(p.0, p.1)),
{
    lemma_pair_set_upto(g, g.edges@.len() as int);
    assert forall|p: (int, int)|
        crossing_set(g).contains(p) <==> (0 <= p.0 < p.1 < g.edges@.len() && g.edges_cross(
            p.0,
            p.1,
        )) by {
        lemma_cross_symmetric(g.seg_src(p.0), g.seg_tgt(p.0), g.seg_src(p.1), g.seg_tgt(p.1));
    }
}

pub open spec fn ordered(a: int, b: int) -> (int, int) {
    if a < b {
        (a, b)
    } else {
        (b, a)
    }
}

/// `h` lists the edges of `g` in another order: its edge `i` is edge
/// `perm[i]` of `g`, and `inv` undoes `perm`.
pub open spec fn is_edge_permutation(g: Graph, h: Graph, perm: Seq<int>, inv: Seq<int>) -> bool {
    let n = g.edges@.len();
    &&& h.nodes@ == g.nodes@
    &&& h.edges@.len() == n
    &&& perm.len() == n
    &&& inv.len() == n
    &&& forall|i: int|
        0 <= i < n ==> 0 <= #[trigger] perm[i] < n && inv[perm[i]] == i && h.edges@[i]
            == g.edges@[perm[i]]
    &&& forall|k: int| 0 <= k < n ==> 0 <= #[trigger] inv[k] < n && perm[inv[k]] == k
}

/// Reordering the edges of a drawing leaves its crossing total unchanged.
pub proof fn lemma_total_invariant_under_edge_permutation(
    g: Graph,
    h: Graph,
    perm: Seq<int>,
    inv: Seq<int>,
)
    requires
        is_edge_permutation(g, h, perm, inv),
    ensures
        total_crossings(h) == total_crossings(g),
{
    let n = g.edges@.len() as int;
    lemma_total_is_set_size(g);
    lemma_total_is_set_size(h);
    let sh = crossing_set(h);
    let sg = crossing_set(g);
    let f = |p: (int, int)| ordered(perm[p.0], perm[p.1]);
    assert forall|i: int, j: int| 0 <= i < n && 0 <= j < n implies #[trigger] h.edges_cross(i, j)
        == g.edges_cross(perm[i], perm[j]) by {
        assert(h.seg_src(i) == g.seg_src(perm[i]));
        assert(h.seg_tgt(i) == g.seg_tgt(perm[i]));
        assert(h.seg_src(j) == g.seg_src(perm[j]));
        assert(h.seg_tgt(j) == g.seg_tgt(perm[j]));
    }
    assert forall|a: int, b: int| 0 <= a < n && 0 <= b < n implies #[trigger] g.edges_cross(a, b)
        == g.edges_cross(b, a) by {
        lemma_cross_symmetric(g.seg_src(a), g.seg_tgt(a), g.seg_src(b), g.seg_tgt(b));
    }
    assert(vstd::relations::injective_on(f, sh)) by {
        assert forall|p: (int, int), q: (int, int)|
            sh.contains(p) && sh.contains(q) && #[trigger] f(p) == #[trigger] f(q) implies p
            == q by {
            assert(inv[perm[p.0]] == p.0 && inv[perm[p.1]] == p.1);
            assert(inv[perm[q.0]] == q.0 && inv[perm[q.1]] == q.1);
        }
    }
    assert(sh.map(f) == sg) by {
        assert forall|x: (int, int)| sg.contains(x) implies sh.map(f).contains(x) by {
            let i = inv[x.0];
            let j = inv[x.1];
            let p = ordered(i, j);
            assert(perm[i] == x.0 && perm[j] == x.1);
            assert(h.edges_cross(i, j) == g.edges_cross(x.0, x.1));
            assert(h.edges_cross(j, i) == g.edges_cross(x.1, x.0));
            assert(sh.contains(p));
            assert(f(p) == x);
        }
        assert forall|y: (int, int)| sh.map(f).contains(y) implies sg.contains(y) by {
            let p = choose|p: (int, int)| sh.contains(p) && f(p) == y;
            assert(h.edges_cross(p.0, p.1) == g.edges_cross(perm[p.0], perm[p.1]));
            assert(perm[p.0] != perm[p.1]) by {
                assert(inv[perm[p.0]] == p.0 && inv[perm[p.1]] == p.1);
            }
        }
        assert(sh.map(f) =~= sg);
    }
    lemma_map_size(sh, sg, f);
}

/// The edges `r` below `hi`, other than `k`, that cross edge `k`.
pub open spec fn crossers(g: Graph, k: int, hi: int) -> Set<int>
    decreases hi,
{
    if hi <= 0 {
        Set::empty()
    } else if hi - 1 != k && g.edges_cross(hi - 1, k) {
        crossers(g, k, hi - 1).insert(hi - 1)
    } else {
        crossers(g, k, hi - 1)
    }
}

proof fn lemma_crossers(g: Graph, k: int, hi: int)
    ensures
        crossers(g, k, hi).finite(),
        crossers(g, k, hi).len() == crossings_in(g, k, 0, hi),
        forall|r: int|
            #[trigger] crossers(g, k, hi).contains(r) <==> (0 <= r < hi && r != k
                && g.edges_cross(r, k)),
    decreases hi,
{
    if hi > 0 {
        lemma_crossers(g, k, hi - 1);
        assert(!crossers(g, k, hi - 1).contains(hi - 1));
    }
}

/// Reordering the edges carries each edge's crossing count along with it.
pub proof fn lemma_edge_crossings_follow_permutation(
    g: Graph,
    h: Graph,
    perm: Seq<int>,
    inv: Seq<int>,
    i: int,
)
    requires
        is_edge_permutation(g, h, perm, inv),
        0 <= i < h.edges@.len(),
    ensures
        edge_crossings(h, i) == edge_crossings(g, perm[i]),
{
    let n = g.edges@.len() as int;
    lemma_crossers(h, i, n);
    lemma_crossers(g, perm[i], n);
    let sh = crossers(h, i, n);
    let sg = crossers(g, perm[i], n);
    let f = |r: int| perm[r];
    assert forall|r: int| 0 <= r < n implies #[trigger] h.edges_cross(r, i) == g.edges_cross(
        perm[r],
        perm[i],
    ) by {
        assert(h.seg_src(r) == g.seg_src(perm[r]));
        assert(h.seg_tgt(r) == g.seg_tgt(perm[r]));
        assert(h.seg_src(i) == g.seg_src(perm[i]));
        assert(h.seg_tgt(i) == g.seg_tgt(perm[i]));
    }
    assert(vstd::relations::injective_on(f, sh)) by {
        assert forall|a: int, b: int|
            sh.contains(a) && sh.contains(b) && #[trigger] f(a) == #[trigger] f(b) implies a
            == b by {
            assert(inv[perm[a]] == a && inv[perm[b]] == b);
        }
    }
    assert(sh.map(f) =~= sg) by {
        assert forall|s: int| sg.contains(s) implies sh.map(f).contains(s) by {
            let r = inv[s];
            assert(perm[r] == s);
            assert(inv[perm[i]] == i);
            assert(h.edges_cross(r, i) == g.edges_cross(s, perm[i]));
            assert(sh.contains(r));
            assert(f(r) == s);
        }
        assert forall|s: int| sh.map(f).contains(s) implies sg.contains(s) by {
            let r = choose|r: int| sh.contains(r) && f(r) == s;
            assert(h.edges_cross(r, i) == g.edges_cross(perm[r], perm[i]));
            assert(perm[r] != perm[i]) by {
                assert(inv[perm[r]] == r && inv[perm[i]] == i);
            }
        }
    }
    lemma_map_size(sh, sg, f);
}

/// Reordering the edges of a drawing leaves the crossings of its worst edge
/// unchanged.
pub proof fn lemma_max_invariant_under_edge_permutation(
    g: Graph,
    h: Graph,
    perm: Seq<int>,
    inv: Seq<int>,
    m: int,
)
    requires
        is_edge_permutation(g, h, perm, inv),
    ensures
        is_max_per_edge(h, m) == is_max_per_edge(g, m),
{
    let n = g.edges@.len() as int;
    assert forall|i: int| 0 <= i < n implies #[trigger] edge_crossings(h, i) == edge_crossings(
        g,
        perm[i],
    ) by {
        lemma_edge_crossings_follow_permutation(g, h, perm, inv, i);
    }
    assert forall|k: int| 0 <= k < n implies #[trigger] edge_crossings(g, k) == edge_crossings(
        h,
        inv[k],
    ) by {
        lemma_edge_crossings_follow_permutation(g, h, perm, inv, inv[k]);
    }
    if is_max_per_edge(h, m) {
        assert forall|k: int| 0 <= k < n implies #[trigger] edge_crossings(g, k) <= m by {
            assert(edge_crossings(h, inv[k]) <= m);
        }
        if n > 0 {
            let i = choose|i: int| 0 <= i < n && #[trigger] edge_crossings(h, i) == m;
            assert(edge_crossings(g, perm[i]) == m);
        }
    }
    if is_max_per_edge(g, m) {
        assert forall|i: int| 0 <= i < n implies #[trigger] edge_crossings(h, i) <= m by {
            assert(edge_crossings(g, perm[i]) <= m);
        }
        if n > 0 {
            let k = choose|k: int| 0 <= k < n && #[trigger] edge_crossings(g, k) == m;
            assert(edge_crossings(h, inv[k]) == m);
        }
    }
}

} // verus!
