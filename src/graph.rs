//! The drawing data model and the crossing count that scores it.
use vstd::prelude::*;
use crate::geometry::{Coord, is_crossing, segments_cross, lemma_cross_symmetric};
use vstd::relations::{sorted_by, total_ordering};
use vstd::seq_lib::lemma_sorted_unique;

verus! {

/// A node of the drawing and its position.
#[derive(Debug, Clone, Copy, PartialEq, Eq)]
pub struct Node {
    pub id: usize,
    pub x: u32,
    pub y: u32,
}

/// An extra point carried along with a drawing; scoring ignores it.
#[derive(Debug, Clone, Copy, PartialEq, Eq)]
pub struct Point {
    pub id: usize,
    pub x: u32,
    pub y: u32,
}

/// An edge between the nodes with ids `source` and `target`.
#[derive(Debug, Clone, Copy, PartialEq, Eq, PartialOrd, Ord)]
pub struct Edge {
    pub source: usize,
    pub target: usize,
}

/// An edge resolved to the coordinates of its two endpoints.
#[derive(Debug, Clone, Copy)]
pub struct SimpleEdge {
    pub source: Coord,
    pub target: Coord,
}

/// The score of a drawing: the number of crossing edge pairs, and the
/// crossings of the edge with the most (the primary score; lower is better).
pub struct CrossingCountingResult {
    pub total: u32,
    pub max_per_edge: u32,
}

/// A straight-line drawing: nodes with integer coordinates inside
/// `[0, width] x [0, height]`, and edges between node ids.
#[derive(Debug, PartialEq)]
pub struct Graph {
    pub nodes: Vec<Node>,
    pub points: Vec<Point>,
    pub edges: Vec<Edge>,
    pub width: u32,
    pub height: u32,
}

/// The width and height a drawing gets when it does not state them.
pub const DEFAULT_DIMENSION: u32 = 1_000_000;

impl Graph {
    /// Coordinates of the node at position `i`.
    pub open spec fn coord(self, i: int) -> Coord {
        (self.nodes@[i].x, self.nodes@[i].y)
    }

    /// Some node has id `id`.
    pub open spec fn has_node(self, id: int) -> bool {
        exists|p: int| 0 <= p < self.nodes@.len() && self.nodes@[p].id == id
    }

    /// The position in `nodes` of the node with id `id`, when there is one.
    pub open spec fn node_index(self, id: int) -> int {
        choose|p: int| 0 <= p < self.nodes@.len() && self.nodes@[p].id == id
    }

    /// Coordinates of the node with id `id`.
    pub open spec fn coord_of(self, id: int) -> Coord {
        self.coord(self.node_index(id))
    }

    pub open spec fn seg_src(self, e: int) -> Coord {
        self.coord_of(self.edges@[e].source as int)
    }

    pub open spec fn seg_tgt(self, e: int) -> Coord {
        self.coord_of(self.edges@[e].target as int)
    }

    /// Edges `i` and `j` cross, their ends looked up by node id.
    pub open spec fn edges_cross(self, i: int, j: int) -> bool {
        segments_cross(self.seg_src(i), self.seg_tgt(i), self.seg_src(j), self.seg_tgt(j))
    }

    /// Node ids are below the number of nodes and pairwise distinct.
    pub open spec fn ids_unique(self) -> bool {
        &&& forall|p: int| 0 <= p < self.nodes@.len() ==> #[trigger] self.nodes@[p].id < self.nodes@.len()
        &&& forall|p: int, q: int|
            0 <= p < q < self.nodes@.len() ==> #[trigger] self.nodes@[p].id != #[trigger] self.nodes@[q].id
    }

    /// Every edge end is the id of a node.
    pub open spec fn edges_resolve(self) -> bool {
        forall|e: int|
            0 <= e < self.edges@.len() ==> self.has_node((#[trigger] self.edges@[e]).source as int)
                && self.has_node(self.edges@[e].target as int)
    }

    /// The number of edge pairs is small enough for a `u32` count.
    pub open spec fn countable(self) -> bool {
        self.edges@.len() * (self.edges@.len() - 1) / 2 <= u32::MAX
    }

    pub fn default_dimension() -> (d: u32)
        ensures
            d == DEFAULT_DIMENSION,
    {
        DEFAULT_DIMENSION
    }
}

/// Number of edges `r` in `[lo, hi)`, other than `k`, that cross edge `k`.
pub open spec fn crossings_in(g: Graph, k: int, lo: int, hi: int) -> nat
    decreases hi - lo,
{
    if hi <= lo {
        0
    } else {
        crossings_in(g, k, lo, hi - 1) + if hi - 1 != k && g.edges_cross(hi - 1, k) {
            1nat
        } else {
            0nat
        }
    }
}

/// Number of edges that cross edge `k`.
pub open spec fn edge_crossings(g: Graph, k: int) -> nat {
    crossings_in(g, k, 0, g.edges@.len() as int)
}

/// Number of crossing pairs `(r, s)` with `r < s` and `r < i`.
pub open spec fn crossing_pairs_upto(g: Graph, i: int) -> nat
    decreases i,
{
    if i <= 0 {
        0
    } else {
        crossing_pairs_upto(g, i - 1) + crossings_in(g, i - 1, i, g.edges@.len() as int)
    }
}

/// Number of unordered pairs of edges that cross.
pub open spec fn total_crossings(g: Graph) -> nat {
    crossing_pairs_upto(g, g.edges@.len() as int)
}

/// The largest crossing count of a single edge, 0 when there is no edge.
pub open spec fn is_max_per_edge(g: Graph, m: int) -> bool {
    &&& forall|k: int| 0 <= k < g.edges@.len() ==> #[trigger] edge_crossings(g, k) <= m
    &&& g.edges@.len() == 0 ==> m == 0
    &&& g.edges@.len() > 0 ==> exists|k: int|
        0 <= k < g.edges@.len() && #[trigger] edge_crossings(g, k) == m
}

proof fn lemma_crossings_in_bound(g: Graph, k: int, lo: int, hi: int)
    ensures
        crossings_in(g, k, lo, hi) <= if hi <= lo { 0 } else { hi - lo },
    decreases hi - lo,
{
    if hi > lo {
        lemma_crossings_in_bound(g, k, lo, hi - 1);
    }
}

/// `sum_{r < i} (n - 1 - r)`: the number of pairs whose first index is below `i`.
spec fn pairs_upto(n: int, i: int) -> int
    decreases i,
{
    if i <= 0 {
        0
    } else {
        pairs_upto(n, i - 1) + (n - 1 - (i - 1))
    }
}

proof fn lemma_pairs_closed(n: int, i: int)
    requires
        0 <= i <= n,
    ensures
        2 * pairs_upto(n, i) == i * (2 * n - i - 1),
    decreases i,
{
    if i == 0 {
        assert(i * (2 * n - i - 1) == 0) by (nonlinear_arith)
            requires
                i == 0,
        ;
    } else {
        lemma_pairs_closed(n, i - 1);
        assert(2 * pairs_upto(n, i) == i * (2 * n - i - 1)) by (nonlinear_arith)
            requires
                2 * pairs_upto(n, i - 1) == (i - 1) * (2 * n - (i - 1) - 1),
                pairs_upto(n, i) == pairs_upto(n, i - 1) + (n - 1 - (i - 1)),
        ;
    }
}

proof fn lemma_pairs_bound(g: Graph, i: int)
    requires
        0 <= i <= g.edges@.len(),
    ensures
        crossing_pairs_upto(g, i) <= pairs_upto(g.edges@.len() as int, i),
        pairs_upto(g.edges@.len() as int, i) <= pairs_upto(
            g.edges@.len() as int,
            g.edges@.len() as int,
        ),
    decreases i,
{
    let n = g.edges@.len() as int;
    lemma_pairs_monotone(n, i, n);
    if i > 0 {
        lemma_pairs_bound(g, i - 1);
        lemma_crossings_in_bound(g, i - 1, i, n);
    }
}

/// A countable drawing has at most 100000 edges.
proof fn lemma_countable_small(n: int)
    requires
        0 <= n,
        n * (n - 1) / 2 <= u32::MAX,
    ensures
        n <= 100000,
{
    if n > 100000 {
        assert(n * (n - 1) >= 100001 * 100000) by (nonlinear_arith)
            requires
                n > 100000,
        ;
    }
}

proof fn lemma_pairs_monotone(n: int, i: int, j: int)
    requires
        0 <= i <= j <= n,
    ensures
        pairs_upto(n, i) <= pairs_upto(n, j),
    decreases j - i,
{
    if i < j {
        lemma_pairs_monotone(n, i, j - 1);
    }
}

impl Graph {
    /// For each id below the number of nodes, the position of its node.
    fn id_table(&self) -> (t: Vec<usize>)
        requires
            self.ids_unique(),
        ensures
            t@.len() == self.nodes@.len(),
            forall|id: int| 0 <= id < t@.len() && self.has_node(id) ==> #[trigger] t@[id] == self.node_index(id),
    {
        let n = self.nodes.len();
        let mut t: Vec<usize> = Vec::new();
        for k in 0..n
            invariant
                t@.len() == k,
        {
            t.push(0);
        }
        for p in 0..n
            invariant
                n == self.nodes@.len(),
                t@.len() == n,
                self.ids_unique(),
                forall|q: int| 0 <= q < p ==> #[trigger] t@[self.nodes@[q].id as int] == q,
        {
            let id = self.nodes[p].id;
            assert(self.nodes@[p as int].id < n);
            t.set(id, p);
            assert forall|q: int| 0 <= q < p + 1 implies #[trigger] t@[self.nodes@[q].id as int] == q by {
                if q < p {
                    assert(self.nodes@[q].id != self.nodes@[p as int].id);
                }
            }
        }
        assert forall|id: int| 0 <= id < t@.len() && self.has_node(id) implies #[trigger] t@[id]
            == self.node_index(id) by {
            let c = self.node_index(id);
            assert(0 <= c < n && self.nodes@[c].id == id);
            assert(t@[self.nodes@[c].id as int] == c);
        }
        t
    }

    /// Counts the pairs of edges that cross, and the crossings of the worst
    /// edge. Edge ends are looked up by node id.
    pub fn crossings(&self) -> (r: CrossingCountingResult)
        requires
            self.ids_unique(),
            self.edges_resolve(),
            self.countable(),
        ensures
            r.total == total_crossings(*self),
            is_max_per_edge(*self, r.max_per_edge as int),
    {
        let n = self.edges.len();
        let table = self.id_table();
        let mut segs: Vec<SimpleEdge> = Vec::new();
        for e in 0..n
            invariant
                n == self.edges@.len(),
                self.ids_unique(),
                self.edges_resolve(),
                table@.len() == self.nodes@.len(),
                forall|id: int|
                    0 <= id < table@.len() && self.has_node(id) ==> #[trigger] table@[id]
                        == self.node_index(id),
                segs@.len() == e,
                forall|i: int|
                    0 <= i < e ==> (#[trigger] segs@[i]).source == self.seg_src(i)
                        && segs@[i].target == self.seg_tgt(i),
        {
            let edge = self.edges[e];
            proof {
                assert(self.has_node(edge.source as int) && self.has_node(edge.target as int));
                let ps = self.node_index(edge.source as int);
                let pt = self.node_index(edge.target as int);
                assert(self.nodes@[ps].id == edge.source && self.nodes@[pt].id == edge.target);
                assert(table@[edge.source as int] == ps);
                assert(table@[edge.target as int] == pt);
            }
            let s = self.nodes[table[edge.source]];
            let t = self.nodes[table[edge.target]];
            segs.push(SimpleEdge { source: (s.x, s.y), target: (t.x, t.y) });
        }
        let mut per_edge: Vec<u32> = Vec::new();
        for e in 0..n
            invariant
                per_edge@.len() == e,
                forall|i: int| 0 <= i < e ==> per_edge@[i] == 0,
        {
            per_edge.push(0);
        }
        proof {
            lemma_pairs_closed(n as int, n as int);
            lemma_countable_small(n as int);
        }
        let mut total: u32 = 0;
        let mut i1: usize = 0;
        while i1 < n
            invariant
                n == self.edges@.len(),
                self.countable(),
                n <= 100000,
                i1 <= n,
                segs@.len() == n,
                per_edge@.len() == n,
                forall|i: int|
                    0 <= i < n ==> (#[trigger] segs@[i]).source == self.seg_src(i)
                        && segs@[i].target == self.seg_tgt(i),
                forall|k: int|
                    0 <= k < n ==> #[trigger] per_edge@[k] == crossings_in(
                        *self,
                        k,
                        0,
                        if k < i1 { n as int } else { i1 as int },
                    ),
                total == crossing_pairs_upto(*self, i1 as int),
                2 * pairs_upto(n as int, n as int) == n * (2 * n - n - 1),
            decreases n - i1,
        {
            let mut row: u32 = 0;
            let mut i2: usize = i1 + 1;
            proof {
                assert(crossings_in(*self, i1 as int, 0, i1 + 1) == crossings_in(
                    *self,
                    i1 as int,
                    0,
                    i1 as int,
                ));
            }
            while i2 < n
                invariant
                    n == self.edges@.len(),
                    n <= 100000,
                    i1 < i2 <= n,
                    segs@.len() == n,
                    per_edge@.len() == n,
                    forall|i: int|
                        0 <= i < n ==> (#[trigger] segs@[i]).source == self.seg_src(i)
                            && segs@[i].target == self.seg_tgt(i),
                    forall|k: int|
                        0 <= k < n ==> #[trigger] per_edge@[k] == crossings_in(
                            *self,
                            k,
                            0,
                            if k < i1 {
                                n as int
                            } else if k == i1 {
                                i2 as int
                            } else if k < i2 {
                                i1 + 1
                            } else {
                                i1 as int
                            },
                        ),
                    row == crossings_in(*self, i1 as int, i1 + 1, i2 as int),
                decreases n - i2,
            {
                let e1 = segs[i1];
                let e2 = segs[i2];
                proof {
                    lemma_cross_symmetric(
                        self.seg_src(i1 as int),
                        self.seg_tgt(i1 as int),
                        self.seg_src(i2 as int),
                        self.seg_tgt(i2 as int),
                    );
                    lemma_crossings_in_bound(*self, i1 as int, 0, i2 as int);
                    lemma_crossings_in_bound(*self, i2 as int, 0, i1 as int);
                    lemma_crossings_in_bound(*self, i1 as int, i1 + 1, i2 as int);
                }
                if is_crossing(e1.source, e1.target, e2.source, e2.target) {
                    let a = per_edge[i1];
                    per_edge.set(i1, a + 1);
                    let b = per_edge[i2];
                    per_edge.set(i2, b + 1);
                    row = row + 1;
                }
                i2 = i2 + 1;
            }
            proof {
                lemma_pairs_bound(*self, i1 + 1);
            }
            total = total + row;
            i1 = i1 + 1;
        }
        let mut max_per_edge: u32 = 0;
        let mut k: usize = 0;
        while k < n
            invariant
                k <= n,
                n == self.edges@.len(),
                per_edge@.len() == n,
                forall|j: int| 0 <= j < n ==> #[trigger] per_edge@[j] == edge_crossings(*self, j),
                forall|j: int| 0 <= j < k ==> #[trigger] edge_crossings(*self, j) <= max_per_edge,
                k == 0 ==> max_per_edge == 0,
                k > 0 ==> exists|j: int|
                    0 <= j < k && #[trigger] edge_crossings(*self, j) == max_per_edge,
            decreases n - k,
        {
            if per_edge[k] > max_per_edge || k == 0 {
                max_per_edge = per_edge[k];
            }
            assert(per_edge@[k as int] == edge_crossings(*self, k as int));
            k = k + 1;
        }
        CrossingCountingResult { total, max_per_edge }
    }
}

/// An edge as its `(source, target)` pair.
pub open spec fn edge_pair(e: Edge) -> (usize, usize) {
    (e.source, e.target)
}

pub open spec fn edge_pairs(s: Seq<Edge>) -> Seq<(usize, usize)> {
    s.map_values(|e: Edge| edge_pair(e))
}

/// Two drawings have the same node count and the same edges, as a multiset
/// of `(source, target)` pairs.
pub open spec fn same_labeling(a: Graph, b: Graph) -> bool {
    &&& a.nodes@.len() == b.nodes@.len()
    &&& a.edges@.len() == b.edges@.len()
    &&& edge_pairs(a.edges@).to_multiset() == edge_pairs(b.edges@).to_multiset()
}

/// Lexicographic order on pairs, as std orders tuples.
pub open spec fn pair_le(a: (usize, usize), b: (usize, usize)) -> bool {
    a.0 < b.0 || (a.0 == b.0 && a.1 <= b.1)
}

pub open spec fn pair_order() -> spec_fn((usize, usize), (usize, usize)) -> bool {
    |a: (usize, usize), b: (usize, usize)| pair_le(a, b)
}

proof fn lemma_pair_le_total()
    ensures
        total_ordering(pair_order()),
{
}

/// Relies on `slice::sort`: it permutes the elements into ascending order,
/// tuples comparing lexicographically.
#[verifier::external_body]
fn sort_pairs(v: &mut Vec<(usize, usize)>)
    ensures
        final(v)@.to_multiset() == old(v)@.to_multiset(),
        sorted_by(final(v)@, pair_order()),
{
    v.sort();
}

fn pairs_of(edges: &Vec<Edge>) -> (r: Vec<(usize, usize)>)
    ensures
        r@ == edge_pairs(edges@),
{
    let mut r: Vec<(usize, usize)> = Vec::new();
    for i in 0..edges.len()
        invariant
            r@ == edge_pairs(edges@.subrange(0, i as int)),
    {
        r.push((edges[i].source, edges[i].target));
        assert(edges@.subrange(0, i + 1) == edges@.subrange(0, i as int).push(edges@[i as int]));
    }
    assert(edges@.subrange(0, edges@.len() as int) == edges@);
    r
}

impl Graph {
    /// Whether `graph` has as many nodes as `self` and the same edges, up to
    /// their order. Relabelled nodes are not recognised.
    pub fn is_isomorphic(&self, graph: &Graph) -> (b: bool)
        ensures
            b == same_labeling(*self, *graph),
    {
        if self.nodes.len() != graph.nodes.len() {
            return false;
        }
        if self.edges.len() != graph.edges.len() {
            return false;
        }
        let mut input_edges = pairs_of(&self.edges);
        let mut output_edges = pairs_of(&graph.edges);
        sort_pairs(&mut input_edges);
        sort_pairs(&mut output_edges);
        proof {
            broadcast use vstd::seq_lib::group_to_multiset_ensures;
            assert(input_edges@.len() == input_edges@.to_multiset().len());
            assert(output_edges@.len() == output_edges@.to_multiset().len());
        }
        let n = input_edges.len();
        let mut i: usize = 0;
        while i < n
            invariant
                n == input_edges@.len(),
                n == output_edges@.len(),
                i <= n,
                sorted_by(input_edges@, pair_order()),
                sorted_by(output_edges@, pair_order()),
                input_edges@.to_multiset() == edge_pairs(self.edges@).to_multiset(),
                output_edges@.to_multiset() == edge_pairs(graph.edges@).to_multiset(),
                forall|j: int| 0 <= j < i ==> input_edges@[j] == output_edges@[j],
            decreases n - i,
        {
            if input_edges[i].0 != output_edges[i].0 || input_edges[i].1 != output_edges[i].1 {
                proof {
                    lemma_pair_le_total();
                    if edge_pairs(self.edges@).to_multiset() == edge_pairs(
                        graph.edges@,
                    ).to_multiset() {
                        lemma_sorted_unique(
                            input_edges@,
                            output_edges@,
                            pair_order(),
                        );
                    }
                }
                return false;
            }
            i = i + 1;
        }
        assert(input_edges@ == output_edges@);
        true
    }
}

/// A drawing with at most one edge has no crossing at all.
pub proof fn lemma_few_edges_no_crossings(g: Graph)
    requires
        g.edges@.len() <= 1,
    ensures
        total_crossings(g) == 0,
        is_max_per_edge(g, 0),
{
    if g.edges@.len() == 1 {
        assert(crossing_pairs_upto(g, 1) == crossing_pairs_upto(g, 0) + crossings_in(g, 0, 1, 1));
        assert(edge_crossings(g, 0) == 0) by {
            assert(crossings_in(g, 0, 0, 1) == crossings_in(g, 0, 0, 0) + 0);
        }
        assert forall|k: int| 0 <= k < g.edges@.len() implies #[trigger] edge_crossings(g, k) <= 0 by {
            assert(k == 0);
        }
    }
}

} // verus!
