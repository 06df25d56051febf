//! Validity of a drawing: node ids, coordinates, overlaps, edge ends, and
//! nodes lying on unrelated edges. The first violation found is reported.
use vstd::prelude::*;
use crate::geometry::{Coord, orientation, strictly_between, is_between, is_collinear};
use crate::graph::{Graph, Node};
use vstd::set_lib::{lemma_int_range, lemma_subset_equality, set_int_range};
use core::cmp::Ordering;

verus! {

#[derive(Debug, Clone, Copy, PartialEq, Eq)]
pub enum ValidationError {
    /// A node id is not below the number of nodes.
    NodeIdOutOfBounds { id: usize, num_nodes: usize },
    /// A node id is used by an earlier node too.
    DuplicateNodeId { id: usize },
    XOutOfBounds { id: usize, x: u32, width: u32 },
    YOutOfBounds { id: usize, y: u32, height: u32 },
    /// Two nodes (`first` listed before `second`) share a coordinate.
    Overlap { first: usize, second: usize, x: u32, y: u32 },
    EdgeSourceOutOfBounds { source: usize, num_nodes: usize },
    EdgeTargetOutOfBounds { target: usize, num_nodes: usize },
    /// Node `node` at `(x, y)` lies strictly inside the edge `source -> target`.
    NodeOnEdge { node: usize, source: usize, target: usize, x: u32, y: u32 },
}

/// The first `Some` of `f(i), f(i + 1), ..., f(n - 1)`.
pub open spec fn first_some(
    f: spec_fn(int) -> Option<ValidationError>,
    i: int,
    n: int,
) -> Option<ValidationError>
    decreases n - i,
{
    if i >= n {
        None
    } else if f(i) is Some {
        f(i)
    } else {
        first_some(f, i + 1, n)
    }
}

pub proof fn lemma_first_some_none(f: spec_fn(int) -> Option<ValidationError>, i: int, n: int)
    requires
        first_some(f, i, n) is None,
    ensures
        forall|j: int| i <= j < n ==> (#[trigger] f(j)) is None,
    decreases n - i,
{
    if i < n {
        lemma_first_some_none(f, i + 1, n);
    }
}

pub proof fn lemma_first_some_all_none(f: spec_fn(int) -> Option<ValidationError>, i: int, n: int)
    requires
        forall|j: int| i <= j < n ==> (#[trigger] f(j)) is None,
    ensures
        first_some(f, i, n) is None,
    decreases n - i,
{
    if i < n {
        lemma_first_some_all_none(f, i + 1, n);
    }
}

pub proof fn lemma_first_some_some(
    f: spec_fn(int) -> Option<ValidationError>,
    i: int,
    n: int,
    j: int,
)
    requires
        i <= j < n,
        f(j) is Some,
    ensures
        first_some(f, i, n) is Some,
    decreases n - i,
{
    if i < j && f(i) is None {
        lemma_first_some_some(f, i + 1, n, j);
    }
}

/// The position of the node with id `id`, if there is one.
pub open spec fn position_of(g: Graph, id: usize) -> Option<int> {
    if g.has_node(id as int) {
        Some(g.node_index(id as int))
    } else {
        None
    }
}

pub open spec fn id_error_at(g: Graph, i: int) -> Option<ValidationError> {
    let id = g.nodes@[i].id;
    if id >= g.nodes.len() {
        Some(ValidationError::NodeIdOutOfBounds { id, num_nodes: g.nodes.len() })
    } else if exists|j: int| 0 <= j < i && g.nodes@[j].id == id {
        Some(ValidationError::DuplicateNodeId { id })
    } else {
        None
    }
}

pub open spec fn bounds_error_at(g: Graph, i: int) -> Option<ValidationError> {
    let node = g.nodes@[i];
    if node.x > g.width {
        Some(ValidationError::XOutOfBounds { id: node.id, x: node.x, width: g.width })
    } else if node.y > g.height {
        Some(ValidationError::YOutOfBounds { id: node.id, y: node.y, height: g.height })
    } else {
        None
    }
}

/// Node `i` overlaps node `j`.
pub open spec fn overlap_with(g: Graph, j: int, i: int) -> Option<ValidationError> {
    if g.coord(i) == g.coord(j) {
        Some(
            ValidationError::Overlap {
                first: g.nodes@[i].id,
                second: g.nodes@[j].id,
                x: g.nodes@[j].x,
                y: g.nodes@[j].y,
            },
        )
    } else {
        None
    }
}

pub open spec fn overlaps_of(g: Graph, j: int) -> spec_fn(int) -> Option<ValidationError> {
    |i: int| overlap_with(g, j, i)
}

/// Node `j` overlaps the first earlier node at its coordinate.
pub open spec fn overlap_error_at(g: Graph, j: int) -> Option<ValidationError> {
    first_some(overlaps_of(g, j), 0, j)
}

pub open spec fn edge_error_at(g: Graph, e: int) -> Option<ValidationError> {
    let edge = g.edges@[e];
    if edge.source >= g.nodes.len() {
        Some(
            ValidationError::EdgeSourceOutOfBounds {
                source: edge.source,
                num_nodes: g.nodes.len(),
            },
        )
    } else if edge.target >= g.nodes.len() {
        Some(
            ValidationError::EdgeTargetOutOfBounds {
                target: edge.target,
                num_nodes: g.nodes.len(),
            },
        )
    } else {
        None
    }
}

/// Node `k` lies strictly between the ends of edge `e` and on its line.
pub open spec fn on_edge_error(g: Graph, e: int, k: int) -> Option<ValidationError> {
    let edge = g.edges@[e];
    let node = g.nodes@[k];
    if node.id == edge.source || node.id == edge.target {
        None
    } else {
        match (position_of(g, edge.source), position_of(g, edge.target)) {
            (Some(p), Some(r)) => {
                if strictly_between(g.coord(p), g.coord(k), g.coord(r)) && orientation(
                    g.coord(p),
                    g.coord(k),
                    g.coord(r),
                ) == Ordering::Equal {
                    Some(
                        ValidationError::NodeOnEdge {
                            node: node.id,
                            source: edge.source,
                            target: edge.target,
                            x: node.x,
                            y: node.y,
                        },
                    )
                } else {
                    None
                }
            },
            _ => None,
        }
    }
}

pub open spec fn id_errors(g: Graph) -> spec_fn(int) -> Option<ValidationError> {
    |i: int| id_error_at(g, i)
}

pub open spec fn bounds_errors(g: Graph) -> spec_fn(int) -> Option<ValidationError> {
    |i: int| bounds_error_at(g, i)
}

pub open spec fn overlap_errors(g: Graph) -> spec_fn(int) -> Option<ValidationError> {
    |j: int| overlap_error_at(g, j)
}

pub open spec fn edge_errors(g: Graph) -> spec_fn(int) -> Option<ValidationError> {
    |e: int| edge_error_at(g, e)
}

pub open spec fn on_edge_errors(g: Graph, e: int) -> spec_fn(int) -> Option<ValidationError> {
    |k: int| on_edge_error(g, e, k)
}

pub open spec fn collinear_error_at(g: Graph, e: int) -> Option<ValidationError> {
    first_some(on_edge_errors(g, e), 0, g.nodes@.len() as int)
}

pub open spec fn collinear_errors(g: Graph) -> spec_fn(int) -> Option<ValidationError> {
    |e: int| collinear_error_at(g, e)
}

/// The checks in the order they are made: ids, coordinates, overlaps, edge
/// ends, nodes on edges. Each scans its items in order.
pub open spec fn validation(g: Graph) -> Result<(), ValidationError> {
    let n = g.nodes@.len() as int;
    let m = g.edges@.len() as int;
    if let Some(e) = first_some(id_errors(g), 0, n) {
        Err(e)
    } else if let Some(e) = first_some(bounds_errors(g), 0, n) {
        Err(e)
    } else if let Some(e) = first_some(overlap_errors(g), 0, n) {
        Err(e)
    } else if let Some(e) = first_some(edge_errors(g), 0, m) {
        Err(e)
    } else if let Some(e) = first_some(collinear_errors(g), 0, m) {
        Err(e)
    } else {
        Ok(())
    }
}

/// Phase one: ids in range and distinct. On success, the table from id to
/// the position of its node.
fn check_node_ids(g: &Graph) -> (r: Result<Vec<Option<usize>>, ValidationError>)
    ensures
        match r {
            Err(e) => first_some(id_errors(*g), 0, g.nodes@.len() as int) == Some(e),
            Ok(table) => {
                &&& first_some(id_errors(*g), 0, g.nodes@.len() as int) is None
                &&& table@.len() == g.nodes@.len()
                &&& forall|id: int|
                    0 <= id < table@.len() ==> match #[trigger] table@[id] {
                        Some(p) => position_of(*g, id as usize) == Some(p as int),
                        None => position_of(*g, id as usize) is None,
                    }
            },
        },
{
    let n = g.nodes.len();
    let mut table: Vec<Option<usize>> = Vec::new();
    for k in 0..n
        invariant
            table@.len() == k,
            forall|id: int| 0 <= id < k ==> #[trigger] table@[id] is None,
    {
        table.push(None);
    }
    let ghost f = id_errors(*g);
    for i in 0..n
        invariant
            n == g.nodes@.len(),
            f == id_errors(*g),
            table@.len() == n,
            first_some(f, 0, n as int) == first_some(f, i as int, n as int),
            forall|id: int|
                0 <= id < n ==> match #[trigger] table@[id] {
                    Some(p) => p < i && g.nodes@[p as int].id == id,
                    None => forall|p: int| 0 <= p < i ==> g.nodes@[p].id != id,
                },
            forall|p: int| 0 <= p < i ==> #[trigger] g.nodes@[p].id < n,
            forall|p: int, q: int| 0 <= p < q < i ==> g.nodes@[p].id != g.nodes@[q].id,
    {
        let id = g.nodes[i].id;
        if id >= n {
            assert(f(i as int) == id_error_at(*g, i as int));
            return Err(ValidationError::NodeIdOutOfBounds { id, num_nodes: n });
        }
        if let Some(p) = table[id] {
            assert(g.nodes@[p as int].id == id);
            assert(f(i as int) == id_error_at(*g, i as int));
            return Err(ValidationError::DuplicateNodeId { id });
        }
        assert(f(i as int) == id_error_at(*g, i as int));
        assert(f(i as int) is None);
        table.set(id, Some(i));
    }
    assert forall|id: int| 0 <= id < n implies match #[trigger] table@[id] {
        Some(p) => position_of(*g, id as usize) == Some(p as int),
        None => position_of(*g, id as usize) is None,
    } by {
        match table@[id] {
            Some(p) => {
                assert(g.nodes@[p as int].id == id);
                assert(g.has_node(id));
                let c = g.node_index(id);
                assert(0 <= c < g.nodes@.len() && g.nodes@[c].id == id as usize);
                if c != p {
                    if c < p {
                        assert(g.nodes@[c].id != g.nodes@[p as int].id);
                    } else {
                        assert(g.nodes@[p as int].id != g.nodes@[c].id);
                    }
                }
            },
            None => {},
        }
    }
    Ok(table)
}

fn check_bounds(g: &Graph) -> (r: Option<ValidationError>)
    ensures
        r == first_some(bounds_errors(*g), 0, g.nodes@.len() as int),
{
    let ghost f = bounds_errors(*g);
    let n = g.nodes.len();
    for i in 0..n
        invariant
            n == g.nodes@.len(),
            f == bounds_errors(*g),
            first_some(f, 0, n as int) == first_some(f, i as int, n as int),
    {
        let node = g.nodes[i];
        assert(f(i as int) == bounds_error_at(*g, i as int));
        if node.x > g.width {
            return Some(ValidationError::XOutOfBounds { id: node.id, x: node.x, width: g.width });
        }
        if node.y > g.height {
            return Some(
                ValidationError::YOutOfBounds { id: node.id, y: node.y, height: g.height },
            );
        }
    }
    None
}

fn check_overlaps(g: &Graph) -> (r: Option<ValidationError>)
    ensures
        r == first_some(overlap_errors(*g), 0, g.nodes@.len() as int),
{
    let ghost f = overlap_errors(*g);
    let n = g.nodes.len();
    for j in 0..n
        invariant
            n == g.nodes@.len(),
            f == overlap_errors(*g),
            first_some(f, 0, n as int) == first_some(f, j as int, n as int),
    {
        let b = g.nodes[j];
        let ghost h = overlaps_of(*g, j as int);
        for i in 0..j
            invariant
                j < n == g.nodes@.len(),
                b == g.nodes@[j as int],
                h == overlaps_of(*g, j as int),
                f == overlap_errors(*g),
                first_some(f, 0, n as int) == first_some(f, j as int, n as int),
                first_some(h, 0, j as int) == first_some(h, i as int, j as int),
        {
            let a = g.nodes[i];
            assert(h(i as int) == overlap_with(*g, j as int, i as int));
            if a.x == b.x && a.y == b.y {
                assert(f(j as int) == overlap_error_at(*g, j as int));
                return Some(ValidationError::Overlap { first: a.id, second: b.id, x: b.x, y: b.y });
            }
        }
        assert(f(j as int) == overlap_error_at(*g, j as int));
    }
    None
}

fn check_edge_ends(g: &Graph) -> (r: Option<ValidationError>)
    ensures
        r == first_some(edge_errors(*g), 0, g.edges@.len() as int),
{
    let ghost f = edge_errors(*g);
    let n = g.nodes.len();
    let m = g.edges.len();
    for e in 0..m
        invariant
            n == g.nodes@.len(),
            m == g.edges@.len(),
            f == edge_errors(*g),
            first_some(f, 0, m as int) == first_some(f, e as int, m as int),
    {
        let edge = g.edges[e];
        assert(f(e as int) == edge_error_at(*g, e as int));
        if edge.source >= n {
            return Some(ValidationError::EdgeSourceOutOfBounds { source: edge.source, num_nodes: n });
        }
        if edge.target >= n {
            return Some(ValidationError::EdgeTargetOutOfBounds { target: edge.target, num_nodes: n });
        }
    }
    None
}

/// Phase five, given the id table of phase one.
fn check_nodes_on_edges(g: &Graph, table: &Vec<Option<usize>>) -> (r: Option<ValidationError>)
    requires
        table@.len() == g.nodes@.len(),
        forall|id: int|
            0 <= id < table@.len() ==> match #[trigger] table@[id] {
                Some(p) => position_of(*g, id as usize) == Some(p as int),
                None => position_of(*g, id as usize) is None,
            },
        forall|e: int|
            0 <= e < g.edges@.len() ==> #[trigger] g.edges@[e].source < g.nodes@.len()
                && g.edges@[e].target < g.nodes@.len(),
    ensures
        r == first_some(collinear_errors(*g), 0, g.edges@.len() as int),
{
    let ghost f = collinear_errors(*g);
    let n = g.nodes.len();
    let m = g.edges.len();
    for e in 0..m
        invariant
            n == g.nodes@.len(),
            m == g.edges@.len(),
            table@.len() == n,
            forall|id: int|
                0 <= id < table@.len() ==> match #[trigger] table@[id] {
                    Some(p) => position_of(*g, id as usize) == Some(p as int),
                    None => position_of(*g, id as usize) is None,
                },
            forall|e: int|
                0 <= e < g.edges@.len() ==> #[trigger] g.edges@[e].source < g.nodes@.len()
                    && g.edges@[e].target < g.nodes@.len(),
            f == collinear_errors(*g),
            first_some(f, 0, m as int) == first_some(f, e as int, m as int),
    {
        let edge = g.edges[e];
        let ghost h = on_edge_errors(*g, e as int);
        assert(g.edges@[e as int].source < n);
        let src = table[edge.source];
        let tgt = table[edge.target];
        for k in 0..n
            invariant
                n == g.nodes@.len(),
                e < m == g.edges@.len(),
                edge == g.edges@[e as int],
                src == table@[edge.source as int],
                tgt == table@[edge.target as int],
                edge.source < n,
                edge.target < n,
                table@.len() == n,
                forall|id: int|
                    0 <= id < table@.len() ==> match #[trigger] table@[id] {
                        Some(p) => position_of(*g, id as usize) == Some(p as int),
                        None => position_of(*g, id as usize) is None,
                    },
                h == on_edge_errors(*g, e as int),
                first_some(h, 0, n as int) == first_some(h, k as int, n as int),
                f == collinear_errors(*g),
                first_some(f, 0, m as int) == first_some(f, e as int, m as int),
        {
            let node = g.nodes[k];
            assert(h(k as int) == on_edge_error(*g, e as int, k as int));
            assert(match table@[edge.source as int] {
                Some(p) => position_of(*g, edge.source) == Some(p as int),
                None => position_of(*g, edge.source) is None,
            });
            assert(match table@[edge.target as int] {
                Some(p) => position_of(*g, edge.target) == Some(p as int),
                None => position_of(*g, edge.target) is None,
            });
            if node.id != edge.source && node.id != edge.target {
                if let (Some(p), Some(r)) = (src, tgt) {
                    let from = g.nodes[p];
                    let to = g.nodes[r];
                    let a: Coord = (from.x, from.y);
                    let b: Coord = (node.x, node.y);
                    let c: Coord = (to.x, to.y);
                    if is_between(a, b, c) && is_collinear(a, b, c) {
                        assert(f(e as int) == collinear_error_at(*g, e as int));
                        return Some(
                            ValidationError::NodeOnEdge {
                                node: node.id,
                                source: edge.source,
                                target: edge.target,
                                x: node.x,
                                y: node.y,
                            },
                        );
                    }
                }
            }
        }
        assert(f(e as int) == collinear_error_at(*g, e as int));
    }
    None
}

impl Graph {
    /// Checks the drawing, and reports the first violation found.
    pub fn is_valid(&self) -> (r: Result<(), ValidationError>)
        ensures
            r == validation(*self),
    {
        let table = match check_node_ids(self) {
            Ok(table) => table,
            Err(e) => return Err(e),
        };
        if let Some(e) = check_bounds(self) {
            return Err(e);
        }
        if let Some(e) = check_overlaps(self) {
            return Err(e);
        }
        if let Some(e) = check_edge_ends(self) {
            return Err(e);
        }
        proof {
            lemma_first_some_none(edge_errors(*self), 0, self.edges@.len() as int);
            assert forall|e: int| 0 <= e < self.edges@.len() implies #[trigger] self.edges@[e].source
                < self.nodes@.len() && self.edges@[e].target < self.nodes@.len() by {
                assert(edge_errors(*self)(e) == edge_error_at(*self, e));
            }
        }
        if let Some(e) = check_nodes_on_edges(self, &table) {
            return Err(e);
        }
        Ok(())
    }
}

/// A drawing that passes validation has distinct node ids below the number
/// of nodes, and every edge end is the id of one of its nodes.
pub proof fn lemma_valid_ids_resolve(g: Graph)
    requires
        validation(g) is Ok,
    ensures
        g.ids_unique(),
        g.edges_resolve(),
{
    let n = g.nodes@.len() as int;
    lemma_first_some_none(id_errors(g), 0, n);
    assert forall|p: int| 0 <= p < n implies #[trigger] g.nodes@[p].id < n by {
        assert(id_errors(g)(p) == id_error_at(g, p));
    }
    assert forall|p: int, q: int| 0 <= p < q < n implies #[trigger] g.nodes@[p].id
        != #[trigger] g.nodes@[q].id by {
        assert(id_errors(g)(q) == id_error_at(g, q));
    }
    // n distinct ids below n: every id below n is taken
    let ids = g.nodes@.map_values(|v: Node| v.id as int);
    assert(ids.no_duplicates()) by {
        assert forall|p: int, q: int| 0 <= p < n && 0 <= q < n && p != q implies ids[p]
            != ids[q] by {
            if p < q {
                assert(g.nodes@[p].id != g.nodes@[q].id);
            } else {
                assert(g.nodes@[q].id != g.nodes@[p].id);
            }
        }
    }
    ids.unique_seq_to_set();
    lemma_int_range(0, n);
    assert(ids.to_set().subset_of(set_int_range(0, n)));
    lemma_subset_equality(ids.to_set(), set_int_range(0, n));
    assert forall|id: int| 0 <= id < n implies g.has_node(id) by {
        assert(set_int_range(0, n).contains(id));
        assert(ids.to_set().contains(id));
        let p = choose|p: int| 0 <= p < ids.len() && ids[p] == id;
        assert(g.nodes@[p].id == id);
    }
    lemma_first_some_none(edge_errors(g), 0, g.edges@.len() as int);
    assert forall|e: int| 0 <= e < g.edges@.len() implies g.has_node(
        (#[trigger] g.edges@[e]).source as int,
    ) && g.has_node(g.edges@[e].target as int) by {
        assert(edge_errors(g)(e) == edge_error_at(g, e));
        assert(set_int_range(0, n).contains(g.edges@[e].source as int));
        assert(set_int_range(0, n).contains(g.edges@[e].target as int));
    }
}

/// Two nodes with the same id, or with the same coordinates, make a drawing
/// invalid.
pub proof fn lemma_duplicates_rejected(g: Graph, i: int, j: int)
    requires
        0 <= i < j < g.nodes@.len(),
        g.nodes@[i].id == g.nodes@[j].id || g.coord(i) == g.coord(j),
    ensures
        validation(g) is Err,
{
    let n = g.nodes@.len() as int;
    if g.nodes@[i].id == g.nodes@[j].id {
        assert(id_errors(g)(j) == id_error_at(g, j));
        lemma_first_some_some(id_errors(g), 0, n, j);
    } else {
        assert(overlaps_of(g, j)(i) == overlap_with(g, j, i));
        lemma_first_some_some(overlaps_of(g, j), 0, j, i);
        assert(overlap_errors(g)(j) == overlap_error_at(g, j));
        lemma_first_some_some(overlap_errors(g), 0, n, j);
    }
}

/// A node that lies strictly inside an edge it is not an end of, on the
/// edge's line, makes a drawing invalid.
pub proof fn lemma_node_on_edge_rejected(g: Graph, e: int, k: int, p: int, r: int)
    requires
        0 <= e < g.edges@.len(),
        0 <= k < g.nodes@.len(),
        position_of(g, g.edges@[e].source) == Some(p),
        position_of(g, g.edges@[e].target) == Some(r),
        g.nodes@[k].id != g.edges@[e].source,
        g.nodes@[k].id != g.edges@[e].target,
        strictly_between(g.coord(p), g.coord(k), g.coord(r)),
        orientation(g.coord(p), g.coord(k), g.coord(r)) == Ordering::Equal,
    ensures
        validation(g) is Err,
{
    assert(on_edge_errors(g, e)(k) == on_edge_error(g, e, k));
    lemma_first_some_some(on_edge_errors(g, e), 0, g.nodes@.len() as int, k);
    assert(collinear_errors(g)(e) == collinear_error_at(g, e));
    lemma_first_some_some(collinear_errors(g), 0, g.edges@.len() as int, e);
}

} // verus!
