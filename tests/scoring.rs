use crossing_arena::geometry::{ccw, is_between, is_collinear, is_crossing, minmax};
use crossing_arena::graph::{Edge, Graph, Node};
use crossing_arena::validation::ValidationError;
use std::cmp::Ordering;

fn graph(coords: &[(u32, u32)], edges: &[(usize, usize)]) -> Graph {
    Graph {
        nodes: coords
            .iter()
            .enumerate()
            .map(|(id, &(x, y))| Node { id, x, y })
            .collect(),
        points: vec![],
        edges: edges
            .iter()
            .map(|&(source, target)| Edge { source, target })
            .collect(),
        width: 1_000_000,
        height: 1_000_000,
    }
}

fn square() -> Vec<(u32, u32)> {
    vec![(0, 0), (10, 0), (10, 10), (0, 10)]
}

fn brute_force_total(g: &Graph) -> u32 {
    let mut total = 0;
    for i in 0..g.edges.len() {
        for j in (i + 1)..g.edges.len() {
            let a = &g.edges[i];
            let b = &g.edges[j];
            let p = |k: usize| (g.nodes[k].x, g.nodes[k].y);
            if is_crossing(p(a.source), p(a.target), p(b.source), p(b.target)) {
                total += 1;
            }
        }
    }
    total
}

#[test]
fn ccw_test() {
    let a = (0, 0);
    let b = (0, 1);
    let c = (1, 1);
    assert_eq!(ccw(a, b, c), Ordering::Less);
}

#[test]
fn ccw_other_orientations() {
    assert_eq!(ccw((0, 0), (1, 0), (1, 1)), Ordering::Greater);
    assert_eq!(ccw((0, 0), (1, 1), (2, 2)), Ordering::Equal);
}

#[test]
fn ccw_full_coordinate_range() {
    let m = u32::MAX;
    assert_eq!(ccw((0, 0), (m, 0), (m, m)), Ordering::Greater);
    assert_eq!(ccw((0, 0), (m, m), (0, m)), Ordering::Greater);
    assert_eq!(ccw((m, m), (0, 0), (m, m - 1)), Ordering::Greater);
    assert_eq!(ccw((0, 0), (m - 1, m), (m, m)), Ordering::Less);
}

#[test]
fn minmax_orders_values() {
    assert_eq!(minmax(5, 3), [3, 5]);
    assert_eq!(minmax(3, 5), [3, 5]);
    assert_eq!(minmax(4, 4), [4, 4]);
}

#[test]
fn between_is_strict() {
    assert!(is_between((0, 0), (5, 5), (10, 10)));
    assert!(!is_between((0, 0), (10, 5), (10, 10)));
    assert!(!is_between((0, 0), (5, 0), (10, 0)));
    assert!(is_collinear((0, 0), (5, 5), (10, 10)));
    assert!(!is_collinear((0, 0), (5, 6), (10, 10)));
}

#[test]
fn crossing_needs_strictly_opposite_sides() {
    assert!(is_crossing((0, 0), (10, 10), (10, 0), (0, 10)));
    assert!(!is_crossing((0, 0), (10, 0), (0, 10), (10, 10)));
    // shared endpoint
    assert!(!is_crossing((0, 0), (10, 10), (0, 0), (10, 0)));
    // touching the other segment is not crossing it
    assert!(!is_crossing((0, 0), (10, 0), (5, 0), (5, 10)));
}

#[test]
fn diagonals_of_square_cross_once() {
    let g = graph(&square(), &[(0, 2), (1, 3)]);
    let r = g.crossings();
    assert_eq!(r.total, 1);
    assert_eq!(r.max_per_edge, 1);
}

#[test]
fn square_sides_do_not_cross() {
    let g = graph(&square(), &[(0, 1), (1, 2), (2, 3), (3, 0)]);
    let r = g.crossings();
    assert_eq!(r.total, 0);
    assert_eq!(r.max_per_edge, 0);
}

#[test]
fn no_edge_or_one_edge_has_no_crossing() {
    let g = graph(&square(), &[]);
    let r = g.crossings();
    assert_eq!((r.total, r.max_per_edge), (0, 0));
    let g = graph(&square(), &[(0, 2)]);
    let r = g.crossings();
    assert_eq!((r.total, r.max_per_edge), (0, 0));
}

#[test]
fn edge_ends_are_node_ids_not_positions() {
    // listed out of id order: by id the edges are the right and left sides
    let g = Graph {
        nodes: vec![
            Node { id: 1, x: 0, y: 0 },
            Node { id: 0, x: 10, y: 0 },
            Node { id: 2, x: 10, y: 10 },
            Node { id: 3, x: 0, y: 10 },
        ],
        points: vec![],
        edges: vec![Edge { source: 0, target: 2 }, Edge { source: 1, target: 3 }],
        width: 100,
        height: 100,
    };
    assert_eq!(g.is_valid(), Ok(()));
    let r = g.crossings();
    assert_eq!((r.total, r.max_per_edge), (0, 0));
    // the same drawing with nodes in id order and crossing diagonals
    let h = graph(&[(0, 0), (10, 0), (10, 10), (0, 10)], &[(0, 2), (1, 3)]);
    let mut shuffled = Graph { nodes: h.nodes.clone(), points: vec![], edges: h.edges.clone(), width: 100, height: 100 };
    shuffled.nodes.reverse();
    let r = shuffled.crossings();
    assert_eq!((r.total, r.max_per_edge), (1, 1));
}

#[test]
fn total_counts_pairs_and_max_takes_worst_edge() {
    // a star of three long edges crossed by one long edge
    let coords = [(0, 5), (100, 5), (10, 0), (10, 10), (20, 0), (20, 10), (30, 0), (30, 10)];
    let g = graph(&coords, &[(0, 1), (2, 3), (4, 5), (6, 7)]);
    let r = g.crossings();
    assert_eq!(r.total, 3);
    assert_eq!(r.max_per_edge, 3);
    assert_eq!(r.total, brute_force_total(&g));
}

#[test]
fn total_is_unchanged_by_edge_order() {
    let coords = [(0, 5), (100, 5), (10, 0), (10, 10), (20, 0), (20, 10), (0, 0), (90, 10)];
    let edges = [(0, 1), (2, 3), (4, 5), (6, 7), (2, 5)];
    let g = graph(&coords, &edges);
    let mut reversed = edges.to_vec();
    reversed.reverse();
    let h = graph(&coords, &reversed);
    let rotated = [edges[2], edges[3], edges[4], edges[0], edges[1]];
    let k = graph(&coords, &rotated);
    assert_eq!(g.crossings().total, h.crossings().total);
    assert_eq!(g.crossings().total, k.crossings().total);
    assert_eq!(g.crossings().max_per_edge, k.crossings().max_per_edge);
    assert_eq!(g.crossings().total, brute_force_total(&g));
}

#[test]
fn valid_square_passes() {
    let g = graph(&square(), &[(0, 2), (1, 3)]);
    assert_eq!(g.is_valid(), Ok(()));
}

#[test]
fn node_on_edge_rejected_then_accepted_off_the_line() {
    let g = graph(&[(0, 0), (10, 10), (5, 5)], &[(0, 1)]);
    assert_eq!(
        g.is_valid(),
        Err(ValidationError::NodeOnEdge { node: 2, source: 0, target: 1, x: 5, y: 5 })
    );
    let g = graph(&[(0, 0), (10, 10), (5, 6)], &[(0, 1)]);
    assert_eq!(g.is_valid(), Ok(()));
}

#[test]
fn duplicate_id_rejected() {
    let mut g = graph(&square(), &[]);
    g.nodes[2].id = 1;
    assert_eq!(g.is_valid(), Err(ValidationError::DuplicateNodeId { id: 1 }));
}

#[test]
fn shared_coordinates_rejected() {
    let g = graph(&[(0, 0), (3, 4), (3, 4)], &[]);
    assert_eq!(
        g.is_valid(),
        Err(ValidationError::Overlap { first: 1, second: 2, x: 3, y: 4 })
    );
}

#[test]
fn id_out_of_bounds_rejected() {
    let mut g = graph(&square(), &[]);
    g.nodes[3].id = 4;
    assert_eq!(
        g.is_valid(),
        Err(ValidationError::NodeIdOutOfBounds { id: 4, num_nodes: 4 })
    );
}

#[test]
fn coordinates_outside_bounds_rejected() {
    let mut g = graph(&square(), &[]);
    g.width = 9;
    assert_eq!(
        g.is_valid(),
        Err(ValidationError::XOutOfBounds { id: 1, x: 10, width: 9 })
    );
    let mut g = graph(&square(), &[]);
    g.height = 5;
    assert_eq!(
        g.is_valid(),
        Err(ValidationError::YOutOfBounds { id: 2, y: 10, height: 5 })
    );
}

#[test]
fn edge_ends_out_of_bounds_rejected() {
    let g = graph(&square(), &[(0, 1), (7, 1)]);
    assert_eq!(
        g.is_valid(),
        Err(ValidationError::EdgeSourceOutOfBounds { source: 7, num_nodes: 4 })
    );
    let g = graph(&square(), &[(0, 9)]);
    assert_eq!(
        g.is_valid(),
        Err(ValidationError::EdgeTargetOutOfBounds { target: 9, num_nodes: 4 })
    );
}

#[test]
fn validation_reports_first_phase_first() {
    // an overlap and a bad edge: the overlap is found first
    let g = graph(&[(1, 1), (1, 1)], &[(0, 5)]);
    assert!(matches!(g.is_valid(), Err(ValidationError::Overlap { .. })));
}

#[test]
fn unsorted_node_ids_are_resolved_by_id() {
    // node with id 2 sits at position 0, on the edge between ids 0 and 1
    let g = Graph {
        nodes: vec![
            Node { id: 2, x: 5, y: 5 },
            Node { id: 0, x: 0, y: 0 },
            Node { id: 1, x: 10, y: 10 },
        ],
        points: vec![],
        edges: vec![Edge { source: 0, target: 1 }],
        width: 100,
        height: 100,
    };
    assert_eq!(
        g.is_valid(),
        Err(ValidationError::NodeOnEdge { node: 2, source: 0, target: 1, x: 5, y: 5 })
    );
}

#[test]
fn isomorphic_ignores_edge_order_only() {
    let a = graph(&square(), &[(0, 1), (1, 2), (2, 3)]);
    let b = graph(&square(), &[(2, 3), (0, 1), (1, 2)]);
    assert!(a.is_isomorphic(&b));
    let c = graph(&square(), &[(1, 0), (1, 2), (2, 3)]);
    assert!(!a.is_isomorphic(&c));
    let d = graph(&square(), &[(0, 1), (1, 2)]);
    assert!(!a.is_isomorphic(&d));
    let e = graph(&[(0, 0), (1, 1), (2, 0)], &[(0, 1), (1, 2), (2, 3)]);
    assert!(!a.is_isomorphic(&e));
    let f = graph(&square(), &[(0, 1), (0, 1), (2, 3)]);
    assert!(!a.is_isomorphic(&f));
}

#[test]
fn default_dimension_is_one_million() {
    assert_eq!(Graph::default_dimension(), 1_000_000);
}
