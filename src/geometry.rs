//! Orientation predicates on integer points.
use vstd::prelude::*;
use core::cmp::Ordering;

verus! {

/// A point of the drawing, as `(x, y)`.
pub type Coord = (u32, u32);

/// The two products that `ccw` compares, as mathematical integers.
pub open spec fn ccw_lhs(p: Coord, q: Coord, r: Coord) -> int {
    (q.0 - p.0) * (r.1 - q.1)
}

pub open spec fn ccw_rhs(p: Coord, q: Coord, r: Coord) -> int {
    (q.1 - p.1) * (r.0 - q.0)
}

/// The orientation of the turn `p -> q -> r`.
pub open spec fn orientation(p: Coord, q: Coord, r: Coord) -> Ordering {
    if ccw_lhs(p, q, r) < ccw_rhs(p, q, r) {
        Ordering::Less
    } else if ccw_lhs(p, q, r) == ccw_rhs(p, q, r) {
        Ordering::Equal
    } else {
        Ordering::Greater
    }
}

/// `a` and `b` are strictly on opposite sides (neither is `Equal`).
pub open spec fn opposite(a: Ordering, b: Ordering) -> bool {
    (a == Ordering::Less && b == Ordering::Greater) || (a == Ordering::Greater && b
        == Ordering::Less)
}

pub open spec fn shares_endpoint(p1: Coord, q1: Coord, p2: Coord, q2: Coord) -> bool {
    p1 == p2 || p1 == q2 || q1 == p2 || q1 == q2
}

/// Segments `p1q1` and `p2q2` cross properly: they share no endpoint, and
/// the endpoints of each lie strictly on opposite sides of the other's line.
pub open spec fn segments_cross(p1: Coord, q1: Coord, p2: Coord, q2: Coord) -> bool {
    &&& !shares_endpoint(p1, q1, p2, q2)
    &&& opposite(orientation(p1, q1, p2), orientation(p1, q1, q2))
    &&& opposite(orientation(p2, q2, p1), orientation(p2, q2, q1))
}

/// `q` lies strictly inside the bounding box of `p` and `r`.
pub open spec fn strictly_between(p: Coord, q: Coord, r: Coord) -> bool {
    let min_x = if p.0 <= r.0 { p.0 } else { r.0 };
    let max_x = if p.0 <= r.0 { r.0 } else { p.0 };
    let min_y = if p.1 <= r.1 { p.1 } else { r.1 };
    let max_y = if p.1 <= r.1 { r.1 } else { p.1 };
    min_x < q.0 < max_x && min_y < q.1 < max_y
}

proof fn lemma_product_fits(a: int, b: int)
    requires
        -0x1_0000_0000 < a < 0x1_0000_0000,
        -0x1_0000_0000 < b < 0x1_0000_0000,
    ensures
        -0x1_0000_0000_0000_0000 < a * b < 0x1_0000_0000_0000_0000,
{
    assert(-0x1_0000_0000_0000_0000 < a * b < 0x1_0000_0000_0000_0000) by (nonlinear_arith)
        requires
            -0x1_0000_0000 < a < 0x1_0000_0000,
            -0x1_0000_0000 < b < 0x1_0000_0000,
    ;
}

/// The orientation of `p -> q -> r`. The products are taken in `i128`, which
/// holds them for every pair of `u32` coordinates.
pub fn ccw(p: Coord, q: Coord, r: Coord) -> (o: Ordering)
    ensures
        o == orientation(p, q, r),
{
    let dx1 = q.0 as i128 - p.0 as i128;
    let dy2 = r.1 as i128 - q.1 as i128;
    let dy1 = q.1 as i128 - p.1 as i128;
    let dx2 = r.0 as i128 - q.0 as i128;
    proof {
        lemma_product_fits(dx1 as int, dy2 as int);
        lemma_product_fits(dy1 as int, dx2 as int);
    }
    let lhs = dx1 * dy2;
    let rhs = dy1 * dx2;
    if lhs < rhs {
        Ordering::Less
    } else if lhs == rhs {
        Ordering::Equal
    } else {
        Ordering::Greater
    }
}

pub fn is_collinear(p1: Coord, q: Coord, p2: Coord) -> (b: bool)
    ensures
        b == (orientation(p1, q, p2) == Ordering::Equal),
{
    match ccw(p1, q, p2) {
        Ordering::Equal => true,
        _ => false,
    }
}

/// The two values in ascending order.
pub fn minmax(v1: u32, v2: u32) -> (r: [u32; 2])
    ensures
        r[0] <= r[1],
        (r[0] == v1 && r[1] == v2) || (r[0] == v2 && r[1] == v1),
{
    if v1 <= v2 {
        [v1, v2]
    } else {
        [v2, v1]
    }
}

pub fn is_between(p: Coord, q: Coord, r: Coord) -> (b: bool)
    ensures
        b == strictly_between(p, q, r),
{
    let xs = minmax(p.0, r.0);
    let ys = minmax(p.1, r.1);
    (xs[0] < q.0 && q.0 < xs[1]) && (ys[0] < q.1 && q.1 < ys[1])
}

fn is_opposite(a: Ordering, b: Ordering) -> (r: bool)
    ensures
        r == opposite(a, b),
{
    match (a, b) {
        (Ordering::Less, Ordering::Greater) => true,
        (Ordering::Greater, Ordering::Less) => true,
        _ => false,
    }
}

fn same_point(a: Coord, b: Coord) -> (r: bool)
    ensures
        r == (a == b),
{
    a.0 == b.0 && a.1 == b.1
}

/// Whether segments `p1q1` and `p2q2` cross properly.
pub fn is_crossing(p1: Coord, q1: Coord, p2: Coord, q2: Coord) -> (b: bool)
    ensures
        b == segments_cross(p1, q1, p2, q2),
{
    if same_point(p1, p2) || same_point(p1, q2) || same_point(q1, p2) || same_point(q1, q2) {
        return false;
    }
    let o1 = ccw(p1, q1, p2);
    let o2 = ccw(p1, q1, q2);
    let o3 = ccw(p2, q2, p1);
    let o4 = ccw(p2, q2, q1);
    is_opposite(o1, o2) && is_opposite(o3, o4)
}

/// Crossing is symmetric in the two segments.
pub proof fn lemma_cross_symmetric(p1: Coord, q1: Coord, p2: Coord, q2: Coord)
    ensures
        segments_cross(p1, q1, p2, q2) == segments_cross(p2, q2, p1, q1),
{
}

} // verus!
