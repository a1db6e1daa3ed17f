//! The point data model and the point-to-point distance metric.

use vstd::prelude::*;

verus! {

/// A labeled 2D point. Coordinates are integers; the engine only ever
/// compares distances, so the squared Euclidean distance is used throughout
/// and no square root (and no floating point) is needed.
#[derive(Clone, Copy, Debug, PartialEq, Eq, Structural)]
pub struct Obj {
    pub id: i32,
    pub x: i32,
    pub y: i32,
}

/// Squared Euclidean distance between two points.
pub open spec fn dist_sq(a: Obj, b: Obj) -> int {
    (b.x - a.x) * (b.x - a.x) + (b.y - a.y) * (b.y - a.y)
}

/// The squared distance is symmetric and non-negative, and zero exactly
/// when the two points share both coordinates.
pub proof fn lemma_dist_sq_symmetric(a: Obj, b: Obj)
    ensures
        dist_sq(a, b) == dist_sq(b, a),
        dist_sq(a, b) >= 0,
        dist_sq(a, b) == 0 <==> (a.x == b.x && a.y == b.y),
{
    assert((b.x - a.x) * (b.x - a.x) == (a.x - b.x) * (a.x - b.x)) by (nonlinear_arith);
    assert((b.y - a.y) * (b.y - a.y) == (a.y - b.y) * (a.y - b.y)) by (nonlinear_arith);
    assert((b.x - a.x) * (b.x - a.x) >= 0) by (nonlinear_arith);
    assert((b.y - a.y) * (b.y - a.y) >= 0) by (nonlinear_arith);
    assert(b.x - a.x != 0 ==> (b.x - a.x) * (b.x - a.x) > 0) by (nonlinear_arith);
    assert(b.y - a.y != 0 ==> (b.y - a.y) * (b.y - a.y) > 0) by (nonlinear_arith);
}

/// Squared Euclidean distance between two points, computed exactly.
pub fn obj_distance(a: &Obj, b: &Obj) -> (d: i128)
    ensures
        d == dist_sq(*a, *b),
        d >= 0,
{
    let dx: i64 = (b.x as i64) - (a.x as i64);
    let dy: i64 = (b.y as i64) - (a.y as i64);
    proof {
        assert(-0x1_0000_0000 < dx < 0x1_0000_0000);
        assert(-0x1_0000_0000 < dy < 0x1_0000_0000);
        assert((dx as int) * (dx as int) < 0x1_0000_0000_0000_0000) by (nonlinear_arith)
            requires -0x1_0000_0000 < dx < 0x1_0000_0000;
        assert((dy as int) * (dy as int) < 0x1_0000_0000_0000_0000) by (nonlinear_arith)
            requires -0x1_0000_0000 < dy < 0x1_0000_0000;
        assert((dx as int) * (dx as int) >= 0) by (nonlinear_arith);
        assert((dy as int) * (dy as int) >= 0) by (nonlinear_arith);
    }
    let dx2: i128 = (dx as i128) * (dx as i128);
    let dy2: i128 = (dy as i128) * (dy as i128);
    proof {
        lemma_dist_sq_symmetric(*a, *b);
    }
    dx2 + dy2
}

} // verus!
