//! Points in pixel space and the orientation test on which the geometry rests.

use vstd::prelude::*;

verus! {

/// A point in backend-local pixel coordinates.
#[derive(Clone, Copy, Debug, PartialEq, Eq, Structural)]
pub struct Point {
    pub x: i32,
    pub y: i32,
}

/// Twice the signed area of the triangle `a`, `b`, `c`: positive where the
/// three points turn counter-clockwise (in a frame whose y axis points up),
/// negative where they turn clockwise, zero where they are collinear.
pub open spec fn orient(a: Point, b: Point, c: Point) -> int {
    (b.x - a.x) * (c.y - a.y) - (b.y - a.y) * (c.x - a.x)
}

/// The cross product of two differences of coordinates stays below 2^64.
pub proof fn lemma_cross_bound(a: int, b: int, c: int, d: int)
    requires
        -0xffff_ffff <= a <= 0xffff_ffff,
        -0xffff_ffff <= b <= 0xffff_ffff,
        -0xffff_ffff <= c <= 0xffff_ffff,
        -0xffff_ffff <= d <= 0xffff_ffff,
    ensures
        -0xffff_fffe_0000_0001 <= a * b <= 0xffff_fffe_0000_0001,
        -0xffff_fffe_0000_0001 <= c * d <= 0xffff_fffe_0000_0001,
        -0x1_ffff_fffc_0000_0002 <= a * b - c * d <= 0x1_ffff_fffc_0000_0002,
{
    assert(-0xffff_fffe_0000_0001 <= a * b <= 0xffff_fffe_0000_0001) by (nonlinear_arith)
        requires
            -0xffff_ffff <= a <= 0xffff_ffff,
            -0xffff_ffff <= b <= 0xffff_ffff,
    ;
    assert(-0xffff_fffe_0000_0001 <= c * d <= 0xffff_fffe_0000_0001) by (nonlinear_arith)
        requires
            -0xffff_ffff <= c <= 0xffff_ffff,
            -0xffff_ffff <= d <= 0xffff_ffff,
    ;
}

/// A product is bounded by the product of the bounds of its factors.
pub proof fn lemma_mul_bound(a: int, b: int, bound_a: int, bound_b: int)
    by (nonlinear_arith)
    requires
        -bound_a <= a <= bound_a,
        -bound_b <= b <= bound_b,
    ensures
        -(bound_a * bound_b) <= a * b <= bound_a * bound_b,
{
}

/// Computes [`orient`] without overflow.
pub fn orientation(a: Point, b: Point, c: Point) -> (r: i128)
    ensures
        r == orient(a, b, c),
        -0x1_ffff_fffc_0000_0002 <= r <= 0x1_ffff_fffc_0000_0002,
{
    let abx: i128 = b.x as i128 - a.x as i128;
    let aby: i128 = b.y as i128 - a.y as i128;
    let acx: i128 = c.x as i128 - a.x as i128;
    let acy: i128 = c.y as i128 - a.y as i128;
    proof {
        lemma_cross_bound(abx as int, acy as int, aby as int, acx as int);
    }
    abx * acy - aby * acx
}

} // verus!
