//! The area of a closed shape by the shoelace formula, and what cutting a
//! corner off does to it.

use vstd::prelude::*;
use crate::point::{orient, Point};

verus! {

/// The cross product of the position vectors of `a` and `b`: the term that
/// the side from `a` to `b` adds to the shoelace sum.
pub open spec fn lace(a: Point, b: Point) -> int {
    a.x * b.y - b.x * a.y
}

/// The shoelace sum along the open path `path`.
pub open spec fn chain(path: Seq<Point>) -> int
    decreases path.len(),
{
    if path.len() < 2 {
        0
    } else {
        chain(path.drop_last()) + lace(path[path.len() - 2], path.last())
    }
}

/// Twice the signed area that the closed shape encloses, by the shoelace
/// formula: positive for a shape whose corners turn counter-clockwise (in a
/// frame whose y axis points up).
pub open spec fn twice_area(shape: Seq<Point>) -> int {
    if shape.len() == 0 {
        0
    } else {
        chain(shape) + lace(shape.last(), shape[0])
    }
}

/// The doubled area of a triangle is the shoelace sum around it.
pub proof fn lemma_orient_is_lace(a: Point, b: Point, c: Point)
    ensures
        orient(a, b, c) == lace(a, b) + lace(b, c) + lace(c, a),
{
    assert(orient(a, b, c) == lace(a, b) + lace(b, c) + lace(c, a)) by (nonlinear_arith)
        requires
            orient(a, b, c) == (b.x - a.x) * (c.y - a.y) - (b.y - a.y) * (c.x - a.x),
            lace(a, b) == a.x * b.y - b.x * a.y,
            lace(b, c) == b.x * c.y - c.x * b.y,
            lace(c, a) == c.x * a.y - a.x * c.y,
    ;
}

/// The sum along a path is the term of its first side and the sum along the
/// rest.
proof fn lemma_chain_first(path: Seq<Point>)
    requires
        path.len() >= 2,
    ensures
        chain(path) == lace(path[0], path[1]) + chain(path.drop_first()),
    decreases path.len(),
{
    if path.len() == 2 {
        assert(chain(path.drop_last()) == 0);
        assert(chain(path.drop_first()) == 0);
    } else {
        lemma_chain_first(path.drop_last());
        assert(path.drop_last().drop_first() =~= path.drop_first().drop_last());
    }
}

/// Taking an inner point out of a path replaces the terms of its two sides
/// by the term of the side that joins its neighbours.
proof fn lemma_chain_remove(path: Seq<Point>, i: int)
    requires
        0 < i < path.len() - 1,
    ensures
        chain(path) == chain(path.remove(i)) + lace(path[i - 1], path[i]) + lace(
            path[i],
            path[i + 1],
        ) - lace(path[i - 1], path[i + 1]),
    decreases path.len(),
{
    let n = path.len() as int;
    let shorter = path.remove(i);
    if i == n - 2 {
        assert(shorter.drop_last() =~= path.drop_last().drop_last());
        assert(chain(path.drop_last()) == chain(path.drop_last().drop_last()) + lace(
            path[n - 3],
            path[n - 2],
        ));
    } else {
        lemma_chain_remove(path.drop_last(), i);
        assert(shorter.drop_last() =~= path.drop_last().remove(i));
    }
}

/// Cutting the corner `i` off a closed shape takes from its doubled area
/// that of the triangle which the corner makes with its two neighbours.
pub proof fn lemma_twice_area_remove(shape: Seq<Point>, i: int)
    requires
        shape.len() >= 3,
        0 <= i < shape.len(),
    ensures
        twice_area(shape) == twice_area(shape.remove(i)) + orient(
            shape[if i == 0 {
                shape.len() - 1
            } else {
                i - 1
            }],
            shape[i],
            shape[if i == shape.len() - 1 {
                0
            } else {
                i + 1
            }],
        ),
{
    let n = shape.len() as int;
    let shorter = shape.remove(i);
    if i == 0 {
        lemma_chain_first(shape);
        assert(shorter =~= shape.drop_first());
        lemma_orient_is_lace(shape[n - 1], shape[0], shape[1]);
    } else if i == n - 1 {
        assert(shorter =~= shape.drop_last());
        lemma_orient_is_lace(shape[n - 2], shape[n - 1], shape[0]);
    } else {
        lemma_chain_remove(shape, i);
        lemma_orient_is_lace(shape[i - 1], shape[i], shape[i + 1]);
    }
    assert(forall|a: Point, b: Point| lace(a, b) == -lace(b, a)) by {
        assert forall|a: Point, b: Point| lace(a, b) == -lace(b, a) by {
            assert(a.x * b.y - b.x * a.y == -(b.x * a.y - a.x * b.y));
        }
    }
}

/// The doubled area of a shape of three corners is that of the triangle.
pub proof fn lemma_twice_area_triangle(shape: Seq<Point>)
    requires
        shape.len() == 3,
    ensures
        twice_area(shape) == orient(shape[0], shape[1], shape[2]),
{
    let two = shape.drop_last();
    let one = two.drop_last();
    assert(chain(one) == 0);
    assert(chain(two) == chain(one) + lace(two[0], two[1]));
    assert(chain(shape) == chain(two) + lace(shape[1], shape[2]));
    lemma_orient_is_lace(shape[0], shape[1], shape[2]);
}

/// One term of the shoelace sum has at most 64 bits, and each of its two
/// products 63.
proof fn lemma_lace_bound(a: Point, b: Point)
    ensures
        -0x4000_0000_0000_0000 <= a.x * b.y <= 0x4000_0000_0000_0000,
        -0x4000_0000_0000_0000 <= b.x * a.y <= 0x4000_0000_0000_0000,
        -0x8000_0000_0000_0000 <= lace(a, b) <= 0x8000_0000_0000_0000,
{
    assert(-0x4000_0000_0000_0000 <= a.x * b.y <= 0x4000_0000_0000_0000) by (nonlinear_arith)
        requires
            -0x8000_0000 <= a.x <= 0x8000_0000,
            -0x8000_0000 <= b.y <= 0x8000_0000,
    ;
    assert(-0x4000_0000_0000_0000 <= b.x * a.y <= 0x4000_0000_0000_0000) by (nonlinear_arith)
        requires
            -0x8000_0000 <= b.x <= 0x8000_0000,
            -0x8000_0000 <= a.y <= 0x8000_0000,
    ;
}

/// Computes one term of the shoelace sum.
fn lace_term(a: Point, b: Point) -> (term: i128)
    ensures
        term == lace(a, b),
        -0x8000_0000_0000_0000 <= term <= 0x8000_0000_0000_0000,
{
    proof {
        lemma_lace_bound(a, b);
    }
    (a.x as i128) * (b.y as i128) - (b.x as i128) * (a.y as i128)
}

/// Computes [`twice_area`]: however many corners the shape has, the sum
/// fits 128 bits.
pub fn doubled_area(shape: &Vec<Point>) -> (doubled: i128)
    ensures
        doubled == twice_area(shape@),
{
    let n = shape.len();
    if n == 0 {
        return 0;
    }
    let mut sum: i128 = 0;
    let mut k: usize = 1;
    assert(chain(shape@.take(1)) == 0);
    while k < n
        invariant
            n == shape@.len(),
            1 <= k <= n,
            sum == chain(shape@.take(k as int)),
            -0x8000_0000_0000_0000 * (k - 1) <= sum <= 0x8000_0000_0000_0000 * (k - 1),
        decreases n - k,
    {
        let term = lace_term(shape[k - 1], shape[k]);
        assert(shape@.take(k + 1).drop_last() =~= shape@.take(k as int));
        sum = sum + term;
        k = k + 1;
    }
    assert(shape@.take(n as int) =~= shape@);
    sum + lace_term(shape[n - 1], shape[0])
}

} // verus!
