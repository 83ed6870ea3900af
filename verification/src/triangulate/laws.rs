//! What holds of the triangles that ear clipping makes: how many they are,
//! what area they cover, and that a convex shape always yields them.

use vstd::prelude::*;
use crate::point::{orient, Point};
use crate::triangulate::area::{lemma_twice_area_remove, lemma_twice_area_triangle, twice_area};
use crate::triangulate::{
    after, before, ear_clipping, first_ear, in_triangle, is_ear, triangle, triangulation, turn,
    Triangle,
};

verus! {

/// Twice the signed area of a triangle.
pub open spec fn twice_signed(t: Triangle) -> int {
    orient(t.points[0], t.points[1], t.points[2])
}

/// Twice the area of a triangle.
pub open spec fn twice_size(t: Triangle) -> int {
    if twice_signed(t) >= 0 {
        twice_signed(t)
    } else {
        -twice_signed(t)
    }
}

/// Twice the sum of the signed areas of the triangles.
pub open spec fn twice_signed_sum(triangles: Seq<Triangle>) -> int
    decreases triangles.len(),
{
    if triangles.len() == 0 {
        0
    } else {
        twice_signed(triangles[0]) + twice_signed_sum(triangles.drop_first())
    }
}

/// Twice the sum of the areas of the triangles.
pub open spec fn twice_size_sum(triangles: Seq<Triangle>) -> int
    decreases triangles.len(),
{
    if triangles.len() == 0 {
        0
    } else {
        twice_size(triangles[0]) + twice_size_sum(triangles.drop_first())
    }
}

/// A shape is convex in the given direction: any three of its corners,
/// taken in the order of the outline, turn in that direction.
pub open spec fn is_convex(shape: Seq<Point>, ccw: bool) -> bool {
    forall|i: int, j: int, k: int|
        0 <= i < j < k < shape.len() ==> turn(
            ccw,
            #[trigger] shape[i],
            #[trigger] shape[j],
            #[trigger] shape[k],
        ) > 0
}

/// The first ear, where there is one, is a corner of the shape and an ear.
pub proof fn lemma_first_ear(shape: Seq<Point>, ccw: bool, from: int)
    requires
        0 <= from,
    ensures
        from <= first_ear(shape, ccw, from) || first_ear(shape, ccw, from) == shape.len(),
        first_ear(shape, ccw, from) <= shape.len(),
        first_ear(shape, ccw, from) < shape.len() ==> is_ear(
            shape,
            ccw,
            first_ear(shape, ccw, from),
        ),
    decreases shape.len() - from,
{
    if from < shape.len() && !is_ear(shape, ccw, from) {
        lemma_first_ear(shape, ccw, from + 1);
    }
}

/// Ear clipping makes of a shape with `n` corners `n - 2` triangles, if it
/// makes any.
pub proof fn lemma_ear_clipping_count(shape: Seq<Point>, ccw: bool)
    ensures
        ear_clipping(shape, ccw) matches Some(triangles) ==> triangles.len() == shape.len() - 2,
    decreases shape.len(),
{
    let n = shape.len() as int;
    if n > 3 {
        let i = first_ear(shape, ccw, 0);
        if 0 <= i < n {
            lemma_ear_clipping_count(shape.remove(i), ccw);
        }
    }
}

/// Each triangle that ear clipping makes turns in the direction of the
/// shape, and their signed areas add up to the area of the shape by the
/// shoelace formula.
pub proof fn lemma_ear_clipping_area(shape: Seq<Point>, ccw: bool)
    ensures
        ear_clipping(shape, ccw) matches Some(triangles) ==> {
            &&& twice_signed_sum(triangles) == twice_area(shape)
            &&& forall|m: int|
                0 <= m < triangles.len() ==> turn(
                    ccw,
                    (#[trigger] triangles[m]).points[0],
                    triangles[m].points[1],
                    triangles[m].points[2],
                ) > 0
        },
    decreases shape.len(),
{
    let n = shape.len() as int;
    if n == 3 {
        if turn(ccw, shape[0], shape[1], shape[2]) > 0 {
            let t = triangle(shape[0], shape[1], shape[2]);
            let triangles = seq![t];
            assert(triangles.drop_first() =~= Seq::<Triangle>::empty());
            assert(twice_signed_sum(triangles.drop_first()) == 0);
            lemma_twice_area_triangle(shape);
        }
    } else if n > 3 {
        let i = first_ear(shape, ccw, 0);
        if 0 <= i < n {
            lemma_first_ear(shape, ccw, 0);
            lemma_ear_clipping_area(shape.remove(i), ccw);
            lemma_twice_area_remove(shape, i);
            if let Some(rest) = ear_clipping(shape.remove(i), ccw) {
                let t = triangle(shape[before(n, i)], shape[i], shape[after(n, i)]);
                let triangles = seq![t] + rest;
                assert(triangles.drop_first() =~= rest);
                assert forall|m: int| 0 <= m < triangles.len() implies turn(
                    ccw,
                    (#[trigger] triangles[m]).points[0],
                    triangles[m].points[1],
                    triangles[m].points[2],
                ) > 0 by {
                    if m > 0 {
                        assert(triangles[m] == rest[m - 1]);
                    }
                }
            }
        }
    }
}

/// The corners of the triangles that ear clipping makes are corners of the
/// shape.
pub proof fn lemma_ear_clipping_corners(shape: Seq<Point>, ccw: bool)
    ensures
        ear_clipping(shape, ccw) matches Some(triangles) ==> forall|m: int, c: int|
            0 <= m < triangles.len() && 0 <= c < 3 ==> shape.contains(
                #[trigger] triangles[m].points[c],
            ),
    decreases shape.len(),
{
    let n = shape.len() as int;
    if n == 3 {
        if turn(ccw, shape[0], shape[1], shape[2]) > 0 {
            let triangles = seq![triangle(shape[0], shape[1], shape[2])];
            assert forall|m: int, c: int| 0 <= m < triangles.len() && 0 <= c < 3 implies
                shape.contains(#[trigger] triangles[m].points[c]) by {
                assert(triangles[m].points[c] == shape[c]);
            }
        }
    } else if n > 3 {
        let i = first_ear(shape, ccw, 0);
        if 0 <= i < n {
            let shorter = shape.remove(i);
            lemma_ear_clipping_corners(shorter, ccw);
            if let Some(rest) = ear_clipping(shorter, ccw) {
                let (h, j) = (before(n, i), after(n, i));
                let triangles = seq![triangle(shape[h], shape[i], shape[j])] + rest;
                assert forall|m: int, c: int| 0 <= m < triangles.len() && 0 <= c < 3 implies
                    shape.contains(#[trigger] triangles[m].points[c]) by {
                    if m == 0 {
                        assert(triangles[0].points[0] == shape[h]);
                        assert(triangles[0].points[1] == shape[i]);
                        assert(triangles[0].points[2] == shape[j]);
                    } else {
                        assert(triangles[m] == rest[m - 1]);
                        let corner = rest[m - 1].points[c];
                        assert(shorter.contains(corner));
                        let k = choose|k: int| 0 <= k < shorter.len() && shorter[k] == corner;
                        assert(shorter[k] == if k < i {
                            shape[k]
                        } else {
                            shape[k + 1]
                        });
                    }
                }
            }
        }
    }
}

/// Where all triangles turn one way, their areas add up to the size of the
/// sum of their signed areas.
pub proof fn lemma_sizes_of_one_direction(triangles: Seq<Triangle>, ccw: bool)
    requires
        forall|m: int|
            0 <= m < triangles.len() ==> turn(
                ccw,
                (#[trigger] triangles[m]).points[0],
                triangles[m].points[1],
                triangles[m].points[2],
            ) > 0,
    ensures
        twice_size_sum(triangles) == if ccw {
            twice_signed_sum(triangles)
        } else {
            -twice_signed_sum(triangles)
        },
    decreases triangles.len(),
{
    if triangles.len() > 0 {
        let rest = triangles.drop_first();
        assert forall|m: int| 0 <= m < rest.len() implies turn(
            ccw,
            (#[trigger] rest[m]).points[0],
            rest[m].points[1],
            rest[m].points[2],
        ) > 0 by {
            assert(rest[m] == triangles[m + 1]);
        }
        lemma_sizes_of_one_direction(rest, ccw);
        assert(turn(
            ccw,
            triangles[0].points[0],
            triangles[0].points[1],
            triangles[0].points[2],
        ) > 0);
    }
}

/// The triangles of a triangulation, if there are any, are two fewer than
/// the corners of the shape, and their areas add up to the area that the
/// shape encloses by the shoelace formula.
pub proof fn lemma_triangulation_count_and_area(shape: Seq<Point>)
    requires
        triangulation(shape).len() > 0,
    ensures
        triangulation(shape).len() == shape.len() - 2,
        twice_size_sum(triangulation(shape)) == if twice_area(shape) >= 0 {
            twice_area(shape)
        } else {
            -twice_area(shape)
        },
{
    let ccw = twice_area(shape) > 0;
    lemma_ear_clipping_count(shape, ccw);
    lemma_ear_clipping_area(shape, ccw);
    lemma_sizes_of_one_direction(triangulation(shape), ccw);
}

/// Naming the corners of a triangle from the next one on leaves its area
/// as it is; swapping two of them turns its sign.
pub proof fn lemma_orient_symmetry(a: Point, b: Point, c: Point)
    ensures
        orient(b, c, a) == orient(a, b, c),
        orient(a, c, b) == -orient(a, b, c),
{
    assert(orient(b, c, a) == orient(a, b, c) && orient(a, c, b) == -orient(a, b, c))
        by (nonlinear_arith)
        requires
            orient(a, b, c) == (b.x - a.x) * (c.y - a.y) - (b.y - a.y) * (c.x - a.x),
            orient(b, c, a) == (c.x - b.x) * (a.y - b.y) - (c.y - b.y) * (a.x - b.x),
            orient(a, c, b) == (c.x - a.x) * (b.y - a.y) - (c.y - a.y) * (b.x - a.x),
    ;
}

/// The areas of triangles that all turn one way add up to more than
/// nothing.
proof fn lemma_sizes_positive(triangles: Seq<Triangle>, ccw: bool)
    requires
        forall|m: int|
            0 <= m < triangles.len() ==> turn(
                ccw,
                (#[trigger] triangles[m]).points[0],
                triangles[m].points[1],
                triangles[m].points[2],
            ) > 0,
    ensures
        twice_size_sum(triangles) >= 0,
        triangles.len() > 0 ==> twice_size_sum(triangles) > 0,
    decreases triangles.len(),
{
    if triangles.len() > 0 {
        let rest = triangles.drop_first();
        assert forall|m: int| 0 <= m < rest.len() implies turn(
            ccw,
            (#[trigger] rest[m]).points[0],
            rest[m].points[1],
            rest[m].points[2],
        ) > 0 by {
            assert(rest[m] == triangles[m + 1]);
        }
        lemma_sizes_positive(rest, ccw);
        assert(turn(
            ccw,
            triangles[0].points[0],
            triangles[0].points[1],
            triangles[0].points[2],
        ) > 0);
    }
}

/// The first corner of a convex shape of more than three corners is an ear.
proof fn lemma_convex_first_corner(shape: Seq<Point>, ccw: bool)
    requires
        shape.len() > 3,
        is_convex(shape, ccw),
    ensures
        is_ear(shape, ccw, 0),
{
    let n = shape.len() as int;
    let (a, b, c) = (shape[n - 1], shape[0], shape[1]);
    lemma_orient_symmetry(shape[0], shape[1], shape[n - 1]);
    assert(turn(ccw, shape[0], shape[1], shape[n - 1]) > 0);
    lemma_orient_symmetry(shape[1], shape[n - 1], shape[0]);
    assert(turn(ccw, a, b, c) > 0);
    assert forall|k: int| 0 <= k < n && k != n - 1 && k != 0 && k != 1 implies !in_triangle(
        ccw,
        a,
        b,
        c,
        #[trigger] shape[k],
    ) by {
        assert(turn(ccw, shape[1], shape[k], shape[n - 1]) > 0);
        lemma_orient_symmetry(shape[1], shape[k], shape[n - 1]);
    }
}

/// Ear clipping never fails on a convex shape.
pub proof fn lemma_ear_clipping_of_convex(shape: Seq<Point>, ccw: bool)
    requires
        shape.len() >= 3,
        is_convex(shape, ccw),
    ensures
        ear_clipping(shape, ccw) is Some,
    decreases shape.len(),
{
    let n = shape.len() as int;
    if n == 3 {
        assert(turn(ccw, shape[0], shape[1], shape[2]) > 0);
    } else {
        lemma_convex_first_corner(shape, ccw);
        assert(first_ear(shape, ccw, 0) == 0);
        let shorter = shape.remove(0);
        assert forall|i: int, j: int, k: int| 0 <= i < j < k < shorter.len() implies turn(
            ccw,
            #[trigger] shorter[i],
            #[trigger] shorter[j],
            #[trigger] shorter[k],
        ) > 0 by {
            assert(turn(ccw, shape[i + 1], shape[j + 1], shape[k + 1]) > 0);
        }
        lemma_ear_clipping_of_convex(shorter, ccw);
    }
}

/// A convex shape of `n` corners is cut into exactly `n - 2` triangles, and
/// their areas add up to the area that the shape encloses by the shoelace
/// formula.
pub proof fn lemma_triangulation_of_convex(shape: Seq<Point>, ccw: bool)
    requires
        shape.len() >= 3,
        is_convex(shape, ccw),
    ensures
        triangulation(shape).len() == shape.len() - 2,
        ccw == (twice_area(shape) > 0),
        twice_area(shape) != 0,
        twice_size_sum(triangulation(shape)) == if ccw {
            twice_area(shape)
        } else {
            -twice_area(shape)
        },
{
    lemma_ear_clipping_of_convex(shape, ccw);
    lemma_ear_clipping_count(shape, ccw);
    lemma_ear_clipping_area(shape, ccw);
    let triangles = ear_clipping(shape, ccw).unwrap();
    lemma_sizes_of_one_direction(triangles, ccw);
    lemma_sizes_positive(triangles, ccw);
}

} // verus!
