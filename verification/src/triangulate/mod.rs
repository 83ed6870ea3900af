//! Triangulation of a closed shape by ear clipping: as long as more than
//! three corners are left, the first corner that is an ear is cut off as a
//! triangle.

use vstd::prelude::*;
use crate::point::{orient, orientation, Point};

pub mod area;
pub mod laws;

verus! {

/// Three points with a filled interior.
#[derive(Clone, Copy, Debug, PartialEq)]
pub struct Triangle {
    pub points: [Point; 3],
}

/// The triangle with the corners `a`, `b`, `c`, in this order.
pub open spec fn triangle(a: Point, b: Point, c: Point) -> Triangle {
    Triangle { points: [a, b, c] }
}

/// The index before `i` on a closed shape of `n` points.
pub open spec fn before(n: int, i: int) -> int {
    if i == 0 {
        n - 1
    } else {
        i - 1
    }
}

/// The index after `i` on a closed shape of `n` points.
pub open spec fn after(n: int, i: int) -> int {
    if i == n - 1 {
        0
    } else {
        i + 1
    }
}

/// Twice the area of the triangle `a`, `b`, `c`, positive where its corners
/// turn as a shape of the given direction does.
pub open spec fn turn(ccw: bool, a: Point, b: Point, c: Point) -> int {
    if ccw {
        orient(a, b, c)
    } else {
        -orient(a, b, c)
    }
}

/// `p` lies in the triangle `a`, `b`, `c`, its sides and corners included;
/// the triangle's corners turn in the given direction.
pub open spec fn in_triangle(ccw: bool, a: Point, b: Point, c: Point, p: Point) -> bool {
    turn(ccw, a, b, p) >= 0 && turn(ccw, b, c, p) >= 0 && turn(ccw, c, a, p) >= 0
}

/// The corner `i` of the shape is an ear: it turns in the shape's direction,
/// and the triangle that it makes with its two neighbours holds no other
/// corner of the shape.
pub open spec fn is_ear(shape: Seq<Point>, ccw: bool, i: int) -> bool {
    let n = shape.len() as int;
    let (h, j) = (before(n, i), after(n, i));
    &&& turn(ccw, shape[h], shape[i], shape[j]) > 0
    &&& forall|k: int|
        0 <= k < n && k != h && k != i && k != j ==> !in_triangle(
            ccw,
            shape[h],
            shape[i],
            shape[j],
            #[trigger] shape[k],
        )
}

/// The first ear of the shape at or after the corner `from`; the number of
/// corners where there is none.
pub open spec fn first_ear(shape: Seq<Point>, ccw: bool, from: int) -> int
    decreases shape.len() - from,
{
    if from >= shape.len() {
        shape.len() as int
    } else if is_ear(shape, ccw, from) {
        from
    } else {
        first_ear(shape, ccw, from + 1)
    }
}

/// The triangles that ear clipping cuts from a shape whose corners turn in
/// the given direction: `None` where it gets stuck at a shape without an
/// ear, or ends at three corners that enclose nothing.
pub open spec fn ear_clipping(shape: Seq<Point>, ccw: bool) -> Option<Seq<Triangle>>
    decreases shape.len(),
{
    let n = shape.len() as int;
    if n < 3 {
        None
    } else if n == 3 {
        if turn(ccw, shape[0], shape[1], shape[2]) > 0 {
            Some(seq![triangle(shape[0], shape[1], shape[2])])
        } else {
            None
        }
    } else {
        let i = first_ear(shape, ccw, 0);
        if i < 0 || i >= n {
            None
        } else {
            match ear_clipping(shape.remove(i), ccw) {
                Some(rest) => Some(
                    seq![triangle(shape[before(n, i)], shape[i], shape[after(n, i)])] + rest,
                ),
                None => None,
            }
        }
    }
}

/// The triangles that fill a closed shape: none where the shape encloses
/// no area or ear clipping fails on it.
pub open spec fn triangulation(shape: Seq<Point>) -> Seq<Triangle> {
    let doubled = area::twice_area(shape);
    if doubled == 0 {
        Seq::empty()
    } else {
        match ear_clipping(shape, doubled > 0) {
            Some(triangles) => triangles,
            None => Seq::empty(),
        }
    }
}

/// The corners of a closed shape, in the order in which its outline passes
/// them.
pub struct Polygon {
    points: Vec<Point>,
}

impl View for Polygon {
    type V = Seq<Point>;

    closed spec fn view(&self) -> Seq<Point> {
        self.points@
    }
}

impl Polygon {
    /// A shape without corners.
    pub fn new() -> (polygon: Polygon)
        ensures
            polygon@ == Seq::<Point>::empty(),
    {
        Polygon { points: Vec::new() }
    }

    /// The shape with the given corners.
    pub fn from_iterator(points: &[Point]) -> (polygon: Polygon)
        ensures
            polygon@ == points@,
    {
        let mut rv = Polygon::new();
        let mut index: usize = 0;
        while index < points.len()
            invariant
                index <= points@.len(),
                rv@ == points@.take(index as int),
            decreases points@.len() - index,
        {
            let point = points[index];
            rv.add_point(point.x, point.y);
            index = index + 1;
            assert(rv@ =~= points@.take(index as int));
        }
        assert(points@.take(index as int) =~= points@);
        rv
    }

    /// Adds the corner (`x`, `y`) behind the last one.
    pub fn add_point(&mut self, x: i32, y: i32)
        ensures
            final(self)@ == old(self)@.push(Point { x, y }),
    {
        self.points.push(Point { x, y });
    }
}

/// The triangles that a triangulation has made.
pub struct TriangleVec {
    triangles: Vec<Triangle>,
}

impl View for TriangleVec {
    type V = Seq<Triangle>;

    closed spec fn view(&self) -> Seq<Triangle> {
        self.triangles@
    }
}

impl TriangleVec {
    /// The number of triangles.
    pub fn size(&self) -> (size: usize)
        ensures
            size == self@.len(),
    {
        self.triangles.len()
    }

    /// The triangle at `idx`.
    pub fn get_triangle(&self, idx: usize) -> (triangle: Triangle)
        requires
            idx < self@.len(),
        ensures
            triangle == self@[idx as int],
    {
        self.triangles[idx]
    }
}

/// A triangulation that is set up for one shape.
pub struct Triangulator {
    polygon: Polygon,
}

impl Triangulator {
    /// The shape that is to be triangulated.
    pub closed spec fn shape(self) -> Seq<Point> {
        self.polygon@
    }

    /// Sets a triangulation up for `polygon`.
    pub fn new(polygon: Polygon) -> (triangulator: Triangulator)
        ensures
            triangulator.shape() == polygon@,
    {
        Triangulator { polygon }
    }

    /// Cuts the shape into triangles.
    pub fn triangulate(self) -> (triangles: TriangleVec)
        ensures
            triangles@ == triangulation(self.shape()),
    {
        let shape = self.polygon.points;
        let doubled = area::doubled_area(&shape);
        if doubled == 0 || shape.len() < 3 {
            return TriangleVec { triangles: Vec::new() };
        }
        let ccw = doubled > 0;
        let mut remaining = shape;
        let mut triangles: Vec<Triangle> = Vec::new();
        assert(triangles@ + seq![] =~= seq![]);
        while remaining.len() > 3
            invariant
                remaining@.len() >= 3,
                area::twice_area(self.shape()) != 0,
                ccw == (area::twice_area(self.shape()) > 0),
                ear_clipping(self.shape(), ccw) == match ear_clipping(remaining@, ccw) {
                    Some(rest) => Some(triangles@ + rest),
                    None => None,
                },
            decreases remaining@.len(),
        {
            let n = remaining.len();
            let i = find_ear(&remaining, ccw);
            if i >= n {
                assert(ear_clipping(remaining@, ccw) is None);
                return TriangleVec { triangles: Vec::new() };
            }
            let h = if i == 0 {
                n - 1
            } else {
                i - 1
            };
            let j = if i == n - 1 {
                0
            } else {
                i + 1
            };
            let ear = Triangle { points: [remaining[h], remaining[i], remaining[j]] };
            assert(ear == triangle(remaining@[h as int], remaining@[i as int], remaining@[j as int]));
            let ghost cut = remaining@.remove(i as int);
            let ghost before_cut = triangles@;
            triangles.push(ear);
            remaining.remove(i);
            assert(match ear_clipping(cut, ccw) {
                Some(rest) => before_cut + (seq![ear] + rest) =~= triangles@ + rest,
                None => true,
            });
        }
        let (a, b, c) = (remaining[0], remaining[1], remaining[2]);
        if turning(ccw, a, b, c) > 0 {
            let last = Triangle { points: [a, b, c] };
            assert(last == triangle(a, b, c));
            let ghost before_last = triangles@;
            triangles.push(last);
            assert(before_last + seq![last] =~= triangles@);
            TriangleVec { triangles }
        } else {
            TriangleVec { triangles: Vec::new() }
        }
    }
}

/// Computes [`turn`].
fn turning(ccw: bool, a: Point, b: Point, c: Point) -> (doubled: i128)
    ensures
        doubled == turn(ccw, a, b, c),
{
    if ccw {
        orientation(a, b, c)
    } else {
        0 - orientation(a, b, c)
    }
}

/// Whether `p` lies in the triangle `a`, `b`, `c`.
fn triangle_holds(ccw: bool, a: Point, b: Point, c: Point, p: Point) -> (inside: bool)
    ensures
        inside == in_triangle(ccw, a, b, c, p),
{
    turning(ccw, a, b, p) >= 0 && turning(ccw, b, c, p) >= 0 && turning(ccw, c, a, p) >= 0
}

/// Whether the corner `i` of `shape` is an ear.
fn ear_at(shape: &Vec<Point>, ccw: bool, i: usize) -> (ear: bool)
    requires
        shape@.len() >= 3,
        i < shape@.len(),
    ensures
        ear == is_ear(shape@, ccw, i as int),
{
    let n = shape.len();
    let h = if i == 0 {
        n - 1
    } else {
        i - 1
    };
    let j = if i == n - 1 {
        0
    } else {
        i + 1
    };
    let (a, b, c) = (shape[h], shape[i], shape[j]);
    if turning(ccw, a, b, c) <= 0 {
        return false;
    }
    let mut k: usize = 0;
    while k < n
        invariant
            n == shape@.len(),
            k <= n,
            h == before(n as int, i as int),
            j == after(n as int, i as int),
            a == shape@[h as int],
            b == shape@[i as int],
            c == shape@[j as int],
            forall|m: int|
                0 <= m < k && m != h && m != i && m != j ==> !in_triangle(
                    ccw,
                    a,
                    b,
                    c,
                    #[trigger] shape@[m],
                ),
        decreases n - k,
    {
        if k != h && k != i && k != j && triangle_holds(ccw, a, b, c, shape[k]) {
            return false;
        }
        k = k + 1;
    }
    true
}

/// The first ear of `shape`; the number of its corners where it has none.
fn find_ear(shape: &Vec<Point>, ccw: bool) -> (i: usize)
    requires
        shape@.len() >= 3,
    ensures
        i == first_ear(shape@, ccw, 0),
{
    let mut i: usize = 0;
    while i < shape.len()
        invariant
            shape@.len() >= 3,
            i <= shape@.len(),
            first_ear(shape@, ccw, 0) == first_ear(shape@, ccw, i as int),
        decreases shape@.len() - i,
    {
        if ear_at(shape, ccw, i) {
            return i;
        }
        i = i + 1;
    }
    i
}

/// Cuts the closed shape with the corners `points` into triangles.
pub fn triangulate_points(points: &[Point]) -> (triangles: TriangleVec)
    ensures
        triangles@ == triangulation(points@),
{
    Triangulator::new(Polygon::from_iterator(points)).triangulate()
}

} // verus!
