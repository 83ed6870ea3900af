//! Splitting of an outline that may cross itself into closed shapes: the
//! walk along the outline starts a new shape at every crossing it finds.

use vstd::prelude::*;
use crate::point::{lemma_cross_bound, lemma_mul_bound, Point};

verus! {

/// The cross product of the vectors (`ax`, `ay`) and (`bx`, `by`).
pub open spec fn cross(ax: int, ay: int, bx: int, by: int) -> int {
    ax * by - ay * bx
}

/// The integer nearest to `a / d` for a positive `d`; of two that are
/// equally near, the one farther from zero.
pub open spec fn round_div(a: int, d: int) -> int {
    if a >= 0 {
        (2 * a + d) / (2 * d)
    } else {
        -((d - 2 * a) / (2 * d))
    }
}

/// The integer nearest to `a / d` for any `d` but zero; of two that are
/// equally near, the one farther from zero.
pub open spec fn round_ratio(a: int, d: int) -> int {
    if d > 0 {
        round_div(a, d)
    } else {
        round_div(-a, -d)
    }
}

/// `0 <= n / d <= 1`, for any `d` but zero.
pub open spec fn in_unit_range(n: int, d: int) -> bool {
    (d > 0 && 0 <= n <= d) || (d < 0 && d <= n <= 0)
}

/// The point in which the segments `line` and `other` cross, rounded to the
/// nearest point of the pixel grid; `None` where they are parallel or do
/// not reach each other.
///
/// With `p`, `q` the starts of the two segments and `r`, `s` their
/// directions, the segments meet where `p + t r == q + u s`, that is at
/// `t = (q - p) x s / (r x s)` and `u = (q - p) x r / (r x s)`, and they
/// cross if both `t` and `u` lie in `[0, 1]`.
pub open spec fn crossing(line: (Point, Point), other: (Point, Point)) -> Option<Point> {
    let p = line.0;
    let q = other.0;
    let (rx, ry) = (line.1.x - p.x, line.1.y - p.y);
    let (sx, sy) = (other.1.x - q.x, other.1.y - q.y);
    let r_cross_s = cross(rx, ry, sx, sy);
    let t = cross(q.x - p.x, q.y - p.y, sx, sy);
    let u = cross(q.x - p.x, q.y - p.y, rx, ry);
    if r_cross_s != 0 && in_unit_range(t, r_cross_s) && in_unit_range(u, r_cross_s) {
        Some(
            Point {
                x: round_ratio(p.x * r_cross_s + t * rx, r_cross_s) as i32,
                y: round_ratio(p.y * r_cross_s + t * ry, r_cross_s) as i32,
            },
        )
    } else {
        None
    }
}

/// The segments between each point of `path` and the next.
pub open spec fn segments_of(path: Seq<Point>) -> Seq<(Point, Point)> {
    Seq::new((path.len() - 1) as nat, |i: int| (path[i], path[i + 1]))
}

/// Two segments that have an end in common.
pub open spec fn connected(line: (Point, Point), other: (Point, Point)) -> bool {
    line.1 == other.0 || line.0 == other.1 || line.0 == other.0 || line.1 == other.1
}

/// The crossing of two segments that the walk takes note of: none for
/// segments that are connected, which meet in their common end without
/// crossing.
pub open spec fn meeting(line: (Point, Point), other: (Point, Point)) -> Option<Point> {
    if connected(line, other) {
        None
    } else {
        crossing(line, other)
    }
}

/// `shape` with `point` put at its end, unless `point` is where the shape
/// ends already or where it starts.
pub open spec fn appended(shape: Seq<Point>, point: Point) -> Seq<Point> {
    if shape.len() == 0 || (shape.last() != point && shape[0] != point) {
        shape.push(point)
    } else {
        shape
    }
}

/// `shapes` with `point` appended to the last of them.
pub open spec fn appended_to_last(shapes: Seq<Seq<Point>>, point: Point) -> Seq<Seq<Point>> {
    shapes.update(shapes.len() - 1, appended(shapes.last(), point))
}

/// The shapes once the segment `index` has been held against the segments
/// from `index + 1` up to, not including, `upto`: each crossing closes the
/// last shape and starts a new one.
pub open spec fn after_siblings(
    segments: Seq<(Point, Point)>,
    shapes: Seq<Seq<Point>>,
    index: int,
    upto: int,
) -> Seq<Seq<Point>>
    decreases upto - index,
{
    if upto <= index + 1 {
        shapes
    } else {
        let before = after_siblings(segments, shapes, index, upto - 1);
        match meeting(segments[index], segments[upto - 1]) {
            Some(point_intersect) => appended_to_last(before, point_intersect).push(
                seq![point_intersect],
            ),
            None => before,
        }
    }
}

/// The shapes once the walk has passed the first `upto` segments: at each
/// it appends the segment's start to the last shape, then looks for
/// crossings with the segments that follow.
pub open spec fn after_segments(segments: Seq<(Point, Point)>, upto: int) -> Seq<Seq<Point>>
    decreases upto,
{
    if upto <= 0 {
        seq![Seq::empty()]
    } else {
        after_siblings(
            segments,
            appended_to_last(after_segments(segments, upto - 1), segments[upto - 1].0),
            upto - 1,
            segments.len() as int,
        )
    }
}

/// The closed shapes into which an outline with the given segments and last
/// point splits.
pub open spec fn split_shapes(segments: Seq<(Point, Point)>, last_point: Point) -> Seq<
    Seq<Point>,
> {
    let walked = after_segments(segments, segments.len() as int);
    walked.update(0, appended(walked[0], last_point))
}

/// The points of each shape in `shapes`.
pub open spec fn views(shapes: Seq<Vec<Point>>) -> Seq<Seq<Point>> {
    Seq::new(shapes.len(), |i: int| shapes[i]@)
}

/// The number of segments from `index + 1` up to, not including, `upto`
/// that cross the segment `index`.
pub open spec fn crossings_with(segments: Seq<(Point, Point)>, index: int, upto: int) -> int
    decreases upto - index,
{
    if upto <= index + 1 {
        0
    } else if meeting(segments[index], segments[upto - 1]) is Some {
        crossings_with(segments, index, upto - 1) + 1
    } else {
        crossings_with(segments, index, upto - 1)
    }
}

/// The number of crossings that the walk finds at the first `upto`
/// segments, each with a segment that follows it.
pub open spec fn crossings(segments: Seq<(Point, Point)>, upto: int) -> int
    decreases upto,
{
    if upto <= 0 {
        0
    } else {
        crossings(segments, upto - 1) + crossings_with(
            segments,
            upto - 1,
            segments.len() as int,
        )
    }
}

/// Each crossing of a segment adds one shape.
proof fn lemma_after_siblings_len(
    segments: Seq<(Point, Point)>,
    shapes: Seq<Seq<Point>>,
    index: int,
    upto: int,
)
    requires
        shapes.len() > 0,
    ensures
        after_siblings(segments, shapes, index, upto).len() == shapes.len() + crossings_with(
            segments,
            index,
            upto,
        ),
        crossings_with(segments, index, upto) >= 0,
    decreases upto - index,
{
    if upto > index + 1 {
        lemma_after_siblings_len(segments, shapes, index, upto - 1);
    }
}

/// The walk starts with one shape, and each crossing adds one.
proof fn lemma_after_segments_len(segments: Seq<(Point, Point)>, upto: int)
    ensures
        after_segments(segments, upto).len() == 1 + crossings(segments, upto),
        crossings(segments, upto) >= 0,
    decreases upto,
{
    if upto > 0 {
        lemma_after_segments_len(segments, upto - 1);
        lemma_after_siblings_len(
            segments,
            appended_to_last(after_segments(segments, upto - 1), segments[upto - 1].0),
            upto - 1,
            segments.len() as int,
        );
    }
}

/// An outline splits into one shape more than it has crossings: into one
/// where it does not cross itself, into two where it does so once.
pub proof fn lemma_split_shapes_len(segments: Seq<(Point, Point)>, last_point: Point)
    ensures
        split_shapes(segments, last_point).len() == 1 + crossings(
            segments,
            segments.len() as int,
        ),
        split_shapes(segments, last_point).len() >= 1,
{
    lemma_after_segments_len(segments, segments.len() as int);
}

/// The first `n` points of `path`, appended one after the other to a shape
/// that starts empty.
pub open spec fn traced(path: Seq<Point>, n: int) -> Seq<Point>
    decreases n,
{
    if n <= 0 {
        Seq::empty()
    } else {
        appended(traced(path, n - 1), path[n - 1])
    }
}

/// No segment of the outline crosses another one that is not connected to
/// it.
pub open spec fn is_free_of_crossings(segments: Seq<(Point, Point)>) -> bool {
    forall|i: int, j: int|
        0 <= i < j < segments.len() ==> meeting(#[trigger] segments[i], #[trigger] segments[j])
            is None
}

/// Without a crossing the siblings of a segment leave the shapes as they
/// are.
proof fn lemma_after_siblings_without_crossing(
    segments: Seq<(Point, Point)>,
    shapes: Seq<Seq<Point>>,
    index: int,
    upto: int,
)
    requires
        is_free_of_crossings(segments),
        0 <= index,
        upto <= segments.len(),
    ensures
        after_siblings(segments, shapes, index, upto) == shapes,
    decreases upto - index,
{
    if upto > index + 1 {
        lemma_after_siblings_without_crossing(segments, shapes, index, upto - 1);
        assert(meeting(segments[index], segments[upto - 1]) is None);
    }
}

/// Without a crossing the walk keeps to its one shape.
proof fn lemma_after_segments_without_crossing(path: Seq<Point>, upto: int)
    requires
        path.len() >= 1,
        is_free_of_crossings(segments_of(path)),
        0 <= upto <= path.len() - 1,
    ensures
        after_segments(segments_of(path), upto) == seq![traced(path, upto)],
    decreases upto,
{
    let segments = segments_of(path);
    if upto > 0 {
        lemma_after_segments_without_crossing(path, upto - 1);
        let before = after_segments(segments, upto - 1);
        let opened = appended_to_last(before, segments[upto - 1].0);
        assert(opened =~= seq![traced(path, upto)]);
        lemma_after_siblings_without_crossing(segments, opened, upto - 1, segments.len() as int);
    } else {
        assert(traced(path, 0) =~= Seq::<Point>::empty());
    }
}

/// An outline that does not cross itself is one closed shape: its points in
/// their order, without those that repeat the point before them or the
/// first one.
pub proof fn lemma_split_without_crossing(path: Seq<Point>)
    requires
        path.len() >= 1,
        is_free_of_crossings(segments_of(path)),
    ensures
        split_shapes(segments_of(path), path.last()) == seq![traced(path, path.len() as int)],
{
    let segments = segments_of(path);
    lemma_after_segments_without_crossing(path, path.len() - 1);
    let walked = after_segments(segments, segments.len() as int);
    assert(walked.update(0, appended(walked[0], path.last())) =~= seq![
        traced(path, path.len() as int),
    ]);
}

/// Where no point of the outline repeats the point before it or the first
/// one, the shape that is traced along it is the outline itself.
pub proof fn lemma_traced_of_distinct(path: Seq<Point>, n: int)
    requires
        0 <= n <= path.len(),
        forall|i: int| 0 < i < n ==> path[i] != path[i - 1] && #[trigger] path[i] != path[0],
    ensures
        traced(path, n) == path.take(n),
    decreases n,
{
    if n > 0 {
        lemma_traced_of_distinct(path, n - 1);
        assert(path.take(n - 1).push(path[n - 1]) =~= path.take(n));
        if n > 1 {
            assert(path.take(n - 1).last() == path[n - 2]);
            assert(path.take(n - 1)[0] == path[0]);
        }
    } else {
        assert(traced(path, n) =~= path.take(n));
    }
}

/// A product of two 64-bit numbers, and a difference of two, fit 128 bits.
proof fn lemma_product_bound(a: int, b: int)
    by (nonlinear_arith)
    requires
        -0x8000_0000_0000_0000 <= a <= 0x7fff_ffff_ffff_ffff,
        -0x8000_0000_0000_0000 <= b <= 0x7fff_ffff_ffff_ffff,
    ensures
        -0x3fff_ffff_ffff_ffff_8000_0000_0000_0000 <= a * b
            <= 0x4000_0000_0000_0000_0000_0000_0000_0000,
{
}

/// Rounding a ratio that lies between two integers gives a value between
/// them.
pub proof fn lemma_round_div_between(a: int, d: int, low: int, high: int)
    requires
        d > 0,
        low * d <= a <= high * d,
    ensures
        low <= round_div(a, d) <= high,
{
    if a >= 0 {
        let q = (2 * a + d) / (2 * d);
        assert(low <= q <= high) by (nonlinear_arith)
            requires
                d > 0,
                a >= 0,
                low * d <= a <= high * d,
                q == (2 * a + d) / (2 * d),
        ;
    } else {
        let q = (d - 2 * a) / (2 * d);
        assert(low <= -q <= high) by (nonlinear_arith)
            requires
                d > 0,
                a < 0,
                low * d <= a <= high * d,
                q == (d - 2 * a) / (2 * d),
        ;
    }
}

/// The rounded ratio is a nearest integer: it misses `a / d` by at most a
/// half.
pub proof fn lemma_round_div_nearest(a: int, d: int)
    requires
        d > 0,
    ensures
        -d <= 2 * (round_div(a, d) * d - a) <= d,
{
    if a >= 0 {
        let q = (2 * a + d) / (2 * d);
        assert(-d <= 2 * (q * d - a) <= d) by (nonlinear_arith)
            requires
                d > 0,
                a >= 0,
                q == (2 * a + d) / (2 * d),
        ;
    } else {
        let q = (d - 2 * a) / (2 * d);
        assert(-d <= 2 * ((-q) * d - a) <= d) by (nonlinear_arith)
            requires
                d > 0,
                a < 0,
                q == (d - 2 * a) / (2 * d),
        ;
    }
}

/// A crossing lies between the two ends of the segment, coordinate by
/// coordinate, and so does its rounded form.
pub proof fn lemma_crossing_between(start: int, delta: int, t: int, d: int)
    requires
        d != 0,
        in_unit_range(t, d),
    ensures
        delta >= 0 ==> start <= round_ratio(start * d + t * delta, d) <= start + delta,
        delta <= 0 ==> start + delta <= round_ratio(start * d + t * delta, d) <= start,
{
    let (tt, dd) = if d > 0 {
        (t, d)
    } else {
        (-t, -d)
    };
    let a = start * dd + tt * delta;
    assert(d < 0 ==> a == -(start * d + t * delta)) by (nonlinear_arith)
        requires
            a == start * dd + tt * delta,
            d < 0 ==> tt == -t && dd == -d,
    ;
    assert(delta >= 0 ==> start * dd <= a <= (start + delta) * dd) by (nonlinear_arith)
        requires
            a == start * dd + tt * delta,
            0 <= tt <= dd,
    ;
    assert(delta <= 0 ==> (start + delta) * dd <= a <= start * dd) by (nonlinear_arith)
        requires
            a == start * dd + tt * delta,
            0 <= tt <= dd,
    ;
    if delta >= 0 {
        lemma_round_div_between(a, dd, start, start + delta);
    }
    if delta <= 0 {
        lemma_round_div_between(a, dd, start + delta, start);
    }
}

/// Walks an outline once and splits it, at the points where it crosses
/// itself, into closed shapes.
pub struct ShapeSplitter {
    last_point: Point,
    path_segments: Vec<(Point, Point)>,
}

impl ShapeSplitter {
    /// The segments of the outline, in the order of the walk.
    pub closed spec fn segments(self) -> Seq<(Point, Point)> {
        self.path_segments@
    }

    /// The point at which the outline ends.
    pub closed spec fn last_point(self) -> Point {
        self.last_point
    }

    /// A splitter for `path`, which needs three points at least.
    pub fn try_from(path: &[Point]) -> (splitter: Result<Self, ()>)
        ensures
            splitter is Ok <==> path@.len() >= 3,
            splitter matches Ok(s) ==> s.segments() == segments_of(path@) && s.last_point()
                == path@.last(),
    {
        if path.len() >= 3 {
            let mut path_segments: Vec<(Point, Point)> = Vec::new();
            let mut index: usize = 0;
            while index < path.len() - 1
                invariant
                    path@.len() >= 3,
                    index <= path@.len() - 1,
                    path_segments@.len() == index,
                    forall|i: int|
                        0 <= i < index ==> path_segments@[i] == (path@[i], path@[i + 1]),
                decreases path@.len() - index,
            {
                let (current_point, next_point) = (path[index], path[index + 1]);
                path_segments.push((current_point, next_point));
                index = index + 1;
            }
            assert(path_segments@ =~= segments_of(path@));
            Ok(Self { last_point: path[path.len() - 1], path_segments })
        } else {
            Err(())
        }
    }

    /// The closed shapes of the outline.
    pub fn collect(&self) -> (closed_shapes: Vec<Vec<Point>>)
        ensures
            views(closed_shapes@) == split_shapes(self.segments(), self.last_point()),
    {
        let ghost segments = self.path_segments@;
        let mut closed_shapes: Vec<Vec<Point>> = Vec::new();
        closed_shapes.push(Vec::new());
        let mut current_shape_index: usize = 0;
        assert(views(closed_shapes@) =~= seq![Seq::<Point>::empty()]);
        let mut index: usize = 0;
        while index < self.path_segments.len()
            invariant
                segments == self.path_segments@,
                index <= segments.len(),
                closed_shapes@.len() == current_shape_index + 1,
                views(closed_shapes@) == after_segments(segments, index as int),
            decreases segments.len() - index,
        {
            let path_segment = self.path_segments[index];
            let ghost walked = views(closed_shapes@);
            Self::append_point(&mut closed_shapes[current_shape_index], path_segment.0);
            assert(views(closed_shapes@) =~= appended_to_last(walked, path_segment.0));
            let ghost opened = views(closed_shapes@);
            let mut sibling_index: usize = index + 1;
            while sibling_index < self.path_segments.len()
                invariant
                    segments == self.path_segments@,
                    index < segments.len(),
                    path_segment == segments[index as int],
                    index < sibling_index <= segments.len(),
                    closed_shapes@.len() == current_shape_index + 1,
                    views(closed_shapes@) == after_siblings(
                        segments,
                        opened,
                        index as int,
                        sibling_index as int,
                    ),
                decreases segments.len() - sibling_index,
            {
                let sibling_path_segment = self.path_segments[sibling_index];
                let ghost before = views(closed_shapes@);
                if path_segment.1 != sibling_path_segment.0 && path_segment.0
                    != sibling_path_segment.1 && path_segment.0 != sibling_path_segment.0
                    && path_segment.1 != sibling_path_segment.1 {
                    let intersection = Self::intersects(&path_segment, &sibling_path_segment);
                    if let Some(point_intersect) = intersection {
                        Self::append_point(
                            &mut closed_shapes[current_shape_index],
                            point_intersect,
                        );
                        let mut opening: Vec<Point> = Vec::new();
                        opening.push(point_intersect);
                        closed_shapes.push(opening);
                        current_shape_index = closed_shapes.len() - 1;
                        assert(views(closed_shapes@) =~= appended_to_last(
                            before,
                            point_intersect,
                        ).push(seq![point_intersect]));
                    }
                }
                sibling_index = sibling_index + 1;
            }
            index = index + 1;
        }
        let ghost walked = views(closed_shapes@);
        Self::append_point(&mut closed_shapes[0], self.last_point);
        assert(views(closed_shapes@) =~= walked.update(0, appended(walked[0], self.last_point)));
        closed_shapes
    }

    /// The point in which two segments cross, if they do.
    pub fn intersects(line: &(Point, Point), other: &(Point, Point)) -> (point: Option<Point>)
        ensures
            point == crossing(*line, *other),
    {
        let p = line.0;
        let q = other.0;
        let r: (i64, i64) = (line.1.x as i64 - p.x as i64, line.1.y as i64 - p.y as i64);
        let s: (i64, i64) = (other.1.x as i64 - q.x as i64, other.1.y as i64 - q.y as i64);
        let q_minus_p: (i64, i64) = (q.x as i64 - p.x as i64, q.y as i64 - p.y as i64);
        let r_cross_s: i128 = Self::point_cross(&r, &s);
        if r_cross_s == 0 {
            None
        } else {
            let t: i128 = Self::point_cross(&q_minus_p, &s);
            let u: i128 = Self::point_cross(&q_minus_p, &r);
            proof {
                lemma_cross_bound(r.0 as int, s.1 as int, r.1 as int, s.0 as int);
                lemma_cross_bound(
                    q_minus_p.0 as int,
                    s.1 as int,
                    q_minus_p.1 as int,
                    s.0 as int,
                );
                lemma_cross_bound(
                    q_minus_p.0 as int,
                    r.1 as int,
                    q_minus_p.1 as int,
                    r.0 as int,
                );
            }
            let t_in_range = Self::in_range(t, r_cross_s);
            let u_in_range = Self::in_range(u, r_cross_s);
            if t_in_range && u_in_range {
                proof {
                    let bound = 0x1_ffff_fffc_0000_0002int;
                    lemma_mul_bound(p.x as int, r_cross_s as int, 0x8000_0000, bound);
                    lemma_mul_bound(p.y as int, r_cross_s as int, 0x8000_0000, bound);
                    lemma_mul_bound(t as int, r.0 as int, bound, 0xffff_ffff);
                    lemma_mul_bound(t as int, r.1 as int, bound, 0xffff_ffff);
                    lemma_crossing_between(p.x as int, r.0 as int, t as int, r_cross_s as int);
                    lemma_crossing_between(p.y as int, r.1 as int, t as int, r_cross_s as int);
                }
                let x: i128 = Self::point_divide(
                    p.x as i128 * r_cross_s + t * (r.0 as i128),
                    r_cross_s,
                );
                let y: i128 = Self::point_divide(
                    p.y as i128 * r_cross_s + t * (r.1 as i128),
                    r_cross_s,
                );
                Some(Point { x: x as i32, y: y as i32 })
            } else {
                None
            }
        }
    }

    /// Whether `numerator / denominator` lies in `[0, 1]`.
    fn in_range(numerator: i128, denominator: i128) -> (inside: bool)
        requires
            denominator != 0,
        ensures
            inside == in_unit_range(numerator as int, denominator as int),
    {
        if denominator > 0 {
            0 <= numerator && numerator <= denominator
        } else {
            denominator <= numerator && numerator <= 0
        }
    }

    /// The cross product of two vectors.
    pub fn point_cross(point: &(i64, i64), other: &(i64, i64)) -> (product: i128)
        ensures
            product == cross(point.0 as int, point.1 as int, other.0 as int, other.1 as int),
    {
        proof {
            lemma_product_bound(point.0 as int, other.1 as int);
            lemma_product_bound(point.1 as int, other.0 as int);
        }
        (point.0 as i128) * (other.1 as i128) - (point.1 as i128) * (other.0 as i128)
    }

    /// The quotient of two numbers, rounded to the nearest integer, away
    /// from zero where two are equally near.
    fn point_divide(numerator: i128, denominator: i128) -> (quotient: i128)
        requires
            denominator != 0,
            -0x1_0000_0000_0000_0000_0000_0000_0000 <= numerator
                <= 0x1_0000_0000_0000_0000_0000_0000_0000,
            -0x1_0000_0000_0000_0000_0000_0000_0000 <= denominator
                <= 0x1_0000_0000_0000_0000_0000_0000_0000,
        ensures
            quotient == round_ratio(numerator as int, denominator as int),
    {
        let negative = (numerator < 0) != (denominator < 0);
        let n: u128 = if numerator < 0 {
            (0 - numerator) as u128
        } else {
            numerator as u128
        };
        let d: u128 = if denominator < 0 {
            (0 - denominator) as u128
        } else {
            denominator as u128
        };
        let q: u128 = (2 * n + d) / (2 * d);
        assert(q <= 2 * n + d && (n == 0 ==> q == 0)) by (nonlinear_arith)
            requires
                q == (2 * n + d) / (2 * d),
                d > 0,
        ;
        if negative {
            0 - (q as i128)
        } else {
            q as i128
        }
    }

    /// Puts `point` at the end of `container`, unless it is where the shape
    /// ends already or where it starts.
    pub fn append_point(container: &mut Vec<Point>, point: Point)
        ensures
            final(container)@ == appended(old(container)@, point),
    {
        let container_size = container.len();
        if container_size == 0 || (container[container_size - 1] != point && container[0]
            != point) {
            container.push(point);
        }
    }
}

} // verus!
