//! Simplification of a polygon outline: repeated points go, and of every
//! axis-aligned run of points only the two ends stay.

use vstd::prelude::*;
use crate::point::{orient, Point};
use crate::triangulate::area::{
    chain, lace, lemma_orient_is_lace, lemma_twice_area_remove, twice_area,
};

verus! {

/// The outline with every block of consecutive equal points collapsed to one.
pub open spec fn dedup(s: Seq<Point>) -> Seq<Point>
    decreases s.len(),
{
    if s.len() == 0 {
        s
    } else if s.len() >= 2 && s[s.len() - 2] == s.last() {
        dedup(s.drop_last())
    } else {
        dedup(s.drop_last()).push(s.last())
    }
}

/// `b` lies between `a` and `c` on one vertical or one horizontal run.
pub open spec fn on_run(a: Point, b: Point, c: Point) -> bool {
    (a.x == b.x && b.x == c.x) || (a.y == b.y && b.y == c.y)
}

/// Whether the point at index `k` of the de-duplicated outline `d` survives:
/// the two ends always do, an inner point unless it is inside a run.
pub open spec fn kept(d: Seq<Point>, k: int) -> bool {
    k == 0 || k == d.len() - 1 || !on_run(d[k - 1], d[k], d[k + 1])
}

/// The surviving points among the first `n` of `d`, in order.
pub open spec fn thin_upto(d: Seq<Point>, n: int) -> Seq<Point>
    decreases n,
{
    if n <= 0 {
        Seq::empty()
    } else if kept(d, n - 1) {
        thin_upto(d, n - 1).push(d[n - 1])
    } else {
        thin_upto(d, n - 1)
    }
}

/// What simplification makes of the outline `s`.
pub open spec fn simplified(s: Seq<Point>) -> Seq<Point> {
    thin_upto(dedup(s), dedup(s).len() as int)
}

/// An outline on which simplification has nothing to do: no point is
/// repeated at once, and no point lies inside an axis-aligned run.
pub open spec fn is_reduced(s: Seq<Point>) -> bool {
    &&& forall|i: int| 0 <= i < s.len() - 1 ==> s[i] != #[trigger] s[i + 1]
    &&& forall|i: int| 0 < i < s.len() - 1 ==> !on_run(s[i - 1], #[trigger] s[i], s[i + 1])
}

/// The run that the simplifier is inside of, if any.
#[derive(Clone, Copy, Debug, PartialEq, Eq, Structural)]
pub enum PathSimplifierGroup {
    /// Not inside a run.
    Outside,
    /// Inside a vertical run, on which every point has this x.
    X(i32),
    /// Inside a horizontal run, on which every point has this y.
    Y(i32),
}

/// The group after the simplifier has moved from `before` to a different
/// point `point`.
pub open spec fn next_group(group: PathSimplifierGroup, before: Point, point: Point)
    -> PathSimplifierGroup {
    match group {
        PathSimplifierGroup::Outside => if before.x == point.x {
            PathSimplifierGroup::X(before.x)
        } else if before.y == point.y {
            PathSimplifierGroup::Y(before.y)
        } else {
            PathSimplifierGroup::Outside
        },
        PathSimplifierGroup::X(opener_x) => if point.x == opener_x {
            group
        } else if before.y == point.y {
            PathSimplifierGroup::Y(before.y)
        } else {
            PathSimplifierGroup::Outside
        },
        PathSimplifierGroup::Y(opener_y) => if point.y == opener_y {
            group
        } else if before.x == point.x {
            PathSimplifierGroup::X(before.x)
        } else {
            PathSimplifierGroup::Outside
        },
    }
}

/// Whether `before` is yielded when the simplifier moves on to a different
/// point `point`: always outside a run, and at the end of one.
pub open spec fn yields(group: PathSimplifierGroup, point: Point) -> bool {
    match group {
        PathSimplifierGroup::Outside => true,
        PathSimplifierGroup::X(opener_x) => point.x != opener_x,
        PathSimplifierGroup::Y(opener_y) => point.y != opener_y,
    }
}

/// The points that the simplifier yields from the state (`group`, `last`)
/// while it reads `rest`.
pub open spec fn run(rest: Seq<Point>, group: PathSimplifierGroup, last: Option<Point>) -> Seq<
    Point,
>
    decreases rest.len(),
{
    if rest.len() == 0 {
        match last {
            Some(p) => seq![p],
            None => Seq::empty(),
        }
    } else {
        let point = rest[0];
        match last {
            Some(before) if before != point => {
                let tail = run(rest.drop_first(), next_group(group, before, point), Some(point));
                if yields(group, point) {
                    seq![before] + tail
                } else {
                    tail
                }
            },
            _ => run(rest.drop_first(), group, Some(point)),
        }
    }
}

/// The group that the simplifier is in after it has read the outline whose
/// de-duplicated form is `d`.
pub open spec fn group_after(d: Seq<Point>) -> PathSimplifierGroup {
    if d.len() < 2 {
        PathSimplifierGroup::Outside
    } else if d[d.len() - 2].x == d.last().x {
        PathSimplifierGroup::X(d.last().x)
    } else if d[d.len() - 2].y == d.last().y {
        PathSimplifierGroup::Y(d.last().y)
    } else {
        PathSimplifierGroup::Outside
    }
}

/// De-duplication keeps the last point and leaves no two neighbours equal.
pub proof fn lemma_dedup(s: Seq<Point>)
    requires
        s.len() > 0,
    ensures
        0 < dedup(s).len() <= s.len(),
        dedup(s).last() == s.last(),
        dedup(s)[0] == s[0],
        forall|i: int| 0 <= i < dedup(s).len() - 1 ==> dedup(s)[i] != #[trigger] dedup(s)[i + 1],
    decreases s.len(),
{
    if s.len() >= 2 {
        lemma_dedup(s.drop_last());
    } else {
        assert(dedup(s.drop_last()) =~= Seq::<Point>::empty());
    }
}

/// Appending a point to `d` does not change which of its points survive,
/// the last one apart.
proof fn lemma_thin_extend(d: Seq<Point>, p: Point, n: int)
    requires
        n <= d.len() - 1,
    ensures
        thin_upto(d.push(p), n) == thin_upto(d, n),
    decreases n,
{
    if n > 0 {
        lemma_thin_extend(d, p, n - 1);
    }
}

/// What the simplifier yields after reading `pre`, put behind what it has
/// settled by then, is the simplification of the whole outline.
proof fn lemma_run(pre: Seq<Point>, rest: Seq<Point>)
    requires
        pre.len() > 0,
    ensures
        simplified(pre + rest) == thin_upto(dedup(pre), dedup(pre).len() - 1) + run(
            rest,
            group_after(dedup(pre)),
            Some(pre.last()),
        ),
    decreases rest.len(),
{
    let d = dedup(pre);
    let b = pre.last();
    lemma_dedup(pre);
    if rest.len() == 0 {
        assert(pre + rest =~= pre);
        assert(thin_upto(d, d.len() as int) =~= thin_upto(d, d.len() - 1) + seq![b]);
    } else {
        let p = rest[0];
        let pre2 = pre.push(p);
        let rest2 = rest.drop_first();
        assert(pre2 + rest2 =~= pre + rest);
        assert(pre2.drop_last() =~= pre);
        lemma_run(pre2, rest2);
        if p != b {
            let d2 = d.push(p);
            assert(dedup(pre2) == d2);
            lemma_thin_extend(d, p, d.len() - 1);
            let settled = thin_upto(d, d.len() - 1);
            let tail = run(rest2, group_after(d2), Some(p));
            assert(group_after(d2) == next_group(group_after(d), b, p));
            assert(kept(d2, d.len() - 1) == yields(group_after(d), p));
            if yields(group_after(d), p) {
                assert(settled.push(b) + tail =~= settled + (seq![b] + tail));
            }
        }
    }
}

/// Read from its start, the simplifier yields the simplification.
proof fn lemma_run_from_start(s: Seq<Point>)
    ensures
        run(s, PathSimplifierGroup::Outside, None) == simplified(s),
{
    if s.len() > 0 {
        let pre = seq![s[0]];
        let rest = s.drop_first();
        assert(pre + rest =~= s);
        assert(pre.drop_last() =~= Seq::<Point>::empty());
        assert(dedup(pre.drop_last()) =~= Seq::<Point>::empty());
        assert(dedup(pre) =~= pre);
        lemma_run(pre, rest);
        assert(thin_upto(pre, 0) + run(rest, PathSimplifierGroup::Outside, Some(s[0])) =~= run(
            rest,
            PathSimplifierGroup::Outside,
            Some(s[0]),
        ));
    }
}

/// An outline on which nothing is to be done comes back unchanged.
pub proof fn lemma_simplified_of_reduced(s: Seq<Point>)
    requires
        is_reduced(s),
    ensures
        simplified(s) == s,
{
    lemma_dedup_of_reduced(s, s.len() as int);
    assert(s.take(s.len() as int) =~= s);
    lemma_thin_of_reduced(s, s.len() as int);
}

/// De-duplication leaves an outline without repeated points as it is.
proof fn lemma_dedup_of_reduced(s: Seq<Point>, n: int)
    requires
        is_reduced(s),
        0 <= n <= s.len(),
    ensures
        dedup(s.take(n)) == s.take(n),
    decreases n,
{
    let t = s.take(n);
    if n > 0 {
        lemma_dedup_of_reduced(s, n - 1);
        assert(t.drop_last() =~= s.take(n - 1));
        if n >= 2 {
            assert(s[n - 2] != s[n - 2 + 1]);
        }
        assert(s.take(n - 1).push(s[n - 1]) =~= t);
    } else {
        assert(dedup(t) =~= t);
    }
}

/// All points survive of an outline that has none inside a run.
proof fn lemma_thin_of_reduced(s: Seq<Point>, n: int)
    requires
        is_reduced(s),
        0 <= n <= s.len(),
    ensures
        thin_upto(s, n) == s.take(n),
    decreases n,
{
    if n > 0 {
        lemma_thin_of_reduced(s, n - 1);
        assert(s.take(n - 1).push(s[n - 1]) =~= s.take(n));
    } else {
        assert(thin_upto(s, n) =~= s.take(n));
    }
}

/// Simplification keeps the two ends of an outline.
pub proof fn lemma_simplified_ends(s: Seq<Point>)
    requires
        s.len() > 0,
    ensures
        simplified(s).len() > 0,
        simplified(s).last() == s.last(),
        simplified(s)[0] == s[0],
{
    lemma_dedup(s);
    let d = dedup(s);
    lemma_thin_first(d, d.len() as int);
}

/// The first point survives, and comes first.
proof fn lemma_thin_first(d: Seq<Point>, n: int)
    requires
        0 < n <= d.len(),
    ensures
        thin_upto(d, n).len() > 0,
        thin_upto(d, n)[0] == d[0],
    decreases n,
{
    if n > 1 {
        lemma_thin_first(d, n - 1);
    } else {
        assert(thin_upto(d, 0) =~= Seq::<Point>::empty());
    }
}

/// Simplification never adds points.
pub proof fn lemma_simplified_len(s: Seq<Point>)
    ensures
        simplified(s).len() <= s.len(),
{
    if s.len() > 0 {
        lemma_dedup(s);
    }
    lemma_thin_len(dedup(s), dedup(s).len() as int);
}

/// Of `n` points no more than `n` survive.
proof fn lemma_thin_len(d: Seq<Point>, n: int)
    requires
        0 <= n,
    ensures
        thin_upto(d, n).len() <= n,
    decreases n,
{
    if n > 0 {
        lemma_thin_len(d, n - 1);
    }
}

/// Three points on one vertical or one horizontal run enclose no area.
proof fn lemma_orient_on_run(a: Point, b: Point, c: Point)
    requires
        on_run(a, b, c),
    ensures
        orient(a, b, c) == 0,
{
    assert(orient(a, b, c) == 0) by (nonlinear_arith)
        requires
            orient(a, b, c) == (b.x - a.x) * (c.y - a.y) - (b.y - a.y) * (c.x - a.x),
            (b.x - a.x == 0 && c.x - a.x == 0) || (b.y - a.y == 0 && c.y - a.y == 0),
    ;
}

/// A point put behind the last one of a closed shape adds to the doubled
/// area that of the triangle which it makes with the last and the first
/// point.
proof fn lemma_twice_area_push(shape: Seq<Point>, point: Point)
    requires
        shape.len() > 0,
    ensures
        twice_area(shape.push(point)) == twice_area(shape) + orient(
            shape.last(),
            point,
            shape[0],
        ),
{
    let longer = shape.push(point);
    assert(longer.drop_last() =~= shape);
    assert(chain(longer) == chain(shape) + lace(shape.last(), point));
    lemma_orient_is_lace(shape.last(), point, shape[0]);
    assert(lace(shape[0], shape.last()) == -lace(shape.last(), shape[0])) by {
        assert(shape[0].x * shape.last().y - shape.last().x * shape[0].y == -(shape.last().x
            * shape[0].y - shape[0].x * shape.last().y));
    }
}

/// De-duplication keeps the area that the closed outline encloses.
proof fn lemma_dedup_area(s: Seq<Point>)
    ensures
        twice_area(dedup(s)) == twice_area(s),
    decreases s.len(),
{
    if s.len() >= 2 {
        let shorter = s.drop_last();
        let point = s.last();
        lemma_dedup_area(shorter);
        lemma_dedup(shorter);
        assert(shorter.push(point) =~= s);
        lemma_twice_area_push(shorter, point);
        if shorter.last() == point {
            assert(orient(point, point, shorter[0]) == 0) by (nonlinear_arith)
                requires
                    orient(point, point, shorter[0]) == (point.x - point.x) * (shorter[0].y
                        - point.y) - (point.y - point.y) * (shorter[0].x - point.x),
            ;
        } else {
            lemma_twice_area_push(dedup(shorter), point);
        }
    } else if s.len() == 1 {
        assert(dedup(s.drop_last()) =~= Seq::<Point>::empty());
        assert(dedup(s) =~= s);
    }
}

/// The points that survive among the first `n`, followed by the points
/// from `n` on, enclose what the whole outline does; and the last survivor
/// lies on one run with the two points around `n - 1`, unless it is that
/// point itself.
proof fn lemma_thin_area_upto(d: Seq<Point>, n: int)
    requires
        1 <= n <= d.len(),
        forall|i: int| 0 <= i < d.len() - 1 ==> d[i] != #[trigger] d[i + 1],
    ensures
        thin_upto(d, n).len() >= 1,
        twice_area(thin_upto(d, n) + d.subrange(n, d.len() as int)) == twice_area(d),
        n < d.len() ==> thin_upto(d, n).last() == d[n - 1] || on_run(
            thin_upto(d, n).last(),
            d[n - 1],
            d[n],
        ),
    decreases n,
{
    let len = d.len() as int;
    if n == 1 {
        assert(thin_upto(d, 0) =~= Seq::<Point>::empty());
        assert(thin_upto(d, 1) =~= seq![d[0]]);
        assert(thin_upto(d, 1) + d.subrange(1, len) =~= d);
    } else {
        let m = n - 1;
        lemma_thin_area_upto(d, m);
        let settled = thin_upto(d, m);
        let before = settled + d.subrange(m, len);
        if kept(d, m) {
            assert(thin_upto(d, n) + d.subrange(n, len) =~= before);
        } else {
            let last = settled.last();
            let at = settled.len() as int;
            assert(before[at] == d[m]);
            assert(before[at - 1] == last);
            assert(before[at + 1] == d[m + 1]);
            assert(before.remove(at) =~= thin_upto(d, n) + d.subrange(n, len));
            lemma_twice_area_remove(before, at);
            assert(d[m - 1] != d[m - 1 + 1]);
            assert(on_run(last, d[m], d[m + 1]));
            lemma_orient_on_run(last, d[m], d[m + 1]);
        }
    }
}

/// Simplification keeps the area that the closed outline encloses: the
/// points that it drops lie on the line between their neighbours.
pub proof fn lemma_simplified_area(s: Seq<Point>)
    ensures
        twice_area(simplified(s)) == twice_area(s),
{
    lemma_dedup_area(s);
    let d = dedup(s);
    if d.len() > 0 {
        lemma_dedup(s);
        lemma_thin_area_upto(d, d.len() as int);
        assert(thin_upto(d, d.len() as int) + d.subrange(d.len() as int, d.len() as int)
            =~= thin_upto(d, d.len() as int));
    } else {
        assert(thin_upto(d, 0) =~= d);
    }
}

/// A single pass over an outline that yields its simplification point by
/// point.
pub struct PathSimplifier {
    source_points: Vec<Point>,
    position: usize,
    current_group: PathSimplifierGroup,
    last_point: Option<Point>,
}

impl PathSimplifier {
    #[verifier::type_invariant]
    spec fn well_formed(self) -> bool {
        self.position <= self.source_points.len()
    }

    /// The points that are still to come, in the order in which `next` will
    /// yield them.
    pub closed spec fn pending(self) -> Seq<Point> {
        run(
            self.source_points@.subrange(self.position as int, self.source_points.len() as int),
            self.current_group,
            self.last_point,
        )
    }

    /// A simplifier at the start of `source_points`.
    pub fn from(source_points: Vec<Point>) -> (simplifier: Self)
        ensures
            simplifier.pending() == simplified(source_points@),
            source_points@.len() > 0 ==> simplifier.pending().len() > 0
                && simplifier.pending().last() == source_points@.last(),
            is_reduced(source_points@) ==> simplifier.pending() == source_points@,
    {
        proof {
            if source_points@.len() > 0 {
                lemma_simplified_ends(source_points@);
            }
            if is_reduced(source_points@) {
                lemma_simplified_of_reduced(source_points@);
            }
            lemma_run_from_start(source_points@);
            assert(source_points@.subrange(0, source_points.len() as int) =~= source_points@);
        }
        Self {
            source_points,
            position: 0,
            current_group: PathSimplifierGroup::Outside,
            last_point: None,
        }
    }

    /// Yields the next point of the simplified outline, `None` once all
    /// have been yielded.
    pub fn next(&mut self) -> (point: Option<Point>)
        ensures
            match point {
                Some(p) => old(self).pending().len() > 0 && p == old(self).pending()[0]
                    && final(self).pending() == old(self).pending().drop_first(),
                None => old(self).pending().len() == 0 && final(self).pending().len() == 0,
            },
    {
        proof {
            use_type_invariant(&*self);
        }
        while self.position < self.source_points.len()
            invariant
                self.position <= self.source_points.len(),
                self.pending() == old(self).pending(),
            decreases self.source_points.len() - self.position,
        {
            let ghost rest = self.source_points@.subrange(
                self.position as int,
                self.source_points.len() as int,
            );
            let point = self.source_points[self.position];
            assert(rest[0] == point);
            assert(rest.drop_first() =~= self.source_points@.subrange(
                self.position + 1,
                self.source_points.len() as int,
            ));
            let before = self.last_point;
            let group = self.current_group;
            self.position = self.position + 1;
            self.last_point = Some(point);
            if let Some(point_before) = before {
                if point_before != point {
                    let mut do_yield = false;
                    match group {
                        PathSimplifierGroup::Outside => {
                            if point_before.x == point.x {
                                self.current_group = PathSimplifierGroup::X(point_before.x);
                            } else if point_before.y == point.y {
                                self.current_group = PathSimplifierGroup::Y(point_before.y);
                            }
                            do_yield = true;
                        },
                        PathSimplifierGroup::X(opener_x) => {
                            if point.x != opener_x {
                                if point_before.y == point.y {
                                    self.current_group = PathSimplifierGroup::Y(point_before.y);
                                } else {
                                    self.current_group = PathSimplifierGroup::Outside;
                                }
                                do_yield = true;
                            }
                        },
                        PathSimplifierGroup::Y(opener_y) => {
                            if point.y != opener_y {
                                if point_before.x == point.x {
                                    self.current_group = PathSimplifierGroup::X(point_before.x);
                                } else {
                                    self.current_group = PathSimplifierGroup::Outside;
                                }
                                do_yield = true;
                            }
                        },
                    }
                    assert(self.current_group == next_group(group, point_before, point));
                    assert(do_yield == yields(group, point));
                    if do_yield {
                        assert((seq![point_before] + self.pending()).drop_first()
                            =~= self.pending());
                        return Some(point_before);
                    }
                }
            }
        }
        assert(self.source_points@.subrange(
            self.position as int,
            self.source_points.len() as int,
        ) =~= Seq::<Point>::empty());
        if let Some(last_point) = self.last_point {
            self.last_point = None;
            assert(seq![last_point].drop_first() =~= Seq::<Point>::empty());
            return Some(last_point);
        }
        None
    }

    /// Runs the simplifier to its end and gathers what it yields.
    pub fn collect(self) -> (points: Vec<Point>)
        ensures
            points@ == self.pending(),
    {
        let mut simplifier = self;
        let mut points: Vec<Point> = Vec::new();
        loop
            invariant
                points@ + simplifier.pending() == self.pending(),
            ensures
                points@ == self.pending(),
            decreases simplifier.pending().len(),
        {
            let ghost before = simplifier.pending();
            match simplifier.next() {
                Some(p) => {
                    points.push(p);
                    assert(points@ + simplifier.pending() =~= (points@.drop_last() + before));
                },
                None => {
                    assert(points@ + simplifier.pending() =~= points@);
                    break ;
                },
            }
        }
        points
    }
}

} // verus!
