//! Largest-Triangle-Three-Buckets sampling (LTTB) of data points with
//! whole-number coordinates.
//!
//! A source that is longer than the threshold comes down to `threshold`
//! points. It keeps its first and its last point. The points between them
//! are cut into `threshold - 2` buckets of as equal a size as can be, and
//! from each bucket comes the point that spans the largest triangle with
//! the point picked before it and the mean of the bucket after it. A
//! threshold of two leaves the first and the last point, one of one the
//! first, and one of zero nothing.
//!
//! ## Known limitations
//! - X-values are meant to be in a strictly increasing order

use vstd::prelude::*;
use crate::point::{lemma_mul_bound, Point};

verus! {

/// Data point for [`LttbSource`].
pub trait DataPoint {
    /// The x value.
    spec fn x_spec(&self) -> i32;

    /// The y value.
    spec fn y_spec(&self) -> i32;

    /// x value for sampling, meant to be in a strictly increasing order
    fn x(&self) -> (x: i32)
        ensures
            x == self.x_spec(),
    ;

    /// y value for sampling
    fn y(&self) -> (y: i32)
        ensures
            y == self.y_spec(),
    ;
}

impl<D: DataPoint> DataPoint for &D {
    open spec fn x_spec(&self) -> i32 {
        (**self).x_spec()
    }

    open spec fn y_spec(&self) -> i32 {
        (**self).y_spec()
    }

    fn x(&self) -> (x: i32) {
        (*self).x()
    }

    fn y(&self) -> (y: i32) {
        (*self).y()
    }
}

impl DataPoint for Point {
    open spec fn x_spec(&self) -> i32 {
        self.x
    }

    open spec fn y_spec(&self) -> i32 {
        self.y
    }

    fn x(&self) -> (x: i32) {
        self.x
    }

    fn y(&self) -> (y: i32) {
        self.y
    }
}

/// The index at which the bucket `k` starts, in a source of `len` points
/// that is sampled down to `threshold`: the buckets share the points
/// between the first and the last evenly.
pub open spec fn bucket_start(k: int, len: int, threshold: int) -> int {
    (k * (len - 2)) / (threshold - 2) + 1
}

/// The index at which the bucket `k` ends: where the next one starts, and
/// at the end of the source at the latest.
pub open spec fn bucket_end(k: int, len: int, threshold: int) -> int {
    if bucket_start(k + 1, len, threshold) >= len {
        len
    } else {
        bucket_start(k + 1, len, threshold)
    }
}

/// The sum of the x values of the items from `from` up to, not including,
/// `to`.
pub open spec fn sum_x<D: DataPoint>(items: Seq<D>, from: int, to: int) -> int
    decreases to - from,
{
    if to <= from {
        0
    } else {
        sum_x(items, from, to - 1) + items[to - 1].x_spec()
    }
}

/// The sum of the y values of the items from `from` up to, not including,
/// `to`.
pub open spec fn sum_y<D: DataPoint>(items: Seq<D>, from: int, to: int) -> int
    decreases to - from,
{
    if to <= from {
        0
    } else {
        sum_y(items, from, to - 1) + items[to - 1].y_spec()
    }
}

/// The area of the triangle between (`ax`, `ay`), (`px`, `py`) and the mean
/// of `count` points whose coordinates add up to `sum_x` and `sum_y`, times
/// `2 * count`, which keeps it a whole number.
pub open spec fn area_at(ax: int, ay: int, px: int, py: int, sum_x: int, sum_y: int, count: int)
    -> int {
    let doubled = (ax * count - sum_x) * (py - ay) - (ax - px) * (sum_y - ay * count);
    if doubled >= 0 {
        doubled
    } else {
        -doubled
    }
}

/// The area of the triangle between `a`, `p` and the mean of `count`
/// points whose coordinates add up to `sum_x` and `sum_y`, times
/// `2 * count`.
pub open spec fn area<D: DataPoint>(a: D, p: D, sum_x: int, sum_y: int, count: int) -> int {
    area_at(
        a.x_spec() as int,
        a.y_spec() as int,
        p.x_spec() as int,
        p.y_spec() as int,
        sum_x,
        sum_y,
        count,
    )
}

/// The index from `from` up to, not including, `to` whose item spans the
/// largest triangle; of several, the first. Without such an index, `from`.
pub open spec fn largest<D: DataPoint>(
    items: Seq<D>,
    a: D,
    sum_x: int,
    sum_y: int,
    count: int,
    from: int,
    to: int,
) -> int
    decreases to - from,
{
    if to <= from + 1 {
        from
    } else {
        let before = largest(items, a, sum_x, sum_y, count, from, to - 1);
        if area(a, items[to - 1], sum_x, sum_y, count) > area(
            a,
            items[before],
            sum_x,
            sum_y,
            count,
        ) {
            to - 1
        } else {
            before
        }
    }
}

/// The index of the item that is the sample `k`, for a source of more than
/// `threshold` items.
pub open spec fn picked<D: DataPoint>(items: Seq<D>, threshold: int, k: int) -> int
    decreases k,
{
    let len = items.len() as int;
    if k <= 0 {
        0
    } else if k >= threshold - 1 {
        len - 1
    } else {
        let a = items[picked(items, threshold, k - 1)];
        let (start, end) = (bucket_start(k, len, threshold), bucket_end(k, len, threshold));
        largest(
            items,
            a,
            sum_x(items, start, end),
            sum_y(items, start, end),
            end - start,
            bucket_start(k - 1, len, threshold),
            start,
        )
    }
}

/// Whether a source of `len` items is sampled at all: only where it is
/// longer than the threshold.
pub open spec fn is_sampled(len: int, threshold: int) -> bool {
    threshold < len
}

/// What sampling down to `threshold` makes of `items`.
pub open spec fn sampled<D: DataPoint>(items: Seq<D>, threshold: int) -> Seq<D> {
    if is_sampled(items.len() as int, threshold) {
        Seq::new(threshold as nat, |k: int| items[picked(items, threshold, k)])
    } else {
        items
    }
}

/// The buckets start in order, the first behind the first point, and leave
/// the last point out; each holds a point at least.
pub proof fn lemma_bucket_start(k: int, len: int, threshold: int)
    requires
        3 <= threshold < len,
        0 <= k,
    ensures
        bucket_start(0, len, threshold) == 1,
        bucket_start(threshold - 2, len, threshold) == len - 1,
        bucket_start(k, len, threshold) < bucket_start(k + 1, len, threshold),
        k <= threshold - 2 ==> 1 <= bucket_start(k, len, threshold) <= len - 1,
        k >= threshold - 2 ==> bucket_start(k, len, threshold) >= len - 1,
        k > threshold - 2 ==> bucket_start(k, len, threshold) >= len,
{
    let r = len - 2;
    let d = threshold - 2;
    assert((0 * r) / d == 0) by (nonlinear_arith)
        requires
            d > 0,
    ;
    assert((d * r) / d == r) by (nonlinear_arith)
        requires
            d > 0,
    ;
    assert((k * r) / d < ((k + 1) * r) / d) by (nonlinear_arith)
        requires
            0 < d < r,
            0 <= k,
    ;
    assert(k <= d ==> 0 <= (k * r) / d <= r) by (nonlinear_arith)
        requires
            0 < d < r,
            0 <= k,
    ;
    assert(k >= d ==> (k * r) / d >= r) by (nonlinear_arith)
        requires
            0 < d < r,
            0 <= k,
    ;
    assert(k > d ==> (k * r) / d >= r + 1) by (nonlinear_arith)
        requires
            0 < d < r,
            0 <= k,
    ;
}

/// The largest triangle is found in the range that was searched.
pub proof fn lemma_largest_in_range<D: DataPoint>(
    items: Seq<D>,
    a: D,
    sum_x: int,
    sum_y: int,
    count: int,
    from: int,
    to: int,
)
    requires
        from < to,
    ensures
        from <= largest(items, a, sum_x, sum_y, count, from, to) < to,
    decreases to - from,
{
    if to > from + 1 {
        lemma_largest_in_range(items, a, sum_x, sum_y, count, from, to - 1);
    }
}

/// The sample `k` comes from the bucket `k - 1`: the first is the first
/// item, the last, if it is not the first as well, the last, and each of
/// the others lies between the two.
pub proof fn lemma_picked_in_bucket<D: DataPoint>(items: Seq<D>, threshold: int, k: int)
    requires
        is_sampled(items.len() as int, threshold),
        0 <= k < threshold,
    ensures
        0 <= picked(items, threshold, k) < items.len(),
        k == 0 ==> picked(items, threshold, k) == 0,
        0 < k == threshold - 1 ==> picked(items, threshold, k) == items.len() - 1,
        0 < k < threshold - 1 ==> bucket_start(k - 1, items.len() as int, threshold) <= picked(
            items,
            threshold,
            k,
        ) < bucket_start(k, items.len() as int, threshold),
        0 < k < threshold - 1 ==> 0 < picked(items, threshold, k) < items.len() - 1,
{
    let len = items.len() as int;
    if 0 < k < threshold - 1 {
        lemma_bucket_start(k - 1, len, threshold);
        lemma_bucket_start(k, len, threshold);
        let a = items[picked(items, threshold, k - 1)];
        let (start, end) = (bucket_start(k, len, threshold), bucket_end(k, len, threshold));
        lemma_largest_in_range(
            items,
            a,
            sum_x(items, start, end),
            sum_y(items, start, end),
            end - start,
            bucket_start(k - 1, len, threshold),
            start,
        );
    }
}

/// Sampling to a threshold that the source does not exceed gives the source
/// back.
pub proof fn lemma_sampled_of_short<D: DataPoint>(items: Seq<D>, threshold: int)
    requires
        threshold >= items.len(),
    ensures
        sampled(items, threshold) == items,
{
}

/// Sampling a source of three items or more to three gives its first item,
/// one from between, and its last.
pub proof fn lemma_sampled_to_three<D: DataPoint>(items: Seq<D>)
    requires
        items.len() >= 3,
    ensures
        sampled(items, 3).len() == 3,
        sampled(items, 3)[0] == items[0],
        sampled(items, 3)[2] == items[items.len() - 1],
        exists|j: int| 0 < j < items.len() - 1 && sampled(items, 3)[1] == #[trigger] items[j],
{
    if items.len() > 3 {
        lemma_picked_in_bucket(items, 3, 0);
        lemma_picked_in_bucket(items, 3, 1);
        lemma_picked_in_bucket(items, 3, 2);
        let j = picked(items, 3, 1);
        assert(sampled(items, 3)[1] == items[j]);
    } else {
        assert(sampled(items, 3)[1] == items[1]);
    }
}

/// Sampling never gives more items than the threshold allows: a source
/// that is longer comes down to exactly as many. The first of them is the
/// first of the source, the last, where there are two or more, its last,
/// and every one is an item of the source.
pub proof fn lemma_sampled<D: DataPoint>(items: Seq<D>, threshold: int)
    requires
        0 <= threshold,
    ensures
        sampled(items, threshold).len() <= threshold,
        is_sampled(items.len() as int, threshold) ==> {
            &&& sampled(items, threshold).len() == threshold
            &&& threshold >= 1 ==> sampled(items, threshold)[0] == items[0]
            &&& threshold >= 2 ==> sampled(items, threshold)[threshold - 1] == items[items.len()
                - 1]
            &&& forall|k: int|
                0 <= k < threshold ==> items.contains(#[trigger] sampled(items, threshold)[k])
        },
{
    if is_sampled(items.len() as int, threshold) {
        if threshold >= 1 {
            lemma_picked_in_bucket(items, threshold, 0);
            lemma_picked_in_bucket(items, threshold, threshold - 1);
        }
        assert forall|k: int| 0 <= k < threshold implies items.contains(
            #[trigger] sampled(items, threshold)[k],
        ) by {
            lemma_picked_in_bucket(items, threshold, k);
            assert(items[picked(items, threshold, k)] == sampled(items, threshold)[k]);
        }
    }
}

/// Data source for lttb sampling.
///
/// ## Known limitations
/// - X-values are meant to be in a strictly increasing order
pub trait LttbSource {
    /// data item of [`LttbSource`]
    type Item;

    /// The items of the source, in their order.
    spec fn items(&self) -> Seq<Self::Item>;

    /// length of [`LttbSource`]
    fn len(&self) -> (len: usize)
        ensures
            len == self.items().len(),
    ;

    /// is [`LttbSource`] empty
    fn is_empty(&self) -> (empty: bool)
        ensures
            empty == (self.items().len() == 0),
    {
        self.len() == 0
    }

    /// data item at index `i`
    fn item_at(&self, i: usize) -> (item: Self::Item)
        requires
            i < self.items().len(),
        ensures
            item == self.items()[i as int],
    ;
}

impl<'a, S: LttbSource> LttbSource for &'a S {
    type Item = S::Item;

    open spec fn items(&self) -> Seq<Self::Item> {
        (**self).items()
    }

    fn len(&self) -> (len: usize) {
        (*self).len()
    }

    fn item_at(&self, i: usize) -> (item: Self::Item) {
        (*self).item_at(i)
    }
}

impl<'a, T> LttbSource for &'a [T] {
    type Item = &'a T;

    open spec fn items(&self) -> Seq<Self::Item> {
        Seq::new(self@.len(), |i: int| &self@[i])
    }

    fn len(&self) -> (len: usize) {
        (*self).len()
    }

    fn item_at(&self, i: usize) -> (item: Self::Item) {
        &self[i]
    }
}

impl<T: Copy> LttbSource for Vec<T> {
    type Item = T;

    open spec fn items(&self) -> Seq<Self::Item> {
        self@
    }

    fn len(&self) -> (len: usize) {
        Vec::len(self)
    }

    fn item_at(&self, i: usize) -> (item: Self::Item) {
        self[i]
    }
}

/// map data item to another type
#[verifier::reject_recursive_types(S)]
#[verifier::reject_recursive_types(T)]
#[verifier::reject_recursive_types(F)]
pub struct Cast<S, T, F> where S: LttbSource, T: DataPoint, F: Fn(S::Item) -> T {
    s: S,
    f: F,
}

impl<S, T, F> Cast<S, T, F> where S: LttbSource, T: DataPoint, F: Fn(S::Item) -> T {
    #[verifier::type_invariant]
    spec fn well_formed(self) -> bool {
        takes_all_to_one(self.s.items(), self.f)
    }

    /// The source whose items are mapped.
    pub closed spec fn source(self) -> S {
        self.s
    }

    /// The map from the items of the source to data points.
    pub closed spec fn map(self) -> F {
        self.f
    }
}

/// `f` can be called on every one of `items`, and gives one result for one
/// item.
pub open spec fn takes_all_to_one<A, T, F: Fn(A) -> T>(items: Seq<A>, f: F) -> bool {
    &&& forall|i: int| 0 <= i < items.len() ==> f.requires((#[trigger] items[i],))
    &&& forall|x: A, a: T, b: T| #[trigger] f.ensures((x,), a) && #[trigger] f.ensures((x,), b) ==> a == b
}

impl<S, T, F> LttbSource for Cast<S, T, F> where S: LttbSource, T: DataPoint, F: Fn(S::Item) -> T {
    type Item = T;

    open spec fn items(&self) -> Seq<Self::Item> {
        Seq::new(
            self.source().items().len(),
            |i: int| choose|t: T| self.map().ensures((self.source().items()[i],), t),
        )
    }

    fn len(&self) -> (len: usize) {
        self.s.len()
    }

    fn item_at(&self, i: usize) -> (item: Self::Item) {
        proof {
            use_type_invariant(self);
        }
        let item = self.s.item_at(i);
        (self.f)(item)
    }
}

/// Mapping and sampling of an [`LttbSource`].
pub trait Lttb: LttbSource + Sized {
    /// map data item to another type.
    /// - if the data item type of [`LttbSource`] is not [`DataPoint`], lttb sampling can be used after casting
    ///
    /// `f` has to give one data point for one item.
    fn cast<T, F>(self, f: F) -> (cast: Cast<Self, T, F>) where T: DataPoint, F: Fn(Self::Item) -> T
        requires
            takes_all_to_one(self.items(), f),
        ensures
            cast.source() == self,
            cast.map() == f,
    ;

    /// lttb sampling
    fn lttb(self, threshold: usize) -> (iterator: LttbIterator<Self>) where Self::Item: DataPoint
        ensures
            iterator.pending() == sampled(self.items(), threshold as int),
    ;
}

impl<S: LttbSource> Lttb for S {
    fn cast<T, F>(self, f: F) -> (cast: Cast<Self, T, F>) where
        T: DataPoint,
        F: Fn(Self::Item) -> T,
     {
        Cast { s: self, f }
    }

    fn lttb(self, threshold: usize) -> (iterator: LttbIterator<Self>) where Self::Item: DataPoint {
        LttbIterator::new(self, threshold)
    }
}

/// Computes [`bucket_start`].
fn bucket(k: usize, len: usize, threshold: usize) -> (start: u128)
    requires
        3 <= threshold < len,
    ensures
        start == bucket_start(k as int, len as int, threshold as int),
{
    proof {
        lemma_mul_bound(
            k as int,
            (len - 2) as int,
            0xffff_ffff_ffff_ffff,
            0xffff_ffff_ffff_ffff,
        );
        assert(0 <= k * (len - 2)) by (nonlinear_arith)
            requires
                0 <= k,
                0 <= len - 2,
        ;
        assert((k * (len - 2)) / (threshold - 2) <= k * (len - 2)) by (nonlinear_arith)
            requires
                0 <= k * (len - 2),
                threshold - 2 > 0,
        ;
    }
    (k as u128 * ((len - 2) as u128)) / ((threshold - 2) as u128) + 1
}

/// The bucket from which the sample `k` comes, as the indices at which it
/// starts and ends, and the index at which the bucket behind it ends. The
/// sample is one between the first and the last.
pub fn bucket_bounds(k: usize, len: usize, threshold: usize) -> (bounds: (usize, usize, usize))
    requires
        3 <= threshold < len,
        0 < k < threshold - 1,
    ensures
        bounds.0 == bucket_start(k - 1, len as int, threshold as int),
        bounds.1 == bucket_start(k as int, len as int, threshold as int),
        bounds.2 == bucket_end(k as int, len as int, threshold as int),
        1 <= bounds.0 < bounds.1 < bounds.2 <= len,
        bounds.1 <= len - 1,
{
    proof {
        lemma_bucket_start(k - 1, len as int, threshold as int);
        lemma_bucket_start(k as int, len as int, threshold as int);
    }
    let start: usize = bucket(k - 1, len, threshold) as usize;
    let end: usize = bucket(k, len, threshold) as usize;
    let after: u128 = bucket(k + 1, len, threshold);
    let behind: usize = if after >= len as u128 {
        len
    } else {
        after as usize
    };
    (start, end, behind)
}

/// A product of two numbers is the product of their sizes, with the sign
/// that their signs give.
proof fn lemma_signed_product(u: int, v: int, a: int, b: int)
    by (nonlinear_arith)
    requires
        a == if u < 0 {
            -u
        } else {
            u
        },
        b == if v < 0 {
            -v
        } else {
            v
        },
    ensures
        u * v == if (u < 0) != (v < 0) {
            -(a * b)
        } else {
            a * b
        },
        0 <= a * b,
{
}

/// The size of a whole number, which may take one bit more than `low` has.
struct Size {
    carry: bool,
    low: u128,
}

impl Size {
    /// The number.
    spec fn value(self) -> int {
        if self.carry {
            0x1_0000_0000_0000_0000_0000_0000_0000_0000 + self.low
        } else {
            self.low as int
        }
    }

    /// Whether this is more than `other`.
    fn exceeds(&self, other: &Size) -> (more: bool)
        ensures
            more == (self.value() > other.value()),
    {
        if self.carry == other.carry {
            self.low > other.low
        } else {
            self.carry
        }
    }
}

/// The product of `u` and `v`, as its size and whether it is below zero.
fn product(u: i128, v: i128) -> (signed: (bool, u128))
    requires
        -0xffff_ffff_ffff_ffff_0000_0000 <= u <= 0xffff_ffff_ffff_ffff_0000_0000,
        -0xffff_ffff <= v <= 0xffff_ffff,
    ensures
        u * v == if signed.0 {
            -(signed.1 as int)
        } else {
            signed.1 as int
        },
        !signed.0 || signed.1 > 0,
{
    let a: u128 = if u < 0 {
        (0 - u) as u128
    } else {
        u as u128
    };
    let b: u128 = if v < 0 {
        (0 - v) as u128
    } else {
        v as u128
    };
    proof {
        lemma_mul_bound(a as int, b as int, 0xffff_ffff_ffff_ffff_0000_0000, 0xffff_ffff);
        lemma_signed_product(u as int, v as int, a as int, b as int);
    }
    let size: u128 = a * b;
    ((u < 0) != (v < 0) && size > 0, size)
}

/// Computes [`area_at`]: however long the source is, the area takes no more
/// than 129 bits.
fn area_of(ax: i32, ay: i32, px: i32, py: i32, sum_x: i128, sum_y: i128, count: usize) -> (size:
    Size)
    requires
        -0x8000_0000 * count <= sum_x <= 0x8000_0000 * count,
        -0x8000_0000 * count <= sum_y <= 0x8000_0000 * count,
    ensures
        size.value() == area_at(
            ax as int,
            ay as int,
            px as int,
            py as int,
            sum_x as int,
            sum_y as int,
            count as int,
        ),
{
    let c: i128 = count as i128;
    proof {
        lemma_mul_bound(ax as int, c as int, 0x8000_0000, 0xffff_ffff_ffff_ffff);
        lemma_mul_bound(ay as int, c as int, 0x8000_0000, 0xffff_ffff_ffff_ffff);
    }
    let (below1, t1) = product(ax as i128 * c - sum_x, py as i128 - ay as i128);
    let (below2, t2) = product(sum_y - ay as i128 * c, ax as i128 - px as i128);
    proof {
        assert((ax - px) * (sum_y - ay * c) == (sum_y - ay * c) * (ax - px)) by (nonlinear_arith);
    }
    if below1 == below2 {
        if t1 >= t2 {
            Size { carry: false, low: t1 - t2 }
        } else {
            Size { carry: false, low: t2 - t1 }
        }
    } else if t1 > u128::MAX - t2 {
        Size { carry: true, low: t1 - (u128::MAX - t2) - 1 }
    } else {
        Size { carry: false, low: t1 + t2 }
    }
}

/// Moves on to the next sample, with `next_a` as the point picked last.
fn advance(idx: &mut usize, a: &mut usize, next_a: usize)
    requires
        *old(idx) < usize::MAX,
    ensures
        *final(idx) == *old(idx) + 1,
        *final(a) == next_a,
    no_unwind
{
    *idx = *idx + 1;
    *a = next_a;
}

/// iterator for [`LttbSource`]
pub struct LttbIterator<S: LttbSource> where S::Item: DataPoint {
    source: S,
    is_sample: bool,
    idx: usize,
    threshold: usize,
    a: usize,
}

impl<S: LttbSource> LttbIterator<S> where S::Item: DataPoint {
    #[verifier::type_invariant]
    spec fn well_formed(self) -> bool {
        let items = self.source.items();
        &&& self.is_sample == is_sampled(items.len() as int, self.threshold as int)
        &&& self.is_sample ==> self.idx <= self.threshold
        &&& !self.is_sample ==> self.idx <= items.len()
        &&& self.is_sample && self.idx < self.threshold ==> self.a == picked(
            items,
            self.threshold as int,
            self.idx - 1,
        )
    }

    /// The items that are still to come, in the order in which `next` will
    /// yield them.
    pub closed spec fn pending(self) -> Seq<S::Item> {
        let all = sampled(self.source.items(), self.threshold as int);
        all.subrange(self.idx as int, all.len() as int)
    }

    /// An iterator over the sample of `source` down to `threshold` items.
    pub fn new(source: S, threshold: usize) -> (iterator: Self)
        ensures
            iterator.pending() == sampled(source.items(), threshold as int),
    {
        let is_sample = threshold < source.len();
        proof {
            let all = sampled(source.items(), threshold as int);
            assert(all.subrange(0, all.len() as int) =~= all);
        }
        LttbIterator { source, is_sample, idx: 0, a: 0, threshold }
    }

    fn next_no_sample(&mut self) -> (item: Option<S::Item>)
        requires
            !old(self).is_sample,
        ensures
            match item {
                Some(p) => old(self).pending().len() > 0 && p == old(self).pending()[0]
                    && final(self).pending() == old(self).pending().drop_first(),
                None => old(self).pending().len() == 0 && final(self).pending().len() == 0,
            },
    {
        proof {
            use_type_invariant(&*self);
        }
        if self.idx < self.source.len() {
            let item = self.source.item_at(self.idx);
            self.idx = self.idx + 1;
            assert(self.pending() =~= old(self).pending().drop_first());
            Some(item)
        } else {
            None
        }
    }

    fn next_sample(&mut self) -> (item: Option<S::Item>)
        requires
            old(self).is_sample,
        ensures
            match item {
                Some(p) => old(self).pending().len() > 0 && p == old(self).pending()[0]
                    && final(self).pending() == old(self).pending().drop_first(),
                None => old(self).pending().len() == 0 && final(self).pending().len() == 0,
            },
    {
        proof {
            use_type_invariant(&*self);
        }
        let ghost items = self.source.items();
        let ghost all = sampled(items, self.threshold as int);
        if self.idx < self.threshold {
            let len = self.source.len();
            let threshold = self.threshold;
            let k = self.idx;
            proof {
                lemma_picked_in_bucket(items, threshold as int, k as int);
            }
            if self.idx == 0 {
                self.idx = self.idx + 1;
                let item = self.source.item_at(0);
                assert(self.pending() =~= old(self).pending().drop_first());
                Some(item)
            } else if self.idx + 1 == self.threshold {
                self.idx = self.idx + 1;
                let item = self.source.item_at(len - 1);
                assert(self.pending() =~= old(self).pending().drop_first());
                Some(item)
            } else {
                proof {
                    lemma_bucket_start(k - 1, len as int, threshold as int);
                    lemma_bucket_start(k as int, len as int, threshold as int);
                    lemma_picked_in_bucket(items, threshold as int, k - 1);
                }
                // Get the range for this bucket, and the one of the next
                // bucket (for the mean of its points).
                let (range_offs, range_to, avg_range_end) = bucket_bounds(k, len, threshold);
                let avg_range_start: usize = range_to;
                let avg_range_length: usize = avg_range_end - avg_range_start;
                let mut sum_x_next: i128 = 0;
                let mut sum_y_next: i128 = 0;
                let mut j: usize = avg_range_start;
                while j < avg_range_end
                    invariant
                        items == self.source.items(),
                        avg_range_start <= j <= avg_range_end <= items.len(),
                        sum_x_next == sum_x(items, avg_range_start as int, j as int),
                        sum_y_next == sum_y(items, avg_range_start as int, j as int),
                        -0x8000_0000 * (j - avg_range_start) <= sum_x_next <= 0x8000_0000 * (j
                            - avg_range_start),
                        -0x8000_0000 * (j - avg_range_start) <= sum_y_next <= 0x8000_0000 * (j
                            - avg_range_start),
                    decreases avg_range_end - j,
                {
                    let item = self.source.item_at(j);
                    sum_x_next = sum_x_next + item.x() as i128;
                    sum_y_next = sum_y_next + item.y() as i128;
                    j = j + 1;
                }
                // Point a.
                let item = self.source.item_at(self.a);
                let point_a_x = item.x();
                let point_a_y = item.y();
                let ghost point_a = items[self.a as int];
                let mut max_area = Size { carry: false, low: 0 };
                let mut next_a: usize = range_offs;
                let mut j: usize = range_offs;
                while j < range_to
                    invariant
                        items == self.source.items(),
                        range_offs <= j <= range_to < items.len(),
                        -0x8000_0000 * avg_range_length <= sum_x_next <= 0x8000_0000
                            * avg_range_length,
                        -0x8000_0000 * avg_range_length <= sum_y_next <= 0x8000_0000
                            * avg_range_length,
                        point_a_x == point_a.x_spec(),
                        point_a_y == point_a.y_spec(),
                        next_a == largest(
                            items,
                            point_a,
                            sum_x_next as int,
                            sum_y_next as int,
                            avg_range_length as int,
                            range_offs as int,
                            j as int,
                        ),
                        range_offs <= next_a < range_to,
                        j > range_offs ==> max_area.value() == area(
                            point_a,
                            items[next_a as int],
                            sum_x_next as int,
                            sum_y_next as int,
                            avg_range_length as int,
                        ),
                    decreases range_to - j,
                {
                    // Calculate triangle area over three buckets.
                    let item = self.source.item_at(j);
                    let area = area_of(
                        point_a_x,
                        point_a_y,
                        item.x(),
                        item.y(),
                        sum_x_next,
                        sum_y_next,
                        avg_range_length,
                    );
                    if j == range_offs || area.exceeds(&max_area) {
                        max_area = area;
                        next_a = j;  // Next a is this b.
                    }
                    j = j + 1;
                }
                let item = self.source.item_at(next_a);  // Pick this point from the bucket.
                assert(next_a == picked(items, threshold as int, k as int));
                // This a is the next a (chosen b).
                advance(&mut self.idx, &mut self.a, next_a);
                assert(self.pending() =~= old(self).pending().drop_first());
                Some(item)
            }
        } else {
            None
        }
    }

    /// The number of items that are still to come.
    fn remaining(&self) -> (remaining: usize)
        ensures
            remaining == self.pending().len(),
    {
        proof {
            use_type_invariant(self);
        }
        if self.is_sample {
            self.threshold - self.idx
        } else {
            self.source.len() - self.idx
        }
    }

    /// Yields the next item of the sample, `None` once all have been
    /// yielded.
    pub fn next(&mut self) -> (item: Option<S::Item>)
        ensures
            match item {
                Some(p) => old(self).pending().len() > 0 && p == old(self).pending()[0]
                    && final(self).pending() == old(self).pending().drop_first(),
                None => old(self).pending().len() == 0 && final(self).pending().len() == 0,
            },
    {
        if self.is_sample {
            self.next_sample()
        } else {
            self.next_no_sample()
        }
    }

    /// The number of items that are still to come, as the bounds of an
    /// iterator's length.
    pub fn size_hint(&self) -> (bounds: (usize, Option<usize>))
        ensures
            bounds.0 == self.pending().len(),
            bounds.1 == Some(bounds.0),
    {
        let size = self.remaining();
        (size, Some(size))
    }

    /// The number of items that are still to come.
    pub fn len(&self) -> (len: usize)
        ensures
            len == self.pending().len(),
    {
        self.remaining()
    }

    /// Runs the sampling to its end and gathers what it yields.
    pub fn collect(self) -> (items: Vec<S::Item>)
        ensures
            items@ == self.pending(),
    {
        let mut iterator = self;
        let mut items: Vec<S::Item> = Vec::new();
        loop
            invariant
                items@ + iterator.pending() == self.pending(),
            ensures
                items@ == self.pending(),
            decreases iterator.pending().len(),
        {
            let ghost before = iterator.pending();
            match iterator.next() {
                Some(item) => {
                    items.push(item);
                    assert(items@ + iterator.pending() =~= (items@.drop_last() + before));
                },
                None => {
                    assert(items@ + iterator.pending() =~= items@);
                    break ;
                },
            }
        }
        items
    }
}

} // verus!
