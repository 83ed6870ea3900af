use plotters_iced::sample::{Lttb, LttbIterator, LttbSource};
use plotters_iced::Point;

#[derive(Debug, PartialEq, Clone)]
pub struct DataPoint {
    pub x: i32,
    pub y: i32,
}

impl DataPoint {
    pub fn new(x: i32, y: i32) -> Self {
        DataPoint { x, y }
    }
}

impl plotters_iced::sample::DataPoint for DataPoint {
    fn x_spec(&self) -> i32 {
        self.x
    }

    fn y_spec(&self) -> i32 {
        self.y
    }

    fn x(&self) -> i32 {
        self.x
    }

    fn y(&self) -> i32 {
        self.y
    }
}

fn series(coordinates: &[(i32, i32)]) -> Vec<Point> {
    coordinates.iter().map(|&(x, y)| Point { x, y }).collect()
}

fn sample(coordinates: &[(i32, i32)], threshold: usize) -> Vec<Point> {
    series(coordinates).lttb(threshold).collect()
}

#[test]
fn sample_lttb_test() {
    let mut dps = vec![];
    dps.push(DataPoint::new(0, 10));
    dps.push(DataPoint::new(1, 12));
    dps.push(DataPoint::new(2, 8));
    dps.push(DataPoint::new(3, 10));
    dps.push(DataPoint::new(4, 12));

    let mut expected = vec![];
    expected.push(DataPoint::new(0, 10));
    expected.push(DataPoint::new(2, 8));
    expected.push(DataPoint::new(4, 12));

    let result: Vec<DataPoint> = dps.as_slice().lttb(3).collect().into_iter().cloned().collect();

    assert_eq!(expected, result);
}

#[test]
fn lttb_lttb_test() {
    let mut dps = vec![];
    dps.push(DataPoint::new(0, 10));
    dps.push(DataPoint::new(1, 12));
    dps.push(DataPoint::new(2, 8));
    dps.push(DataPoint::new(3, 10));
    dps.push(DataPoint::new(4, 12));

    let mut expected = vec![];
    expected.push(DataPoint::new(0, 10));
    expected.push(DataPoint::new(2, 8));
    expected.push(DataPoint::new(4, 12));

    let result: Vec<DataPoint> = dps.as_slice().lttb(3).collect().into_iter().cloned().collect();

    assert_eq!(expected, result);
}

#[test]
fn iterator_made_directly_yields_the_same() {
    let dps = vec![
        DataPoint::new(0, 10),
        DataPoint::new(1, 12),
        DataPoint::new(2, 8),
        DataPoint::new(3, 10),
        DataPoint::new(4, 12),
    ];
    let mut iterator = LttbIterator::new(dps.as_slice(), 3);
    let mut result: Vec<DataPoint> = vec![];
    while let Some(item) = iterator.next() {
        result.push(item.clone());
    }
    assert_eq!(result, vec![DataPoint::new(0, 10), DataPoint::new(2, 8), DataPoint::new(4, 12)]);
}

#[test]
fn threshold_at_or_above_the_length_gives_the_source_back() {
    let source = [(0, 1), (1, 5), (2, 2), (3, 9)];
    assert_eq!(sample(&source, 4), series(&source));
    assert_eq!(sample(&source, 5), series(&source));
    assert_eq!(sample(&source, usize::MAX), series(&source));
    assert_eq!(sample(&[], 3), series(&[]));
    assert_eq!(sample(&[(1, 1), (2, 2)], 3), series(&[(1, 1), (2, 2)]));
}

#[test]
fn threshold_below_three_keeps_the_ends() {
    let source = [(0, 1), (1, 5), (2, 2), (3, 9)];
    assert_eq!(sample(&source, 0), series(&[]));
    assert_eq!(sample(&source, 1), series(&[(0, 1)]));
    assert_eq!(sample(&source, 2), series(&[(0, 1), (3, 9)]));
}

#[test]
fn sample_is_never_longer_than_the_threshold() {
    let source = [(0, 1), (1, 5), (2, 2), (3, 9), (4, 4), (5, 0), (6, 6)];
    for threshold in 0..10 {
        let result = sample(&source, threshold);
        assert!(result.len() <= threshold);
        assert_eq!(result.len(), threshold.min(source.len()));
    }
}

#[test]
fn threshold_three_gives_first_one_inner_and_last() {
    let source = [(0, 0), (1, 1), (2, 50), (3, 2), (4, 1), (5, 0), (6, 3)];
    let result = sample(&source, 3);
    assert_eq!(result.len(), 3);
    assert_eq!(result[0], Point { x: 0, y: 0 });
    assert_eq!(result[2], Point { x: 6, y: 3 });
    // The peak spans the largest triangle.
    assert_eq!(result[1], Point { x: 2, y: 50 });
}

#[test]
fn each_bucket_gives_one_point() {
    // Ten points to five: buckets [1, 3), [3, 6), [6, 9) between the ends.
    let source =
        [(0, 0), (1, 10), (2, 0), (3, 0), (4, 0), (5, -20), (6, 5), (7, 5), (8, 30), (9, 0)];
    let result = sample(&source, 5);
    assert_eq!(
        result,
        series(&[(0, 0), (1, 10), (5, -20), (8, 30), (9, 0)])
    );
}

#[test]
fn of_equal_triangles_the_first_is_picked() {
    // All on one line: every triangle is empty, the first of the bucket stays.
    let source = [(0, 0), (1, 1), (2, 2), (3, 3), (4, 4)];
    assert_eq!(sample(&source, 3), series(&[(0, 0), (1, 1), (4, 4)]));
}

#[test]
fn iterator_knows_how_many_are_left() {
    let source = series(&[(0, 0), (1, 4), (2, 1), (3, 7), (4, 2), (5, 5)]);
    let mut iterator = source.clone().lttb(4);
    assert_eq!(iterator.len(), 4);
    assert_eq!(iterator.size_hint(), (4, Some(4)));
    assert!(iterator.next().is_some());
    assert_eq!(iterator.len(), 3);
    assert!(iterator.next().is_some());
    assert!(iterator.next().is_some());
    assert!(iterator.next().is_some());
    assert_eq!(iterator.len(), 0);
    assert_eq!(iterator.next(), None);
    assert_eq!(iterator.next(), None);
    let mut whole = source.lttb(10);
    assert_eq!(whole.len(), 6);
    assert_eq!(whole.next(), Some(Point { x: 0, y: 0 }));
    assert_eq!(whole.size_hint(), (5, Some(5)));
}

#[test]
fn source_answers_for_its_items() {
    let source = series(&[(0, 0), (1, 4)]);
    assert_eq!(LttbSource::len(&source), 2);
    assert!(!LttbSource::is_empty(&source));
    assert_eq!(source.item_at(1), Point { x: 1, y: 4 });
    let empty: Vec<Point> = Vec::new();
    assert!(LttbSource::is_empty(&empty));
    let by_reference = &source;
    assert_eq!(LttbSource::len(&by_reference), 2);
    assert_eq!(by_reference.lttb(3).collect(), source);
}

#[test]
fn far_values_do_not_overflow() {
    let low = i32::MIN;
    let high = i32::MAX;
    let source = [(low, low), (-1, high), (0, low), (1, high), (high, high)];
    let result = sample(&source, 3);
    assert_eq!(result.len(), 3);
    assert_eq!(result[0], Point { x: low, y: low });
    assert_eq!(result[2], Point { x: high, y: high });
    // The first two between span equal triangles: the first of them stays.
    assert_eq!(result[1], Point { x: -1, y: high });
}

#[test]
fn items_of_another_type_are_cast_to_data_points() {
    let readings: Vec<(i32, i32)> = vec![(0, 10), (1, 12), (2, 8), (3, 10), (4, 12)];
    let cast = readings.cast(|(x, y)| Point { x, y });
    assert_eq!(LttbSource::len(&cast), 5);
    assert_eq!(cast.item_at(3), Point { x: 3, y: 10 });
    assert_eq!(cast.lttb(3).collect(), series(&[(0, 10), (2, 8), (4, 12)]));
}
