use plotters_iced::backend::utils::shape::ShapeSplitter;
use plotters_iced::triangulate::area::doubled_area;
use plotters_iced::Point;

fn points(coordinates: &[(i32, i32)]) -> Vec<Point> {
    coordinates.iter().map(|&(x, y)| Point { x, y }).collect()
}

fn segment(from: (i32, i32), to: (i32, i32)) -> (Point, Point) {
    (Point { x: from.0, y: from.1 }, Point { x: to.0, y: to.1 })
}

fn split(coordinates: &[(i32, i32)]) -> Vec<Vec<Point>> {
    match ShapeSplitter::try_from(&points(coordinates)) {
        Ok(splitter) => splitter.collect(),
        Err(()) => panic!("an outline of three points or more splits"),
    }
}

#[test]
fn fewer_than_three_points_do_not_split() {
    assert!(ShapeSplitter::try_from(&points(&[])).is_err());
    assert!(ShapeSplitter::try_from(&points(&[(0, 0)])).is_err());
    assert!(ShapeSplitter::try_from(&points(&[(0, 0), (1, 1)])).is_err());
    assert!(ShapeSplitter::try_from(&points(&[(0, 0), (1, 1), (2, 0)])).is_ok());
}

#[test]
fn square_is_one_shape() {
    let square = [(0, 0), (10, 0), (10, 10), (0, 10)];
    assert_eq!(split(&square), vec![points(&square)]);
}

#[test]
fn figure_eight_is_two_shapes() {
    let shapes = split(&[(0, 0), (10, 10), (10, 0), (0, 10)]);
    assert_eq!(
        shapes,
        vec![points(&[(0, 0), (5, 5), (0, 10)]), points(&[(5, 5), (10, 10), (10, 0)])]
    );
    // Each shape is a triangle of area 25; together they enclose what the
    // outline does.
    assert_eq!(doubled_area(&shapes[0]).abs(), 50);
    assert_eq!(doubled_area(&shapes[1]).abs(), 50);
    for shape in &shapes {
        assert!(ShapeSplitter::try_from(shape).unwrap().collect().len() == 1);
    }
}

#[test]
fn crossing_of_two_diagonals() {
    let crossing =
        ShapeSplitter::intersects(&segment((0, 0), (10, 10)), &segment((10, 0), (0, 10)));
    assert_eq!(crossing, Some(Point { x: 5, y: 5 }));
}

#[test]
fn parallel_segments_do_not_cross() {
    let none = ShapeSplitter::intersects(&segment((0, 0), (10, 0)), &segment((0, 5), (10, 5)));
    assert_eq!(none, None);
    // On one line, overlapping: parallel all the same.
    let none = ShapeSplitter::intersects(&segment((0, 0), (10, 0)), &segment((5, 0), (15, 0)));
    assert_eq!(none, None);
}

#[test]
fn segments_that_do_not_reach_each_other_do_not_cross() {
    let none = ShapeSplitter::intersects(&segment((0, 0), (4, 4)), &segment((10, 0), (6, 5)));
    assert_eq!(none, None);
}

#[test]
fn touching_at_an_end_counts_as_crossing() {
    let touch = ShapeSplitter::intersects(&segment((0, 0), (10, 0)), &segment((10, -5), (10, 5)));
    assert_eq!(touch, Some(Point { x: 10, y: 0 }));
}

#[test]
fn crossing_is_rounded_to_the_nearest_point() {
    // The lines meet at (1.5, 1.5): halves round away from zero.
    let crossing = ShapeSplitter::intersects(&segment((0, 0), (3, 3)), &segment((3, 0), (0, 3)));
    assert_eq!(crossing, Some(Point { x: 2, y: 2 }));
    let crossing =
        ShapeSplitter::intersects(&segment((0, 0), (-3, -3)), &segment((-3, 0), (0, -3)));
    assert_eq!(crossing, Some(Point { x: -2, y: -2 }));
    // The lines meet at (10/3, 10/3).
    let crossing = ShapeSplitter::intersects(&segment((0, 0), (10, 10)), &segment((5, 0), (0, 10)));
    assert_eq!(crossing, Some(Point { x: 3, y: 3 }));
}

#[test]
fn far_corners_do_not_overflow() {
    let low = i32::MIN;
    let high = i32::MAX;
    let crossing =
        ShapeSplitter::intersects(&segment((low, low), (high, high)), &segment((low, high), (high, low)));
    // The diagonals meet at (-0.5, -0.5).
    assert_eq!(crossing, Some(Point { x: -1, y: -1 }));
}

#[test]
fn cross_product_of_vectors() {
    assert_eq!(ShapeSplitter::point_cross(&(1, 0), &(0, 1)), 1);
    assert_eq!(ShapeSplitter::point_cross(&(0, 1), &(1, 0)), -1);
    assert_eq!(ShapeSplitter::point_cross(&(3, 4), &(6, 8)), 0);
    assert_eq!(ShapeSplitter::point_cross(&(2, 5), &(-7, 3)), 41);
}

#[test]
fn appended_point_is_not_repeated() {
    let mut shape = Vec::new();
    ShapeSplitter::append_point(&mut shape, Point { x: 1, y: 1 });
    ShapeSplitter::append_point(&mut shape, Point { x: 1, y: 1 });
    ShapeSplitter::append_point(&mut shape, Point { x: 2, y: 2 });
    ShapeSplitter::append_point(&mut shape, Point { x: 2, y: 2 });
    ShapeSplitter::append_point(&mut shape, Point { x: 3, y: 3 });
    // Neither the point the shape starts with.
    ShapeSplitter::append_point(&mut shape, Point { x: 1, y: 1 });
    assert_eq!(shape, points(&[(1, 1), (2, 2), (3, 3)]));
}

#[test]
fn segments_with_a_common_start_do_not_cross() {
    // The outline comes back to (0, 0) and leaves it a second time.
    let shapes = split(&[(0, 0), (10, 0), (10, 10), (0, 0), (-5, 8)]);
    assert_eq!(shapes, vec![points(&[(0, 0), (10, 0), (10, 10), (-5, 8)])]);
}

#[test]
fn bow_tie_with_a_return_crosses_twice() {
    // A zigzag that crosses its first segment twice.
    let shapes = split(&[(0, 0), (20, 0), (15, 5), (10, -5), (5, 5)]);
    assert_eq!(shapes.len(), 3);
    assert_eq!(shapes[0], points(&[(0, 0), (13, 0), (5, 5)]));
    assert_eq!(shapes[1], points(&[(13, 0), (8, 0)]));
    assert_eq!(shapes[2], points(&[(8, 0), (20, 0), (15, 5), (10, -5)]));
}
