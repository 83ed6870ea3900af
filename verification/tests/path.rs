use plotters_iced::backend::utils::path::PathSimplifier;
use plotters_iced::Point;

fn points(coordinates: &[(i32, i32)]) -> Vec<Point> {
    coordinates.iter().map(|&(x, y)| Point { x, y }).collect()
}

fn simplify(coordinates: &[(i32, i32)]) -> Vec<Point> {
    PathSimplifier::from(points(coordinates)).collect()
}

#[test]
fn empty_outline_yields_nothing() {
    assert_eq!(simplify(&[]), points(&[]));
    let mut simplifier = PathSimplifier::from(Vec::new());
    assert_eq!(simplifier.next(), None);
    assert_eq!(simplifier.next(), None);
}

#[test]
fn single_point_is_yielded_once() {
    let mut simplifier = PathSimplifier::from(points(&[(7, -3)]));
    assert_eq!(simplifier.next(), Some(Point { x: 7, y: -3 }));
    assert_eq!(simplifier.next(), None);
}

#[test]
fn runs_collapse_to_their_ends() {
    assert_eq!(
        simplify(&[(0, 0), (1, 0), (2, 0), (2, 1), (2, 2)]),
        points(&[(0, 0), (2, 0), (2, 2)])
    );
}

#[test]
fn repeated_points_collapse() {
    assert_eq!(
        simplify(&[(0, 0), (0, 0), (3, 4), (3, 4), (3, 4), (9, 5)]),
        points(&[(0, 0), (3, 4), (9, 5)])
    );
    assert_eq!(simplify(&[(1, 1), (1, 1)]), points(&[(1, 1)]));
}

#[test]
fn corner_between_two_runs_stays() {
    // An L: a horizontal run that turns into a vertical one at (3, 0).
    assert_eq!(
        simplify(&[(0, 0), (1, 0), (3, 0), (3, 1), (3, 5), (4, 6)]),
        points(&[(0, 0), (3, 0), (3, 5), (4, 6)])
    );
}

#[test]
fn simple_outline_comes_back_unchanged() {
    let square = [(0, 0), (10, 0), (10, 10), (0, 10)];
    assert_eq!(simplify(&square), points(&square));
    let zigzag = [(0, 0), (1, 5), (2, -1), (3, 7), (3, 8), (4, 8)];
    assert_eq!(simplify(&zigzag), points(&zigzag));
}

#[test]
fn last_point_is_never_lost() {
    let outlines: [&[(i32, i32)]; 4] = [
        &[(0, 0), (1, 0), (2, 0), (3, 0)],
        &[(5, 5), (5, 6), (5, 7)],
        &[(0, 0), (2, 3), (2, 3)],
        &[(1, 2), (3, 4), (5, 6), (5, 9), (5, 12)],
    ];
    for outline in outlines {
        let simplified = simplify(outline);
        let last = outline[outline.len() - 1];
        assert_eq!(simplified.last(), Some(&Point { x: last.0, y: last.1 }));
        assert_eq!(simplified[0], Point { x: outline[0].0, y: outline[0].1 });
    }
}

#[test]
fn run_that_turns_back_keeps_only_its_ends() {
    assert_eq!(simplify(&[(0, 0), (2, 0), (1, 0)]), points(&[(0, 0), (1, 0)]));
}

#[test]
fn next_yields_in_the_order_of_collect() {
    let outline = [(0, 0), (0, 4), (0, 9), (6, 9), (6, 9), (7, 1)];
    let expected = simplify(&outline);
    let mut simplifier = PathSimplifier::from(points(&outline));
    let mut seen = Vec::new();
    while let Some(point) = simplifier.next() {
        seen.push(point);
    }
    assert_eq!(seen, expected);
    assert_eq!(expected, points(&[(0, 0), (0, 9), (6, 9), (7, 1)]));
}
