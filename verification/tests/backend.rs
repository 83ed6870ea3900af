use plotters_iced::backend::{
    fill_path, BackendColor, BackendStyle, BackendTextStyle, DrawCall, FontTransform, HPos,
    IcedChartBackend, PathOp, Pos, Shape, VPos,
};
use plotters_iced::Point;

fn points(coordinates: &[(i32, i32)]) -> Vec<Point> {
    coordinates.iter().map(|&(x, y)| Point { x, y }).collect()
}

fn color(alpha: f64) -> BackendColor {
    BackendColor { alpha_bits: alpha.to_bits(), red: 10, green: 20, blue: 30 }
}

fn style(alpha: f64) -> BackendStyle {
    BackendStyle { color: color(alpha), stroke_width: 2 }
}

fn at(x: i32, y: i32) -> Point {
    Point { x, y }
}

#[test]
fn zero_alpha_draws_nothing() {
    let mut backend = IcedChartBackend::new((100, 100));
    let square = points(&[(0, 0), (10, 0), (10, 10), (0, 10)]);
    assert!(backend.fill_polygon(square.clone(), &style(0.0)).is_ok());
    assert!(backend.fill_polygon(square.clone(), &style(-0.0)).is_ok());
    assert!(backend.fill_polygon(Vec::new(), &style(0.0)).is_ok());
    assert!(backend.draw_pixel(at(1, 1), color(0.0)).is_ok());
    assert!(backend.draw_line(at(1, 1), at(2, 2), &style(0.0)).is_ok());
    assert!(backend.draw_rect(at(1, 1), at(2, 2), &style(0.0), true).is_ok());
    assert!(backend.draw_rect(at(1, 1), at(2, 2), &style(0.0), false).is_ok());
    assert!(backend.draw_path(&square, &style(0.0)).is_ok());
    assert!(backend.draw_circle(at(1, 1), 5, &style(0.0), true).is_ok());
    let text = BackendTextStyle {
        color: color(0.0),
        anchor: Pos { h_pos: HPos::Left, v_pos: VPos::Top },
        transform: FontTransform::Upright,
    };
    assert!(backend.draw_text("hidden", &text, at(0, 0)).is_ok());
    assert!(backend.calls().is_empty());
}

#[test]
fn degenerate_polygon_draws_nothing() {
    let mut backend = IcedChartBackend::new((100, 100));
    assert!(backend.fill_polygon(Vec::new(), &style(1.0)).is_ok());
    assert!(backend.fill_polygon(points(&[(3, 3)]), &style(1.0)).is_ok());
    assert!(backend.fill_polygon(points(&[(0, 0), (5, 5)]), &style(1.0)).is_ok());
    // Four points on one run simplify to its two ends.
    assert!(backend.fill_polygon(points(&[(0, 0), (1, 0), (2, 0), (3, 0)]), &style(1.0)).is_ok());
    // Three equal points simplify to one.
    assert!(backend.fill_polygon(points(&[(4, 4), (4, 4), (4, 4)]), &style(1.0)).is_ok());
    assert!(backend.calls().is_empty());
}

#[test]
fn outline_whose_shapes_are_too_short_draws_nothing() {
    // Three points are left of the outline, but its one shape has two: the
    // way back to (0, 0) adds nothing to it.
    let mut backend = IcedChartBackend::new((100, 100));
    assert!(backend.fill_polygon(points(&[(0, 0), (5, 5), (0, 0)]), &style(1.0)).is_ok());
    assert!(backend.calls().is_empty());
    assert_eq!(fill_path(points(&[(0, 0), (5, 5), (0, 0)])), None);
    // The same with a run in it and a repeated point.
    assert!(backend
        .fill_polygon(points(&[(0, 0), (0, 3), (0, 7), (0, 7), (0, 0)]), &style(1.0))
        .is_ok());
    assert!(backend.calls().is_empty());
}

#[test]
fn path_to_fill_holds_the_triangles() {
    assert_eq!(fill_path(points(&[])), None);
    assert_eq!(fill_path(points(&[(0, 0), (4, 0)])), None);
    assert_eq!(
        fill_path(points(&[(0, 0), (4, 0), (0, 3)])),
        Some(vec![
            PathOp::MoveTo(at(0, 0)),
            PathOp::LineTo(at(4, 0)),
            PathOp::LineTo(at(0, 3)),
            PathOp::Close,
        ])
    );
    // A shape of three points that encloses nothing: a path without triangles.
    assert_eq!(fill_path(points(&[(0, 0), (5, 5), (10, 10)])), Some(Vec::new()));
}

#[test]
fn square_is_filled_as_two_triangles_in_one_call() {
    let mut backend = IcedChartBackend::new((100, 100));
    let square = points(&[(0, 0), (10, 0), (10, 10), (0, 10)]);
    assert!(backend.fill_polygon(square, &style(0.5)).is_ok());
    let expected = DrawCall::Fill {
        shape: Shape::Path(vec![
            PathOp::MoveTo(at(0, 10)),
            PathOp::LineTo(at(0, 0)),
            PathOp::LineTo(at(10, 0)),
            PathOp::Close,
            PathOp::MoveTo(at(10, 0)),
            PathOp::LineTo(at(10, 10)),
            PathOp::LineTo(at(0, 10)),
            PathOp::Close,
        ]),
        color: color(0.5),
    };
    assert_eq!(backend.calls(), &vec![expected]);
}

#[test]
fn figure_eight_is_filled_as_its_two_shapes() {
    let mut backend = IcedChartBackend::new((100, 100));
    let outline = points(&[(0, 0), (10, 10), (10, 0), (0, 10)]);
    assert!(backend.fill_polygon(outline, &style(1.0)).is_ok());
    let expected = DrawCall::Fill {
        shape: Shape::Path(vec![
            PathOp::MoveTo(at(0, 0)),
            PathOp::LineTo(at(5, 5)),
            PathOp::LineTo(at(0, 10)),
            PathOp::Close,
            PathOp::MoveTo(at(5, 5)),
            PathOp::LineTo(at(10, 10)),
            PathOp::LineTo(at(10, 0)),
            PathOp::Close,
        ]),
        color: color(1.0),
    };
    assert_eq!(backend.calls(), &vec![expected]);
}

#[test]
fn outline_is_simplified_before_it_is_split() {
    // The square again, with points inside its sides and repeated corners.
    let mut plain = IcedChartBackend::new((100, 100));
    let mut noisy = IcedChartBackend::new((100, 100));
    assert!(plain
        .fill_polygon(points(&[(0, 0), (10, 0), (10, 10), (0, 10)]), &style(1.0))
        .is_ok());
    assert!(noisy
        .fill_polygon(
            points(&[(0, 0), (0, 0), (5, 0), (10, 0), (10, 3), (10, 6), (10, 10), (0, 10)]),
            &style(1.0)
        )
        .is_ok());
    assert_eq!(plain.calls(), noisy.calls());
    assert_eq!(plain.calls().len(), 1);
}

#[test]
fn outline_without_area_is_one_empty_fill() {
    let mut backend = IcedChartBackend::new((100, 100));
    assert!(backend.fill_polygon(points(&[(0, 0), (5, 5), (10, 10)]), &style(1.0)).is_ok());
    assert_eq!(
        backend.calls(),
        &vec![DrawCall::Fill { shape: Shape::Path(Vec::new()), color: color(1.0) }]
    );
}

#[test]
fn pixel_is_a_unit_rectangle() {
    let mut backend = IcedChartBackend::new((100, 100));
    assert!(backend.draw_pixel(at(3, 4), color(1.0)).is_ok());
    assert_eq!(
        backend.calls(),
        &vec![DrawCall::FillRectangle { top_left: at(3, 4), width: 1, height: 1, color: color(1.0) }]
    );
}

#[test]
fn rectangle_spans_its_two_corners() {
    let mut backend = IcedChartBackend::new((100, 100));
    assert!(backend.draw_rect(at(2, 3), at(12, 8), &style(1.0), true).is_ok());
    assert!(backend.draw_rect(at(2, 3), at(12, 8), &style(1.0), false).is_ok());
    assert!(backend.draw_rect(at(i32::MIN, 0), at(i32::MAX, -1), &style(1.0), true).is_ok());
    assert_eq!(
        backend.calls(),
        &vec![
            DrawCall::FillRectangle { top_left: at(2, 3), width: 10, height: 5, color: color(1.0) },
            DrawCall::Stroke {
                shape: Shape::Rectangle { top_left: at(2, 3), width: 10, height: 5 },
                color: color(1.0),
                stroke_width: 2,
            },
            DrawCall::FillRectangle {
                top_left: at(i32::MIN, 0),
                width: 4294967295,
                height: -1,
                color: color(1.0),
            },
        ]
    );
}

#[test]
fn line_path_and_circle_are_stroked() {
    let mut backend = IcedChartBackend::new((100, 100));
    assert!(backend.draw_line(at(0, 0), at(5, 6), &style(1.0)).is_ok());
    assert!(backend.draw_path(&points(&[(0, 0), (1, 2), (3, 4)]), &style(1.0)).is_ok());
    assert!(backend.draw_path(&[], &style(1.0)).is_ok());
    assert!(backend.draw_circle(at(7, 7), 3, &style(1.0), false).is_ok());
    assert!(backend.draw_circle(at(7, 7), 3, &style(1.0), true).is_ok());
    assert_eq!(
        backend.calls(),
        &vec![
            DrawCall::Stroke {
                shape: Shape::Line { from: at(0, 0), to: at(5, 6) },
                color: color(1.0),
                stroke_width: 2,
            },
            DrawCall::Stroke {
                shape: Shape::Path(vec![
                    PathOp::MoveTo(at(0, 0)),
                    PathOp::LineTo(at(1, 2)),
                    PathOp::LineTo(at(3, 4)),
                ]),
                color: color(1.0),
                stroke_width: 2,
            },
            DrawCall::Stroke { shape: Shape::Path(Vec::new()), color: color(1.0), stroke_width: 2 },
            DrawCall::Stroke {
                shape: Shape::Circle { center: at(7, 7), radius: 3 },
                color: color(1.0),
                stroke_width: 2,
            },
            DrawCall::Fill { shape: Shape::Circle { center: at(7, 7), radius: 3 }, color: color(1.0) },
        ]
    );
}

#[test]
fn text_keeps_its_anchor() {
    let mut backend = IcedChartBackend::new((100, 100));
    let text = BackendTextStyle {
        color: color(1.0),
        anchor: Pos { h_pos: HPos::Right, v_pos: VPos::Center },
        transform: FontTransform::Rotate90,
    };
    assert!(backend.draw_text("label", &text, at(9, 8)).is_ok());
    assert_eq!(
        backend.calls(),
        &vec![DrawCall::FillText {
            content: String::from("label"),
            position: at(9, 8),
            color: color(1.0),
            horizontal: HPos::Right,
            vertical: VPos::Center,
        }]
    );
}

#[test]
fn bitmap_is_not_drawn() {
    let mut backend = IcedChartBackend::new((100, 100));
    assert!(backend.blit_bitmap(at(0, 0), (2, 2), &[0u8; 16]).is_ok());
    assert!(backend.ensure_prepared().is_ok());
    assert!(backend.present().is_ok());
    assert!(backend.calls().is_empty());
    assert_eq!(backend.get_size(), (100, 100));
}

#[test]
fn calls_are_recorded_in_order_and_handed_out_once() {
    let mut backend = IcedChartBackend::new((640, 480));
    assert!(backend.draw_pixel(at(1, 1), color(1.0)).is_ok());
    assert!(backend.draw_line(at(0, 0), at(1, 1), &style(1.0)).is_ok());
    let calls = backend.take_calls();
    assert_eq!(calls.len(), 2);
    assert!(matches!(calls[0], DrawCall::FillRectangle { .. }));
    assert!(matches!(calls[1], DrawCall::Stroke { .. }));
    assert!(backend.calls().is_empty());
    assert_eq!(backend.get_size(), (640, 480));
}

#[test]
fn opacity_is_zero_only_for_the_two_zeros() {
    assert!(color(0.0).is_transparent());
    assert!(color(-0.0).is_transparent());
    assert!(!color(1.0).is_transparent());
    assert!(!color(1e-300).is_transparent());
    assert!(!color(f64::NAN).is_transparent());
}

#[test]
fn turn_of_a_text_in_degrees() {
    assert_eq!(FontTransform::Upright.angle(), None);
    assert_eq!(FontTransform::Rotate90.angle(), Some(90));
    assert_eq!(FontTransform::Rotate180.angle(), Some(180));
    assert_eq!(FontTransform::Rotate270.angle(), Some(270));
}
