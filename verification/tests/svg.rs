use plotters_iced::backend::{
    BackendColor, BackendStyle, BackendTextStyle, FontTransform, HPos, PathOp, Pos, VPos,
};
use plotters_iced::web::svg::{Paint, Rotation, SvgBackend, SvgNode};
use plotters_iced::{Error, Point};
use std::cell::Cell;

fn points(coordinates: &[(i32, i32)]) -> Vec<Point> {
    coordinates.iter().map(|&(x, y)| Point { x, y }).collect()
}

fn color(alpha: f64) -> BackendColor {
    BackendColor { alpha_bits: alpha.to_bits(), red: 200, green: 100, blue: 0 }
}

fn style(alpha: f64) -> BackendStyle {
    BackendStyle { color: color(alpha), stroke_width: 3 }
}

fn text_style(alpha: f64, h_pos: HPos, v_pos: VPos, transform: FontTransform) -> BackendTextStyle {
    BackendTextStyle { color: color(alpha), anchor: Pos { h_pos, v_pos }, transform }
}

fn at(x: i32, y: i32) -> Point {
    Point { x, y }
}

fn stroke() -> Paint {
    Paint::Stroke { color: color(1.0), stroke_width: 3 }
}

fn fill() -> Paint {
    Paint::Fill { color: color(1.0) }
}

#[test]
fn svg_zero_alpha_makes_no_node() {
    let mut backend = SvgBackend::new((100, 100));
    let square = points(&[(0, 0), (10, 0), (10, 10), (0, 10)]);
    let measured = Cell::new(0);
    assert!(backend.draw_pixel(at(1, 1), color(0.0)).is_ok());
    assert!(backend.draw_line(at(1, 1), at(2, 2), &style(0.0)).is_ok());
    assert!(backend.draw_rect(at(1, 1), at(2, 2), &style(0.0), true).is_ok());
    assert!(backend.draw_rect(at(1, 1), at(2, 2), &style(-0.0), false).is_ok());
    assert!(backend.draw_path(&square, &style(0.0)).is_ok());
    assert!(backend.draw_circle(at(1, 1), 5, &style(0.0), true).is_ok());
    assert!(backend.fill_polygon(square, &style(0.0)).is_ok());
    let hidden = text_style(0.0, HPos::Left, VPos::Top, FontTransform::Upright);
    assert!(backend.place_text("hidden", &hidden, at(0, 0), (10, 10)).is_ok());
    let drawn = backend.draw_text("hidden", &hidden, at(0, 0), String::from("hidden"), || {
        measured.set(measured.get() + 1);
        Ok((10, 10))
    });
    assert_eq!(drawn, Ok(()));
    // A text that cannot be seen is not even measured.
    assert_eq!(measured.get(), 0);
    assert!(backend.nodes().is_empty());
}

#[test]
fn svg_shapes_become_nodes() {
    let mut backend = SvgBackend::new((100, 100));
    assert!(backend.draw_pixel(at(3, 4), color(1.0)).is_ok());
    assert!(backend.draw_line(at(0, 0), at(5, 6), &style(1.0)).is_ok());
    assert!(backend.draw_rect(at(2, 3), at(12, 8), &style(1.0), true).is_ok());
    assert!(backend.draw_rect(at(2, 3), at(12, 8), &style(1.0), false).is_ok());
    assert!(backend.draw_rect(at(i32::MIN, 0), at(i32::MAX, -1), &style(1.0), true).is_ok());
    assert!(backend.draw_path(&points(&[(0, 0), (1, 2), (3, 4)]), &style(1.0)).is_ok());
    assert!(backend.draw_circle(at(7, 7), 3, &style(1.0), true).is_ok());
    assert!(backend.draw_circle(at(7, 7), 3, &style(1.0), false).is_ok());
    assert_eq!(
        backend.nodes(),
        &vec![
            SvgNode::Rect { top_left: at(3, 4), width: 1, height: 1, paint: fill() },
            SvgNode::Line { from: at(0, 0), to: at(5, 6), color: color(1.0), stroke_width: 3 },
            SvgNode::Rect { top_left: at(2, 3), width: 10, height: 5, paint: fill() },
            SvgNode::Rect { top_left: at(2, 3), width: 10, height: 5, paint: stroke() },
            SvgNode::Rect { top_left: at(i32::MIN, 0), width: 4294967295, height: -1, paint: fill() },
            SvgNode::Path {
                ops: vec![
                    PathOp::MoveTo(at(0, 0)),
                    PathOp::LineTo(at(1, 2)),
                    PathOp::LineTo(at(3, 4)),
                ],
                paint: stroke(),
            },
            SvgNode::Circle { center: at(7, 7), radius: 3, paint: fill() },
            SvgNode::Circle { center: at(7, 7), radius: 3, paint: stroke() },
        ]
    );
}

#[test]
fn svg_polygon_is_one_path_of_triangles() {
    let mut backend = SvgBackend::new((100, 100));
    assert!(backend
        .fill_polygon(points(&[(0, 0), (10, 0), (10, 10), (0, 10)]), &style(1.0))
        .is_ok());
    assert_eq!(
        backend.nodes(),
        &vec![SvgNode::Path {
            ops: vec![
                PathOp::MoveTo(at(0, 10)),
                PathOp::LineTo(at(0, 0)),
                PathOp::LineTo(at(10, 0)),
                PathOp::Close,
                PathOp::MoveTo(at(10, 0)),
                PathOp::LineTo(at(10, 10)),
                PathOp::LineTo(at(0, 10)),
                PathOp::Close,
            ],
            paint: fill(),
        }]
    );
}

#[test]
fn svg_degenerate_polygon_makes_no_node() {
    let mut backend = SvgBackend::new((100, 100));
    assert!(backend.fill_polygon(Vec::new(), &style(1.0)).is_ok());
    assert!(backend.fill_polygon(points(&[(0, 0), (5, 5)]), &style(1.0)).is_ok());
    assert!(backend.fill_polygon(points(&[(0, 0), (1, 0), (2, 0), (3, 0)]), &style(1.0)).is_ok());
    assert!(backend.fill_polygon(points(&[(0, 0), (5, 5), (0, 0)]), &style(1.0)).is_ok());
    assert!(backend.nodes().is_empty());
}

#[test]
fn svg_text_is_placed_by_its_baseline() {
    let mut backend = SvgBackend::new((100, 100));
    let centred = text_style(1.0, HPos::Center, VPos::Center, FontTransform::Upright);
    assert!(backend.place_text("mid", &centred, at(100, 50), (31, 12)).is_ok());
    let turned = text_style(1.0, HPos::Right, VPos::Top, FontTransform::Rotate270);
    assert!(backend.place_text("up", &turned, at(100, 50), (31, 12)).is_ok());
    assert_eq!(
        backend.nodes(),
        &vec![
            SvgNode::Text {
                x: 85,
                y: 54,
                content: String::from("mid"),
                color: color(1.0),
                rotate: None,
            },
            SvgNode::Text {
                x: 69,
                y: 58,
                content: String::from("up"),
                color: color(1.0),
                rotate: Some(Rotation { angle: 270, about: at(100, 50) }),
            },
        ]
    );
}

#[test]
fn svg_text_is_measured_once_and_drawn_each_time() {
    let mut backend = SvgBackend::new((100, 100));
    let plain = text_style(1.0, HPos::Right, VPos::Bottom, FontTransform::Upright);
    let measured = Cell::new(0);
    for _ in 0..2 {
        let drawn = backend.draw_text("label", &plain, at(50, 20), String::from("12label"), || {
            measured.set(measured.get() + 1);
            Ok((30, 12))
        });
        assert_eq!(drawn, Ok(()));
    }
    assert_eq!(measured.get(), 1);
    let node = SvgNode::Text {
        x: 20,
        y: 20,
        content: String::from("label"),
        color: color(1.0),
        rotate: None,
    };
    assert_eq!(backend.nodes(), &vec![node.clone(), node]);
    assert_eq!(backend.estimate_text_size(String::from("12label"), || Ok((0, 0))), Ok((30, 12)));
}

#[test]
fn svg_text_that_cannot_be_measured_is_not_drawn() {
    let mut backend = SvgBackend::new((100, 100));
    let plain = text_style(1.0, HPos::Left, VPos::Bottom, FontTransform::Upright);
    let drawn =
        backend.draw_text("label", &plain, at(5, 5), String::from("k"), || Err(Error::Measurement));
    assert_eq!(drawn, Err(Error::Measurement));
    assert!(backend.nodes().is_empty());
    assert_eq!(
        backend.estimate_text_size(String::from("k"), || Err(Error::Measurement)),
        Err(Error::Measurement)
    );
    // Nothing was kept for the text: the next call measures.
    assert_eq!(backend.draw_text("label", &plain, at(5, 5), String::from("k"), || Ok((8, 9))), Ok(()));
    assert_eq!(backend.nodes().len(), 1);
}

#[test]
fn svg_nodes_are_handed_out_once() {
    let mut backend = SvgBackend::new((640, 480));
    assert!(backend.draw_pixel(at(1, 1), color(1.0)).is_ok());
    assert!(backend.blit_bitmap(at(0, 0), (2, 2), &[0u8; 16]).is_ok());
    assert!(backend.ensure_prepared().is_ok());
    assert!(backend.present().is_ok());
    assert_eq!(backend.take_nodes().len(), 1);
    assert!(backend.nodes().is_empty());
    assert_eq!(backend.get_size(), (640, 480));
}
