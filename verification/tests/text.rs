use plotters_iced::backend::{HPos, Pos, VPos};
use plotters_iced::web::svg::text_origin;
use plotters_iced::web::text::Measurement;
use plotters_iced::Error;
use plotters_iced::Point;
use std::cell::Cell;

fn key(text: &str) -> String {
    format!("12serifnormal0{}", text)
}

#[test]
fn text_is_measured_once() {
    let mut measurement = Measurement::new();
    let calls = Cell::new(0);
    let first = measurement.measure(key("label"), || {
        calls.set(calls.get() + 1);
        Ok((30, 12))
    });
    assert_eq!(first, Ok((30, 12)));
    let second = measurement.measure(key("label"), || {
        calls.set(calls.get() + 1);
        Ok((99, 99))
    });
    assert_eq!(second, Ok((30, 12)));
    assert_eq!(calls.get(), 1);
}

#[test]
fn each_text_has_its_own_size() {
    let mut measurement = Measurement::new();
    assert_eq!(measurement.measure(key("a"), || Ok((1, 2))), Ok((1, 2)));
    assert_eq!(measurement.measure(key("b"), || Ok((3, 4))), Ok((3, 4)));
    assert_eq!(measurement.measure(key("a"), || Ok((0, 0))), Ok((1, 2)));
    assert_eq!(measurement.measure(key("b"), || Ok((0, 0))), Ok((3, 4)));
}

#[test]
fn failure_to_measure_is_handed_on_and_not_kept() {
    let mut measurement = Measurement::new();
    assert_eq!(measurement.measure(key("x"), || Err(Error::Measurement)), Err(Error::Measurement));
    // Nothing was kept for the text: it is measured again.
    assert_eq!(measurement.measure(key("x"), || Ok((7, 8))), Ok((7, 8)));
    assert_eq!(measurement.measure(key("x"), || Err(Error::Measurement)), Ok((7, 8)));
}

#[test]
fn text_used_longest_ago_drops_out() {
    let mut measurement = Measurement::new();
    for i in 0..100u32 {
        assert_eq!(measurement.measure(key(&i.to_string()), || Ok((i, i))), Ok((i, i)));
    }
    // All hundred are kept.
    for i in 0..100u32 {
        assert_eq!(measurement.measure(key(&i.to_string()), || Ok((0, 0))), Ok((i, i)));
    }
    // Text 0 is asked for again, so that text 1 is the one used longest ago.
    assert_eq!(measurement.measure(key("0"), || Ok((0, 1))), Ok((0, 0)));
    assert_eq!(measurement.measure(key("new"), || Ok((5, 5))), Ok((5, 5)));
    assert_eq!(measurement.measure(key("0"), || Ok((9, 9))), Ok((0, 0)));
    assert_eq!(measurement.measure(key("2"), || Ok((9, 9))), Ok((2, 2)));
    assert_eq!(measurement.measure(key("new"), || Ok((9, 9))), Ok((5, 5)));
    // Text 1 has dropped out and is measured anew.
    assert_eq!(measurement.measure(key("1"), || Ok((9, 9))), Ok((9, 9)));
}

#[test]
fn text_origin_follows_the_anchor() {
    let pos = Point { x: 100, y: 50 };
    let size = (31, 12);
    let origin = |h_pos, v_pos| text_origin(pos, Pos { h_pos, v_pos }, size);
    assert_eq!(origin(HPos::Left, VPos::Bottom), (100, 50));
    assert_eq!(origin(HPos::Right, VPos::Bottom), (69, 50));
    assert_eq!(origin(HPos::Center, VPos::Bottom), (85, 50));
    assert_eq!(origin(HPos::Left, VPos::Top), (100, 58));
    assert_eq!(origin(HPos::Left, VPos::Center), (100, 54));
    assert_eq!(origin(HPos::Center, VPos::Center), (85, 54));
    // Sizes and positions at the ends of their ranges.
    let far = text_origin(
        Point { x: i32::MIN, y: i32::MAX },
        Pos { h_pos: HPos::Right, v_pos: VPos::Top },
        (u32::MAX, u32::MAX),
    );
    assert_eq!(far, (-2147483648 - 4294967295, 2147483647 + 2863311530));
}

#[test]
fn error_says_what_failed() {
    assert_eq!(Error::Measurement.message(), "Measurement");
}
