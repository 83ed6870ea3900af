//! The drawing backend: it turns each drawing request into the calls that a
//! canvas has to perform, and records them in the order of the requests.

use vstd::prelude::*;
use crate::backend::utils::path::{simplified, PathSimplifier};
use crate::backend::utils::shape::{segments_of, split_shapes, views, ShapeSplitter};
use crate::error::Error;
use crate::point::Point;
use crate::triangulate::{triangulate_points, triangulation, Triangle};

pub mod utils;

verus! {

/// Where a text lies, from left to right, relative to its position.
#[derive(Clone, Copy, Debug, PartialEq, Eq, Structural)]
pub enum HPos {
    Left,
    Right,
    Center,
}

/// Where a text lies, from top to bottom, relative to its position.
#[derive(Clone, Copy, Debug, PartialEq, Eq, Structural)]
pub enum VPos {
    Top,
    Center,
    Bottom,
}

/// A colour: its red, green and blue parts, and its opacity as the bits of
/// a double-precision number between 0 and 1.
#[derive(Clone, Copy, Debug, PartialEq, Eq, Structural)]
pub struct BackendColor {
    pub alpha_bits: u64,
    pub red: u8,
    pub green: u8,
    pub blue: u8,
}

impl BackendColor {
    /// The opacity is zero, of either sign.
    pub open spec fn transparent(self) -> bool {
        self.alpha_bits == 0 || self.alpha_bits == 0x8000_0000_0000_0000
    }

    /// Whether the opacity is zero, so that nothing drawn in this colour
    /// can be seen.
    pub fn is_transparent(&self) -> (transparent: bool)
        ensures
            transparent == self.transparent(),
    {
        self.alpha_bits == 0 || self.alpha_bits == 0x8000_0000_0000_0000
    }
}

/// How a shape is drawn.
#[derive(Clone, Copy, Debug, PartialEq, Eq, Structural)]
pub struct BackendStyle {
    pub color: BackendColor,
    pub stroke_width: u32,
}

/// The point of a text that is put on its position.
#[derive(Clone, Copy, Debug, PartialEq, Eq, Structural)]
pub struct Pos {
    pub h_pos: HPos,
    pub v_pos: VPos,
}

/// How a text is turned about its position.
#[derive(Clone, Copy, Debug, PartialEq, Eq, Structural)]
pub enum FontTransform {
    /// Not turned.
    Upright,
    /// Turned clockwise by 90 degrees.
    Rotate90,
    /// Turned clockwise by 180 degrees.
    Rotate180,
    /// Turned clockwise by 270 degrees.
    Rotate270,
}

impl FontTransform {
    /// The angle in degrees by which the text is turned, if it is.
    pub open spec fn degrees(self) -> Option<u32> {
        match self {
            FontTransform::Upright => None,
            FontTransform::Rotate90 => Some(90u32),
            FontTransform::Rotate180 => Some(180u32),
            FontTransform::Rotate270 => Some(270u32),
        }
    }

    /// The angle in degrees by which the text is turned, if it is.
    pub fn angle(&self) -> (angle: Option<u32>)
        ensures
            angle == self.degrees(),
    {
        match self {
            FontTransform::Upright => None,
            FontTransform::Rotate90 => Some(90),
            FontTransform::Rotate180 => Some(180),
            FontTransform::Rotate270 => Some(270),
        }
    }
}

/// How a text is drawn, as far as the backend decides by it.
#[derive(Clone, Copy, Debug, PartialEq, Eq, Structural)]
pub struct BackendTextStyle {
    pub color: BackendColor,
    pub anchor: Pos,
    pub transform: FontTransform,
}

/// One step in the building of a path on the canvas.
#[derive(Clone, Copy, Debug, PartialEq, Eq, Structural)]
pub enum PathOp {
    MoveTo(Point),
    LineTo(Point),
    Close,
}

/// A shape that the canvas can fill or stroke.
#[derive(Clone, Debug, PartialEq, Eq)]
pub enum Shape {
    Line { from: Point, to: Point },
    Rectangle { top_left: Point, width: i64, height: i64 },
    Circle { center: Point, radius: u32 },
    Path(Vec<PathOp>),
}

/// What a [`Shape`] is, its path taken as a sequence.
pub enum ShapeView {
    Line { from: Point, to: Point },
    Rectangle { top_left: Point, width: i64, height: i64 },
    Circle { center: Point, radius: u32 },
    Path(Seq<PathOp>),
}

impl View for Shape {
    type V = ShapeView;

    open spec fn view(&self) -> ShapeView {
        match *self {
            Shape::Line { from, to } => ShapeView::Line { from, to },
            Shape::Rectangle { top_left, width, height } => ShapeView::Rectangle {
                top_left,
                width,
                height,
            },
            Shape::Circle { center, radius } => ShapeView::Circle { center, radius },
            Shape::Path(ops) => ShapeView::Path(ops@),
        }
    }
}

/// One call on the canvas.
#[derive(Clone, Debug, PartialEq, Eq)]
pub enum DrawCall {
    FillRectangle { top_left: Point, width: i64, height: i64, color: BackendColor },
    Fill { shape: Shape, color: BackendColor },
    Stroke { shape: Shape, color: BackendColor, stroke_width: u32 },
    FillText {
        content: String,
        position: Point,
        color: BackendColor,
        horizontal: HPos,
        vertical: VPos,
    },
}

/// What a [`DrawCall`] is, its shape and text taken as sequences.
pub enum DrawCallView {
    FillRectangle { top_left: Point, width: i64, height: i64, color: BackendColor },
    Fill { shape: ShapeView, color: BackendColor },
    Stroke { shape: ShapeView, color: BackendColor, stroke_width: u32 },
    FillText {
        content: Seq<char>,
        position: Point,
        color: BackendColor,
        horizontal: HPos,
        vertical: VPos,
    },
}

impl View for DrawCall {
    type V = DrawCallView;

    open spec fn view(&self) -> DrawCallView {
        match *self {
            DrawCall::FillRectangle { top_left, width, height, color } => {
                DrawCallView::FillRectangle { top_left, width, height, color }
            },
            DrawCall::Fill { shape, color } => DrawCallView::Fill { shape: shape@, color },
            DrawCall::Stroke { shape, color, stroke_width } => DrawCallView::Stroke {
                shape: shape@,
                color,
                stroke_width,
            },
            DrawCall::FillText { content, position, color, horizontal, vertical } => {
                DrawCallView::FillText { content: content@, position, color, horizontal, vertical }
            },
        }
    }
}

/// The path through `points` that is left open: a move to the first point,
/// then a line to each of the others.
pub open spec fn open_path(points: Seq<Point>) -> Seq<PathOp> {
    Seq::new(
        points.len(),
        |i: int|
            if i == 0 {
                PathOp::MoveTo(points[i])
            } else {
                PathOp::LineTo(points[i])
            },
    )
}

/// The closed path around one triangle.
pub open spec fn triangle_path(t: Triangle) -> Seq<PathOp> {
    seq![
        PathOp::MoveTo(t.points[0]),
        PathOp::LineTo(t.points[1]),
        PathOp::LineTo(t.points[2]),
        PathOp::Close,
    ]
}

/// The closed paths around the triangles, one after the other.
pub open spec fn triangles_path(triangles: Seq<Triangle>) -> Seq<PathOp>
    decreases triangles.len(),
{
    if triangles.len() == 0 {
        Seq::empty()
    } else {
        triangles_path(triangles.drop_last()) + triangle_path(triangles.last())
    }
}

/// The closed paths around the triangles of every shape that has three
/// points or more; shapes with fewer are passed over.
pub open spec fn shapes_path(shapes: Seq<Seq<Point>>) -> Seq<PathOp>
    decreases shapes.len(),
{
    if shapes.len() == 0 {
        Seq::empty()
    } else if shapes.last().len() < 3 {
        shapes_path(shapes.drop_last())
    } else {
        shapes_path(shapes.drop_last()) + triangles_path(triangulation(shapes.last()))
    }
}

/// Whether one of the shapes has three points or more, so that it can be
/// cut into triangles.
pub open spec fn any_fillable(shapes: Seq<Seq<Point>>) -> bool
    decreases shapes.len(),
{
    if shapes.len() == 0 {
        false
    } else {
        any_fillable(shapes.drop_last()) || shapes.last().len() >= 3
    }
}

/// The path by which a polygon with the corners `vert` is filled: the
/// triangles of all the shapes into which its simplified outline splits.
/// There is none where fewer than three points are left, be it of the
/// simplified outline or of every one of its shapes.
pub open spec fn polygon_path(vert: Seq<Point>) -> Option<Seq<PathOp>> {
    let outline = simplified(vert);
    if outline.len() < 3 {
        None
    } else {
        let shapes = split_shapes(segments_of(outline), outline.last());
        if any_fillable(shapes) {
            Some(shapes_path(shapes))
        } else {
            None
        }
    }
}

/// The calls by which a polygon with the corners `vert` is filled: none for
/// a colour that cannot be seen or a polygon without a path to fill, else
/// one fill of all the triangles of all its shapes.
pub open spec fn fill_polygon_calls(vert: Seq<Point>, color: BackendColor) -> Seq<DrawCallView> {
    if color.transparent() {
        Seq::empty()
    } else {
        match polygon_path(vert) {
            Some(path) => seq![DrawCallView::Fill { shape: ShapeView::Path(path), color }],
            None => Seq::empty(),
        }
    }
}

/// A shape of three points or more is among those that can be filled.
pub proof fn lemma_any_fillable(shapes: Seq<Seq<Point>>, i: int)
    requires
        0 <= i < shapes.len(),
        shapes[i].len() >= 3,
    ensures
        any_fillable(shapes),
    decreases shapes.len(),
{
    if i < shapes.len() - 1 {
        lemma_any_fillable(shapes.drop_last(), i);
    }
}

/// Without a shape of three points or more the path of the shapes is empty.
pub proof fn lemma_nothing_fillable(shapes: Seq<Seq<Point>>)
    requires
        !any_fillable(shapes),
    ensures
        shapes_path(shapes) == Seq::<PathOp>::empty(),
        forall|i: int| 0 <= i < shapes.len() ==> (#[trigger] shapes[i]).len() < 3,
    decreases shapes.len(),
{
    if shapes.len() > 0 {
        lemma_nothing_fillable(shapes.drop_last());
        assert forall|i: int| 0 <= i < shapes.len() implies (#[trigger] shapes[i]).len() < 3 by {
            if i < shapes.len() - 1 {
                assert(shapes[i] == shapes.drop_last()[i]);
            }
        }
    }
}

/// Computes [`polygon_path`]: simplifies the outline, splits it where it
/// crosses itself, and cuts each shape of three points or more into
/// triangles.
pub fn fill_path(vert: Vec<Point>) -> (path: Option<Vec<PathOp>>)
    ensures
        match path {
            Some(ops) => polygon_path(vert@) == Some(ops@),
            None => polygon_path(vert@) is None,
        },
{
    let simplified_path = PathSimplifier::from(vert).collect();
    if let Ok(shape_splitter) = ShapeSplitter::try_from(simplified_path.as_slice()) {
        let shapes = shape_splitter.collect();
        let ghost all = views(shapes@);
        let mut path: Vec<PathOp> = Vec::new();
        let mut fillable = false;
        let mut i: usize = 0;
        assert(all.take(0) =~= Seq::<Seq<Point>>::empty());
        while i < shapes.len()
            invariant
                i <= shapes@.len(),
                all == views(shapes@),
                path@ == shapes_path(all.take(i as int)),
                fillable == any_fillable(all.take(i as int)),
            decreases shapes@.len() - i,
        {
            let shape_points = &shapes[i];
            assert(all.take(i + 1).drop_last() =~= all.take(i as int));
            assert(all.take(i + 1).last() == shape_points@);
            // Is that enough points to form at least a triangle?
            if shape_points.len() >= 3 {
                fillable = true;
                let triangles = triangulate_points(shape_points.as_slice());
                let ghost before = path@;
                let mut index: usize = 0;
                assert(triangles@.take(0) =~= Seq::<Triangle>::empty());
                while index < triangles.size()
                    invariant
                        index <= triangles@.len(),
                        path@ == before + triangles_path(triangles@.take(index as int)),
                    decreases triangles@.len() - index,
                {
                    let shape = triangles.get_triangle(index);
                    let ghost so_far = path@;
                    path.push(PathOp::MoveTo(shape.points[0]));
                    path.push(PathOp::LineTo(shape.points[1]));
                    path.push(PathOp::LineTo(shape.points[2]));
                    path.push(PathOp::Close);
                    assert(path@ =~= so_far + triangle_path(shape));
                    assert(triangles@.take(index + 1).drop_last() =~= triangles@.take(
                        index as int,
                    ));
                    assert(triangles@.take(index + 1).last() == shape);
                    index = index + 1;
                    assert(path@ =~= before + triangles_path(triangles@.take(index as int)));
                }
                assert(triangles@.take(index as int) =~= triangles@);
            }
            i = i + 1;
        }
        assert(all.take(i as int) =~= all);
        if fillable {
            Some(path)
        } else {
            None
        }
    } else {
        None
    }
}

/// The drawing backend. It records the calls that its requests amount to;
/// whoever owns the canvas performs them in this order.
pub struct IcedChartBackend {
    size: (u32, u32),
    calls: Vec<DrawCall>,
}

impl View for IcedChartBackend {
    type V = Seq<DrawCallView>;

    closed spec fn view(&self) -> Seq<DrawCallView> {
        self.calls@.map_values(|call: DrawCall| call@)
    }
}

impl IcedChartBackend {
    /// The size of the canvas, as width and height.
    pub closed spec fn size(self) -> (u32, u32) {
        self.size
    }

    /// A backend for a canvas of the given size, with nothing recorded.
    pub fn new(size: (u32, u32)) -> (backend: Self)
        ensures
            backend@ == Seq::<DrawCallView>::empty(),
            backend.size() == size,
    {
        let backend = Self { size, calls: Vec::new() };
        assert(backend@ =~= Seq::<DrawCallView>::empty());
        backend
    }

    /// The size of the canvas.
    pub fn get_size(&self) -> (size: (u32, u32))
        ensures
            size == self.size(),
    {
        self.size
    }

    /// The calls recorded so far.
    pub fn calls(&self) -> (calls: &Vec<DrawCall>)
        ensures
            calls@.map_values(|call: DrawCall| call@) == self@,
    {
        &self.calls
    }

    /// Hands the recorded calls out and starts over with none.
    pub fn take_calls(&mut self) -> (calls: Vec<DrawCall>)
        ensures
            calls@.map_values(|call: DrawCall| call@) == old(self)@,
            final(self)@ == Seq::<DrawCallView>::empty(),
            final(self).size() == old(self).size(),
    {
        let mut calls: Vec<DrawCall> = Vec::new();
        std::mem::swap(&mut self.calls, &mut calls);
        assert(self@ =~= Seq::<DrawCallView>::empty());
        calls
    }

    /// Records one call.
    fn record(&mut self, call: DrawCall)
        ensures
            final(self)@ == old(self)@.push(call@),
            final(self).size() == old(self).size(),
    {
        self.calls.push(call);
        assert(self@ =~= old(self)@.push(call@));
    }

    /// Nothing is to be prepared.
    pub fn ensure_prepared(&mut self) -> (done: Result<(), Error>)
        ensures
            done is Ok,
            *final(self) == *old(self),
    {
        Ok(())
    }

    /// Nothing is to be presented: the calls are there as they are made.
    pub fn present(&mut self) -> (done: Result<(), Error>)
        ensures
            done is Ok,
            *final(self) == *old(self),
    {
        Ok(())
    }

    /// A pixel: a filled rectangle of one by one.
    pub fn draw_pixel(&mut self, point: Point, color: BackendColor) -> (done: Result<(), Error>)
        ensures
            done is Ok,
            final(self).size() == old(self).size(),
            final(self)@ == if color.transparent() {
                old(self)@
            } else {
                old(self)@.push(
                    DrawCallView::FillRectangle { top_left: point, width: 1, height: 1, color },
                )
            },
    {
        if color.is_transparent() {
            return Ok(());
        }
        self.record(DrawCall::FillRectangle { top_left: point, width: 1, height: 1, color });
        Ok(())
    }

    /// A line from `from` to `to`.
    pub fn draw_line(&mut self, from: Point, to: Point, style: &BackendStyle) -> (done: Result<
        (),
        Error,
    >)
        ensures
            done is Ok,
            final(self).size() == old(self).size(),
            final(self)@ == if style.color.transparent() {
                old(self)@
            } else {
                old(self)@.push(
                    DrawCallView::Stroke {
                        shape: ShapeView::Line { from, to },
                        color: style.color,
                        stroke_width: style.stroke_width,
                    },
                )
            },
    {
        if style.color.is_transparent() {
            return Ok(());
        }
        self.record(
            DrawCall::Stroke {
                shape: Shape::Line { from, to },
                color: style.color,
                stroke_width: style.stroke_width,
            },
        );
        Ok(())
    }

    /// A rectangle between two opposite corners, filled or outlined.
    pub fn draw_rect(
        &mut self,
        upper_left: Point,
        bottom_right: Point,
        style: &BackendStyle,
        fill: bool,
    ) -> (done: Result<(), Error>)
        ensures
            done is Ok,
            final(self).size() == old(self).size(),
            final(self)@ == if style.color.transparent() {
                old(self)@
            } else if fill {
                old(self)@.push(
                    DrawCallView::FillRectangle {
                        top_left: upper_left,
                        width: (bottom_right.x - upper_left.x) as i64,
                        height: (bottom_right.y - upper_left.y) as i64,
                        color: style.color,
                    },
                )
            } else {
                old(self)@.push(
                    DrawCallView::Stroke {
                        shape: ShapeView::Rectangle {
                            top_left: upper_left,
                            width: (bottom_right.x - upper_left.x) as i64,
                            height: (bottom_right.y - upper_left.y) as i64,
                        },
                        color: style.color,
                        stroke_width: style.stroke_width,
                    },
                )
            },
    {
        if style.color.is_transparent() {
            return Ok(());
        }
        let height: i64 = bottom_right.y as i64 - upper_left.y as i64;
        let width: i64 = bottom_right.x as i64 - upper_left.x as i64;
        if fill {
            self.record(
                DrawCall::FillRectangle { top_left: upper_left, width, height, color: style.color },
            );
        } else {
            self.record(
                DrawCall::Stroke {
                    shape: Shape::Rectangle { top_left: upper_left, width, height },
                    color: style.color,
                    stroke_width: style.stroke_width,
                },
            );
        }
        Ok(())
    }

    /// An open path through the points of `path`.
    pub fn draw_path(&mut self, path: &[Point], style: &BackendStyle) -> (done: Result<(), Error>)
        ensures
            done is Ok,
            final(self).size() == old(self).size(),
            final(self)@ == if style.color.transparent() {
                old(self)@
            } else {
                old(self)@.push(
                    DrawCallView::Stroke {
                        shape: ShapeView::Path(open_path(path@)),
                        color: style.color,
                        stroke_width: style.stroke_width,
                    },
                )
            },
    {
        if style.color.is_transparent() {
            return Ok(());
        }
        let mut ops: Vec<PathOp> = Vec::new();
        let mut i: usize = 0;
        while i < path.len()
            invariant
                i <= path@.len(),
                ops@ == open_path(path@.take(i as int)),
            decreases path@.len() - i,
        {
            let point = path[i];
            if i > 0 {
                ops.push(PathOp::LineTo(point));
            } else {
                ops.push(PathOp::MoveTo(point));
            }
            i = i + 1;
            assert(ops@ =~= open_path(path@.take(i as int)));
        }
        assert(path@.take(i as int) =~= path@);
        self.record(
            DrawCall::Stroke {
                shape: Shape::Path(ops),
                color: style.color,
                stroke_width: style.stroke_width,
            },
        );
        Ok(())
    }

    /// A circle, filled or outlined.
    pub fn draw_circle(
        &mut self,
        center: Point,
        radius: u32,
        style: &BackendStyle,
        fill: bool,
    ) -> (done: Result<(), Error>)
        ensures
            done is Ok,
            final(self).size() == old(self).size(),
            final(self)@ == if style.color.transparent() {
                old(self)@
            } else if fill {
                old(self)@.push(
                    DrawCallView::Fill {
                        shape: ShapeView::Circle { center, radius },
                        color: style.color,
                    },
                )
            } else {
                old(self)@.push(
                    DrawCallView::Stroke {
                        shape: ShapeView::Circle { center, radius },
                        color: style.color,
                        stroke_width: style.stroke_width,
                    },
                )
            },
    {
        if style.color.is_transparent() {
            return Ok(());
        }
        if fill {
            self.record(DrawCall::Fill { shape: Shape::Circle { center, radius }, color: style.color });
        } else {
            self.record(
                DrawCall::Stroke {
                    shape: Shape::Circle { center, radius },
                    color: style.color,
                    stroke_width: style.stroke_width,
                },
            );
        }
        Ok(())
    }

    /// A filled polygon with the corners `vert`. The outline is simplified,
    /// split where it crosses itself, and each shape cut into triangles;
    /// all triangles go into one fill. Nothing is drawn where fewer than
    /// three points are left of the outline or of each of its shapes.
    pub fn fill_polygon(&mut self, vert: Vec<Point>, style: &BackendStyle) -> (done: Result<
        (),
        Error,
    >)
        ensures
            done is Ok,
            final(self).size() == old(self).size(),
            final(self)@ == old(self)@ + fill_polygon_calls(vert@, style.color),
            style.color.transparent() ==> final(self)@ == old(self)@,
            simplified(vert@).len() < 3 ==> final(self)@ == old(self)@,
            !any_fillable(
                split_shapes(segments_of(simplified(vert@)), simplified(vert@).last()),
            ) ==> final(self)@ == old(self)@,
    {
        if style.color.is_transparent() {
            assert(self@ + Seq::<DrawCallView>::empty() =~= self@);
            return Ok(());
        }
        match fill_path(vert) {
            Some(path) => {
                let ghost recorded = self@;
                self.record(DrawCall::Fill { shape: Shape::Path(path), color: style.color });
                assert(self@ =~= recorded + fill_polygon_calls(vert@, style.color));
            },
            None => {
                assert(self@ + Seq::<DrawCallView>::empty() =~= self@);
            },
        }
        Ok(())
    }

    /// A text at `pos`.
    pub fn draw_text(&mut self, text: &str, style: &BackendTextStyle, pos: Point) -> (done: Result<
        (),
        Error,
    >)
        ensures
            done is Ok,
            final(self).size() == old(self).size(),
            final(self)@ == if style.color.transparent() {
                old(self)@
            } else {
                old(self)@.push(
                    DrawCallView::FillText {
                        content: text@,
                        position: pos,
                        color: style.color,
                        horizontal: style.anchor.h_pos,
                        vertical: style.anchor.v_pos,
                    },
                )
            },
    {
        if style.color.is_transparent() {
            return Ok(());
        }
        let horizontal = match style.anchor.h_pos {
            HPos::Left => HPos::Left,
            HPos::Right => HPos::Right,
            HPos::Center => HPos::Center,
        };
        let vertical = match style.anchor.v_pos {
            VPos::Top => VPos::Top,
            VPos::Center => VPos::Center,
            VPos::Bottom => VPos::Bottom,
        };
        self.record(
            DrawCall::FillText {
                content: text.to_owned(),
                position: pos,
                color: style.color,
                horizontal,
                vertical,
            },
        );
        Ok(())
    }

    /// A bitmap: not drawn, since the canvas does not keep the order of
    /// bitmaps among its other calls.
    pub fn blit_bitmap(&mut self, pos: Point, size: (u32, u32), src: &[u8]) -> (done: Result<
        (),
        Error,
    >)
        ensures
            done is Ok,
            *final(self) == *old(self),
    {
        Ok(())
    }
}

} // verus!
