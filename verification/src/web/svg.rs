//! The drawing backend for an SVG drawing: it turns each drawing request
//! into the node that the drawing gets for it, and records the nodes in the
//! order of the requests.
//!
//! An SVG text is placed by the left end of its baseline, so the point of
//! the text that is to lie on a given position has to be turned into that,
//! which takes the size of the text.

use vstd::prelude::*;
use crate::backend::{
    fill_path, open_path, polygon_path, BackendColor, BackendStyle, BackendTextStyle,
    FontTransform, HPos, PathOp, Pos, VPos,
};
use crate::error::Error;
use crate::point::Point;
use crate::web::text::{looked_up, stored, touched, Measurement, CACHED_SIZES};

verus! {

/// How far the left end of the baseline of a text of the given width and
/// height lies from the position on which the text is anchored, to the
/// right and downwards. The baseline is taken to lie two thirds of the
/// height below the top.
pub open spec fn baseline_offset(anchor: Pos, width: int, height: int) -> (int, int) {
    (
        match anchor.h_pos {
            HPos::Left => 0,
            HPos::Right => -width,
            HPos::Center => -(width / 2),
        },
        match anchor.v_pos {
            VPos::Top => height * 2 / 3,
            VPos::Bottom => 0,
            VPos::Center => height / 3,
        },
    )
}

/// The left end of the baseline of a text of the size `size`, as width and
/// height, that is anchored on `pos`.
pub fn text_origin(pos: Point, anchor: Pos, size: (u32, u32)) -> (origin: (i64, i64))
    ensures
        origin.0 == pos.x + baseline_offset(anchor, size.0 as int, size.1 as int).0,
        origin.1 == pos.y + baseline_offset(anchor, size.0 as int, size.1 as int).1,
{
    let width: i64 = size.0 as i64;
    let height: i64 = size.1 as i64;
    let dx: i64 = match anchor.h_pos {
        HPos::Left => 0,
        HPos::Right => 0 - width,
        HPos::Center => 0 - width / 2,
    };
    //baseline aligned
    let dy: i64 = match anchor.v_pos {
        VPos::Top => height * 2 / 3,
        VPos::Bottom => 0,
        VPos::Center => height / 3,
    };
    (pos.x as i64 + dx, pos.y as i64 + dy)
}

/// How the inside and the outline of a node are painted.
#[derive(Clone, Copy, Debug, PartialEq, Eq, Structural)]
pub enum Paint {
    /// The inside in the colour, no outline.
    Fill { color: BackendColor },
    /// The outline in the colour and of the width, nothing inside.
    Stroke { color: BackendColor, stroke_width: u32 },
}

/// A turn of a text by `angle` degrees about `about`.
#[derive(Clone, Copy, Debug, PartialEq, Eq, Structural)]
pub struct Rotation {
    pub angle: u32,
    pub about: Point,
}

/// One node of the drawing.
#[derive(Clone, Debug, PartialEq, Eq)]
pub enum SvgNode {
    Rect { top_left: Point, width: i64, height: i64, paint: Paint },
    Line { from: Point, to: Point, color: BackendColor, stroke_width: u32 },
    Path { ops: Vec<PathOp>, paint: Paint },
    Circle { center: Point, radius: u32, paint: Paint },
    Text { x: i64, y: i64, content: String, color: BackendColor, rotate: Option<Rotation> },
}

/// What an [`SvgNode`] is, its path and text taken as sequences.
pub enum SvgNodeView {
    Rect { top_left: Point, width: i64, height: i64, paint: Paint },
    Line { from: Point, to: Point, color: BackendColor, stroke_width: u32 },
    Path { ops: Seq<PathOp>, paint: Paint },
    Circle { center: Point, radius: u32, paint: Paint },
    Text { x: i64, y: i64, content: Seq<char>, color: BackendColor, rotate: Option<Rotation> },
}

impl View for SvgNode {
    type V = SvgNodeView;

    open spec fn view(&self) -> SvgNodeView {
        match *self {
            SvgNode::Rect { top_left, width, height, paint } => SvgNodeView::Rect {
                top_left,
                width,
                height,
                paint,
            },
            SvgNode::Line { from, to, color, stroke_width } => SvgNodeView::Line {
                from,
                to,
                color,
                stroke_width,
            },
            SvgNode::Path { ops, paint } => SvgNodeView::Path { ops: ops@, paint },
            SvgNode::Circle { center, radius, paint } => SvgNodeView::Circle {
                center,
                radius,
                paint,
            },
            SvgNode::Text { x, y, content, color, rotate } => SvgNodeView::Text {
                x,
                y,
                content: content@,
                color,
                rotate,
            },
        }
    }
}

/// The paint of a shape that is filled or outlined in a style.
pub open spec fn paint_of(style: BackendStyle, fill: bool) -> Paint {
    if fill {
        Paint::Fill { color: style.color }
    } else {
        Paint::Stroke { color: style.color, stroke_width: style.stroke_width }
    }
}

/// The turn that a text style asks for, about the position of the text.
pub open spec fn rotation_of(style: BackendTextStyle, pos: Point) -> Option<Rotation> {
    match style.transform.degrees() {
        Some(angle) => Some(Rotation { angle, about: pos }),
        None => None,
    }
}

/// The node for a text of the size `size` that is anchored on `pos`.
pub open spec fn text_node(content: Seq<char>, style: BackendTextStyle, pos: Point, size: (u32, u32))
    -> SvgNodeView {
    let offset = baseline_offset(style.anchor, size.0 as int, size.1 as int);
    SvgNodeView::Text {
        x: (pos.x + offset.0) as i64,
        y: (pos.y + offset.1) as i64,
        content,
        color: style.color,
        rotate: rotation_of(style, pos),
    }
}

/// The nodes by which a polygon with the corners `vert` is filled: none for
/// a colour that cannot be seen or a polygon without a path to fill, else
/// one path around all the triangles of all its shapes.
pub open spec fn fill_polygon_nodes(vert: Seq<Point>, color: BackendColor) -> Seq<SvgNodeView> {
    if color.transparent() {
        Seq::empty()
    } else {
        match polygon_path(vert) {
            Some(ops) => seq![SvgNodeView::Path { ops, paint: Paint::Fill { color } }],
            None => Seq::empty(),
        }
    }
}

/// The drawing backend for an SVG drawing. It records the nodes that its
/// requests amount to, and keeps the sizes of the texts measured last.
pub struct SvgBackend {
    size: (u32, u32),
    nodes: Vec<SvgNode>,
    measurement: Measurement,
}

impl View for SvgBackend {
    type V = Seq<SvgNodeView>;

    closed spec fn view(&self) -> Seq<SvgNodeView> {
        self.nodes@.map_values(|node: SvgNode| node@)
    }
}

impl SvgBackend {
    /// The size of the drawing, as width and height.
    pub closed spec fn size(self) -> (u32, u32) {
        self.size
    }

    /// The text sizes that are kept, the one used last first.
    pub closed spec fn measured(self) -> Seq<(Seq<char>, (u32, u32))> {
        self.measurement.entries()
    }

    /// A backend for a drawing of the given size, with no node recorded and
    /// no text measured.
    pub fn new(size: (u32, u32)) -> (backend: Self)
        ensures
            backend@ == Seq::<SvgNodeView>::empty(),
            backend.size() == size,
            backend.measured() == Seq::<(Seq<char>, (u32, u32))>::empty(),
    {
        let backend = Self { size, nodes: Vec::new(), measurement: Measurement::new() };
        assert(backend@ =~= Seq::<SvgNodeView>::empty());
        backend
    }

    /// The size of the drawing.
    pub fn get_size(&self) -> (size: (u32, u32))
        ensures
            size == self.size(),
    {
        self.size
    }

    /// The nodes recorded so far.
    pub fn nodes(&self) -> (nodes: &Vec<SvgNode>)
        ensures
            nodes@.map_values(|node: SvgNode| node@) == self@,
    {
        &self.nodes
    }

    /// Hands the recorded nodes out and starts over with none.
    pub fn take_nodes(&mut self) -> (nodes: Vec<SvgNode>)
        ensures
            nodes@.map_values(|node: SvgNode| node@) == old(self)@,
            final(self)@ == Seq::<SvgNodeView>::empty(),
            final(self).size() == old(self).size(),
            final(self).measured() == old(self).measured(),
    {
        let mut nodes: Vec<SvgNode> = Vec::new();
        std::mem::swap(&mut self.nodes, &mut nodes);
        assert(self@ =~= Seq::<SvgNodeView>::empty());
        nodes
    }

    /// Records one node.
    fn record(&mut self, node: SvgNode)
        ensures
            final(self)@ == old(self)@.push(node@),
            final(self).size() == old(self).size(),
            final(self).measured() == old(self).measured(),
    {
        self.nodes.push(node);
        assert(self@ =~= old(self)@.push(node@));
    }

    /// Nothing is to be prepared.
    pub fn ensure_prepared(&mut self) -> (done: Result<(), Error>)
        ensures
            done is Ok,
            *final(self) == *old(self),
    {
        Ok(())
    }

    /// Nothing is to be presented: the nodes are there as they are made.
    pub fn present(&mut self) -> (done: Result<(), Error>)
        ensures
            done is Ok,
            *final(self) == *old(self),
    {
        Ok(())
    }

    /// A pixel: a filled rectangle of one by one.
    pub fn draw_pixel(&mut self, point: Point, color: BackendColor) -> (done: Result<(), Error>)
        ensures
            done is Ok,
            final(self).size() == old(self).size(),
            final(self).measured() == old(self).measured(),
            final(self)@ == if color.transparent() {
                old(self)@
            } else {
                old(self)@.push(
                    SvgNodeView::Rect {
                        top_left: point,
                        width: 1,
                        height: 1,
                        paint: Paint::Fill { color },
                    },
                )
            },
    {
        if color.is_transparent() {
            return Ok(());
        }
        self.record(
            SvgNode::Rect { top_left: point, width: 1, height: 1, paint: Paint::Fill { color } },
        );
        Ok(())
    }

    /// A line from `from` to `to`.
    pub fn draw_line(&mut self, from: Point, to: Point, style: &BackendStyle) -> (done: Result<
        (),
        Error,
    >)
        ensures
            done is Ok,
            final(self).size() == old(self).size(),
            final(self).measured() == old(self).measured(),
            final(self)@ == if style.color.transparent() {
                old(self)@
            } else {
                old(self)@.push(
                    SvgNodeView::Line {
                        from,
                        to,
                        color: style.color,
                        stroke_width: style.stroke_width,
                    },
                )
            },
    {
        let color = style.color;
        if color.is_transparent() {
            return Ok(());
        }
        self.record(SvgNode::Line { from, to, color, stroke_width: style.stroke_width });
        Ok(())
    }

    /// A rectangle between two opposite corners, filled or outlined.
    pub fn draw_rect(
        &mut self,
        upper_left: Point,
        bottom_right: Point,
        style: &BackendStyle,
        fill: bool,
    ) -> (done: Result<(), Error>)
        ensures
            done is Ok,
            final(self).size() == old(self).size(),
            final(self).measured() == old(self).measured(),
            final(self)@ == if style.color.transparent() {
                old(self)@
            } else {
                old(self)@.push(
                    SvgNodeView::Rect {
                        top_left: upper_left,
                        width: (bottom_right.x - upper_left.x) as i64,
                        height: (bottom_right.y - upper_left.y) as i64,
                        paint: paint_of(*style, fill),
                    },
                )
            },
    {
        let color = style.color;
        if color.is_transparent() {
            return Ok(());
        }
        let width: i64 = bottom_right.x as i64 - upper_left.x as i64;
        let height: i64 = bottom_right.y as i64 - upper_left.y as i64;
        let paint = Self::paint(style, fill);
        self.record(SvgNode::Rect { top_left: upper_left, width, height, paint });
        Ok(())
    }

    /// An open path through the points of `path_points`.
    pub fn draw_path(&mut self, path_points: &[Point], style: &BackendStyle) -> (done: Result<
        (),
        Error,
    >)
        ensures
            done is Ok,
            final(self).size() == old(self).size(),
            final(self).measured() == old(self).measured(),
            final(self)@ == if style.color.transparent() {
                old(self)@
            } else {
                old(self)@.push(
                    SvgNodeView::Path {
                        ops: open_path(path_points@),
                        paint: paint_of(*style, false),
                    },
                )
            },
    {
        let color = style.color;
        if color.is_transparent() {
            return Ok(());
        }
        let mut ops: Vec<PathOp> = Vec::new();
        let mut i: usize = 0;
        while i < path_points.len()
            invariant
                i <= path_points@.len(),
                ops@ == open_path(path_points@.take(i as int)),
            decreases path_points@.len() - i,
        {
            let point = path_points[i];
            if i == 0 {
                ops.push(PathOp::MoveTo(point));
            } else {
                ops.push(PathOp::LineTo(point));
            }
            i = i + 1;
            assert(ops@ =~= open_path(path_points@.take(i as int)));
        }
        assert(path_points@.take(i as int) =~= path_points@);
        self.record(SvgNode::Path { ops, paint: Self::paint(style, false) });
        Ok(())
    }

    /// A circle, filled or outlined.
    pub fn draw_circle(
        &mut self,
        center: Point,
        radius: u32,
        style: &BackendStyle,
        fill: bool,
    ) -> (done: Result<(), Error>)
        ensures
            done is Ok,
            final(self).size() == old(self).size(),
            final(self).measured() == old(self).measured(),
            final(self)@ == if style.color.transparent() {
                old(self)@
            } else {
                old(self)@.push(
                    SvgNodeView::Circle { center, radius, paint: paint_of(*style, fill) },
                )
            },
    {
        let color = style.color;
        if color.is_transparent() {
            return Ok(());
        }
        self.record(SvgNode::Circle { center, radius, paint: Self::paint(style, fill) });
        Ok(())
    }

    /// A filled polygon with the corners `vert`: one path around the
    /// triangles into which the polygon is cut. Nothing is drawn where
    /// fewer than three points are left of the outline or of each of its
    /// shapes.
    pub fn fill_polygon(&mut self, vert: Vec<Point>, style: &BackendStyle) -> (done: Result<
        (),
        Error,
    >)
        ensures
            done is Ok,
            final(self).size() == old(self).size(),
            final(self).measured() == old(self).measured(),
            final(self)@ == old(self)@ + fill_polygon_nodes(vert@, style.color),
            style.color.transparent() ==> final(self)@ == old(self)@,
            polygon_path(vert@) is None ==> final(self)@ == old(self)@,
    {
        let color = style.color;
        if color.is_transparent() {
            assert(self@ + Seq::<SvgNodeView>::empty() =~= self@);
            return Ok(());
        }
        match fill_path(vert) {
            Some(ops) => {
                let ghost recorded = self@;
                self.record(SvgNode::Path { ops, paint: Paint::Fill { color } });
                assert(self@ =~= recorded + fill_polygon_nodes(vert@, style.color));
            },
            None => {
                assert(self@ + Seq::<SvgNodeView>::empty() =~= self@);
            },
        }
        Ok(())
    }

    /// The size of the text that `key` stands for: the one kept for it, or
    /// else what `measure` finds, which is kept from then on. A failure to
    /// measure is handed on, and nothing is kept for it.
    pub fn estimate_text_size<F: FnOnce() -> Result<(u32, u32), Error>>(
        &mut self,
        key: String,
        measure: F,
    ) -> (size: Result<(u32, u32), Error>)
        requires
            measure.requires(()),
        ensures
            final(self)@ == old(self)@,
            final(self).size() == old(self).size(),
            match looked_up(old(self).measured(), key@) {
                Some(kept) => size == Ok::<(u32, u32), Error>(kept) && final(self).measured()
                    == touched(old(self).measured(), key@),
                None => measure.ensures((), size) && final(self).measured() == match size {
                    Ok(measured) => stored(
                        old(self).measured(),
                        key@,
                        measured,
                        CACHED_SIZES as nat,
                    ),
                    Err(_) => old(self).measured(),
                },
            },
    {
        self.measurement.measure(key, measure)
    }

    /// A text of the size `size` at `pos`: one text node, placed by the
    /// left end of its baseline, unless the colour cannot be seen.
    pub fn place_text(
        &mut self,
        content: &str,
        style: &BackendTextStyle,
        pos: Point,
        size: (u32, u32),
    ) -> (done: Result<(), Error>)
        ensures
            done is Ok,
            final(self).size() == old(self).size(),
            final(self).measured() == old(self).measured(),
            final(self)@ == if style.color.transparent() {
                old(self)@
            } else {
                old(self)@.push(text_node(content@, *style, pos, size))
            },
    {
        let color = style.color;
        if color.is_transparent() {
            return Ok(());
        }
        let rotate = match style.transform.angle() {
            None => None,
            Some(angle) => Some(Rotation { angle, about: pos }),
        };
        let origin = text_origin(pos, style.anchor, size);
        self.record(
            SvgNode::Text { x: origin.0, y: origin.1, content: content.to_owned(), color, rotate },
        );
        Ok(())
    }

    /// A text at `pos`, whose size is the one kept for `key` or else what
    /// `measure` finds. Nothing is measured or drawn for a colour that
    /// cannot be seen; a failure to measure is handed on, and nothing is
    /// drawn then.
    pub fn draw_text<F: FnOnce() -> Result<(u32, u32), Error>>(
        &mut self,
        content: &str,
        style: &BackendTextStyle,
        pos: Point,
        key: String,
        measure: F,
    ) -> (done: Result<(), Error>)
        requires
            measure.requires(()),
        ensures
            final(self).size() == old(self).size(),
            style.color.transparent() ==> done is Ok && final(self)@ == old(self)@
                && final(self).measured() == old(self).measured(),
            !style.color.transparent() ==> match looked_up(old(self).measured(), key@) {
                Some(kept) => done is Ok && final(self)@ == old(self)@.push(
                    text_node(content@, *style, pos, kept),
                ) && final(self).measured() == touched(old(self).measured(), key@),
                None => match done {
                    Ok(_) => exists|size: (u32, u32)|
                        {
                            &&& measure.ensures((), Ok::<(u32, u32), Error>(size))
                            &&& final(self)@ == old(self)@.push(
                                #[trigger] text_node(content@, *style, pos, size),
                            )
                            &&& final(self).measured() == stored(
                                old(self).measured(),
                                key@,
                                size,
                                CACHED_SIZES as nat,
                            )
                        },
                    Err(e) => measure.ensures((), Err::<(u32, u32), Error>(e)) && final(self)@
                        == old(self)@ && final(self).measured() == old(self).measured(),
                },
            },
    {
        let color = style.color;
        if color.is_transparent() {
            return Ok(());
        }
        match self.estimate_text_size(key, measure) {
            Ok(size) => self.place_text(content, style, pos, size),
            Err(e) => Err(e),
        }
    }

    /// A bitmap: not drawn.
    pub fn blit_bitmap(&mut self, pos: Point, size: (u32, u32), src: &[u8]) -> (done: Result<
        (),
        Error,
    >)
        ensures
            done is Ok,
            *final(self) == *old(self),
    {
        Ok(())
    }

    /// Computes [`paint_of`].
    fn paint(style: &BackendStyle, fill: bool) -> (paint: Paint)
        ensures
            paint == paint_of(*style, fill),
    {
        if fill {
            Paint::Fill { color: style.color }
        } else {
            Paint::Stroke { color: style.color, stroke_width: style.stroke_width }
        }
    }
}

} // verus!
