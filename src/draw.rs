//! Pixel-space primitives and the drawer that emits them.
use vstd::prelude::*;
use vstd::view::View as _;
use crate::view::{View, pixel_coord, pixel_of, project, HALF_WIDTH, HALF_HEIGHT};

verus! {

/// One instruction for the rasterizer.
#[derive(Clone, Copy, Debug, PartialEq, Eq)]
pub enum Primitive {
    /// Fill the whole surface with the current color.
    Clear,
    /// Make `(r, g, b)` the current color.
    SetColor { r: u8, g: u8, b: u8 },
    /// A straight line between two pixels, both ends included.
    Line { start: (i32, i32), end: (i32, i32) },
    /// A filled rectangle with top-left corner `(x, y)`.
    FillRect { x: i32, y: i32, w: u32, h: u32 },
}

/// Half the side of the square drawn at the tip of an arrow (`0.01`).
pub const ARROWHEAD_HALF_SIDE: i64 = 10000;

/// Smallest width and height, in pixels, of a drawn square.
pub const MIN_SQUARE_SIDE: i64 = 3;

pub open spec fn abs(v: int) -> int {
    if v < 0 {
        -v
    } else {
        v
    }
}

/// Both ends of the segment fall on the same pixel: neither coordinate
/// moves by a whole pixel.
pub open spec fn is_degenerate(start: (i32, i32), end: (i32, i32)) -> bool {
    abs(end.0 - start.0) < 1 && abs(end.1 - start.1) < 1
}

/// What drawing the segment from `start` to `end` emits.
pub open spec fn segment_prims(start: (i32, i32), end: (i32, i32)) -> Seq<Primitive> {
    if is_degenerate(start, end) {
        seq![]
    } else {
        seq![Primitive::Line { start, end }]
    }
}

/// Emits a line from `start` to `end`, unless it would cover a single pixel.
pub fn draw_segment(out: &mut Vec<Primitive>, start: (i32, i32), end: (i32, i32))
    ensures
        final(out)@ == old(out)@ + segment_prims(start, end),
{
    let dx: i64 = end.0 as i64 - start.0 as i64;
    let dy: i64 = end.1 as i64 - start.1 as i64;
    let adx: i64 = if dx < 0 { -dx } else { dx };
    let ady: i64 = if dy < 0 { -dy } else { dy };
    if adx < 1 && ady < 1 {
        assert(segment_prims(start, end) =~= seq![]);
        assert(old(out)@ + seq![] =~= old(out)@);
        return;
    }
    out.push(Primitive::Line { start, end });
}

/// What drawing the segment between two points of the plane emits.
pub open spec fn segment_math_prims(start: (i64, i64), end: (i64, i64), view: View) -> Seq<
    Primitive,
> {
    segment_prims(
        pixel_of((start.0 as int, start.1 as int), view),
        pixel_of((end.0 as int, end.1 as int), view),
    )
}

/// Emits the segment between two points of the plane, as seen from `view`.
pub fn draw_segment_math(
    out: &mut Vec<Primitive>,
    start: (i64, i64),
    end: (i64, i64),
    view: &View,
)
    requires
        view.zoom > 0,
    ensures
        final(out)@ == old(out)@ + segment_math_prims(start, end, *view),
{
    let a = crate::view::to_pixel(start, view);
    let b = crate::view::to_pixel(end, view);
    draw_segment(out, a, b);
}

/// `v` raised to at least `MIN_SQUARE_SIDE`.
pub open spec fn side_at_least_min(v: int) -> int {
    if v < MIN_SQUARE_SIDE {
        MIN_SQUARE_SIDE as int
    } else {
        v
    }
}

/// The rectangle filled for a square of half side `half_side` centered on
/// `center`: its two opposite corners are transformed independently, and
/// each side is at least `MIN_SQUARE_SIDE` pixels.
pub open spec fn square_prim(center: (i64, i64), half_side: i64, view: View) -> Primitive {
    let left = pixel_coord(center.0 - half_side, view.x as int, view.zoom as int, HALF_WIDTH as int);
    let top = pixel_coord(center.1 - half_side, view.y as int, view.zoom as int, HALF_HEIGHT as int);
    let right = pixel_coord(center.0 + half_side, view.x as int, view.zoom as int, HALF_WIDTH as int);
    let bottom = pixel_coord(center.1 + half_side, view.y as int, view.zoom as int, HALF_HEIGHT as int);
    Primitive::FillRect {
        x: left as i32,
        y: top as i32,
        w: side_at_least_min(right - left) as u32,
        h: side_at_least_min(bottom - top) as u32,
    }
}

/// Emits a filled square of half side `half_side` centered on `center`.
pub fn draw_square(out: &mut Vec<Primitive>, center: (i64, i64), half_side: i64, view: &View)
    requires
        view.zoom > 0,
    ensures
        final(out)@ == old(out)@.push(square_prim(center, half_side, *view)),
{
    let cx = center.0 as i128;
    let cy = center.1 as i128;
    let s = half_side as i128;
    let left = project(cx - s, view.x as i128, view.zoom, HALF_WIDTH);
    let top = project(cy - s, view.y as i128, view.zoom, HALF_HEIGHT);
    let right = project(cx + s, view.x as i128, view.zoom, HALF_WIDTH);
    let bottom = project(cy + s, view.y as i128, view.zoom, HALF_HEIGHT);
    let dw: i64 = right as i64 - left as i64;
    let dh: i64 = bottom as i64 - top as i64;
    let w: i64 = if dw < MIN_SQUARE_SIDE { MIN_SQUARE_SIDE } else { dw };
    let h: i64 = if dh < MIN_SQUARE_SIDE { MIN_SQUARE_SIDE } else { dh };
    out.push(Primitive::FillRect { x: left, y: top, w: w as u32, h: h as u32 });
}

/// What drawing an arrow from `pos` to `tip` emits: the shaft, then a small
/// square at the tip.
pub open spec fn arrow_prims(view: View, pos: (i64, i64), tip: (i64, i64)) -> Seq<Primitive> {
    segment_math_prims(pos, tip, view).push(square_prim(tip, ARROWHEAD_HALF_SIDE, view))
}

/// Emits an arrow from `pos` to `tip`.
pub fn draw_arrow(out: &mut Vec<Primitive>, view: &View, pos: (i64, i64), tip: (i64, i64))
    requires
        view.zoom > 0,
    ensures
        final(out)@ == old(out)@ + arrow_prims(*view, pos, tip),
{
    draw_segment_math(out, pos, tip, view);
    draw_square(out, tip, ARROWHEAD_HALF_SIDE, view);
    assert(final(out)@ =~= old(out)@ + arrow_prims(*view, pos, tip));
}

} // verus!
