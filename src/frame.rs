//! One full render pass.
use vstd::prelude::*;
use vstd::view::View as _;
use crate::draw::Primitive;
use crate::grid::{axis_prims, draw_axis, draw_grid, grid_prims};
use crate::plot::{curve_prims, draw_field, draw_function, field_prims, FIELD_CELLS};
use crate::view::View;

verus! {

/// Left end of the plotted interval (`-5.0`).
pub const CURVE_START: i64 = -5000000;

/// Right end of the plotted interval (`5.0`).
pub const CURVE_END: i64 = 5000000;

/// Number of segments of the plotted curve.
pub const CURVE_STEPS: u32 = 40;

pub open spec fn set_color(r: u8, g: u8, b: u8) -> Primitive {
    Primitive::SetColor { r, g, b }
}

/// What one frame emits: a black clear, the grid, the axes, the arrows in
/// yellow, then the curve in green.
pub open spec fn frame_prims(view: View, tips: Seq<(i64, i64)>, ys: Seq<i64>) -> Seq<Primitive> {
    seq![set_color(0, 0, 0), Primitive::Clear] + grid_prims(view) + axis_prims(view)
        + seq![set_color(0xff, 0xff, 0)] + field_prims(view, tips, FIELD_CELLS as int)
        + seq![set_color(0, 0xff, 0)] + curve_prims(
        view,
        CURVE_START as int,
        CURVE_END as int,
        CURVE_STEPS as int,
        ys,
        CURVE_STEPS as int,
    )
}

/// Builds the primitives of one frame. `tips[i]` is the end of the arrow
/// anchored at lattice point `i`, and `ys[i]` the curve's value at its
/// `i`-th sample position.
pub fn render_frame(view: &View, tips: &Vec<(i64, i64)>, ys: &Vec<i64>) -> (r: Vec<Primitive>)
    requires
        view.wf(),
        tips.len() == FIELD_CELLS,
        ys.len() == CURVE_STEPS + 1,
    ensures
        r@ == frame_prims(*view, tips@, ys@),
{
    let mut out: Vec<Primitive> = Vec::new();
    out.push(Primitive::SetColor { r: 0, g: 0, b: 0 });
    out.push(Primitive::Clear);
    draw_grid(&mut out, view);
    draw_axis(&mut out, view);
    out.push(Primitive::SetColor { r: 0xff, g: 0xff, b: 0 });
    draw_field(&mut out, view, tips);
    out.push(Primitive::SetColor { r: 0, g: 0xff, b: 0 });
    draw_function(&mut out, view, CURVE_START, CURVE_END, CURVE_STEPS, ys);
    assert(out@ =~= frame_prims(*view, tips@, ys@));
    out
}

} // verus!
