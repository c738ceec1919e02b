//! The slope field and the plotted curve.
//!
//! The field's angles and the curve's values come from functions of the
//! reals; the caller evaluates them and hands the results in, and these
//! renderers lay out and draw what they describe.
use vstd::prelude::*;
use vstd::view::View as _;
use crate::draw::{Primitive, arrow_prims, draw_arrow, draw_segment_math, segment_math_prims};
use crate::view::{View, div_trunc, trunc_div, UNIT};

verus! {

/// The lattice spans indices `-FIELD_RADIUS..FIELD_RADIUS` on each axis.
pub const FIELD_RADIUS: i64 = 10;

/// Lattice points along one axis.
pub const FIELD_SIDE: usize = 20;

/// Number of lattice points, and so of arrows.
pub const FIELD_CELLS: usize = 400;

/// The anchor of arrow `idx`: lattice columns run outermost, each holding
/// its rows from bottom to top, in whole units of the plane.
pub open spec fn anchor_of(idx: int) -> (i64, i64) {
    (
        ((idx / FIELD_SIDE as int - FIELD_RADIUS) * UNIT) as i64,
        ((idx % FIELD_SIDE as int - FIELD_RADIUS) * UNIT) as i64,
    )
}

/// Returns the anchor of arrow `idx`.
pub fn field_anchor(idx: usize) -> (r: (i64, i64))
    requires
        idx < FIELD_CELLS,
    ensures
        r == anchor_of(idx as int),
        -FIELD_RADIUS * UNIT <= r.0 < FIELD_RADIUS * UNIT,
        -FIELD_RADIUS * UNIT <= r.1 < FIELD_RADIUS * UNIT,
{
    let col = (idx / FIELD_SIDE) as i64 - FIELD_RADIUS;
    let row = (idx % FIELD_SIDE) as i64 - FIELD_RADIUS;
    (col * UNIT, row * UNIT)
}

/// What drawing the first `k` arrows emits, arrow `i` running from
/// `anchor_of(i)` to `tips[i]`.
pub open spec fn field_prims(view: View, tips: Seq<(i64, i64)>, k: int) -> Seq<Primitive>
    decreases k,
{
    if k <= 0 {
        seq![]
    } else {
        field_prims(view, tips, k - 1) + arrow_prims(view, anchor_of(k - 1), tips[k - 1])
    }
}

/// Emits one arrow per lattice point, arrow `i` ending at `tips[i]`.
pub fn draw_field(out: &mut Vec<Primitive>, view: &View, tips: &Vec<(i64, i64)>)
    requires
        view.zoom > 0,
        tips.len() == FIELD_CELLS,
    ensures
        final(out)@ == old(out)@ + field_prims(*view, tips@, FIELD_CELLS as int),
{
    let mut i: usize = 0;
    while i < FIELD_CELLS
        invariant
            i <= FIELD_CELLS,
            tips.len() == FIELD_CELLS,
            view.zoom > 0,
            out@ == old(out)@ + field_prims(*view, tips@, i as int),
        decreases FIELD_CELLS - i,
    {
        let anchor = field_anchor(i);
        draw_arrow(out, view, anchor, tips[i]);
        assert(out@ =~= old(out)@ + field_prims(*view, tips@, i + 1));
        i = i + 1;
    }
}

/// The `i`-th of `steps + 1` evenly spaced positions from `start` to `end`.
pub open spec fn sample_x(start: int, end: int, steps: int, i: int) -> int {
    start + trunc_div((end - start) * i, steps)
}

/// Returns the `i`-th of `steps + 1` evenly spaced positions from `start`
/// to `end`; the first is `start` and the last `end`.
pub fn curve_sample_x(start: i64, end: i64, steps: u32, i: u32) -> (r: i64)
    requires
        0 < steps,
        i <= steps,
    ensures
        r == sample_x(start as int, end as int, steps as int, i as int),
        i == 0 ==> r == start,
        i == steps ==> r == end,
{
    let d: i128 = end as i128 - start as i128;
    let ghost dd = d as int;
    proof {
        let a = if dd >= 0 { dd } else { -dd };
        assert(0 <= a * i <= a * steps) by (nonlinear_arith)
            requires
                a >= 0,
                0 <= i <= steps,
        ;
        assert(a * (i as int) / (steps as int) <= a) by (nonlinear_arith)
            requires
                0 <= a * i <= a * steps,
                steps > 0,
        ;
        assert(a * (i as int) <= 0x10000000000000000 * 0x100000000) by (nonlinear_arith)
            requires
                0 <= a <= 0x10000000000000000,
                0 <= i <= 0x100000000,
        ;
        assert(dd * i == if dd >= 0 { a * i } else { -(a * i) }) by (nonlinear_arith)
            requires
                a == if dd >= 0 { dd } else { -dd },
        ;
        assert((dd * 0) / (steps as int) == 0);
        assert((a * steps) / (steps as int) == a) by (nonlinear_arith)
            requires
                steps > 0,
        ;
    }
    let q = div_trunc(d * i as i128, steps as i128);
    (start as i128 + q) as i64
}

/// What drawing the curve emits: for each `i < steps`, the segment from
/// sample `i` to sample `i + 1`, where sample `i` is `(x_i, ys[i])`.
pub open spec fn curve_prims(
    view: View,
    start: int,
    end: int,
    steps: int,
    ys: Seq<i64>,
    k: int,
) -> Seq<Primitive>
    decreases k,
{
    if k <= 0 {
        seq![]
    } else {
        curve_prims(view, start, end, steps, ys, k - 1) + segment_math_prims(
            (sample_x(start, end, steps, k - 1) as i64, ys[k - 1]),
            (sample_x(start, end, steps, k) as i64, ys[k]),
            view,
        )
    }
}

/// Draws the piecewise-linear curve through `steps + 1` samples over
/// `[start, end]`; `ys[i]` is the function's value at the `i`-th position.
pub fn draw_function(
    out: &mut Vec<Primitive>,
    view: &View,
    start: i64,
    end: i64,
    steps: u32,
    ys: &Vec<i64>,
)
    requires
        view.zoom > 0,
        ys.len() == steps + 1,
    ensures
        final(out)@ == old(out)@ + curve_prims(
            *view,
            start as int,
            end as int,
            steps as int,
            ys@,
            steps as int,
        ),
{
    if steps == 0 {
        assert(old(out)@ + seq![] =~= old(out)@);
        return;
    }
    let mut last: (i64, i64) = (start, ys[0]);
    let mut i: u32 = 0;
    while i < steps
        invariant
            0 < steps,
            i <= steps,
            ys.len() == steps + 1,
            view.zoom > 0,
            last == (sample_x(start as int, end as int, steps as int, i as int) as i64, ys@[i as int]),
            out@ == old(out)@ + curve_prims(*view, start as int, end as int, steps as int, ys@, i as int),
        decreases steps - i,
    {
        let x = curve_sample_x(start, end, steps, i + 1);
        let current: (i64, i64) = (x, ys[(i + 1) as usize]);
        draw_segment_math(out, last, current, view);
        assert(out@ =~= old(out)@ + curve_prims(*view, start as int, end as int, steps as int, ys@, i + 1));
        last = current;
        i = i + 1;
    }
}

} // verus!
