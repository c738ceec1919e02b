//! The adaptive background grid and the coordinate axes.
use vstd::prelude::*;
use vstd::view::View as _;
use vstd::arithmetic::div_mod::{
    lemma_fundamental_div_mod_converse, lemma_hoist_over_denominator, lemma_mod_multiples_vanish,
    lemma_small_mod,
};
use crate::draw::{Primitive, draw_segment, segment_prims};
use crate::view::{
    View, lemma_trunc_div_error, pixel_coord, pixel_of, project, scaled_pixel, trunc_div, HALF_HEIGHT, HALF_WIDTH, MAX_ZOOM, MIN_ZOOM,
    UNIT, WINDOW_HEIGHT, WINDOW_WIDTH,
};

verus! {

/// Smallest grid spacing (`0.1`), in screen-normalized fixed point.
pub const GRID_MIN: i64 = 100000;

/// Largest grid spacing (`0.2`), in screen-normalized fixed point.
pub const GRID_MAX: i64 = 200000;

/// Gray level of the grid lines.
pub const GRID_GRAY: u8 = 0x20;

/// Gray level of the axes.
pub const AXIS_GRAY: u8 = 0x40;

/// Doubles a positive spacing until it is at least `GRID_MIN`.
pub open spec fn double_into_band(s: int) -> int
    decreases (if s < GRID_MIN { GRID_MIN - s } else { 0 }),
{
    if 0 < s < GRID_MIN {
        double_into_band(2 * s)
    } else {
        s
    }
}

/// Halves a spacing until it is at most `GRID_MAX`.
pub open spec fn halve_into_band(s: int) -> int
    decreases s,
{
    if s > GRID_MAX {
        halve_into_band(s / 2)
    } else {
        s
    }
}

/// The grid spacing for `zoom`: `1 / zoom`, doubled while below `GRID_MIN`,
/// then halved while above `GRID_MAX`.
pub open spec fn spacing_for(zoom: int) -> int {
    halve_into_band(double_into_band((UNIT * UNIT) / zoom))
}

/// Computes the grid spacing for `zoom`; it always lies in
/// `[GRID_MIN, GRID_MAX]`.
pub fn grid_spacing(zoom: i64) -> (r: i64)
    requires
        MIN_ZOOM <= zoom <= MAX_ZOOM,
    ensures
        r == spacing_for(zoom as int),
        GRID_MIN <= r <= GRID_MAX,
{
    let seed: i64 = (UNIT * UNIT) / zoom;
    assert(seed <= 10000000 && seed > 0) by (nonlinear_arith)
        requires
            MIN_ZOOM <= zoom <= MAX_ZOOM,
            seed == 1000000000000int / zoom as int,
    ;
    let mut s: i64 = seed;
    while s < GRID_MIN
        invariant
            0 < s <= 10000000,
            double_into_band(s as int) == double_into_band(seed as int),
        decreases (if s < GRID_MIN { GRID_MIN - s } else { 0 }),
    {
        s = s * 2;
    }
    let ghost doubled = s as int;
    while s > GRID_MAX
        invariant
            GRID_MIN <= s <= 10000000,
            halve_into_band(s as int) == halve_into_band(doubled),
            doubled == double_into_band(seed as int),
        decreases s,
    {
        s = s / 2;
    }
    s
}

/// The phase of a position against the grid: `pos` modulo `spacing`, in
/// `[0, spacing)`.
pub open spec fn grid_phase(pos: int, spacing: int) -> int {
    pos % spacing
}

/// Computes `((pos mod spacing) + spacing) mod spacing`, the offset that
/// anchors grid lines to absolute positions.
pub fn grid_offset(pos: i128, spacing: i64) -> (r: i64)
    requires
        spacing > 0,
        pos > i128::MIN,
    ensures
        r == grid_phase(pos as int, spacing as int),
        0 <= r < spacing,
{
    let s = spacing as i128;
    if pos >= 0 {
        (pos % s) as i64
    } else {
        let np: i128 = -pos;
        let q: i128 = np / s;
        let m: i128 = np % s;
        proof {
            vstd::arithmetic::div_mod::lemma_fundamental_div_mod(np as int, s as int);
        }
        if m == 0 {
            proof {
                lemma_mod_multiples_vanish(-q, 0, s as int);
                lemma_small_mod(0, s as nat);
                assert(pos == s * (-q) + 0) by (nonlinear_arith)
                    requires
                        np == s * q + m,
                        pos == -np,
                        m == 0,
                ;
            }
            0
        } else {
            proof {
                lemma_mod_multiples_vanish(-q - 1, s - m, s as int);
                lemma_small_mod((s - m) as nat, s as nat);
                assert(pos == s * (-q - 1) + (s - m)) by (nonlinear_arith)
                    requires
                        np == s * q + m,
                        pos == -np,
                ;
            }
            (s - m) as i64
        }
    }
}

/// Moving a position by a whole number of grid spacings leaves its phase
/// unchanged.
pub proof fn lemma_grid_phase_periodic(pos: int, k: int, spacing: int)
    requires
        spacing > 0,
    ensures
        grid_phase(pos + k * spacing, spacing) == grid_phase(pos, spacing),
{
    lemma_mod_multiples_vanish(k, pos, spacing);
    assert(spacing * k + pos == pos + k * spacing) by (nonlinear_arith);
}

/// A pan coordinate divided by the zoom, rounded down: its position in
/// screen-normalized fixed point.
pub open spec fn normalized(v: int, zoom: int) -> int {
    (v * UNIT) / zoom
}

fn normalize(v: i64, zoom: i64) -> (r: i128)
    requires
        MIN_ZOOM <= zoom <= MAX_ZOOM,
    ensures
        r == normalized(v as int, zoom as int),
        -0x100000000000000000 <= r <= 0x100000000000000000,
{
    assert(-0x8000000000000000 * 1000000 <= v * 1000000 <= 0x8000000000000000 * 1000000)
        by (nonlinear_arith)
        requires
            -0x8000000000000000 <= v < 0x8000000000000000,
    ;
    let n: i128 = v as i128 * UNIT as i128;
    let z: i128 = zoom as i128;
    let r: i128 = if n >= 0 {
        n / z
    } else {
        let m: i128 = -n;
        let q: i128 = m / z;
        let rem: i128 = m % z;
        proof {
            vstd::arithmetic::div_mod::lemma_fundamental_div_mod(m as int, z as int);
            assert(m == z * q + rem);
            assert(0 <= q <= m) by (nonlinear_arith)
                requires
                    m == z * q + rem,
                    0 <= rem < z,
                    m > 0,
                    z > 0,
            ;
        }
        if rem == 0 {
            proof {
                assert(n == (-q) * z + 0) by (nonlinear_arith)
                    requires
                        m == z * q + rem,
                        rem == 0,
                        n == -m,
                ;
                lemma_fundamental_div_mod_converse(n as int, z as int, -q, 0);
            }
            -q
        } else {
            proof {
                assert(n == (-q - 1) * z + (z - rem)) by (nonlinear_arith)
                    requires
                        m == z * q + rem,
                        n == -m,
                ;
                lemma_fundamental_div_mod_converse(n as int, z as int, -q - 1, z - rem);
            }
            -q - 1
        }
    };
    proof {
        let rr = n as int - r * z;
        vstd::arithmetic::div_mod::lemma_fundamental_div_mod(n as int, z as int);
        assert(n == z * r + rr && 0 <= rr < z);
        assert(-0x100000000000000000 <= r <= 0x100000000000000000) by (nonlinear_arith)
            requires
                n == z * r + rr,
                0 <= rr < z,
                MIN_ZOOM <= z,
                -0x8000000000000000 * 1000000 <= n <= 0x8000000000000000 * 1000000,
        ;
    }
    r
}

/// Phase of the grid along one axis for a pan coordinate `v`.
pub open spec fn axis_offset(v: int, zoom: int) -> int {
    grid_phase(normalized(v, zoom), spacing_for(zoom))
}

/// Number of grid lines on each side of the center: `ceil(1 / spacing)`.
pub open spec fn lines_per_side(spacing: int) -> int {
    (UNIT + spacing - 1) / spacing
}

/// The horizontal grid line of index `i`, spanning the full width.
pub open spec fn horizontal_line(offset: int, spacing: int, i: int) -> Primitive {
    let row = pixel_coord(i * spacing, offset, UNIT as int, HALF_HEIGHT as int) as i32;
    Primitive::Line { start: (0, row), end: (WINDOW_WIDTH as i32, row) }
}

/// The vertical grid line of index `i`, spanning the full height.
pub open spec fn vertical_line(offset: int, spacing: int, i: int) -> Primitive {
    let col = pixel_coord(i * spacing, offset, UNIT as int, HALF_WIDTH as int) as i32;
    Primitive::Line { start: (col, 0), end: (col, WINDOW_HEIGHT as i32) }
}

/// What drawing the grid for `view` emits: the grid color, then
/// `2n + 1` horizontal lines and `2n + 1` vertical lines, indices `-n..=n`,
/// where `n = ceil(1 / spacing)`.
pub open spec fn grid_prims(view: View) -> Seq<Primitive> {
    let s = spacing_for(view.zoom as int);
    let n = lines_per_side(s);
    let oy = axis_offset(view.y as int, view.zoom as int);
    let ox = axis_offset(view.x as int, view.zoom as int);
    seq![Primitive::SetColor { r: GRID_GRAY, g: GRID_GRAY, b: GRID_GRAY }]
        + Seq::new((2 * n + 1) as nat, |j: int| horizontal_line(oy, s, j - n))
        + Seq::new((2 * n + 1) as nat, |j: int| vertical_line(ox, s, j - n))
}

proof fn lemma_screen_edges()
    ensures
        pixel_coord(-UNIT, 0, UNIT as int, HALF_WIDTH as int) == 0,
        pixel_coord(UNIT as int, 0, UNIT as int, HALF_WIDTH as int) == WINDOW_WIDTH,
        pixel_coord(-UNIT, 0, UNIT as int, HALF_HEIGHT as int) == 0,
        pixel_coord(UNIT as int, 0, UNIT as int, HALF_HEIGHT as int) == WINDOW_HEIGHT,
{
    assert((2000000int * 400) / 1000000int == 800);
    assert((0int * 400) / 1000000int == 0);
}

/// Emits the grid for `view`.
pub fn draw_grid(out: &mut Vec<Primitive>, view: &View)
    requires
        view.wf(),
    ensures
        final(out)@ == old(out)@ + grid_prims(*view),
{
    proof {
        lemma_screen_edges();
    }
    out.push(Primitive::SetColor { r: GRID_GRAY, g: GRID_GRAY, b: GRID_GRAY });
    let s = grid_spacing(view.zoom);
    let offset_y = grid_offset(normalize(view.y, view.zoom), s);
    let offset_x = grid_offset(normalize(view.x, view.zoom), s);
    let n: i64 = (UNIT + s - 1) / s;
    assert(1 <= n <= 10) by (nonlinear_arith)
        requires
            GRID_MIN <= s <= GRID_MAX,
            n == (UNIT + s - 1) as int / s as int,
    ;
    let ghost ghost_n = n as int;
    let ghost base = old(out)@.push(Primitive::SetColor { r: GRID_GRAY, g: GRID_GRAY, b: GRID_GRAY });
    let ghost hs = Seq::new((2 * ghost_n + 1) as nat, |j: int| horizontal_line(offset_y as int, s as int, j - ghost_n));
    let ghost vs = Seq::new((2 * ghost_n + 1) as nat, |j: int| vertical_line(offset_x as int, s as int, j - ghost_n));
    let mut i: i64 = -n;
    while i <= n
        invariant
            -n <= i <= n + 1,
            1 <= n <= 10,
            GRID_MIN <= s <= GRID_MAX,
            0 <= offset_y < s,
            out@ == base + hs.subrange(0, i + n),
            ghost_n == n,
            hs == Seq::new((2 * ghost_n + 1) as nat, |j: int| horizontal_line(offset_y as int, s as int, j - ghost_n)),
        decreases n + 1 - i,
    {
        proof {
            lemma_screen_edges();
        }
        assert(-0x400000000000000000 <= i * s <= 0x400000000000000000) by (nonlinear_arith)
            requires
                -10 <= i <= 11,
                GRID_MIN <= s <= GRID_MAX,
        ;
        let row = project(i as i128 * s as i128, offset_y as i128, UNIT, HALF_HEIGHT);
        let left = project(-UNIT as i128, 0, UNIT, HALF_WIDTH);
        let right = project(UNIT as i128, 0, UNIT, HALF_WIDTH);
        draw_segment(out, (left, row), (right, row));
        assert(hs.subrange(0, i + n + 1) =~= hs.subrange(0, i + n).push(hs[i + n]));
        assert(segment_prims((left, row), (right, row)) =~= seq![hs[i + n]]);
        i = i + 1;
    }
    assert(hs.subrange(0, 2 * n + 1) =~= hs);
    let ghost mid = out@;
    let mut i: i64 = -n;
    while i <= n
        invariant
            -n <= i <= n + 1,
            1 <= n <= 10,
            GRID_MIN <= s <= GRID_MAX,
            0 <= offset_x < s,
            out@ == mid + vs.subrange(0, i + n),
            mid == base + hs,
            ghost_n == n,
            vs == Seq::new((2 * ghost_n + 1) as nat, |j: int| vertical_line(offset_x as int, s as int, j - ghost_n)),
        decreases n + 1 - i,
    {
        proof {
            lemma_screen_edges();
        }
        assert(-0x400000000000000000 <= i * s <= 0x400000000000000000) by (nonlinear_arith)
            requires
                -10 <= i <= 11,
                GRID_MIN <= s <= GRID_MAX,
        ;
        let col = project(i as i128 * s as i128, offset_x as i128, UNIT, HALF_WIDTH);
        let top = project(-UNIT as i128, 0, UNIT, HALF_HEIGHT);
        let bottom = project(UNIT as i128, 0, UNIT, HALF_HEIGHT);
        draw_segment(out, (col, top), (col, bottom));
        assert(vs.subrange(0, i + n + 1) =~= vs.subrange(0, i + n).push(vs[i + n]));
        assert(segment_prims((col, top), (col, bottom)) =~= seq![vs[i + n]]);
        i = i + 1;
    }
    assert(vs.subrange(0, 2 * n + 1) =~= vs);
    assert(out@ =~= old(out)@ + grid_prims(*view));
}

/// What drawing the axes for `view` emits: the axis color, the vertical
/// axis through the origin's column, then the horizontal axis through the
/// origin's row, each spanning the whole surface.
pub open spec fn axis_prims(view: View) -> Seq<Primitive> {
    let col = pixel_of((0, 0), view).0;
    let row = pixel_of((0, 0), view).1;
    seq![
        Primitive::SetColor { r: AXIS_GRAY, g: AXIS_GRAY, b: AXIS_GRAY },
        Primitive::Line { start: (col, 0), end: (col, WINDOW_HEIGHT as i32) },
        Primitive::Line { start: (0, row), end: (WINDOW_WIDTH as i32, row) },
    ]
}

/// Emits the two axes for `view`, each passing through the origin of the plane.
pub fn draw_axis(out: &mut Vec<Primitive>, view: &View)
    requires
        view.wf(),
    ensures
        final(out)@ == old(out)@ + axis_prims(*view),
{
    proof {
        lemma_screen_edges();
    }
    out.push(Primitive::SetColor { r: AXIS_GRAY, g: AXIS_GRAY, b: AXIS_GRAY });
    let col = project(0, view.x as i128, view.zoom, HALF_WIDTH);
    let top = project(-UNIT as i128, 0, UNIT, HALF_HEIGHT);
    let bottom = project(UNIT as i128, 0, UNIT, HALF_HEIGHT);
    draw_segment(out, (col, top), (col, bottom));
    let row = project(0, view.y as i128, view.zoom, HALF_HEIGHT);
    let left = project(-UNIT as i128, 0, UNIT, HALF_WIDTH);
    let right = project(UNIT as i128, 0, UNIT, HALF_WIDTH);
    draw_segment(out, (left, row), (right, row));
    assert(out@ =~= old(out)@ + axis_prims(*view));
}

/// Doubling a positive spacing ends at or above `GRID_MIN`.
proof fn lemma_double_into_band(s: int)
    requires
        s > 0,
    ensures
        double_into_band(s) >= GRID_MIN,
    decreases (if s < GRID_MIN { GRID_MIN - s } else { 0 }),
{
    if s < GRID_MIN {
        lemma_double_into_band(2 * s);
    }
}

/// Halving a spacing of at least `GRID_MIN` ends within the band.
proof fn lemma_halve_into_band(s: int)
    requires
        s >= GRID_MIN,
    ensures
        GRID_MIN <= halve_into_band(s) <= GRID_MAX,
    decreases s,
{
    if s > GRID_MAX {
        lemma_halve_into_band(s / 2);
    }
}

/// The grid spacing for any zoom in range lies in `[GRID_MIN, GRID_MAX]`.
pub proof fn lemma_spacing_in_band(zoom: int)
    requires
        MIN_ZOOM <= zoom <= MAX_ZOOM,
    ensures
        GRID_MIN <= spacing_for(zoom) <= GRID_MAX,
{
    assert((UNIT * UNIT) / zoom > 0) by (nonlinear_arith)
        requires
            MIN_ZOOM <= zoom <= MAX_ZOOM,
    ;
    lemma_double_into_band((UNIT * UNIT) / zoom);
    lemma_halve_into_band(double_into_band((UNIT * UNIT) / zoom));
}

/// Panning by `k` grid spacings, which is `k * spacing * zoom` in the plane,
/// leaves the grid's offset unchanged, at every zoom in range (where that
/// pan is a whole number of fixed-point steps).
pub proof fn lemma_grid_offset_periodic(v: int, k: int, zoom: int)
    requires
        MIN_ZOOM <= zoom <= MAX_ZOOM,
        (k * spacing_for(zoom) * zoom) % (UNIT as int) == 0,
    ensures
        axis_offset(v + (k * spacing_for(zoom) * zoom) / (UNIT as int), zoom) == axis_offset(v, zoom),
{
    let s = spacing_for(zoom);
    let d = (k * s * zoom) / (UNIT as int);
    lemma_spacing_in_band(zoom);
    vstd::arithmetic::div_mod::lemma_fundamental_div_mod(k * s * zoom, UNIT as int);
    assert((v + d) * UNIT == v * UNIT + (k * s) * zoom) by (nonlinear_arith)
        requires
            k * s * zoom == UNIT * d + 0,
    ;
    lemma_hoist_over_denominator(v * UNIT, k * s, zoom as nat);
    assert(normalized(v + d, zoom) == normalized(v, zoom) + k * s);
    lemma_grid_phase_periodic(normalized(v, zoom), k, s);
}

/// Neighbouring grid line `i` and `i + 1` (for `|i| <= 10`, which covers
/// every drawn line) lie `400 * spacing` pixels apart up to truncation: at
/// least 39 and at most 81 pixels.
pub proof fn lemma_grid_line_distance(offset: int, spacing: int, i: int)
    requires
        GRID_MIN <= spacing <= GRID_MAX,
        0 <= offset < spacing,
        -10 <= i <= 10,
    ensures
        39 <= pixel_coord((i + 1) * spacing, offset, UNIT as int, HALF_HEIGHT as int) - pixel_coord(
            i * spacing,
            offset,
            UNIT as int,
            HALF_HEIGHT as int,
        ) <= 81,
        39 <= pixel_coord((i + 1) * spacing, offset, UNIT as int, HALF_WIDTH as int) - pixel_coord(
            i * spacing,
            offset,
            UNIT as int,
            HALF_WIDTH as int,
        ) <= 81,
{
    let z = UNIT as int;
    let s0 = scaled_pixel(i * spacing, offset, z, 400);
    let s1 = scaled_pixel((i + 1) * spacing, offset, z, 400);
    assert(s1 == s0 + spacing * 400 && -2000000000 <= s0 <= 2000000000
        && -2000000000 <= s1 <= 2000000000) by (nonlinear_arith)
        requires
            s0 == (i * spacing - offset + z) * 400,
            s1 == ((i + 1) * spacing - offset + z) * 400,
            GRID_MIN <= spacing <= GRID_MAX,
            0 <= offset < spacing,
            -10 <= i <= 10,
            z == 1000000,
    ;
    lemma_trunc_div_error(s0, z);
    lemma_trunc_div_error(s1, z);
    let q0 = trunc_div(s0, z);
    let q1 = trunc_div(s1, z);
    assert(-3000 <= q0 <= 3000 && -3000 <= q1 <= 3000) by (nonlinear_arith)
        requires
            s0 - z < z * q0 < s0 + z,
            s1 - z < z * q1 < s1 + z,
            -2000000000 <= s0 <= 2000000000,
            -2000000000 <= s1 <= 2000000000,
            z == 1000000,
    ;
    assert(39 <= q1 - q0 <= 81) by (nonlinear_arith)
        requires
            s0 - z < z * q0 < s0 + z,
            s1 - z < z * q1 < s1 + z,
            s1 == s0 + spacing * 400,
            GRID_MIN <= spacing <= GRID_MAX,
            z == 1000000,
    ;
}

} // verus!
