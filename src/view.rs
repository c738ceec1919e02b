//! The camera and the transform from the plane to pixels.
use vstd::prelude::*;
use vstd::arithmetic::div_mod::{lemma_div_is_ordered, lemma_hoist_over_denominator};

verus! {

/// Fixed-point value of one mathematical unit (`1.0`).
pub const UNIT: i64 = 1000000;

/// Width of the pixel surface.
pub const WINDOW_WIDTH: i64 = 800;

/// Height of the pixel surface.
pub const WINDOW_HEIGHT: i64 = 800;

/// Half the surface width: the pixel column of the view's center.
pub const HALF_WIDTH: i64 = 400;

/// Half the surface height: the pixel row of the view's center.
pub const HALF_HEIGHT: i64 = 400;

/// Smallest zoom (`0.1`): the most magnified view.
pub const MIN_ZOOM: i64 = 100000;

/// Largest zoom (`10.0`): the least magnified view.
pub const MAX_ZOOM: i64 = 10000000;

/// The camera: `(x, y)` is the point shown at the center of the surface and
/// `zoom` the half-width of the visible square, all in fixed point.
#[derive(Clone, Copy, Debug, PartialEq, Eq)]
pub struct View {
    pub x: i64,
    pub y: i64,
    pub zoom: i64,
}

impl View {
    /// The zoom lies within `[MIN_ZOOM, MAX_ZOOM]`.
    pub open spec fn wf(&self) -> bool {
        MIN_ZOOM <= self.zoom <= MAX_ZOOM
    }

    pub fn from(x: i64, y: i64, zoom: i64) -> (v: View)
        ensures
            v.x == x,
            v.y == y,
            v.zoom == zoom,
    {
        View { x, y, zoom }
    }
}

/// Division rounding toward zero, as a cast of a real quotient to an integer does.
pub open spec fn trunc_div(a: int, b: int) -> int {
    if a >= 0 {
        a / b
    } else {
        -((-a) / b)
    }
}

/// `v` clamped into the range of `i32`.
pub open spec fn saturate_i32(v: int) -> int {
    if v < i32::MIN {
        i32::MIN as int
    } else if v > i32::MAX {
        i32::MAX as int
    } else {
        v
    }
}

/// `zoom` times the exact pixel coordinate of `p` along one axis:
/// `((p - center) / zoom + 1) * half`, before any rounding.
pub open spec fn scaled_pixel(p: int, center: int, zoom: int, half: int) -> int {
    (p - center + zoom) * half
}

/// The pixel coordinate of `p` along one axis, truncated toward zero and
/// saturated to `i32`.
pub open spec fn pixel_coord(p: int, center: int, zoom: int, half: int) -> int {
    saturate_i32(trunc_div(scaled_pixel(p, center, zoom, half), zoom))
}

/// The pixel at which `point` appears under `view`.
pub open spec fn pixel_of(point: (int, int), view: View) -> (i32, i32) {
    (
        pixel_coord(point.0, view.x as int, view.zoom as int, HALF_WIDTH as int) as i32,
        pixel_coord(point.1, view.y as int, view.zoom as int, HALF_HEIGHT as int) as i32,
    )
}

/// Bound on the magnitude of coordinates handed to `project`.
pub open spec fn in_wide_range(v: i128) -> bool {
    -0x400000000000000000 <= v <= 0x400000000000000000
}

/// `n / d` rounded toward zero.
pub fn div_trunc(n: i128, d: i128) -> (r: i128)
    requires
        d > 0,
        n > i128::MIN,
    ensures
        r == trunc_div(n as int, d as int),
{
    if n >= 0 {
        n / d
    } else {
        let m: i128 = -n;
        assert(m as int / d as int <= m as int) by (nonlinear_arith)
            requires
                m > 0,
                d > 0,
        ;
        -(m / d)
    }
}

/// One axis of the transform: `p` seen from a view centered on `center` with
/// the given zoom, on a surface whose half-extent is `half`.
pub fn project(p: i128, center: i128, zoom: i64, half: i64) -> (r: i32)
    requires
        in_wide_range(p),
        in_wide_range(center),
        zoom > 0,
        0 <= half <= 0x100000,
    ensures
        r == pixel_coord(p as int, center as int, zoom as int, half as int),
{
    let d: i128 = p - center + zoom as i128;
    assert(-0x1000000000000000000 * 0x100000 <= d * half <= 0x1000000000000000000 * 0x100000)
        by (nonlinear_arith)
        requires
            -0x1000000000000000000 <= d <= 0x1000000000000000000,
            0 <= half <= 0x100000,
    ;
    let q: i128 = div_trunc(d * half as i128, zoom as i128);
    if q < i32::MIN as i128 {
        i32::MIN
    } else if q > i32::MAX as i128 {
        i32::MAX
    } else {
        q as i32
    }
}

/// Maps a point of the plane to the pixel at which it appears: the square
/// `[x - zoom, x + zoom] × [y - zoom, y + zoom]` covers the whole surface.
pub fn to_pixel(point: (i64, i64), view: &View) -> (r: (i32, i32))
    requires
        view.zoom > 0,
    ensures
        r == pixel_of((point.0 as int, point.1 as int), *view),
{
    (
        project(point.0 as i128, view.x as i128, view.zoom, HALF_WIDTH),
        project(point.1 as i128, view.y as i128, view.zoom, HALF_HEIGHT),
    )
}

/// The view's own center `(x, y)` lands on the center pixel of the surface.
pub proof fn lemma_center_maps_to_center(view: View)
    requires
        view.zoom > 0,
    ensures
        pixel_of((view.x as int, view.y as int), view) == (HALF_WIDTH as i32, HALF_HEIGHT as i32),
{
    let z = view.zoom as int;
    assert((z * 400) / z == 400) by (nonlinear_arith)
        requires
            z > 0,
    ;
}

/// Before rounding, the transform is affine in the point: moving the point by
/// `d` moves the scaled pixel coordinate by exactly `d * half`.
pub proof fn lemma_transform_affine(p: int, d: int, center: int, zoom: int, half: int)
    ensures
        scaled_pixel(p + d, center, zoom, half) == scaled_pixel(p, center, zoom, half) + d * half,
{
    assert((p + d - center + zoom) * half == (p - center + zoom) * half + d * half)
        by (nonlinear_arith);
}

/// `trunc_div` never decreases as its dividend grows.
proof fn lemma_trunc_div_monotone(a: int, b: int, z: int)
    requires
        a <= b,
        z > 0,
    ensures
        trunc_div(a, z) <= trunc_div(b, z),
{
    if a >= 0 {
        lemma_div_is_ordered(a, b, z);
    } else if b >= 0 {
        assert((-a) / z >= 0) by (nonlinear_arith)
            requires
                -a > 0,
                z > 0,
        ;
        assert(b / z >= 0) by (nonlinear_arith)
            requires
                b >= 0,
                z > 0,
        ;
    } else {
        lemma_div_is_ordered(-b, -a, z);
    }
}

/// The transform has no jumps backwards: a point further along an axis never
/// lands on an earlier pixel.
pub proof fn lemma_transform_monotone(p: int, q: int, center: int, zoom: int, half: int)
    requires
        p <= q,
        zoom > 0,
        half >= 0,
    ensures
        pixel_coord(p, center, zoom, half) <= pixel_coord(q, center, zoom, half),
{
    assert(scaled_pixel(p, center, zoom, half) <= scaled_pixel(q, center, zoom, half))
        by (nonlinear_arith)
        requires
            p <= q,
            half >= 0,
    ;
    lemma_trunc_div_monotone(
        scaled_pixel(p, center, zoom, half),
        scaled_pixel(q, center, zoom, half),
        zoom,
    );
}

/// Moving a point by `k` whole zoom widths moves its pixel by exactly `k`
/// half-extents, wherever both pixels lie on or right of the surface's edge
/// and within `i32`.
pub proof fn lemma_transform_translation(p: int, k: int, center: int, zoom: int, half: int)
    requires
        zoom > 0,
        scaled_pixel(p, center, zoom, half) >= 0,
        scaled_pixel(p + k * zoom, center, zoom, half) >= 0,
        trunc_div(scaled_pixel(p, center, zoom, half), zoom) <= i32::MAX,
        trunc_div(scaled_pixel(p + k * zoom, center, zoom, half), zoom) <= i32::MAX,
    ensures
        pixel_coord(p + k * zoom, center, zoom, half) == pixel_coord(p, center, zoom, half) + k
            * half,
{
    let n = scaled_pixel(p, center, zoom, half);
    lemma_transform_affine(p, k * zoom, center, zoom, half);
    assert(k * zoom * half == (k * half) * zoom) by (nonlinear_arith);
    lemma_hoist_over_denominator(n, k * half, zoom as nat);
    assert(n / zoom >= 0) by (nonlinear_arith)
        requires
            n >= 0,
            zoom > 0,
    ;
}

/// Truncation moves a quotient by less than one: `z * trunc_div(n, z)` lies
/// strictly within `z` of `n`.
pub proof fn lemma_trunc_div_error(n: int, z: int)
    requires
        z > 0,
    ensures
        n - z < z * trunc_div(n, z) < n + z,
{
    vstd::arithmetic::div_mod::lemma_fundamental_div_mod(if n >= 0 { n } else { -n }, z);
    let a = if n >= 0 { n } else { -n };
    let q = a / z;
    assert(z * q <= a < z * q + z);
    if n >= 0 {
        assert(z * trunc_div(n, z) == z * q);
    } else {
        assert(z * trunc_div(n, z) == z * (-q));
        assert(z * (-q) == -(z * q)) by (nonlinear_arith);
    }
}

/// `pixel_coord` without saturation, where the truncated quotient fits `i32`.
pub open spec fn unsaturated(p: int, center: int, zoom: int, half: int) -> bool {
    i32::MIN <= trunc_div(scaled_pixel(p, center, zoom, half), zoom) <= i32::MAX
}

/// The transform is affine in the point for any rational weight
/// `a / (a + b)`: before rounding, the image of the weighted mean `m` of `p`
/// and `q` is the weighted mean of their images; after truncation, and where
/// no coordinate saturates, it is within two pixels of it.
pub proof fn lemma_transform_weighted_mean(
    p: int,
    q: int,
    m: int,
    a: int,
    b: int,
    center: int,
    zoom: int,
    half: int,
)
    requires
        a >= 0,
        b >= 0,
        a + b > 0,
        (a + b) * m == a * p + b * q,
        zoom > 0,
    ensures
        (a + b) * scaled_pixel(m, center, zoom, half) == a * scaled_pixel(p, center, zoom, half) + b
            * scaled_pixel(q, center, zoom, half),
        unsaturated(p, center, zoom, half) && unsaturated(q, center, zoom, half) && unsaturated(
            m,
            center,
            zoom,
            half,
        ) ==> -2 * (a + b) < (a + b) * pixel_coord(m, center, zoom, half) - a * pixel_coord(
            p,
            center,
            zoom,
            half,
        ) - b * pixel_coord(q, center, zoom, half) < 2 * (a + b),
{
    let sp = scaled_pixel(p, center, zoom, half);
    let sq = scaled_pixel(q, center, zoom, half);
    let sm = scaled_pixel(m, center, zoom, half);
    let w = zoom - center;
    assert(sm == m * half + w * half && sp == p * half + w * half && sq == q * half + w * half)
        by (nonlinear_arith)
        requires
            w == zoom - center,
            sp == (p - center + zoom) * half,
            sq == (q - center + zoom) * half,
            sm == (m - center + zoom) * half,
    ;
    assert((a + b) * (m * half) == a * (p * half) + b * (q * half)) by (nonlinear_arith)
        requires
            (a + b) * m == a * p + b * q,
    ;
    assert((a + b) * sm == (a + b) * (m * half) + (a + b) * (w * half)) by (nonlinear_arith)
        requires
            sm == m * half + w * half,
    ;
    assert(a * sp + b * sq == a * (p * half) + b * (q * half) + (a + b) * (w * half))
        by (nonlinear_arith)
        requires
            sp == p * half + w * half,
            sq == q * half + w * half,
    ;
    if unsaturated(p, center, zoom, half) && unsaturated(q, center, zoom, half) && unsaturated(
        m,
        center,
        zoom,
        half,
    ) {
        let pp = pixel_coord(p, center, zoom, half);
        let pq = pixel_coord(q, center, zoom, half);
        let pm = pixel_coord(m, center, zoom, half);
        lemma_trunc_div_error(sp, zoom);
        lemma_trunc_div_error(sq, zoom);
        lemma_trunc_div_error(sm, zoom);
        let ep = zoom * pp - sp;
        let eq = zoom * pq - sq;
        let em = zoom * pm - sm;
        let x = (a + b) * pm - a * pp - b * pq;
        let u = (a + b) * pm;
        let v = a * pp;
        let y = b * pq;
        assert(zoom * x == zoom * u - zoom * v - zoom * y) by (nonlinear_arith)
            requires
                x == u - v - y,
        ;
        assert(zoom * u == (a + b) * (zoom * pm)) by (nonlinear_arith)
            requires
                u == (a + b) * pm,
        ;
        assert(zoom * v == a * (zoom * pp)) by (nonlinear_arith)
            requires
                v == a * pp,
        ;
        assert(zoom * y == b * (zoom * pq)) by (nonlinear_arith)
            requires
                y == b * pq,
        ;
        assert((a + b) * (zoom * pm) == (a + b) * sm + (a + b) * em) by (nonlinear_arith)
            requires
                em == zoom * pm - sm,
        ;
        assert(a * (zoom * pp) == a * sp + a * ep) by (nonlinear_arith)
            requires
                ep == zoom * pp - sp,
        ;
        assert(b * (zoom * pq) == b * sq + b * eq) by (nonlinear_arith)
            requires
                eq == zoom * pq - sq,
        ;
        let t = (a + b) * zoom;
        assert(-t < (a + b) * em < t) by (nonlinear_arith)
            requires
                -zoom < em < zoom,
                a + b > 0,
                t == (a + b) * zoom,
        ;
        assert(-(a * zoom) <= a * ep <= a * zoom) by (nonlinear_arith)
            requires
                -zoom < ep < zoom,
                a >= 0,
        ;
        assert(-(b * zoom) <= b * eq <= b * zoom) by (nonlinear_arith)
            requires
                -zoom < eq < zoom,
                b >= 0,
        ;
        assert(a * zoom + b * zoom == t) by (nonlinear_arith)
            requires
                t == (a + b) * zoom,
        ;
        assert(-2 * (a + b) < x < 2 * (a + b)) by (nonlinear_arith)
            requires
                -2 * t < zoom * x < 2 * t,
                t == (a + b) * zoom,
                zoom > 0,
        ;
    }
}

/// Shifting a point by `c * zoom` with a rational `c = a / b` shifts its
/// image by exactly `c * half` before rounding; after truncation, and where
/// neither coordinate saturates, by `c * half` up to less than two pixels.
pub proof fn lemma_transform_shift(p: int, d: int, a: int, b: int, center: int, zoom: int, half: int)
    requires
        b > 0,
        b * d == a * zoom,
        zoom > 0,
    ensures
        b * scaled_pixel(p + d, center, zoom, half) == b * scaled_pixel(p, center, zoom, half) + a
            * zoom * half,
        unsaturated(p, center, zoom, half) && unsaturated(p + d, center, zoom, half) ==> -2 * b < b
            * (pixel_coord(p + d, center, zoom, half) - pixel_coord(p, center, zoom, half)) - a
            * half < 2 * b,
{
    let sp = scaled_pixel(p, center, zoom, half);
    let sd = scaled_pixel(p + d, center, zoom, half);
    assert(b * sd == b * sp + a * zoom * half) by (nonlinear_arith)
        requires
            b * d == a * zoom,
            sp == (p - center + zoom) * half,
            sd == (p + d - center + zoom) * half,
    ;
    if unsaturated(p, center, zoom, half) && unsaturated(p + d, center, zoom, half) {
        let pp = pixel_coord(p, center, zoom, half);
        let pd = pixel_coord(p + d, center, zoom, half);
        lemma_trunc_div_error(sp, zoom);
        lemma_trunc_div_error(sd, zoom);
        let ep = zoom * pp - sp;
        let ed = zoom * pd - sd;
        let x = b * (pd - pp) - a * half;
        assert(zoom * x == b * ed - b * ep) by (nonlinear_arith)
            requires
                x == b * (pd - pp) - a * half,
                ep == zoom * pp - sp,
                ed == zoom * pd - sd,
                b * sd == b * sp + a * zoom * half,
        ;
        assert(-2 * b * zoom < b * ed - b * ep < 2 * b * zoom) by (nonlinear_arith)
            requires
                -zoom < ep < zoom,
                -zoom < ed < zoom,
                b > 0,
        ;
        assert(-2 * b < x < 2 * b) by (nonlinear_arith)
            requires
                -2 * b * zoom < zoom * x < 2 * b * zoom,
                zoom > 0,
        ;
    }
}

} // verus!
