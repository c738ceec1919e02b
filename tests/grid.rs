use plane_view::draw::Primitive;
use plane_view::grid::{draw_axis, draw_grid, grid_offset, grid_spacing, GRID_MAX, GRID_MIN};
use plane_view::view::{View, MAX_ZOOM, MIN_ZOOM, UNIT};

#[test]
fn spacing_exact_values() {
    assert_eq!(grid_spacing(UNIT), 125000);
    assert_eq!(grid_spacing(MIN_ZOOM), 156250);
    assert_eq!(grid_spacing(MAX_ZOOM), 100000);
    assert_eq!(grid_spacing(3 * UNIT), 166666);
}

#[test]
fn spacing_always_in_band() {
    let mut zoom = MIN_ZOOM;
    while zoom <= MAX_ZOOM {
        let s = grid_spacing(zoom);
        assert!(GRID_MIN <= s && s <= GRID_MAX, "zoom {} gave {}", zoom, s);
        zoom += 7919;
    }
}

#[test]
fn offset_is_periodic() {
    let s = grid_spacing(UNIT);
    for pos in [-987654i128, -1, 0, 1, 125000, 3141592].iter() {
        for k in [-3i128, -1, 1, 5].iter() {
            assert_eq!(grid_offset(*pos + k * s as i128, s), grid_offset(*pos, s));
        }
    }
}

#[test]
fn offset_of_negative_position_wraps() {
    assert_eq!(grid_offset(-1, 125000), 124999);
    assert_eq!(grid_offset(-250000, 125000), 0);
    assert_eq!(grid_offset(130000, 125000), 5000);
}

#[test]
fn grid_on_default_view() {
    let mut out = Vec::new();
    draw_grid(&mut out, &View::from(0, 0, UNIT));
    // spacing 0.125: eight lines on each side of the center, on both axes
    assert_eq!(out.len(), 1 + 17 + 17);
    assert_eq!(out[0], Primitive::SetColor { r: 0x20, g: 0x20, b: 0x20 });
    assert_eq!(out[1], Primitive::Line { start: (0, 0), end: (800, 0) });
    assert_eq!(out[9], Primitive::Line { start: (0, 400), end: (800, 400) });
    assert_eq!(out[18], Primitive::Line { start: (0, 0), end: (0, 800) });
    assert_eq!(out[34], Primitive::Line { start: (800, 0), end: (800, 800) });
}

#[test]
fn grid_follows_pan() {
    let mut out = Vec::new();
    draw_grid(&mut out, &View::from(UNIT / 20, 0, UNIT));
    // a pan of 0.05 shifts the vertical lines 20 pixels to the left
    assert_eq!(out[26], Primitive::Line { start: (380, 0), end: (380, 800) });
}

#[test]
fn axes_pass_through_origin() {
    let mut out = Vec::new();
    draw_axis(&mut out, &View::from(UNIT / 2, -UNIT / 4, UNIT));
    assert_eq!(
        out,
        vec![
            Primitive::SetColor { r: 0x40, g: 0x40, b: 0x40 },
            Primitive::Line { start: (200, 0), end: (200, 800) },
            Primitive::Line { start: (0, 500), end: (800, 500) },
        ]
    );
}

#[test]
fn axes_scale_with_zoom() {
    let mut out = Vec::new();
    draw_axis(&mut out, &View::from(UNIT, 0, 2 * UNIT));
    assert_eq!(out[1], Primitive::Line { start: (200, 0), end: (200, 800) });
}

#[test]
fn grid_is_unchanged_by_whole_spacing_pans() {
    let s = grid_spacing(UNIT);
    let mut base = Vec::new();
    draw_grid(&mut base, &View::from(37000, -81000, UNIT));
    for k in [-4i64, -1, 1, 7].iter() {
        let mut moved = Vec::new();
        draw_grid(&mut moved, &View::from(37000 + k * s, -81000 - 2 * k * s, UNIT));
        assert_eq!(moved, base);
    }
}

#[test]
fn grid_is_periodic_at_zoom_three() {
    let zoom = 3 * UNIT;
    let s = grid_spacing(zoom);
    assert_eq!(s, 166666);
    // one spacing times the zoom, in the plane: 0.499998
    let step = s * zoom / UNIT;
    let mut below_zero = Vec::new();
    draw_grid(&mut below_zero, &View::from(-1, 0, zoom));
    let mut moved = Vec::new();
    draw_grid(&mut moved, &View::from(-1 + step, 0, zoom));
    assert_eq!(moved, below_zero);
    // seven lines on each side; the leftmost vertical line sits at -133
    assert_eq!(below_zero.len(), 1 + 15 + 15);
    assert_eq!(below_zero[16], Primitive::Line { start: (-133, 0), end: (-133, 800) });
}

#[test]
fn grid_offset_rounds_pan_down() {
    assert_eq!(grid_offset(-1, 166666), 166665);
}

#[test]
fn axes_meet_at_the_origin_pixel() {
    let view = View::from(1, -1, 3 * UNIT);
    let (ox, oy) = plane_view::view::to_pixel((0, 0), &view);
    assert_eq!((ox, oy), (399, 400));
    let mut out = Vec::new();
    draw_axis(&mut out, &view);
    assert_eq!(out[1], Primitive::Line { start: (ox, 0), end: (ox, 800) });
    assert_eq!(out[2], Primitive::Line { start: (0, oy), end: (800, oy) });
}
