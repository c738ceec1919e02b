use plane_view::draw::Primitive;
use plane_view::frame::{render_frame, CURVE_END, CURVE_START, CURVE_STEPS};
use plane_view::plot::{curve_sample_x, draw_field, draw_function, field_anchor, FIELD_CELLS};
use plane_view::view::{View, UNIT};

#[test]
fn lattice_anchors() {
    assert_eq!(field_anchor(0), (-10 * UNIT, -10 * UNIT));
    assert_eq!(field_anchor(1), (-10 * UNIT, -9 * UNIT));
    assert_eq!(field_anchor(21), (-9 * UNIT, -9 * UNIT));
    assert_eq!(field_anchor(FIELD_CELLS - 1), (9 * UNIT, 9 * UNIT));
}

#[test]
fn sample_positions() {
    assert_eq!(curve_sample_x(CURVE_START, CURVE_END, CURVE_STEPS, 0), CURVE_START);
    assert_eq!(curve_sample_x(CURVE_START, CURVE_END, CURVE_STEPS, 1), -4750000);
    assert_eq!(curve_sample_x(CURVE_START, CURVE_END, CURVE_STEPS, 20), 0);
    assert_eq!(curve_sample_x(CURVE_START, CURVE_END, CURVE_STEPS, CURVE_STEPS), CURVE_END);
    assert_eq!(curve_sample_x(0, 10, 3, 1), 3);
    assert_eq!(curve_sample_x(0, -10, 3, 1), -3);
}

#[test]
fn curve_connects_consecutive_samples() {
    let mut out = Vec::new();
    draw_function(&mut out, &View::from(0, 0, UNIT), -UNIT, UNIT, 2, &vec![0, UNIT / 2, 0]);
    assert_eq!(
        out,
        vec![
            Primitive::Line { start: (0, 400), end: (400, 600) },
            Primitive::Line { start: (400, 600), end: (800, 400) },
        ]
    );
}

#[test]
fn curve_with_no_steps_draws_nothing() {
    let mut out = Vec::new();
    draw_function(&mut out, &View::from(0, 0, UNIT), -UNIT, UNIT, 0, &vec![0]);
    assert!(out.is_empty());
}

#[test]
fn field_draws_one_arrow_per_anchor() {
    let view = View::from(0, 0, UNIT);
    let tips: Vec<(i64, i64)> = (0..FIELD_CELLS)
        .map(|i| {
            let (x, y) = field_anchor(i);
            (x + UNIT / 2, y)
        })
        .collect();
    let mut out = Vec::new();
    draw_field(&mut out, &view, &tips);
    assert_eq!(out.len(), 2 * FIELD_CELLS);
    // the arrow anchored at the origin is number 210
    assert_eq!(out[420], Primitive::Line { start: (400, 400), end: (600, 400) });
    assert_eq!(out[421], Primitive::FillRect { x: 596, y: 396, w: 8, h: 8 });
}

#[test]
fn field_skips_zero_length_shafts() {
    let view = View::from(0, 0, UNIT);
    let tips: Vec<(i64, i64)> = (0..FIELD_CELLS).map(field_anchor).collect();
    let mut out = Vec::new();
    draw_field(&mut out, &view, &tips);
    assert_eq!(out.len(), FIELD_CELLS);
}

#[test]
fn frame_order() {
    let view = View::from(0, 0, UNIT);
    let tips: Vec<(i64, i64)> = (0..FIELD_CELLS).map(field_anchor).collect();
    let ys = vec![0i64; CURVE_STEPS as usize + 1];
    let out = render_frame(&view, &tips, &ys);
    assert_eq!(out[0], Primitive::SetColor { r: 0, g: 0, b: 0 });
    assert_eq!(out[1], Primitive::Clear);
    assert_eq!(out[2], Primitive::SetColor { r: 0x20, g: 0x20, b: 0x20 });
    // clear, grid (35), axes (3), yellow, 400 heads, green, 40 segments
    assert_eq!(out.len(), 2 + 35 + 3 + 1 + 400 + 1 + 40);
    assert_eq!(out[441], Primitive::SetColor { r: 0, g: 0xff, b: 0 });
    assert_eq!(out[442], Primitive::Line { start: (-1600, 400), end: (-1500, 400) });
}
