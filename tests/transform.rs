use plane_view::view::{to_pixel, View, MAX_ZOOM, MIN_ZOOM, UNIT};

#[test]
fn origin_and_unit_points_on_default_view() {
    let view = View::from(0, 0, UNIT);
    assert_eq!(to_pixel((0, 0), &view), (400, 400));
    assert_eq!(to_pixel((UNIT, 0), &view), (800, 400));
    assert_eq!(to_pixel((-UNIT, 0), &view), (0, 400));
}

#[test]
fn view_center_lands_on_surface_center() {
    let views = [
        View::from(123456, -98765, 2 * UNIT),
        View::from(-7 * UNIT, 3 * UNIT, MIN_ZOOM),
        View::from(0, 0, MAX_ZOOM),
    ];
    for view in views.iter() {
        assert_eq!(to_pixel((view.x, view.y), view), (400, 400));
    }
}

#[test]
fn transform_scales_and_translates() {
    let view = View::from(0, 0, UNIT);
    assert_eq!(to_pixel((UNIT / 2, -UNIT / 2), &view), (600, 200));
    let zoomed = View::from(UNIT, 0, 2 * UNIT);
    assert_eq!(to_pixel((UNIT, 0), &zoomed), (400, 400));
    assert_eq!(to_pixel((3 * UNIT, 0), &zoomed), (800, 400));
    assert_eq!(to_pixel((5 * UNIT, 0), &zoomed), (1200, 400));
}

#[test]
fn transform_truncates_toward_zero() {
    let view = View::from(0, 0, UNIT);
    assert_eq!(to_pixel((-UNIT - 1000, 0), &view), (0, 400));
    assert_eq!(to_pixel((-UNIT - 5000, 0), &view), (-2, 400));
    assert_eq!(to_pixel((1001, 0), &view), (400, 400));
}

#[test]
fn transform_saturates_far_points() {
    let view = View::from(0, 0, MIN_ZOOM);
    assert_eq!(to_pixel((i64::MAX, i64::MIN), &view), (i32::MAX, i32::MIN));
}
