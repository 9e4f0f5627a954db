use ranger::transform::{
    cos_mdeg, fx_add, fx_div, fx_mul, fx_sub, mat_of_transform, sin_mdeg, AABBox, Mat3, Point,
    Transform, FX_ONE,
};

/// The fixed-point sine is exact at the quarter turns.
#[test]
fn sine_exact_at_quarters() {
    assert_eq!(sin_mdeg(0), 0);
    assert_eq!(sin_mdeg(90_000), 1000);
    assert_eq!(sin_mdeg(180_000), 0);
    assert_eq!(sin_mdeg(270_000), -1000);
    assert_eq!(sin_mdeg(-90_000), -1000);
    assert_eq!(cos_mdeg(0), 1000);
    assert_eq!(cos_mdeg(90_000), 0);
    assert_eq!(cos_mdeg(180_000), -1000);
    assert_eq!(cos_mdeg(360_000), 1000);
}

/// Fixed-point arithmetic: thousandths multiply, divide and saturate.
#[test]
fn fixed_point_arithmetic() {
    assert_eq!(fx_mul(500, 500), 250);
    assert_eq!(fx_mul(-500, 500), -250);
    assert_eq!(fx_div(1000, 2000), 500);
    assert_eq!(fx_div(1000, 0), 0);
    assert_eq!(fx_add(1, 2), 3);
    assert_eq!(fx_sub(1, 2), -1);
    assert_eq!(fx_add(i64::MAX, i64::MAX), 0x100_0000_0000);
}

/// A rotation by 90 degrees turns the unit x vector into the unit y
/// vector (the y axis points down, so the turn is clockwise on
/// screen).
#[test]
fn rotate_unit_vector_quarter_turn() {
    let t = Transform { px: 0, py: 0, deg: 90_000, sx: FX_ONE, sy: FX_ONE };
    let m = mat_of_transform(&t);
    let v = m.apply_to_point(&Point::from_xy(1000, 0));
    assert_eq!(v, Point { x: 0, y: 1000 });
}

/// Composing a translation after a rotation applies the rotation
/// first.
#[test]
fn multiply_composes_outer_after_inner() {
    let rot = mat_of_transform(&Transform { px: 0, py: 0, deg: 90_000, sx: FX_ONE, sy: FX_ONE });
    let trans = mat_of_transform(&Transform { px: 5000, py: 0, deg: 0, sx: FX_ONE, sy: FX_ONE });
    // Translate, then rotate the result.
    let m = rot.multiply(&trans);
    let v = m.apply_to_point(&Point::from_xy(1000, 0));
    assert_eq!(v, Point { x: 0, y: 6000 });
}

/// A transform's inverse undoes it exactly on representable values.
#[test]
fn inverse_cancels_transform() {
    let t = Transform { px: 5000, py: 5000, deg: 90_000, sx: 2000, sy: 2000 };
    let m = mat_of_transform(&t);
    let inv = ranger::transform::inv_of_transform(&t);
    let p = Point::from_xy(1000, -3000);
    let back = inv.apply_to_point(&m.apply_to_point(&p));
    assert_eq!(back, p);

    let id = m.multiply(&inv);
    assert_eq!(id, Mat3 { a: 1000, b: 0, c: 0, d: 1000, tx: 0, ty: 0 });
}

/// The general matrix inverse agrees with the component inverse.
#[test]
fn general_inverse_matches() {
    let t = Transform { px: 100, py: -200, deg: 0, sx: 2000, sy: 4000 };
    let m = mat_of_transform(&t);
    let inv = m.inverse();
    let p = Point::from_xy(4000, 8000);
    let back = inv.apply_to_point(&m.apply_to_point(&p));
    assert_eq!(back, p);
}

/// A bounding box shrink-wraps its vertices.
#[test]
fn aabb_wraps_vertices() {
    let verts = vec![
        Point::from_xy(3, 7),
        Point::from_xy(-2, 9),
        Point::from_xy(5, -1),
    ];
    let mut aabb = AABBox::new();
    aabb.set_from_vertices(&verts);
    assert_eq!(aabb.min, Point { x: -2, y: -1 });
    assert_eq!(aabb.max, Point { x: 5, y: 9 });
}

/// The angular motion advances by its rate and interpolates between
/// the last two steps.
#[test]
fn angular_motion_interpolates_deltas() {
    let mut m = ranger::node::AngularMotion::new();
    m.set_step_value(-5000);
    m.update(1_000_000_000);
    assert_eq!(m.prev, 0);
    assert_eq!(m.cur, -5000);
    assert_eq!(m.interpolate(0), 0);
    assert_eq!(m.interpolate(500), -2500);
    assert_eq!(m.interpolate(999), -4995);
}
