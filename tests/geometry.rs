use ascii_cubes::fixed::{div_trunc, fx_div, fx_mul, ONE};
use ascii_cubes::linalg::{
    apply, get_ortho_proj, get_persp_proj, get_rotate_x_mat4, get_rotate_y_mat4, get_rotate_z_mat4,
    get_trasl_mat4, get_view_matrix, get_world_m, mul_mm4, mul_mv4, Color, Mat4, Point, Rotation, Turn,
    Vec3, Vec4,
};

const IDENT: Mat4 = [[ONE, 0, 0, 0], [0, ONE, 0, 0], [0, 0, ONE, 0], [0, 0, 0, ONE]];

fn level() -> Turn {
    Turn { cos: ONE, sin: 0 }
}

fn turn(angle: f64) -> Turn {
    Turn {
        cos: (angle.cos() * ONE as f64).round() as i64,
        sin: (angle.sin() * ONE as f64).round() as i64,
    }
}

fn neg(t: Turn) -> Turn {
    Turn { cos: t.cos, sin: -t.sin }
}

fn pt(x: i64, y: i64, z: i64) -> Vec4 {
    Vec4 { x: x * ONE, y: y * ONE, z: z * ONE, w: ONE }
}

#[test]
fn fixed_product_truncates_toward_zero() {
    assert_eq!(fx_mul(3 * ONE, ONE / 2), 3 * ONE / 2);
    assert_eq!(fx_mul(-3, ONE / 2), -1);
    assert_eq!(fx_mul(3, ONE / 2), 1);
    assert_eq!(fx_mul(-5 * ONE, -2 * ONE), 10 * ONE);
}

#[test]
fn fixed_quotient_truncates_toward_zero() {
    assert_eq!(fx_div(ONE, 2 * ONE), (ONE / 2) as i128);
    assert_eq!(fx_div(-ONE, 3 * ONE), -21845);
    assert_eq!(fx_div(ONE, -3 * ONE), -21845);
    assert_eq!(div_trunc(-7, 2), -3);
    assert_eq!(div_trunc(7, -2), -3);
    assert_eq!(div_trunc(-7, -2), 3);
}

#[test]
fn matrix_product_of_scales() {
    let a: Mat4 = [[2 * ONE, 0, 0, 0], [0, 3 * ONE, 0, 0], [0, 0, ONE, ONE], [0, 0, 0, ONE]];
    let b: Mat4 = [[ONE, ONE, 0, 0], [0, ONE, 0, 0], [0, 0, 2 * ONE, 0], [0, 0, 0, ONE]];
    let p = mul_mm4(&a, &b);
    assert_eq!(p, [[2 * ONE, 2 * ONE, 0, 0], [0, 3 * ONE, 0, 0], [0, 0, 2 * ONE, ONE], [0, 0, 0, ONE]]);
    assert_eq!(mul_mm4(&IDENT, &a), a);
}

#[test]
fn matrix_applied_to_point() {
    let a: Mat4 = [[2 * ONE, 0, 0, ONE], [0, 3 * ONE, 0, 0], [0, 0, ONE, 0], [0, 0, 0, ONE]];
    assert_eq!(mul_mv4(&a, &pt(1, 2, 3)), pt(3, 6, 3));
    let p = Point { pos: pt(1, 2, 3), c: '#', color: Color::Cyan };
    let q = apply(&a, &p);
    assert_eq!(q, Point { pos: pt(3, 6, 3), c: '#', color: Color::Cyan });
}

#[test]
fn quarter_turns_move_axes() {
    let q = turn(std::f64::consts::FRAC_PI_2);
    assert_eq!(q, Turn { cos: 0, sin: ONE });
    assert_eq!(mul_mv4(&get_rotate_x_mat4(&q), &pt(0, 1, 0)), pt(0, 0, 1));
    assert_eq!(mul_mv4(&get_rotate_y_mat4(&q), &pt(0, 0, 1)), pt(1, 0, 0));
    assert_eq!(mul_mv4(&get_rotate_z_mat4(&q), &pt(1, 0, 0)), pt(0, 1, 0));
}

#[test]
fn rotation_round_trip() {
    let p = pt(3, -4, 5);
    for angle in [0.0, std::f64::consts::FRAC_PI_2, std::f64::consts::PI, 2.0 * std::f64::consts::PI] {
        let t = turn(angle);
        for (fwd, back) in [
            (get_rotate_x_mat4(&t), get_rotate_x_mat4(&neg(t))),
            (get_rotate_y_mat4(&t), get_rotate_y_mat4(&neg(t))),
            (get_rotate_z_mat4(&t), get_rotate_z_mat4(&neg(t))),
        ] {
            assert_eq!(mul_mm4(&back, &fwd), IDENT);
            assert_eq!(mul_mv4(&back, &mul_mv4(&fwd, &p)), p);
        }
    }
    // any other angle comes back within a few fixed-point parts
    let t = turn(0.7);
    let back = mul_mv4(&get_rotate_z_mat4(&neg(t)), &mul_mv4(&get_rotate_z_mat4(&t), &p));
    assert!((back.x - p.x).abs() <= 8 && (back.y - p.y).abs() <= 8 && back.z == p.z);
}

#[test]
fn translation_inverse() {
    let t = get_trasl_mat4(2 * ONE, -3 * ONE, ONE / 2);
    let u = get_trasl_mat4(-2 * ONE, 3 * ONE, -ONE / 2);
    assert_eq!(mul_mm4(&u, &t), IDENT);
    let p = Vec4 { x: 7, y: -11, z: 13, w: ONE };
    let moved = mul_mv4(&t, &p);
    assert_eq!(moved, Vec4 { x: 7 + 2 * ONE, y: -11 - 3 * ONE, z: 13 + ONE / 2, w: ONE });
    assert_eq!(mul_mv4(&u, &moved), p);
}

#[test]
fn view_world_inverse() {
    let up = Rotation { x: level(), y: level(), z: level() };
    let at = Vec3 { x: ONE, y: 2 * ONE, z: 3 * ONE };
    let w = get_world_m(&up, &at);
    let v = get_view_matrix(&up, &at);
    assert_eq!(w, get_trasl_mat4(ONE, 2 * ONE, 3 * ONE));
    assert_eq!(mul_mv4(&mul_mm4(&v, &w), &pt(0, 0, 0)), pt(0, 0, 0));
}

#[test]
fn world_matrix_rotates_then_moves() {
    let q = turn(std::f64::consts::FRAC_PI_2);
    let r = Rotation { x: level(), y: level(), z: q };
    let w = get_world_m(&r, &Vec3 { x: 10 * ONE, y: 0, z: 0 });
    assert_eq!(mul_mv4(&w, &pt(1, 0, 0)), pt(10, 1, 0));
}

#[test]
fn view_matrix_undoes_camera_move() {
    let up = Rotation { x: level(), y: level(), z: level() };
    let v = get_view_matrix(&up, &Vec3 { x: 0, y: 0, z: 50 * ONE });
    assert_eq!(mul_mv4(&v, &pt(1, 2, 3)), pt(1, 2, -47));
}

#[test]
fn orthographic_projection_entries() {
    let m = get_ortho_proj(-100 * ONE, 100 * ONE, -50 * ONE, 50 * ONE, -20 * ONE, 20 * ONE);
    assert_eq!(m, [[655, 0, 0, 0], [0, 1310, 0, 0], [0, 0, 3276, 0], [0, 0, 0, ONE]]);
    let m = get_ortho_proj(0, 2 * ONE, 0, 2 * ONE, 2 * ONE, 0);
    assert_eq!(m, [[ONE, 0, 0, -ONE], [0, ONE, 0, -ONE], [0, 0, -ONE, -ONE], [0, 0, 0, ONE]]);
}

#[test]
fn perspective_projection_entries() {
    let m = get_persp_proj(-100 * ONE, 100 * ONE, -50 * ONE, 50 * ONE, -20 * ONE, 20 * ONE);
    assert_eq!(m, [[13107, 0, 0, 0], [0, 26214, 0, 0], [0, 0, 0, 20 * ONE], [0, 0, -ONE, 0]]);
}

#[test]
fn rounded_angles_are_valid_turns() {
    for k in 0..64 {
        let t = turn(k as f64 * 0.1);
        assert!(t.is_valid());
    }
    assert!(Turn { cos: ONE, sin: 0 }.is_valid());
    assert!(!Turn { cos: 0, sin: 0 }.is_valid());
    assert!(!Turn { cos: ONE + 1, sin: 0 }.is_valid());
    assert!(!Turn { cos: ONE / 2, sin: ONE / 2 }.is_valid());
}

#[test]
fn rotation_round_trip_within_bound() {
    let p = Vec4 { x: 37 * ONE + 11, y: -101 * ONE + 5, z: 250 * ONE - 3, w: ONE };
    for k in 0..64 {
        let t = turn(k as f64 * 0.1);
        let back = mul_mv4(&get_rotate_x_mat4(&neg(t)), &mul_mv4(&get_rotate_x_mat4(&t), &p));
        assert_eq!(back.x, p.x);
        assert_eq!(back.w, p.w);
        assert!(ONE * (back.y - p.y).abs() < 6 * p.y.abs() + 6 * ONE);
        assert!(ONE * (back.z - p.z).abs() < 6 * p.z.abs() + 6 * ONE);
    }
}
