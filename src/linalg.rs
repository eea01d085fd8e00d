//! Vectors, 4x4 matrices and the transforms built from them, over
//! fixed-point scalars.
use vstd::prelude::*;
use crate::fixed::{abs, div_trunc, fmul, fx_mul, lemma_fmul_bound, lemma_fmul_sign, lemma_fmul_unit,
    lemma_pair_round_trip,
    lemma_mul_abs_bound, lemma_mul_le, lemma_tdiv_bound, prod_max, sdiv, COORD_MAX, ONE};

verus! {

/// A 4x4 matrix of fixed-point scalars, row by row.
pub type Mat4 = [[i64; 4]; 4];

/// A position, a velocity or a triple of angles.
#[derive(Clone, Copy, Debug, PartialEq, Eq, Structural)]
pub struct Vec3 {
    pub x: i64,
    pub y: i64,
    pub z: i64,
}

/// A point in homogeneous coordinates: it stands for `(x/w, y/w, z/w)`.
#[derive(Clone, Copy, Debug, PartialEq, Eq, Structural)]
pub struct Vec4 {
    pub x: i64,
    pub y: i64,
    pub z: i64,
    pub w: i64,
}

/// An angle given by its fixed-point cosine and sine.
#[derive(Clone, Copy, Debug, PartialEq, Eq, Structural)]
pub struct Turn {
    pub cos: i64,
    pub sin: i64,
}

/// An orientation: one angle about each principal axis.
#[derive(Clone, Copy, Debug, PartialEq, Eq, Structural)]
pub struct Rotation {
    pub x: Turn,
    pub y: Turn,
    pub z: Turn,
}

/// A colour tag of the palette; `Neutral` is no colour.
#[derive(Clone, Copy, Debug, PartialEq, Eq, Structural)]
pub enum Color {
    Neutral,
    Grey,
    Red,
    Green,
    Yellow,
    Blue,
    Purple,
    Cyan,
}

/// A position with the glyph and colour it is drawn with.
#[derive(Clone, Copy, Debug, PartialEq, Eq, Structural)]
pub struct Point {
    pub pos: Vec4,
    pub c: char,
    pub color: Color,
}

impl Turn {
    /// Cosine and sine within one in magnitude, and of squared length
    /// within four parts of one: the pair of an angle, rounded.
    pub open spec fn valid(self) -> bool {
        &&& -ONE <= self.cos <= ONE
        &&& -ONE <= self.sin <= ONE
        &&& ONE - 4 <= turn_norm(self) <= ONE + 4
    }

    /// Whether the pair is the rounded pair of an angle, as `valid` says.
    pub fn is_valid(&self) -> (r: bool)
        ensures
            r == self.valid(),
    {
        if self.cos < -ONE || self.cos > ONE || self.sin < -ONE || self.sin > ONE {
            return false;
        }
        proof {
            lemma_mul_le(abs(self.cos as int), abs(self.cos as int), ONE as int, ONE as int);
            lemma_mul_le(abs(self.sin as int), abs(self.sin as int), ONE as int, ONE as int);
            assert(abs(self.cos * self.cos) == abs(self.cos as int) * abs(self.cos as int)) by (nonlinear_arith);
            assert(abs(self.sin * self.sin) == abs(self.sin as int) * abs(self.sin as int)) by (nonlinear_arith);
            lemma_fmul_bound(self.cos as int, self.cos as int, ONE as int, ONE as int);
            lemma_fmul_bound(self.sin as int, self.sin as int, ONE as int, ONE as int);
            assert((65536 * 65536) / 65536 == 65536int);
        }
        let n = fx_mul(self.cos, self.cos) + fx_mul(self.sin, self.sin);
        ONE - 4 <= n && n <= ONE + 4
    }

    /// The opposite angle.
    pub open spec fn neg(self) -> Turn {
        Turn { cos: self.cos, sin: (-self.sin) as i64 }
    }
}

impl Rotation {
    pub open spec fn valid(self) -> bool {
        self.x.valid() && self.y.valid() && self.z.valid()
    }
}

/// Every coordinate within `COORD_MAX` in magnitude.
pub open spec fn coord_ok(v: Vec3) -> bool {
    abs(v.x as int) <= COORD_MAX && abs(v.y as int) <= COORD_MAX && abs(v.z as int) <= COORD_MAX
}

pub open spec fn max2(a: int, b: int) -> int {
    if a >= b {
        a
    } else {
        b
    }
}

/// Largest magnitude of an entry of a row.
pub open spec fn row_max(r: [i64; 4]) -> int {
    max2(max2(abs(r[0] as int), abs(r[1] as int)), max2(abs(r[2] as int), abs(r[3] as int)))
}

/// Largest magnitude of an entry.
pub open spec fn max_abs(m: Mat4) -> int {
    max2(max2(row_max(m[0]), row_max(m[1])), max2(row_max(m[2]), row_max(m[3])))
}

/// Largest magnitude of a coordinate.
pub open spec fn vec_max(v: Vec4) -> int {
    max2(max2(abs(v.x as int), abs(v.y as int)), max2(abs(v.z as int), abs(v.w as int)))
}

/// Coordinate `k` of `v`: x, y, z, then w.
pub open spec fn coord(v: Vec4, k: int) -> int {
    if k == 0 {
        v.x as int
    } else if k == 1 {
        v.y as int
    } else if k == 2 {
        v.z as int
    } else {
        v.w as int
    }
}

/// Entry `(i, j)` of the product `a * b`, before it is stored.
pub open spec fn mm_entry(a: Mat4, b: Mat4, i: int, j: int) -> int {
    fmul(a[i][0] as int, b[0][j] as int) + fmul(a[i][1] as int, b[1][j] as int) + fmul(
        a[i][2] as int,
        b[2][j] as int,
    ) + fmul(a[i][3] as int, b[3][j] as int)
}

/// Row `i` of the product `a * b`.
pub open spec fn mm_row(a: Mat4, b: Mat4, i: int) -> [i64; 4] {
    [
        mm_entry(a, b, i, 0) as i64,
        mm_entry(a, b, i, 1) as i64,
        mm_entry(a, b, i, 2) as i64,
        mm_entry(a, b, i, 3) as i64,
    ]
}

/// The matrix product `a * b`.
pub open spec fn mat_mul(a: Mat4, b: Mat4) -> Mat4 {
    [mm_row(a, b, 0), mm_row(a, b, 1), mm_row(a, b, 2), mm_row(a, b, 3)]
}

/// Row `i` of `m` applied to `v`, before it is stored.
pub open spec fn row_dot(m: Mat4, i: int, v: Vec4) -> int {
    fmul(m[i][0] as int, v.x as int) + fmul(m[i][1] as int, v.y as int) + fmul(
        m[i][2] as int,
        v.z as int,
    ) + fmul(m[i][3] as int, v.w as int)
}

/// The product `m * v`.
pub open spec fn mat_vec(m: Mat4, v: Vec4) -> Vec4 {
    Vec4 {
        x: row_dot(m, 0, v) as i64,
        y: row_dot(m, 1, v) as i64,
        z: row_dot(m, 2, v) as i64,
        w: row_dot(m, 3, v) as i64,
    }
}

/// Rotation by `t` about the x axis.
pub open spec fn rot_x(t: Turn) -> Mat4 {
    [
        [ONE, 0, 0, 0],
        [0, t.cos, (-t.sin) as i64, 0],
        [0, t.sin, t.cos, 0],
        [0, 0, 0, ONE],
    ]
}

/// Rotation by `t` about the y axis.
pub open spec fn rot_y(t: Turn) -> Mat4 {
    [
        [t.cos, 0, t.sin, 0],
        [0, ONE, 0, 0],
        [(-t.sin) as i64, 0, t.cos, 0],
        [0, 0, 0, ONE],
    ]
}

/// Rotation by `t` about the z axis.
pub open spec fn rot_z(t: Turn) -> Mat4 {
    [
        [t.cos, (-t.sin) as i64, 0, 0],
        [t.sin, t.cos, 0, 0],
        [0, 0, ONE, 0],
        [0, 0, 0, ONE],
    ]
}

/// Translation by `(x, y, z)`.
pub open spec fn trasl(x: i64, y: i64, z: i64) -> Mat4 {
    [[ONE, 0, 0, x], [0, ONE, 0, y], [0, 0, ONE, z], [0, 0, 0, ONE]]
}

/// The identity.
pub open spec fn ident() -> Mat4 {
    [[ONE, 0, 0, 0], [0, ONE, 0, 0], [0, 0, ONE, 0], [0, 0, 0, ONE]]
}

/// Model to world: rotate about x, then y, then z, then move to `t`.
pub open spec fn world_m(a: Rotation, t: Vec3) -> Mat4 {
    mat_mul(trasl(t.x, t.y, t.z), mat_mul(rot_z(a.z), mat_mul(rot_y(a.y), rot_x(a.x))))
}

/// World to view for a camera at `t` with orientation `a`: the inverse of
/// placing the camera.
pub open spec fn view_m(a: Rotation, t: Vec3) -> Mat4 {
    mat_mul(
        rot_x(a.x.neg()),
        mat_mul(
            rot_y(a.y.neg()),
            mat_mul(rot_z(a.z.neg()), trasl((-t.x) as i64, (-t.y) as i64, (-t.z) as i64)),
        ),
    )
}

/// Orthographic projection of the box between the planes `l`, `r` (x),
/// `b`, `t` (y) and `f`, `n` (z): a scale and a shift onto `[-1, 1]`.
pub open spec fn ortho(l: int, r: int, b: int, t: int, f: int, n: int) -> Mat4 {
    let one = ONE as int;
    [
        [sdiv(2 * one * one, r - l) as i64, 0, 0, sdiv(-(r + l) * one, r - l) as i64],
        [0, sdiv(2 * one * one, t - b) as i64, 0, sdiv(-(t + b) * one, t - b) as i64],
        [0, 0, sdiv(-2 * one * one, f - n) as i64, sdiv(-(f + n) * one, f - n) as i64],
        [0, 0, 0, ONE],
    ]
}

/// Perspective projection of the frustum between the planes `l`, `r`
/// (x), `b`, `t` (y) and `f`, `n` (z), before the division by `w`.
pub open spec fn persp(l: int, r: int, b: int, t: int, f: int, n: int) -> Mat4 {
    let one = ONE as int;
    [
        [sdiv(2 * n * one, r - l) as i64, 0, sdiv((r + l) * one, r - l) as i64, 0],
        [0, sdiv(2 * n * one, t - b) as i64, sdiv((t + b) * one, t - b) as i64, 0],
        [0, 0, sdiv(-(f + n) * one, f - n) as i64, sdiv(2 * f * n, f - n) as i64],
        [0, 0, (-ONE) as i64, 0],
    ]
}

/// Bounds of an affine matrix: its last row is `(0, 0, 0, ONE)`, the
/// entries of its linear part are at most `r` and those of its
/// translation at most `t` in magnitude.
pub open spec fn affine(m: Mat4, r: int, t: int) -> bool {
    &&& m[3][0] == 0
    &&& m[3][1] == 0
    &&& m[3][2] == 0
    &&& m[3][3] == ONE
    &&& forall|i: int, j: int| 0 <= i < 3 && 0 <= j < 3 ==> abs(#[trigger] m[i][j] as int) <= r
    &&& forall|i: int| 0 <= i < 3 ==> abs(#[trigger] m[i][3] as int) <= t
}


pub proof fn lemma_max_abs(m: Mat4)
    ensures
        forall|i: int, j: int| 0 <= i < 4 && 0 <= j < 4 ==> abs(#[trigger] m[i][j] as int) <= max_abs(m),
        max_abs(m) >= 0,
{
    assert forall|i: int, j: int| 0 <= i < 4 && 0 <= j < 4 implies abs(#[trigger] m[i][j] as int) <= max_abs(m) by {
        assert(abs(m[i][j] as int) <= row_max(m[i]));
    }
}

pub proof fn lemma_vec_max(v: Vec4)
    ensures
        forall|k: int| 0 <= k < 4 ==> abs(#[trigger] coord(v, k)) <= vec_max(v),
        vec_max(v) >= 0,
{
}

/// One term of a product of matrices whose magnitudes multiply within
/// `prod_max()`.
proof fn lemma_term_fits(x: int, y: int, mx: int, my: int)
    requires
        abs(x) <= mx,
        abs(y) <= my,
        mx * my <= prod_max(),
    ensures
        abs(x * y) <= prod_max(),
        abs(fmul(x, y)) <= prod_max() / (ONE as int),
{
    reveal(fmul);
    lemma_mul_abs_bound(x, y, mx, my);
    lemma_tdiv_bound(x * y, ONE as int, prod_max());
}

proof fn lemma_mm_entry_fits(a: Mat4, b: Mat4, i: int, j: int)
    requires
        max_abs(a) * max_abs(b) <= prod_max(),
        0 <= i < 4,
        0 <= j < 4,
    ensures
        abs(mm_entry(a, b, i, j)) <= 4 * (prod_max() / (ONE as int)),
        mat_mul(a, b)[i][j] as int == mm_entry(a, b, i, j),
{
    lemma_max_abs(a);
    lemma_max_abs(b);
    lemma_term_fits(a[i][0] as int, b[0][j] as int, max_abs(a), max_abs(b));
    lemma_term_fits(a[i][1] as int, b[1][j] as int, max_abs(a), max_abs(b));
    lemma_term_fits(a[i][2] as int, b[2][j] as int, max_abs(a), max_abs(b));
    lemma_term_fits(a[i][3] as int, b[3][j] as int, max_abs(a), max_abs(b));
    let row = mm_row(a, b, i);
    assert(mat_mul(a, b)[i] == row);
    assert(row[j] == mm_entry(a, b, i, j) as i64);
}

pub proof fn lemma_mm_fits(a: Mat4, b: Mat4)
    requires
        max_abs(a) * max_abs(b) <= prod_max(),
    ensures
        forall|i: int, j: int|
            #![trigger mm_entry(a, b, i, j)]
            0 <= i < 4 && 0 <= j < 4 ==> abs(mm_entry(a, b, i, j)) <= 4 * (prod_max() / (ONE as int))
                && mat_mul(a, b)[i][j] as int == mm_entry(a, b, i, j),
{
    assert forall|i: int, j: int|
        #![trigger mm_entry(a, b, i, j)]
        0 <= i < 4 && 0 <= j < 4 implies abs(mm_entry(a, b, i, j)) <= 4 * (prod_max() / (ONE as int))
            && mat_mul(a, b)[i][j] as int == mm_entry(a, b, i, j) by {
        lemma_mm_entry_fits(a, b, i, j);
    }
}

pub proof fn lemma_mv_fits(m: Mat4, v: Vec4)
    requires
        max_abs(m) * vec_max(v) <= prod_max(),
    ensures
        forall|i: int| 0 <= i < 4 ==> abs(#[trigger] row_dot(m, i, v)) <= 4 * (prod_max() / (ONE as int)),
        mat_vec(m, v).x == row_dot(m, 0, v),
        mat_vec(m, v).y == row_dot(m, 1, v),
        mat_vec(m, v).z == row_dot(m, 2, v),
        mat_vec(m, v).w == row_dot(m, 3, v),
{
    lemma_max_abs(m);
    lemma_vec_max(v);
    assert forall|i: int| 0 <= i < 4 implies abs(#[trigger] row_dot(m, i, v)) <= 4 * (prod_max() / (ONE as int)) by {
        assert(coord(v, 0) == v.x && coord(v, 1) == v.y && coord(v, 2) == v.z && coord(v, 3) == v.w);
        lemma_term_fits(m[i][0] as int, v.x as int, max_abs(m), vec_max(v));
        lemma_term_fits(m[i][1] as int, v.y as int, max_abs(m), vec_max(v));
        lemma_term_fits(m[i][2] as int, v.z as int, max_abs(m), vec_max(v));
        lemma_term_fits(m[i][3] as int, v.w as int, max_abs(m), vec_max(v));
    }
}


pub proof fn lemma_affine_max(m: Mat4, r: int, t: int)
    requires
        affine(m, r, t),
        r >= 0,
        t >= 0,
    ensures
        0 <= max_abs(m) <= max2(max2(r, t), ONE as int),
{
    let bound = max2(max2(r, t), ONE as int);
    assert forall|i: int, j: int| 0 <= i < 4 && 0 <= j < 4 implies abs(#[trigger] m[i][j] as int) <= bound by {
        if i < 3 && j < 3 {
        } else if i < 3 {
            assert(j == 3);
        }
    }
    assert(row_max(m[0]) <= bound);
    assert(row_max(m[1]) <= bound);
    assert(row_max(m[2]) <= bound);
    assert(row_max(m[3]) <= bound);
}

proof fn lemma_affine_entry(a: Mat4, b: Mat4, ra: int, ta: int, rb: int, tb: int, i: int, j: int)
    requires
        affine(a, ra, ta),
        affine(b, rb, tb),
        ra >= 0,
        ta >= 0,
        rb >= 0,
        tb >= 0,
        0 <= i < 3,
        0 <= j < 4,
    ensures
        j < 3 ==> abs(mm_entry(a, b, i, j)) <= 3 * ((ra * rb) / (ONE as int)),
        j == 3 ==> abs(mm_entry(a, b, i, j)) <= 3 * ((ra * tb) / (ONE as int)) + ta,
{
    lemma_fmul_unit(a[i][3] as int);
    if j < 3 {
        lemma_fmul_bound(a[i][0] as int, b[0][j] as int, ra, rb);
        lemma_fmul_bound(a[i][1] as int, b[1][j] as int, ra, rb);
        lemma_fmul_bound(a[i][2] as int, b[2][j] as int, ra, rb);
    } else {
        lemma_fmul_bound(a[i][0] as int, b[0][j] as int, ra, tb);
        lemma_fmul_bound(a[i][1] as int, b[1][j] as int, ra, tb);
        lemma_fmul_bound(a[i][2] as int, b[2][j] as int, ra, tb);
    }
}

/// Bounds of a product of affine matrices.
pub proof fn lemma_affine_mul(a: Mat4, b: Mat4, ra: int, ta: int, rb: int, tb: int)
    requires
        affine(a, ra, ta),
        affine(b, rb, tb),
        ra >= 0,
        ta >= 0,
        rb >= 0,
        tb >= 0,
        max2(max2(ra, ta), ONE as int) * max2(max2(rb, tb), ONE as int) <= prod_max(),
    ensures
        max_abs(a) * max_abs(b) <= prod_max(),
        affine(mat_mul(a, b), 3 * ((ra * rb) / (ONE as int)), 3 * ((ra * tb) / (ONE as int)) + ta),
{
    lemma_affine_max(a, ra, ta);
    lemma_affine_max(b, rb, tb);
    let ma = max2(max2(ra, ta), ONE as int);
    let mb = max2(max2(rb, tb), ONE as int);
    lemma_mul_le(max_abs(a), max_abs(b), ma, mb);
    lemma_mm_fits(a, b);
    let p = mat_mul(a, b);
    assert forall|i: int, j: int| 0 <= i < 3 && 0 <= j < 3 implies abs(#[trigger] p[i][j] as int) <= 3 * ((ra * rb) / (ONE as int)) by {
        lemma_affine_entry(a, b, ra, ta, rb, tb, i, j);
        assert(mm_entry(a, b, i, j) == p[i][j]);
    }
    assert forall|i: int| 0 <= i < 3 implies abs(#[trigger] p[i][3] as int) <= 3 * ((ra * tb) / (ONE as int)) + ta by {
        lemma_affine_entry(a, b, ra, ta, rb, tb, i, 3);
        assert(mm_entry(a, b, i, 3) == p[i][3]);
    }
    assert forall|j: int| 0 <= j < 4 implies #[trigger] p[3][j] == b[3][j] by {
        lemma_fmul_unit(b[0][j] as int);
        lemma_fmul_unit(b[1][j] as int);
        lemma_fmul_unit(b[2][j] as int);
        lemma_fmul_unit(b[3][j] as int);
        assert(mm_entry(a, b, 3, j) == p[3][j]);
    }
    assert(p[3][0] == b[3][0]);
    assert(p[3][1] == b[3][1]);
    assert(p[3][2] == b[3][2]);
    assert(p[3][3] == b[3][3]);
}


pub fn get_rotate_x_mat4(a: &Turn) -> (r: Mat4)
    requires
        a.valid(),
    ensures
        r == rot_x(*a),
{
    [[ONE, 0, 0, 0], [0, a.cos, -a.sin, 0], [0, a.sin, a.cos, 0], [0, 0, 0, ONE]]
}

pub fn get_rotate_y_mat4(a: &Turn) -> (r: Mat4)
    requires
        a.valid(),
    ensures
        r == rot_y(*a),
{
    [[a.cos, 0, a.sin, 0], [0, ONE, 0, 0], [-a.sin, 0, a.cos, 0], [0, 0, 0, ONE]]
}

pub fn get_rotate_z_mat4(a: &Turn) -> (r: Mat4)
    requires
        a.valid(),
    ensures
        r == rot_z(*a),
{
    [[a.cos, -a.sin, 0, 0], [a.sin, a.cos, 0, 0], [0, 0, ONE, 0], [0, 0, 0, ONE]]
}

pub fn get_trasl_mat4(x: i64, y: i64, z: i64) -> (r: Mat4)
    ensures
        r == trasl(x, y, z),
{
    [[ONE, 0, 0, x], [0, ONE, 0, y], [0, 0, ONE, z], [0, 0, 0, ONE]]
}

/// Orthographic projection of the box between the planes `l`, `r` (x),
/// `b`, `t` (y) and `f`, `n` (z) onto `[-1, 1]` on each axis.
pub fn get_ortho_proj(l: i64, r: i64, b: i64, t: i64, f: i64, n: i64) -> (m: Mat4)
    requires
        l != r,
        b != t,
        f != n,
        abs(l as int) <= COORD_MAX && abs(r as int) <= COORD_MAX,
        abs(b as int) <= COORD_MAX && abs(t as int) <= COORD_MAX,
        abs(f as int) <= COORD_MAX && abs(n as int) <= COORD_MAX,
    ensures
        m == ortho(l as int, r as int, b as int, t as int, f as int, n as int),
{
    let one = ONE as i128;
    let (l, r, b, t, f, n) = (l as i128, r as i128, b as i128, t as i128, f as i128, n as i128);
    [
        [div_trunc(2 * one * one, r - l) as i64, 0, 0, div_trunc(-(r + l) * one, r - l) as i64],
        [0, div_trunc(2 * one * one, t - b) as i64, 0, div_trunc(-(t + b) * one, t - b) as i64],
        [0, 0, div_trunc(-2 * one * one, f - n) as i64, div_trunc(-(f + n) * one, f - n) as i64],
        [0, 0, 0, ONE],
    ]
}

/// Perspective projection of the frustum between the planes `l`, `r`
/// (x), `b`, `t` (y) and `f`, `n` (z): dividing the result by its `w`
/// makes far things small.
pub fn get_persp_proj(l: i64, r: i64, b: i64, t: i64, f: i64, n: i64) -> (m: Mat4)
    requires
        l != r,
        b != t,
        f != n,
        abs(l as int) <= COORD_MAX && abs(r as int) <= COORD_MAX,
        abs(b as int) <= COORD_MAX && abs(t as int) <= COORD_MAX,
        abs(f as int) <= COORD_MAX && abs(n as int) <= COORD_MAX,
    ensures
        m == persp(l as int, r as int, b as int, t as int, f as int, n as int),
{
    let one = ONE as i128;
    let (l, r, b, t, f, n) = (l as i128, r as i128, b as i128, t as i128, f as i128, n as i128);
    assert(abs(2 * f * n) <= 2 * COORD_MAX * COORD_MAX) by (nonlinear_arith)
        requires
            abs(f as int) <= COORD_MAX,
            abs(n as int) <= COORD_MAX,
    ;
    [
        [div_trunc(2 * n * one, r - l) as i64, 0, div_trunc((r + l) * one, r - l) as i64, 0],
        [0, div_trunc(2 * n * one, t - b) as i64, div_trunc((t + b) * one, t - b) as i64, 0],
        [0, 0, div_trunc(-(f + n) * one, f - n) as i64, div_trunc(2 * f * n, f - n) as i64],
        [0, 0, -ONE, 0],
    ]
}

fn mm_at(a: &Mat4, b: &Mat4, i: usize, j: usize) -> (r: i64)
    requires
        i < 4,
        j < 4,
        max_abs(*a) * max_abs(*b) <= prod_max(),
    ensures
        r == mm_entry(*a, *b, i as int, j as int),
{
    proof {
        lemma_max_abs(*a);
        lemma_max_abs(*b);
        lemma_term_fits(a[i as int][0] as int, b[0][j as int] as int, max_abs(*a), max_abs(*b));
        lemma_term_fits(a[i as int][1] as int, b[1][j as int] as int, max_abs(*a), max_abs(*b));
        lemma_term_fits(a[i as int][2] as int, b[2][j as int] as int, max_abs(*a), max_abs(*b));
        lemma_term_fits(a[i as int][3] as int, b[3][j as int] as int, max_abs(*a), max_abs(*b));
    }
    let t0 = fx_mul(a[i][0], b[0][j]);
    let t1 = fx_mul(a[i][1], b[1][j]);
    let t2 = fx_mul(a[i][2], b[2][j]);
    let t3 = fx_mul(a[i][3], b[3][j]);
    t0 + t1 + t2 + t3
}

fn mm_row_at(a: &Mat4, b: &Mat4, i: usize) -> (r: [i64; 4])
    requires
        i < 4,
        max_abs(*a) * max_abs(*b) <= prod_max(),
    ensures
        r == mm_row(*a, *b, i as int),
{
    [mm_at(a, b, i, 0), mm_at(a, b, i, 1), mm_at(a, b, i, 2), mm_at(a, b, i, 3)]
}

/// The matrix product `m1 * m2`.
pub fn mul_mm4(m1: &Mat4, m2: &Mat4) -> (r: Mat4)
    requires
        max_abs(*m1) * max_abs(*m2) <= prod_max(),
    ensures
        r == mat_mul(*m1, *m2),
{
    [mm_row_at(m1, m2, 0), mm_row_at(m1, m2, 1), mm_row_at(m1, m2, 2), mm_row_at(m1, m2, 3)]
}

fn row_at(m: &Mat4, i: usize, v: &Vec4) -> (r: i64)
    requires
        i < 4,
        max_abs(*m) * vec_max(*v) <= prod_max(),
    ensures
        r == row_dot(*m, i as int, *v),
{
    proof {
        lemma_max_abs(*m);
        lemma_vec_max(*v);
        assert(coord(*v, 0) == v.x && coord(*v, 1) == v.y && coord(*v, 2) == v.z && coord(*v, 3) == v.w);
        lemma_term_fits(m[i as int][0] as int, v.x as int, max_abs(*m), vec_max(*v));
        lemma_term_fits(m[i as int][1] as int, v.y as int, max_abs(*m), vec_max(*v));
        lemma_term_fits(m[i as int][2] as int, v.z as int, max_abs(*m), vec_max(*v));
        lemma_term_fits(m[i as int][3] as int, v.w as int, max_abs(*m), vec_max(*v));
    }
    let t0 = fx_mul(m[i][0], v.x);
    let t1 = fx_mul(m[i][1], v.y);
    let t2 = fx_mul(m[i][2], v.z);
    let t3 = fx_mul(m[i][3], v.w);
    t0 + t1 + t2 + t3
}

/// The product `m * v`.
pub fn mul_mv4(m: &Mat4, v: &Vec4) -> (r: Vec4)
    requires
        max_abs(*m) * vec_max(*v) <= prod_max(),
    ensures
        r == mat_vec(*m, *v),
{
    Vec4 { x: row_at(m, 0, v), y: row_at(m, 1, v), z: row_at(m, 2, v), w: row_at(m, 3, v) }
}

/// `p` moved by `m`, with its glyph and colour.
pub fn apply(m: &Mat4, p: &Point) -> (r: Point)
    requires
        max_abs(*m) * vec_max(p.pos) <= prod_max(),
    ensures
        r == (Point { pos: mat_vec(*m, p.pos), ..*p }),
{
    Point { pos: mul_mv4(m, &p.pos), c: p.c, color: p.color }
}


pub proof fn lemma_rot_affine(t: Turn)
    requires
        t.valid(),
    ensures
        affine(rot_x(t), ONE as int, 0),
        affine(rot_y(t), ONE as int, 0),
        affine(rot_z(t), ONE as int, 0),
        t.neg().valid(),
{
    lemma_fmul_sign(-t.sin, t.sin as int);
    lemma_fmul_sign(t.sin as int, t.sin as int);
}

/// The angle zero is a valid angle.
pub proof fn lemma_level_valid()
    ensures
        level().valid(),
        upright().valid(),
{
    lemma_fmul_unit(ONE as int);
    lemma_fmul_unit(0);
}

pub proof fn lemma_trasl_affine(x: i64, y: i64, z: i64)
    requires
        abs(x as int) <= COORD_MAX,
        abs(y as int) <= COORD_MAX,
        abs(z as int) <= COORD_MAX,
    ensures
        affine(trasl(x, y, z), ONE as int, COORD_MAX as int),
{
}

/// Bounds of the model-to-world matrix of a pose, and of the partial
/// products that build it.
pub proof fn lemma_world_bounds(a: Rotation, t: Vec3)
    requires
        a.valid(),
        coord_ok(t),
    ensures
        max_abs(rot_y(a.y)) * max_abs(rot_x(a.x)) <= prod_max(),
        max_abs(rot_z(a.z)) * max_abs(mat_mul(rot_y(a.y), rot_x(a.x))) <= prod_max(),
        max_abs(trasl(t.x, t.y, t.z)) * max_abs(
            mat_mul(rot_z(a.z), mat_mul(rot_y(a.y), rot_x(a.x))),
        ) <= prod_max(),
        affine(world_m(a, t), 27 * ONE, COORD_MAX as int),
{
    lemma_rot_affine(a.x);
    lemma_rot_affine(a.y);
    lemma_rot_affine(a.z);
    lemma_trasl_affine(t.x, t.y, t.z);
    let yx = mat_mul(rot_y(a.y), rot_x(a.x));
    assert(max2(max2(65536, 0), 65536) == 65536);
    assert(65536 * 65536 <= prod_max());
    lemma_affine_mul(rot_y(a.y), rot_x(a.x), 65536, 0, 65536, 0);
    assert((65536 * 65536) / 65536 == 65536int);
    assert(max2(max2(196608, 0), 65536) == 196608);
    assert(65536 * 196608 <= prod_max());
    let zyx = mat_mul(rot_z(a.z), yx);
    lemma_affine_mul(rot_z(a.z), yx, 65536, 0, 196608, 0);
    assert((65536 * 196608) / 65536 == 196608int);
    assert(max2(max2(65536, 16777216), 65536) == 16777216);
    assert(max2(max2(589824, 0), 65536) == 589824);
    assert(16777216 * 589824 <= prod_max());
    lemma_affine_mul(trasl(t.x, t.y, t.z), zyx, 65536, 16777216, 589824, 0);
    assert((65536 * 589824) / 65536 == 589824int);
    assert((65536 * 0) / 65536 == 0int);
}

/// Bounds of the world-to-view matrix of a camera, and of the partial
/// products that build it.
pub proof fn lemma_view_bounds(a: Rotation, t: Vec3)
    requires
        a.valid(),
        coord_ok(t),
    ensures
        ({
            let tr = trasl((-t.x) as i64, (-t.y) as i64, (-t.z) as i64);
            let zt = mat_mul(rot_z(a.z.neg()), tr);
            &&& max_abs(rot_z(a.z.neg())) * max_abs(tr) <= prod_max()
            &&& max_abs(rot_y(a.y.neg())) * max_abs(zt) <= prod_max()
            &&& max_abs(rot_x(a.x.neg())) * max_abs(mat_mul(rot_y(a.y.neg()), zt)) <= prod_max()
        }),
        affine(view_m(a, t), 27 * ONE, 27 * COORD_MAX),
{
    lemma_rot_affine(a.x);
    lemma_rot_affine(a.y);
    lemma_rot_affine(a.z);
    lemma_rot_affine(a.x.neg());
    lemma_rot_affine(a.y.neg());
    lemma_rot_affine(a.z.neg());
    let tr = trasl((-t.x) as i64, (-t.y) as i64, (-t.z) as i64);
    lemma_trasl_affine((-t.x) as i64, (-t.y) as i64, (-t.z) as i64);
    assert(max2(max2(65536, 0), 65536) == 65536);
    assert(max2(max2(65536, 16777216), 65536) == 16777216);
    assert(65536 * 16777216 <= prod_max());
    let zt = mat_mul(rot_z(a.z.neg()), tr);
    lemma_affine_mul(rot_z(a.z.neg()), tr, 65536, 0, 65536, 16777216);
    assert((65536 * 65536) / 65536 == 65536int);
    assert((65536 * 16777216) / 65536 == 16777216int);
    assert((65536 * 0) / 65536 == 0int);
    assert(max2(max2(196608, 50331648), 65536) == 50331648);
    assert(65536 * 50331648 <= prod_max());
    let yzt = mat_mul(rot_y(a.y.neg()), zt);
    lemma_affine_mul(rot_y(a.y.neg()), zt, 65536, 0, 196608, 50331648);
    assert((65536 * 196608) / 65536 == 196608int);
    assert((65536 * 50331648) / 65536 == 50331648int);
    assert(max2(max2(589824, 150994944), 65536) == 150994944);
    assert(65536 * 150994944 <= prod_max());
    lemma_affine_mul(rot_x(a.x.neg()), yzt, 65536, 0, 589824, 150994944);
    assert((65536 * 589824) / 65536 == 589824int);
    assert((65536 * 150994944) / 65536 == 150994944int);
}

/// Bounds of the combined model-to-view matrix.
pub proof fn lemma_view_world_bounds(v: Mat4, w: Mat4)
    requires
        affine(v, 27 * ONE, 27 * COORD_MAX),
        affine(w, 27 * ONE, COORD_MAX as int),
    ensures
        max_abs(v) * max_abs(w) <= prod_max(),
        affine(mat_mul(v, w), 2187 * ONE, 108 * COORD_MAX),
{
    assert(max2(max2(1769472, 452984832), 65536) == 452984832);
    assert(max2(max2(1769472, 16777216), 65536) == 16777216);
    assert(452984832 * 16777216 <= prod_max());
    lemma_affine_mul(v, w, 1769472, 452984832, 1769472, 16777216);
    assert((1769472 * 1769472) / 65536 == 47775744int);
    assert((1769472 * 16777216) / 65536 == 452984832int);
}

/// Bounds of an affine matrix applied to a point whose `w` is one.
pub proof fn lemma_affine_apply(m: Mat4, r: int, t: int, v: Vec4, p: int)
    requires
        affine(m, r, t),
        r >= 0,
        t >= 0,
        p >= 0,
        abs(v.x as int) <= p,
        abs(v.y as int) <= p,
        abs(v.z as int) <= p,
        v.w == ONE,
        max2(max2(r, t), ONE as int) * max2(p, ONE as int) <= prod_max(),
    ensures
        max_abs(m) * vec_max(v) <= prod_max(),
        abs(mat_vec(m, v).x as int) <= 3 * ((r * p) / (ONE as int)) + t,
        abs(mat_vec(m, v).y as int) <= 3 * ((r * p) / (ONE as int)) + t,
        abs(mat_vec(m, v).z as int) <= 3 * ((r * p) / (ONE as int)) + t,
        mat_vec(m, v).w == ONE,
{
    lemma_affine_max(m, r, t);
    let mm = max2(max2(r, t), ONE as int);
    let mv = max2(p, ONE as int);
    assert(vec_max(v) <= mv);
    lemma_mul_le(max_abs(m), vec_max(v), mm, mv);
    lemma_mv_fits(m, v);
    assert forall|i: int| 0 <= i < 3 implies abs(#[trigger] row_dot(m, i, v)) <= 3 * ((r * p) / (ONE as int)) + t by {
        lemma_fmul_bound(m[i][0] as int, v.x as int, r, p);
        lemma_fmul_bound(m[i][1] as int, v.y as int, r, p);
        lemma_fmul_bound(m[i][2] as int, v.z as int, r, p);
        lemma_fmul_unit(m[i][3] as int);
    }
    assert(abs(row_dot(m, 0, v)) <= 3 * ((r * p) / (ONE as int)) + t);
    assert(abs(row_dot(m, 1, v)) <= 3 * ((r * p) / (ONE as int)) + t);
    assert(abs(row_dot(m, 2, v)) <= 3 * ((r * p) / (ONE as int)) + t);
    lemma_fmul_unit(v.x as int);
    lemma_fmul_unit(v.y as int);
    lemma_fmul_unit(v.z as int);
    lemma_fmul_unit(v.w as int);
}

/// Model to world: rotate about x, then y, then z, then move to `t`.
pub fn get_world_m(a: &Rotation, t: &Vec3) -> (r: Mat4)
    requires
        a.valid(),
        coord_ok(*t),
    ensures
        r == world_m(*a, *t),
        affine(r, 27 * ONE, COORD_MAX as int),
{
    let rx = get_rotate_x_mat4(&a.x);
    let ry = get_rotate_y_mat4(&a.y);
    let rz = get_rotate_z_mat4(&a.z);
    let tm = get_trasl_mat4(t.x, t.y, t.z);
    proof {
        lemma_world_bounds(*a, *t);
    }
    let yx = mul_mm4(&ry, &rx);
    let zyx = mul_mm4(&rz, &yx);
    mul_mm4(&tm, &zyx)
}

/// World to view for a camera at `t` with orientation `a`: undo the
/// camera's move, then its rotations about z, y and x.
pub fn get_view_matrix(a: &Rotation, t: &Vec3) -> (r: Mat4)
    requires
        a.valid(),
        coord_ok(*t),
    ensures
        r == view_m(*a, *t),
        affine(r, 27 * ONE, 27 * COORD_MAX),
{
    let tm = get_trasl_mat4(-t.x, -t.y, -t.z);
    let nx = Turn { cos: a.x.cos, sin: -a.x.sin };
    let ny = Turn { cos: a.y.cos, sin: -a.y.sin };
    let nz = Turn { cos: a.z.cos, sin: -a.z.sin };
    proof {
        lemma_rot_affine(a.x);
        lemma_rot_affine(a.y);
        lemma_rot_affine(a.z);
        assert(nx == a.x.neg() && ny == a.y.neg() && nz == a.z.neg());
    }
    let rx = get_rotate_x_mat4(&nx);
    let ry = get_rotate_y_mat4(&ny);
    let rz = get_rotate_z_mat4(&nz);
    proof {
        lemma_view_bounds(*a, *t);
        assert(nx == a.x.neg() && ny == a.y.neg() && nz == a.z.neg());
    }
    let zt = mul_mm4(&rz, &tm);
    let yzt = mul_mm4(&ry, &zt);
    mul_mm4(&rx, &yzt)
}


/// Largest magnitude of a coordinate of a point in view space.
pub open spec fn view_max() -> int {
    0x100_0000_0000
}

/// The angle zero.
pub open spec fn level() -> Turn {
    Turn { cos: ONE, sin: 0 }
}

/// An orientation with no rotation about any axis.
pub open spec fn upright() -> Rotation {
    Rotation { x: level(), y: level(), z: level() }
}

/// Fixed-point squared length of the cosine/sine pair of an angle.
pub open spec fn turn_norm(t: Turn) -> int {
    fmul(t.cos as int, t.cos as int) + fmul(t.sin as int, t.sin as int)
}

/// Entries of `mat_mul(a, b)` are the unclipped sums when the operands'
/// magnitudes allow it.
proof fn lemma_mm_rows(a: Mat4, b: Mat4)
    requires
        max_abs(a) * max_abs(b) <= prod_max(),
    ensures
        forall|i: int, j: int| 0 <= i < 4 && 0 <= j < 4 ==> #[trigger] mat_mul(a, b)[i][j] == mm_entry(a, b, i, j),
{
    lemma_mm_fits(a, b);
    assert forall|i: int, j: int| 0 <= i < 4 && 0 <= j < 4 implies #[trigger] mat_mul(a, b)[i][j] == mm_entry(a, b, i, j) by {
        assert(mm_entry(a, b, i, j) == mat_mul(a, b)[i][j] as int);
    }
}

/// Rotating by an angle and then by its opposite about the same axis
/// leaves the axis alone and scales the two other coordinates by the
/// squared length of the angle's cosine/sine pair; for a pair of unit
/// length, the composition is the identity and every point comes back
/// unchanged.
pub proof fn lemma_rotation_round_trip(t: Turn, p: Vec4)
    requires
        t.valid(),
        vec_max(p) <= view_max(),
    ensures
        ({
            let n = turn_norm(t) as i64;
            &&& mat_mul(rot_x(t.neg()), rot_x(t)) == [[ONE, 0, 0, 0], [0, n, 0, 0], [0, 0, n, 0], [0, 0, 0, ONE]]
            &&& mat_mul(rot_y(t.neg()), rot_y(t)) == [[n, 0, 0, 0], [0, ONE, 0, 0], [0, 0, n, 0], [0, 0, 0, ONE]]
            &&& mat_mul(rot_z(t.neg()), rot_z(t)) == [[n, 0, 0, 0], [0, n, 0, 0], [0, 0, ONE, 0], [0, 0, 0, ONE]]
        }),
        turn_norm(t) == ONE ==> {
            &&& mat_mul(rot_x(t.neg()), rot_x(t)) == ident()
            &&& mat_mul(rot_y(t.neg()), rot_y(t)) == ident()
            &&& mat_mul(rot_z(t.neg()), rot_z(t)) == ident()
            &&& mat_vec(ident(), p) == p
        },
{
    let c = t.cos as int;
    let s = t.sin as int;
    lemma_rot_affine(t);
    lemma_affine_max(rot_x(t), ONE as int, 0);
    lemma_affine_max(rot_y(t), ONE as int, 0);
    lemma_affine_max(rot_z(t), ONE as int, 0);
    lemma_affine_max(rot_x(t.neg()), ONE as int, 0);
    lemma_affine_max(rot_y(t.neg()), ONE as int, 0);
    lemma_affine_max(rot_z(t.neg()), ONE as int, 0);
    assert(max2(max2(ONE as int, 0), ONE as int) == ONE);
    assert(65536 * 65536 <= prod_max());
    lemma_mul_le(max_abs(rot_x(t.neg())), max_abs(rot_x(t)), 65536, 65536);
    lemma_mul_le(max_abs(rot_y(t.neg())), max_abs(rot_y(t)), 65536, 65536);
    lemma_mul_le(max_abs(rot_z(t.neg())), max_abs(rot_z(t)), 65536, 65536);
    lemma_mm_rows(rot_x(t.neg()), rot_x(t));
    lemma_mm_rows(rot_y(t.neg()), rot_y(t));
    lemma_mm_rows(rot_z(t.neg()), rot_z(t));
    lemma_fmul_unit(c);
    lemma_fmul_unit(s);
    lemma_fmul_unit(-s);
    lemma_fmul_unit(ONE as int);
    lemma_fmul_unit(0);
    lemma_fmul_sign(c, s);
    lemma_fmul_sign(s, s);
    lemma_fmul_sign(c, c);
    lemma_fmul_sign(s, c);
    lemma_fmul_bound(c, c, ONE as int, ONE as int);
    lemma_fmul_bound(s, s, ONE as int, ONE as int);
    assert((65536 * 65536) / 65536 == 65536int);
    assert(fmul(-s, -s) == fmul(s, s)) by {
        lemma_fmul_sign(-s, s);
    }
    let n = turn_norm(t) as i64;
    assert(mat_mul(rot_x(t.neg()), rot_x(t)) =~= [[ONE, 0, 0, 0], [0, n, 0, 0], [0, 0, n, 0], [0, 0, 0, ONE]]) by {
        assert(mat_mul(rot_x(t.neg()), rot_x(t))[0] =~= [ONE, 0, 0, 0]);
        assert(mat_mul(rot_x(t.neg()), rot_x(t))[1] =~= [0, n, 0, 0]);
        assert(mat_mul(rot_x(t.neg()), rot_x(t))[2] =~= [0, 0, n, 0]);
        assert(mat_mul(rot_x(t.neg()), rot_x(t))[3] =~= [0, 0, 0, ONE]);
    }
    assert(mat_mul(rot_y(t.neg()), rot_y(t)) =~= [[n, 0, 0, 0], [0, ONE, 0, 0], [0, 0, n, 0], [0, 0, 0, ONE]]) by {
        assert(mat_mul(rot_y(t.neg()), rot_y(t))[0] =~= [n, 0, 0, 0]);
        assert(mat_mul(rot_y(t.neg()), rot_y(t))[1] =~= [0, ONE, 0, 0]);
        assert(mat_mul(rot_y(t.neg()), rot_y(t))[2] =~= [0, 0, n, 0]);
        assert(mat_mul(rot_y(t.neg()), rot_y(t))[3] =~= [0, 0, 0, ONE]);
    }
    assert(mat_mul(rot_z(t.neg()), rot_z(t)) =~= [[n, 0, 0, 0], [0, n, 0, 0], [0, 0, ONE, 0], [0, 0, 0, ONE]]) by {
        assert(mat_mul(rot_z(t.neg()), rot_z(t))[0] =~= [n, 0, 0, 0]);
        assert(mat_mul(rot_z(t.neg()), rot_z(t))[1] =~= [0, n, 0, 0]);
        assert(mat_mul(rot_z(t.neg()), rot_z(t))[2] =~= [0, 0, ONE, 0]);
        assert(mat_mul(rot_z(t.neg()), rot_z(t))[3] =~= [0, 0, 0, ONE]);
    }
    lemma_ident_apply(p);
}

/// The identity matrix leaves every point in view space unchanged.
pub proof fn lemma_ident_apply(p: Vec4)
    requires
        vec_max(p) <= view_max(),
    ensures
        mat_vec(ident(), p) == p,
{
    lemma_vec_max(p);
    assert(coord(p, 0) == p.x && coord(p, 1) == p.y && coord(p, 2) == p.z && coord(p, 3) == p.w);
    lemma_fmul_unit(p.x as int);
    lemma_fmul_unit(p.y as int);
    lemma_fmul_unit(p.z as int);
    lemma_fmul_unit(p.w as int);
    assert(max_abs(ident()) == ONE);
    lemma_mul_le(max_abs(ident()), vec_max(p), 65536, view_max());
    lemma_mv_fits(ident(), p);
}


/// The origin of a local frame, as a point.
pub open spec fn origin() -> Vec4 {
    Vec4 { x: 0, y: 0, z: 0, w: ONE }
}

pub proof fn lemma_ident_mul(m: Mat4)
    requires
        max_abs(m) <= prod_max() / (ONE as int),
    ensures
        mat_mul(ident(), m) == m,
        mat_mul(m, ident()) == m,
{
    lemma_max_abs(m);
    assert(max_abs(ident()) == ONE);
    assert((prod_max() / 65536) * 65536 <= prod_max());
    lemma_mul_le(max_abs(ident()), max_abs(m), 65536, prod_max() / 65536);
    lemma_mul_le(max_abs(m), max_abs(ident()), prod_max() / 65536, 65536);
    lemma_mm_rows(ident(), m);
    lemma_mm_rows(m, ident());
    assert forall|i: int, j: int| 0 <= i < 4 && 0 <= j < 4 implies mm_entry(ident(), m, i, j) == m[i][j]
        && mm_entry(m, ident(), i, j) == m[i][j] by {
        lemma_fmul_unit(m[0][j] as int);
        lemma_fmul_unit(m[1][j] as int);
        lemma_fmul_unit(m[2][j] as int);
        lemma_fmul_unit(m[3][j] as int);
        lemma_fmul_unit(m[i][0] as int);
        lemma_fmul_unit(m[i][1] as int);
        lemma_fmul_unit(m[i][2] as int);
        lemma_fmul_unit(m[i][3] as int);
    }
    assert(mat_mul(ident(), m) =~= m) by {
        assert(mat_mul(ident(), m)[0] =~= m[0]);
        assert(mat_mul(ident(), m)[1] =~= m[1]);
        assert(mat_mul(ident(), m)[2] =~= m[2]);
        assert(mat_mul(ident(), m)[3] =~= m[3]);
    }
    assert(mat_mul(m, ident()) =~= m) by {
        assert(mat_mul(m, ident())[0] =~= m[0]);
        assert(mat_mul(m, ident())[1] =~= m[1]);
        assert(mat_mul(m, ident())[2] =~= m[2]);
        assert(mat_mul(m, ident())[3] =~= m[3]);
    }
}

/// Translating by `d` and then by `-d` is the identity, as a composed
/// matrix and point by point.
pub proof fn lemma_translation_inverse(d: Vec3, p: Vec4)
    requires
        coord_ok(d),
        vec_max(p) <= view_max(),
    ensures
        mat_mul(trasl((-d.x) as i64, (-d.y) as i64, (-d.z) as i64), trasl(d.x, d.y, d.z)) == ident(),
        mat_vec(trasl((-d.x) as i64, (-d.y) as i64, (-d.z) as i64), mat_vec(trasl(d.x, d.y, d.z), p)) == p,
{
    let t = trasl(d.x, d.y, d.z);
    let u = trasl((-d.x) as i64, (-d.y) as i64, (-d.z) as i64);
    let c = COORD_MAX as int;
    lemma_trasl_affine(d.x, d.y, d.z);
    lemma_trasl_affine((-d.x) as i64, (-d.y) as i64, (-d.z) as i64);
    lemma_affine_max(t, 65536, c);
    lemma_affine_max(u, 65536, c);
    assert(max2(max2(65536, c), 65536) == c);
    lemma_mul_le(max_abs(u), max_abs(t), c, c);
    assert(c * c <= prod_max());
    lemma_mm_rows(u, t);
    lemma_fmul_unit(0);
    lemma_fmul_unit(ONE as int);
    lemma_fmul_unit(d.x as int);
    lemma_fmul_unit(d.y as int);
    lemma_fmul_unit(d.z as int);
    lemma_fmul_unit(-d.x);
    lemma_fmul_unit(-d.y);
    lemma_fmul_unit(-d.z);
    assert(mat_mul(u, t) =~= ident()) by {
        assert(mat_mul(u, t)[0] =~= ident()[0]);
        assert(mat_mul(u, t)[1] =~= ident()[1]);
        assert(mat_mul(u, t)[2] =~= ident()[2]);
        assert(mat_mul(u, t)[3] =~= ident()[3]);
    }
    // point by point
    lemma_vec_max(p);
    assert(coord(p, 0) == p.x && coord(p, 1) == p.y && coord(p, 2) == p.z && coord(p, 3) == p.w);
    lemma_mul_le(max_abs(t), vec_max(p), c, view_max());
    assert(c * view_max() <= prod_max());
    lemma_mv_fits(t, p);
    let q = mat_vec(t, p);
    lemma_fmul_unit(p.x as int);
    lemma_fmul_unit(p.y as int);
    lemma_fmul_unit(p.z as int);
    lemma_fmul_unit(p.w as int);
    lemma_fmul_bound(d.x as int, p.w as int, c, view_max());
    lemma_fmul_bound(d.y as int, p.w as int, c, view_max());
    lemma_fmul_bound(d.z as int, p.w as int, c, view_max());
    assert((c * view_max()) / 65536 == 0x1_0000_0000_0000int);
    let qb = 0x2_0000_0000_0000int;
    assert(vec_max(q) <= qb);
    lemma_mul_le(max_abs(u), vec_max(q), c, qb);
    assert(16777216 * 0x2_0000_0000_0000int <= prod_max());
    lemma_mv_fits(u, q);
    lemma_fmul_unit(q.x as int);
    lemma_fmul_unit(q.y as int);
    lemma_fmul_unit(q.z as int);
    lemma_fmul_unit(q.w as int);
    lemma_fmul_sign(d.x as int, p.w as int);
    lemma_fmul_sign(d.y as int, p.w as int);
    lemma_fmul_sign(d.z as int, p.w as int);
}

/// A camera at `pos` with no rotation sees an object placed at `pos` with
/// no rotation at the origin of view space.
pub proof fn lemma_view_world_inverse(pos: Vec3)
    requires
        coord_ok(pos),
    ensures
        mat_vec(mat_mul(view_m(upright(), pos), world_m(upright(), pos)), origin()) == origin(),
{
    assert(level().neg() == level());
    assert(rot_x(level()) =~= ident()) by {
        assert(rot_x(level())[1] =~= ident()[1]);
        assert(rot_x(level())[2] =~= ident()[2]);
    }
    assert(rot_y(level()) =~= ident()) by {
        assert(rot_y(level())[0] =~= ident()[0]);
        assert(rot_y(level())[2] =~= ident()[2]);
    }
    assert(rot_z(level()) =~= ident()) by {
        assert(rot_z(level())[0] =~= ident()[0]);
        assert(rot_z(level())[1] =~= ident()[1]);
    }
    let t = trasl(pos.x, pos.y, pos.z);
    let u = trasl((-pos.x) as i64, (-pos.y) as i64, (-pos.z) as i64);
    assert(max_abs(ident()) == ONE);
    lemma_ident_mul(ident());
    lemma_trasl_affine(pos.x, pos.y, pos.z);
    lemma_trasl_affine((-pos.x) as i64, (-pos.y) as i64, (-pos.z) as i64);
    lemma_affine_max(t, 65536, COORD_MAX as int);
    lemma_affine_max(u, 65536, COORD_MAX as int);
    lemma_ident_mul(t);
    lemma_ident_mul(u);
    assert(world_m(upright(), pos) == t);
    assert(view_m(upright(), pos) == u);
    lemma_translation_inverse(pos, origin());
    lemma_ident_apply(origin());
}


/// A matrix with entries within one, applied to a point, stays within
/// four times the point's largest coordinate.
proof fn lemma_unit_apply(m: Mat4, v: Vec4)
    requires
        max_abs(m) <= ONE,
        vec_max(v) <= 0x1_0000_0000_0000,
    ensures
        max_abs(m) * vec_max(v) <= prod_max(),
        mat_vec(m, v).x == row_dot(m, 0, v),
        mat_vec(m, v).y == row_dot(m, 1, v),
        mat_vec(m, v).z == row_dot(m, 2, v),
        mat_vec(m, v).w == row_dot(m, 3, v),
        vec_max(mat_vec(m, v)) <= 4 * vec_max(v),
{
    let one = ONE as int;
    let mv = vec_max(v);
    lemma_max_abs(m);
    lemma_vec_max(v);
    lemma_mul_le(max_abs(m), mv, one, 0x1_0000_0000_0000);
    assert(65536 * 0x1_0000_0000_0000int <= prod_max());
    lemma_mv_fits(m, v);
    vstd::arithmetic::div_mod::lemma_div_by_multiple(mv, one);
    assert(mv * one == one * mv) by (nonlinear_arith);
    assert(coord(v, 0) == v.x && coord(v, 1) == v.y && coord(v, 2) == v.z && coord(v, 3) == v.w);
    assert forall|i: int| 0 <= i < 4 implies abs(#[trigger] row_dot(m, i, v)) <= 4 * mv by {
        lemma_fmul_bound(m[i][0] as int, v.x as int, one, mv);
        lemma_fmul_bound(m[i][1] as int, v.y as int, one, mv);
        lemma_fmul_bound(m[i][2] as int, v.z as int, one, mv);
        lemma_fmul_bound(m[i][3] as int, v.w as int, one, mv);
    }
    assert(abs(row_dot(m, 0, v)) <= 4 * mv);
    assert(abs(row_dot(m, 1, v)) <= 4 * mv);
    assert(abs(row_dot(m, 2, v)) <= 4 * mv);
    assert(abs(row_dot(m, 3, v)) <= 4 * mv);
}

/// Rotating a point by an angle and then by its opposite about the same
/// axis, one matrix after the other, leaves the axis coordinate and `w`
/// unchanged and gives each other coordinate `u` back within
/// `(6 |u| + 6 ONE) / ONE` parts: less than seven parts for a point
/// within a unit of the origin, less than six parts per unit beyond.
pub proof fn lemma_rotation_point_round_trip(t: Turn, p: Vec4)
    requires
        t.valid(),
        vec_max(p) <= view_max(),
    ensures
        ({
            let q = mat_vec(rot_x(t.neg()), mat_vec(rot_x(t), p));
            &&& q.x == p.x && q.w == p.w
            &&& ONE * abs(q.y - p.y) < 6 * abs(p.y as int) + 6 * ONE
            &&& ONE * abs(q.z - p.z) < 6 * abs(p.z as int) + 6 * ONE
        }),
        ({
            let q = mat_vec(rot_y(t.neg()), mat_vec(rot_y(t), p));
            &&& q.y == p.y && q.w == p.w
            &&& ONE * abs(q.x - p.x) < 6 * abs(p.x as int) + 6 * ONE
            &&& ONE * abs(q.z - p.z) < 6 * abs(p.z as int) + 6 * ONE
        }),
        ({
            let q = mat_vec(rot_z(t.neg()), mat_vec(rot_z(t), p));
            &&& q.z == p.z && q.w == p.w
            &&& ONE * abs(q.x - p.x) < 6 * abs(p.x as int) + 6 * ONE
            &&& ONE * abs(q.y - p.y) < 6 * abs(p.y as int) + 6 * ONE
        }),
{
    let c = t.cos as int;
    let s = t.sin as int;
    lemma_rot_affine(t);
    lemma_affine_max(rot_x(t), ONE as int, 0);
    lemma_affine_max(rot_y(t), ONE as int, 0);
    lemma_affine_max(rot_z(t), ONE as int, 0);
    lemma_affine_max(rot_x(t.neg()), ONE as int, 0);
    lemma_affine_max(rot_y(t.neg()), ONE as int, 0);
    lemma_affine_max(rot_z(t.neg()), ONE as int, 0);
    assert(max2(max2(ONE as int, 0), ONE as int) == ONE);
    lemma_fmul_sign(-s, s);
    lemma_fmul_sign(s, s);
    lemma_fmul_unit(0);
    lemma_fmul_unit(ONE as int);
    lemma_fmul_unit(p.x as int);
    lemma_fmul_unit(p.y as int);
    lemma_fmul_unit(p.z as int);
    lemma_fmul_unit(p.w as int);
    // about x
    let px = mat_vec(rot_x(t), p);
    lemma_unit_apply(rot_x(t), p);
    lemma_unit_apply(rot_x(t.neg()), px);
    lemma_fmul_unit(px.x as int);
    lemma_fmul_unit(px.y as int);
    lemma_fmul_unit(px.z as int);
    lemma_fmul_unit(px.w as int);
    lemma_pair_round_trip(c, s, p.y as int, p.z as int);
    // about y
    let py = mat_vec(rot_y(t), p);
    lemma_unit_apply(rot_y(t), p);
    lemma_unit_apply(rot_y(t.neg()), py);
    lemma_fmul_unit(py.x as int);
    lemma_fmul_unit(py.y as int);
    lemma_fmul_unit(py.z as int);
    lemma_fmul_unit(py.w as int);
    lemma_pair_round_trip(c, -s, p.x as int, p.z as int);
    // about z
    let pz = mat_vec(rot_z(t), p);
    lemma_unit_apply(rot_z(t), p);
    lemma_unit_apply(rot_z(t.neg()), pz);
    lemma_fmul_unit(pz.x as int);
    lemma_fmul_unit(pz.y as int);
    lemma_fmul_unit(pz.z as int);
    lemma_fmul_unit(pz.w as int);
    lemma_pair_round_trip(c, s, p.x as int, p.y as int);
}

} // verus!
