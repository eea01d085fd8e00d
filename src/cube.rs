//! Cubes: a point cloud with a pose, moved by bounded bouncing motion.
use vstd::prelude::*;
use crate::fixed::{abs, COORD_MAX, ONE};
use crate::linalg::Mat4;
use crate::linalg::{affine, apply, coord_ok, get_view_matrix, get_world_m, lemma_affine_apply, lemma_level_valid,
    lemma_view_bounds, lemma_view_world_bounds, lemma_world_bounds, mat_mul, mat_vec, max2, mul_mm4,
    upright, vec_max, view_m, view_max, world_m, Color, Point, Rotation, Turn, Vec3, Vec4};

verus! {

/// Largest side of a cube, in units.
pub const MAX_SIDE: u64 = 256;

/// A rigid cube: its point cloud around its own centre, its pose and its
/// linear and angular velocity. Lengths are fixed-point, speeds are
/// fixed-point per millisecond, angles are fixed-point radians.
pub struct Cube {
    /// Side, in units; also the number of points along an edge.
    pub l: u64,
    pub pos: Vec3,
    pub v: Vec3,
    /// Angles about the x, y and z axes.
    pub a: Vec3,
    /// Angular velocity about each axis.
    pub alpha: Vec3,
    /// The point cloud, in the cube's own frame.
    pub points: Vec<Point>,
}

/// Glyph of each of the six faces.
pub open spec fn face_glyph(f: int) -> char {
    if f == 0 {
        '.'
    } else if f == 1 {
        '$'
    } else if f == 2 {
        '^'
    } else if f == 3 {
        '~'
    } else if f == 4 {
        '#'
    } else {
        '!'
    }
}

/// Point `(a, b)` of the `l` by `l` grid of face `f`: the grid runs from
/// `-(l / 2)` along two axes, the face lies at half the side on the third.
pub open spec fn grid_point(f: int, color: Color, l: int, a: int, b: int) -> Point {
    let u = ((a - l / 2) * ONE) as i64;
    let v = ((b - l / 2) * ONE) as i64;
    let h = ((l * ONE) / 2) as i64;
    let nh = (-((l * ONE) / 2)) as i64;
    let pos = if f == 0 {
        Vec4 { x: u, y: v, z: h, w: ONE }
    } else if f == 1 {
        Vec4 { x: u, y: v, z: nh, w: ONE }
    } else if f == 2 {
        Vec4 { x: h, y: v, z: u, w: ONE }
    } else if f == 3 {
        Vec4 { x: nh, y: v, z: u, w: ONE }
    } else if f == 4 {
        Vec4 { x: v, y: h, z: u, w: ONE }
    } else {
        Vec4 { x: v, y: nh, z: u, w: ONE }
    };
    Point { pos, c: face_glyph(f), color }
}

/// The `l * l` points of face `f`, row by row.
pub open spec fn face_seq(f: int, color: Color, l: int) -> Seq<Point> {
    Seq::new((l * l) as nat, |n: int| grid_point(f, color, l, n / l, n % l))
}

/// The point cloud of a cube of side `l`: front, back, right, left, top
/// and bottom faces, face `f` drawn in `colors[f]`.
pub open spec fn cloud(colors: [Color; 6], l: int) -> Seq<Point> {
    face_seq(0, colors[0], l) + face_seq(1, colors[1], l) + face_seq(2, colors[2], l) + face_seq(
        3,
        colors[3],
        l,
    ) + face_seq(4, colors[4], l) + face_seq(5, colors[5], l)
}

/// A point of a cube's own frame: within the coordinate range, `w` one.
pub open spec fn local_ok(p: Point) -> bool {
    &&& abs(p.pos.x as int) <= COORD_MAX
    &&& abs(p.pos.y as int) <= COORD_MAX
    &&& abs(p.pos.z as int) <= COORD_MAX
    &&& p.pos.w == ONE
}

impl Cube {
    /// A cube whose side and points the library can transform.
    pub open spec fn wf(&self) -> bool {
        &&& 1 <= self.l <= MAX_SIDE
        &&& coord_ok(self.pos)
        &&& forall|k: int| 0 <= k < self.points@.len() ==> local_ok(#[trigger] self.points@[k])
    }
}

fn grid_point_exec(f: usize, color: Color, l: u64, a: u64, b: u64) -> (r: Point)
    requires
        f < 6,
        1 <= l <= MAX_SIDE,
        a < l,
        b < l,
    ensures
        r == grid_point(f as int, color, l as int, a as int, b as int),
        local_ok(r),
{
    let u: i64 = (a as i64 - (l / 2) as i64) * ONE;
    let v: i64 = (b as i64 - (l / 2) as i64) * ONE;
    let h: i64 = (l as i64) * ONE / 2;
    let nh: i64 = -h;
    let pos = if f == 0 {
        Vec4 { x: u, y: v, z: h, w: ONE }
    } else if f == 1 {
        Vec4 { x: u, y: v, z: nh, w: ONE }
    } else if f == 2 {
        Vec4 { x: h, y: v, z: u, w: ONE }
    } else if f == 3 {
        Vec4 { x: nh, y: v, z: u, w: ONE }
    } else if f == 4 {
        Vec4 { x: v, y: h, z: u, w: ONE }
    } else {
        Vec4 { x: v, y: nh, z: u, w: ONE }
    };
    let c = if f == 0 {
        '.'
    } else if f == 1 {
        '$'
    } else if f == 2 {
        '^'
    } else if f == 3 {
        '~'
    } else if f == 4 {
        '#'
    } else {
        '!'
    };
    Point { pos, c, color }
}

/// Appends the points of face `f`.
fn push_face(res: &mut Vec<Point>, f: usize, color: Color, l: u64)
    requires
        f < 6,
        1 <= l <= MAX_SIDE,
    ensures
        final(res)@ == old(res)@ + face_seq(f as int, color, l as int),
{
    let ghost start = res@;
    let ghost face = face_seq(f as int, color, l as int);
    let mut a: u64 = 0;
    while a < l
        invariant
            1 <= l <= MAX_SIDE,
            f < 6,
            a <= l,
            face == face_seq(f as int, color, l as int),
            res@ == start + face.take(a * l),
        decreases l - a,
    {
        let mut b: u64 = 0;
        while b < l
            invariant
                1 <= l <= MAX_SIDE,
                f < 6,
                a < l,
                b <= l,
                face == face_seq(f as int, color, l as int),
                res@ == start + face.take(a * l + b),
            decreases l - b,
        {
            let p = grid_point_exec(f, color, l, a, b);
            proof {
                let n = a * l + b;
                assert(n < l * l) by (nonlinear_arith)
                    requires
                        a < l,
                        b < l,
                        n == a * l + b,
                ;
                vstd::arithmetic::div_mod::lemma_fundamental_div_mod_converse(n, l as int, a as int, b as int);
                assert(face[n] == p);
                assert(face.take(n + 1) =~= face.take(n).push(p));
            }
            res.push(p);
            b = b + 1;
        }
        proof {
            assert(a * l + l == (a + 1) * l) by (nonlinear_arith);
        }
        a = a + 1;
    }
    proof {
        assert(face.take(l * l) =~= face);
    }
}

impl Cube {
    /// A cube of side `l` at pose `(pos, a)` with velocities `v` and
    /// `alpha`, face `f` of its cloud drawn in `colors[f]`.
    pub fn new_colors(colors: [Color; 6], l: u64, pos: Vec3, v: Vec3, a: Vec3, alpha: Vec3) -> (r: Cube)
        requires
            1 <= l <= MAX_SIDE,
            coord_ok(pos),
        ensures
            r.points@ == cloud(colors, l as int),
            r.l == l,
            r.pos == pos,
            r.v == v,
            r.a == a,
            r.alpha == alpha,
            r.wf(),
    {
        let mut res: Vec<Point> = Vec::new();
        push_face(&mut res, 0, colors[0], l);
        push_face(&mut res, 1, colors[1], l);
        push_face(&mut res, 2, colors[2], l);
        push_face(&mut res, 3, colors[3], l);
        push_face(&mut res, 4, colors[4], l);
        push_face(&mut res, 5, colors[5], l);
        proof {
            assert(res@ =~= cloud(colors, l as int));
            assert forall|k: int| 0 <= k < res@.len() implies local_ok(#[trigger] res@[k]) by {
                lemma_cloud_local(colors, l as int, k);
            }
        }
        Cube { l, pos, v, a, alpha, points: res }
    }

    /// A cube drawn in one colour.
    pub fn new(color: Color, l: u64, pos: Vec3, v: Vec3, a: Vec3, alpha: Vec3) -> (r: Cube)
        requires
            1 <= l <= MAX_SIDE,
            coord_ok(pos),
        ensures
            r.points@ == cloud([color, color, color, color, color, color], l as int),
            r.l == l,
            r.pos == pos,
            r.v == v,
            r.a == a,
            r.alpha == alpha,
            r.wf(),
    {
        Cube::new_colors([color, color, color, color, color, color], l, pos, v, a, alpha)
    }
}

proof fn lemma_grid_local(f: int, color: Color, l: int, a: int, b: int)
    requires
        0 <= f < 6,
        1 <= l <= MAX_SIDE,
        0 <= a < l,
        0 <= b < l,
    ensures
        local_ok(grid_point(f, color, l, a, b)),
{
}

proof fn lemma_cloud_local(colors: [Color; 6], l: int, k: int)
    requires
        1 <= l <= MAX_SIDE,
        0 <= k < cloud(colors, l).len(),
    ensures
        local_ok(cloud(colors, l)[k]),
{
    let m = l * l;
    assert(m > 0) by (nonlinear_arith)
        requires
            l >= 1,
            m == l * l,
    ;
    let f = k / m;
    let n = k % m;
    assert(cloud(colors, l).len() == 6 * m);
    vstd::arithmetic::div_mod::lemma_fundamental_div_mod(k, m);
    vstd::arithmetic::div_mod::lemma_mod_pos_bound(k, m);
    assert(0 <= f < 6) by (nonlinear_arith)
        requires
            k == m * f + n,
            0 <= n < m,
            0 <= k < 6 * m,
    ;
    assert(0 <= n / l < l) by {
        vstd::arithmetic::div_mod::lemma_div_pos_is_pos(n, l);
        vstd::arithmetic::div_mod::lemma_div_is_ordered(n, l * l - 1, l);
        vstd::arithmetic::div_mod::lemma_div_by_multiple(l, l);
        assert((l * l - 1) / l < l) by {
            vstd::arithmetic::div_mod::lemma_fundamental_div_mod(l * l - 1, l);
            vstd::arithmetic::div_mod::lemma_mod_pos_bound(l * l - 1, l);
            assert((l * l - 1) / l < l) by (nonlinear_arith)
                requires
                    l * l - 1 == l * ((l * l - 1) / l) + (l * l - 1) % l,
                    0 <= (l * l - 1) % l < l,
                    l >= 1,
            ;
        }
    }
    vstd::arithmetic::div_mod::lemma_mod_pos_bound(n, l);
    lemma_grid_local(f, colors[f], l, n / l, n % l);
    let s0 = face_seq(0, colors[0], l);
    let s1 = face_seq(1, colors[1], l);
    let s2 = face_seq(2, colors[2], l);
    let s3 = face_seq(3, colors[3], l);
    let s4 = face_seq(4, colors[4], l);
    let s5 = face_seq(5, colors[5], l);
    assert(k == m * f + n);
    assert(s0.len() == m && s1.len() == m && s2.len() == m && s3.len() == m && s4.len() == m && s5.len() == m);
    assert(cloud(colors, l) == s0 + s1 + s2 + s3 + s4 + s5);
    assert(cloud(colors, l)[k] == face_seq(f, colors[f], l)[n]) by {
        if f == 0 {
            assert(k == n) by (nonlinear_arith)
                requires
                    k == m * f + n,
                    f == 0,
            ;
        } else if f == 1 {
            assert(k == m + n) by (nonlinear_arith)
                requires
                    k == m * f + n,
                    f == 1,
            ;
        } else if f == 2 {
            assert(k == 2 * m + n) by (nonlinear_arith)
                requires
                    k == m * f + n,
                    f == 2,
            ;
        } else if f == 3 {
            assert(k == 3 * m + n) by (nonlinear_arith)
                requires
                    k == m * f + n,
                    f == 3,
            ;
        } else if f == 4 {
            assert(k == 4 * m + n) by (nonlinear_arith)
                requires
                    k == m * f + n,
                    f == 4,
            ;
        } else {
            assert(k == 5 * m + n) by (nonlinear_arith)
                requires
                    k == m * f + n,
                    f == 5,
            ;
        }
    }
}


/// Where a coordinate moving at `v` is after `dt` milliseconds.
pub open spec fn ahead(p: i64, v: i64, dt: int) -> int {
    p + v * dt
}

/// Squared distance between the positions two cubes reach after `dt`.
pub open spec fn dist2_ahead(a: Cube, b: Cube, dt: int) -> int {
    let dx = ahead(a.pos.x, a.v.x, dt) - ahead(b.pos.x, b.v.x, dt);
    let dy = ahead(a.pos.y, a.v.y, dt) - ahead(b.pos.y, b.v.y, dt);
    let dz = ahead(a.pos.z, a.v.z, dt) - ahead(b.pos.z, b.v.z, dt);
    dx * dx + dy * dy + dz * dz
}

/// `b` is another cube than `a` (it stands elsewhere now) and, after
/// `dt`, their centres are closer than the sum of their half face
/// diagonals: `d < (la + lb) * sqrt(2) / 2`, that is `2 d^2 < (la + lb)^2`.
pub open spec fn collides(a: Cube, b: Cube, dt: int) -> bool {
    let s = (a.l + b.l) * ONE;
    a.pos != b.pos && 2 * dist2_ahead(a, b, dt) < s * s
}

/// Some cube of `others` collides with `c` after `dt`.
pub open spec fn collides_any(c: Cube, others: Seq<Cube>, dt: int) -> bool {
    exists|k: int| 0 <= k < others.len() && collides(c, #[trigger] others[k], dt)
}

/// A cube whose motion over `dt` milliseconds stays within the
/// coordinate range.
pub open spec fn step_ok(c: Cube, dt: int) -> bool {
    &&& 1 <= c.l <= MAX_SIDE
    &&& 0 <= dt
    &&& coord_ok(c.pos)
    &&& coord_ok(c.v)
    &&& abs(c.v.x * dt) <= COORD_MAX
    &&& abs(c.v.y * dt) <= COORD_MAX
    &&& abs(c.v.z * dt) <= COORD_MAX
}

/// The turning over `dt` keeps every angle within `i64`.
pub open spec fn turn_ok(c: Cube, dt: int) -> bool {
    &&& i64::MIN <= c.alpha.x * dt <= i64::MAX
    &&& i64::MIN <= c.alpha.y * dt <= i64::MAX
    &&& i64::MIN <= c.alpha.z * dt <= i64::MAX
    &&& i64::MIN <= c.a.x + c.alpha.x * dt <= i64::MAX
    &&& i64::MIN <= c.a.y + c.alpha.y * dt <= i64::MAX
    &&& i64::MIN <= c.a.z + c.alpha.z * dt <= i64::MAX
}

/// One axis of a tick: position and velocity after `dt`. The velocity
/// flips, and the position stays, when the move would leave
/// `[-bound, bound]` or a collision is coming.
pub open spec fn bounce(p: i64, v: i64, dt: int, bound: i64, hit: bool) -> (i64, i64) {
    if abs(ahead(p, v, dt)) > bound || hit {
        (p, (-v) as i64)
    } else {
        (ahead(p, v, dt) as i64, v)
    }
}

/// World bounds: positive, within the coordinate range.
pub open spec fn bounds_ok(b: Vec3) -> bool {
    0 < b.x <= COORD_MAX && 0 < b.y <= COORD_MAX && 0 < b.z <= COORD_MAX
}

pub open spec fn in_bounds(p: Vec3, b: Vec3) -> bool {
    abs(p.x as int) <= b.x && abs(p.y as int) <= b.y && abs(p.z as int) <= b.z
}

/// The cube after a tick of `dt` milliseconds.
pub open spec fn ticked(c: Cube, hit: bool, dt: int, b: Vec3) -> Cube {
    let (px, vx) = bounce(c.pos.x, c.v.x, dt, b.x, hit);
    let (py, vy) = bounce(c.pos.y, c.v.y, dt, b.y, hit);
    let (pz, vz) = bounce(c.pos.z, c.v.z, dt, b.z, hit);
    Cube {
        a: Vec3 {
            x: (c.a.x + c.alpha.x * dt) as i64,
            y: (c.a.y + c.alpha.y * dt) as i64,
            z: (c.a.z + c.alpha.z * dt) as i64,
        },
        pos: Vec3 { x: px, y: py, z: pz },
        v: Vec3 { x: vx, y: vy, z: vz },
        ..c
    }
}

fn bounce_axis(p: i64, v: i64, dt: i64, bound: i64, hit: bool) -> (r: (i64, i64))
    requires
        abs(p as int) <= COORD_MAX,
        abs(v as int) <= COORD_MAX,
        abs(v * dt) <= COORD_MAX,
    ensures
        r == bounce(p, v, dt as int, bound, hit),
{
    let next: i64 = p + v * dt;
    let far = if next < 0 { -next > bound } else { next > bound };
    if far || hit {
        (p, -v)
    } else {
        (next, v)
    }
}

impl Cube {
    /// Whether some cube of `others` standing elsewhere comes, after `dt`
    /// milliseconds of motion, closer to this one than the sum of their
    /// half face diagonals.
    pub fn will_collide(&self, others: &Vec<Cube>, dt: i64) -> (r: bool)
        requires
            step_ok(*self, dt as int),
            forall|k: int| 0 <= k < others@.len() ==> step_ok(#[trigger] others@[k], dt as int),
        ensures
            r == collides_any(*self, others@, dt as int),
    {
        let mut hit = false;
        let mut i: usize = 0;
        while i < others.len()
            invariant
                i <= others@.len(),
                step_ok(*self, dt as int),
                forall|k: int| 0 <= k < others@.len() ==> step_ok(#[trigger] others@[k], dt as int),
                hit == exists|k: int| 0 <= k < i && collides(*self, #[trigger] others@[k], dt as int),
            decreases others@.len() - i,
        {
            let other = &others[i];
            if self.pos != other.pos {
                let dx: i64 = (self.pos.x + self.v.x * dt) - (other.pos.x + other.v.x * dt);
                let dy: i64 = (self.pos.y + self.v.y * dt) - (other.pos.y + other.v.y * dt);
                let dz: i64 = (self.pos.z + self.v.z * dt) - (other.pos.z + other.v.z * dt);
                proof {
                    lemma_sq_bound(dx as int);
                    lemma_sq_bound(dy as int);
                    lemma_sq_bound(dz as int);
                }
                let d2: i64 = dx * dx + dy * dy + dz * dz;
                let s: i64 = (self.l as i64 + other.l as i64) * ONE;
                proof {
                    assert(s * s <= 0x4_0000_0000_0000) by (nonlinear_arith)
                        requires
                            0 <= s <= 0x200_0000,
                    ;
                }
                if 2 * d2 < s * s {
                    hit = true;
                }
            }
            i = i + 1;
        }
        hit
    }

    /// Advances the cube by `dt` milliseconds: the angles turn; on each
    /// axis the velocity flips, and the position stays, when the move
    /// would leave the world bounds or `will_collide` is set; else the
    /// position moves.
    pub fn tick(&mut self, will_collide: bool, dt: i64, bounds: &Vec3)
        requires
            step_ok(*old(self), dt as int),
            turn_ok(*old(self), dt as int),
            bounds_ok(*bounds),
        ensures
            *final(self) == ticked(*old(self), will_collide, dt as int, *bounds),
            in_bounds(old(self).pos, *bounds) ==> in_bounds(final(self).pos, *bounds),
            old(self).wf() ==> final(self).wf(),
    {
        self.a.x = self.a.x + self.alpha.x * dt;
        self.a.y = self.a.y + self.alpha.y * dt;
        self.a.z = self.a.z + self.alpha.z * dt;
        let (px, vx) = bounce_axis(self.pos.x, self.v.x, dt, bounds.x, will_collide);
        let (py, vy) = bounce_axis(self.pos.y, self.v.y, dt, bounds.y, will_collide);
        let (pz, vz) = bounce_axis(self.pos.z, self.v.z, dt, bounds.z, will_collide);
        self.pos = Vec3 { x: px, y: py, z: pz };
        self.v = Vec3 { x: vx, y: vy, z: vz };
    }
}

proof fn lemma_sq_bound(d: int)
    requires
        abs(d) <= 0x400_0000,
    ensures
        0 <= d * d <= 0x10_0000_0000_0000,
{
    assert(0 <= d * d <= 0x10_0000_0000_0000) by (nonlinear_arith)
        requires
            -0x400_0000 <= d <= 0x400_0000,
    ;
}

/// Advances every cube by `dt` milliseconds. Collisions are predicted on
/// the cubes as they stand before any of them moves.
pub fn advance(cubes: &mut Vec<Cube>, dt: i64, bounds: &Vec3)
    requires
        bounds_ok(*bounds),
        forall|k: int| 0 <= k < old(cubes)@.len() ==> step_ok(#[trigger] old(cubes)@[k], dt as int) && turn_ok(
            old(cubes)@[k],
            dt as int,
        ),
    ensures
        final(cubes)@.len() == old(cubes)@.len(),
        forall|k: int|
            0 <= k < old(cubes)@.len() ==> #[trigger] final(cubes)@[k] == ticked(
                old(cubes)@[k],
                collides_any(old(cubes)@[k], old(cubes)@, dt as int),
                dt as int,
                *bounds,
            ),
        forall|k: int| 0 <= k < old(cubes)@.len() ==> old(cubes)@[k].wf() ==> (#[trigger] final(cubes)@[k]).wf(),
        forall|k: int|
            0 <= k < old(cubes)@.len() ==> in_bounds(old(cubes)@[k].pos, *bounds) ==> in_bounds(
                (#[trigger] final(cubes)@[k]).pos,
                *bounds,
            ),
{
    let ghost before = cubes@;
    let mut hits: Vec<bool> = Vec::new();
    let mut i: usize = 0;
    while i < cubes.len()
        invariant
            i <= cubes@.len(),
            cubes@ == before,
            hits@.len() == i,
            forall|k: int| 0 <= k < before.len() ==> step_ok(#[trigger] before[k], dt as int),
            forall|k: int| 0 <= k < i ==> #[trigger] hits@[k] == collides_any(before[k], before, dt as int),
        decreases cubes@.len() - i,
    {
        let h = cubes[i].will_collide(cubes, dt);
        hits.push(h);
        i = i + 1;
    }
    let mut j: usize = 0;
    while j < cubes.len()
        invariant
            j <= cubes@.len(),
            cubes@.len() == before.len(),
            hits@.len() == before.len(),
            bounds_ok(*bounds),
            forall|k: int| 0 <= k < before.len() ==> step_ok(#[trigger] before[k], dt as int) && turn_ok(before[k], dt as int),
            forall|k: int| 0 <= k < before.len() ==> #[trigger] hits@[k] == collides_any(before[k], before, dt as int),
            forall|k: int| 0 <= k < j ==> #[trigger] cubes@[k] == ticked(before[k], hits@[k], dt as int, *bounds),
            forall|k: int| 0 <= k < j ==> before[k].wf() ==> (#[trigger] cubes@[k]).wf(),
            forall|k: int| 0 <= k < j ==> in_bounds(before[k].pos, *bounds) ==> in_bounds((#[trigger] cubes@[k]).pos, *bounds),
            forall|k: int| j <= k < before.len() ==> #[trigger] cubes@[k] == before[k],
        decreases cubes@.len() - j,
    {
        cubes[j].tick(hits[j], dt, bounds);
        j = j + 1;
    }
}


/// Where the camera stands: on the z axis, `cam_dist` from the origin.
pub open spec fn camera_at(cam_dist: i64) -> Vec3 {
    Vec3 { x: 0, y: 0, z: cam_dist }
}

/// Model-to-view matrix of a cube at `pos` with orientation `orient`,
/// seen by an unrotated camera at `camera_at(cam_dist)`.
pub open spec fn model_view(orient: Rotation, pos: Vec3, cam_dist: i64) -> Mat4 {
    mat_mul(view_m(upright(), camera_at(cam_dist)), world_m(orient, pos))
}

/// The points of `c`, in view space.
pub open spec fn view_points(c: Cube, orient: Rotation, cam_dist: i64) -> Seq<Point> {
    Seq::new(
        c.points@.len(),
        |k: int|
            Point { pos: mat_vec(model_view(orient, c.pos, cam_dist), c.points@[k].pos), ..c.points@[k] },
    )
}

/// The points of all cubes in view space, cube after cube.
pub open spec fn scene(cubes: Seq<Cube>, orients: Seq<Rotation>, cam_dist: i64) -> Seq<Point> {
    Seq::new(cubes.len(), |i: int| view_points(cubes[i], orients[i], cam_dist)).flatten()
}

impl Cube {
    /// The cloud placed in the world at the cube's pose, `orient` giving
    /// the cosine and sine of its angles, then seen from the camera.
    pub fn roto_transl(&self, orient: &Rotation, cam_dist: i64) -> (r: Vec<Point>)
        requires
            self.wf(),
            orient.valid(),
            abs(cam_dist as int) <= COORD_MAX,
        ensures
            r@ == view_points(*self, *orient, cam_dist),
            forall|k: int| 0 <= k < r@.len() ==> vec_max(#[trigger] r@[k].pos) <= view_max(),
    {
        let level = Turn { cos: ONE, sin: 0 };
        let up = Rotation { x: level, y: level, z: level };
        let cam = Vec3 { x: 0, y: 0, z: cam_dist };
        proof {
            lemma_level_valid();
            assert(up == upright());
        }
        let w = get_world_m(orient, &self.pos);
        let v = get_view_matrix(&up, &cam);
        proof {
            assert(up == upright());
            lemma_view_world_bounds(v, w);
        }
        let vw = mul_mm4(&v, &w);
        let mut res: Vec<Point> = Vec::new();
        let mut k: usize = 0;
        while k < self.points.len()
            invariant
                k <= self.points@.len(),
                self.wf(),
                vw == model_view(*orient, self.pos, cam_dist),
                affine(vw, 2187 * ONE, 108 * COORD_MAX),
                res@ == view_points(*self, *orient, cam_dist).take(k as int),
                forall|m: int| 0 <= m < res@.len() ==> vec_max(#[trigger] res@[m].pos) <= view_max(),
            decreases self.points@.len() - k,
        {
            let p = &self.points[k];
            proof {
                assert(local_ok(self.points@[k as int]));
                assert(max2(max2(143327232, 1811939328), 65536) == 1811939328);
                assert(max2(16777216, 65536) == 16777216);
                assert(1811939328 * 16777216 <= 0x1000_0000_0000_0000_0000int);
                lemma_affine_apply(vw, 143327232, 1811939328, p.pos, 16777216);
                assert((143327232 * 16777216) / 65536 == 36691771392int);
            }
            let q = apply(&vw, p);
            proof {
                assert(vec_max(q.pos) <= view_max());
                assert(view_points(*self, *orient, cam_dist).take(k + 1) =~= view_points(*self, *orient, cam_dist).take(k as int).push(q));
            }
            res.push(q);
            k = k + 1;
        }
        proof {
            assert(view_points(*self, *orient, cam_dist).take(k as int) =~= view_points(*self, *orient, cam_dist));
        }
        res
    }
}

/// The points of all cubes in view space, cube after cube; `orients[i]`
/// gives the cosine and sine of the angles of `cubes[i]`.
pub fn scene_points(cubes: &Vec<Cube>, orients: &Vec<Rotation>, cam_dist: i64) -> (r: Vec<Point>)
    requires
        orients@.len() == cubes@.len(),
        forall|i: int| 0 <= i < cubes@.len() ==> (#[trigger] cubes@[i]).wf(),
        forall|i: int| 0 <= i < orients@.len() ==> (#[trigger] orients@[i]).valid(),
        abs(cam_dist as int) <= COORD_MAX,
    ensures
        r@ == scene(cubes@, orients@, cam_dist),
        forall|k: int| 0 <= k < r@.len() ==> vec_max(#[trigger] r@[k].pos) <= view_max(),
{
    let ghost parts = Seq::new(cubes@.len(), |i: int| view_points(cubes@[i], orients@[i], cam_dist));
    let mut res: Vec<Point> = Vec::new();
    let mut i: usize = 0;
    while i < cubes.len()
        invariant
            i <= cubes@.len(),
            orients@.len() == cubes@.len(),
            forall|j: int| 0 <= j < cubes@.len() ==> (#[trigger] cubes@[j]).wf(),
            forall|j: int| 0 <= j < orients@.len() ==> (#[trigger] orients@[j]).valid(),
            abs(cam_dist as int) <= COORD_MAX,
            parts == Seq::new(cubes@.len(), |j: int| view_points(cubes@[j], orients@[j], cam_dist)),
            res@ == parts.take(i as int).flatten(),
            forall|k: int| 0 <= k < res@.len() ==> vec_max(#[trigger] res@[k].pos) <= view_max(),
        decreases cubes@.len() - i,
    {
        let mut pts = cubes[i].roto_transl(&orients[i], cam_dist);
        proof {
            assert(parts.take(i + 1) =~= parts.take(i as int).push(pts@));
            parts.take(i as int).lemma_flatten_push(pts@);
        }
        let ghost before = res@;
        let ghost added = pts@;
        res.append(&mut pts);
        proof {
            assert(res@ == before + added);
            assert forall|k: int| 0 <= k < res@.len() implies vec_max(#[trigger] res@[k].pos) <= view_max() by {
                if k >= before.len() {
                    assert(res@[k] == added[k - before.len()]);
                } else {
                    assert(res@[k] == before[k]);
                }
            }
        }
        i = i + 1;
    }
    proof {
        assert(parts.take(i as int) =~= parts);
    }
    res
}


/// The collision test is symmetric: `a` sees `b` coming exactly when `b`
/// sees `a` coming, alone or in one-element lists.
pub proof fn lemma_collision_symmetry(a: Cube, b: Cube, dt: int)
    ensures
        collides(a, b, dt) == collides(b, a, dt),
        collides_any(a, seq![b], dt) == collides_any(b, seq![a], dt),
{
    let dx = ahead(a.pos.x, a.v.x, dt) - ahead(b.pos.x, b.v.x, dt);
    let dy = ahead(a.pos.y, a.v.y, dt) - ahead(b.pos.y, b.v.y, dt);
    let dz = ahead(a.pos.z, a.v.z, dt) - ahead(b.pos.z, b.v.z, dt);
    assert(dx * dx == (-dx) * (-dx) && dy * dy == (-dy) * (-dy) && dz * dz == (-dz) * (-dz)) by (nonlinear_arith);
    assert(dist2_ahead(a, b, dt) == dist2_ahead(b, a, dt));
    if collides_any(a, seq![b], dt) {
        assert(collides(b, seq![a][0], dt));
    }
    if collides_any(b, seq![a], dt) {
        assert(collides(a, seq![b][0], dt));
    }
}


fn within(x: i128, lo: i128, hi: i128) -> (r: bool)
    ensures
        r == (lo <= x <= hi),
{
    lo <= x && x <= hi
}

fn axis_ok(p: i64, v: i64, dt: i64) -> (r: bool)
    requires
        0 <= dt,
    ensures
        r == (abs(p as int) <= COORD_MAX && abs(v as int) <= COORD_MAX && abs(v * dt) <= COORD_MAX),
{
    let c = COORD_MAX as i128;
    if !within(p as i128, -c, c) || !within(v as i128, -c, c) {
        return false;
    }
    proof {
        assert(abs(v * dt) <= COORD_MAX * dt) by (nonlinear_arith)
            requires
                abs(v as int) <= COORD_MAX,
                dt >= 0,
        ;
        assert(COORD_MAX * dt <= COORD_MAX * i64::MAX) by (nonlinear_arith)
            requires
                0 <= dt <= i64::MAX,
        ;
    }
    within(v as i128 * dt as i128, -c, c)
}

fn turn_axis_ok(a: i64, alpha: i64, dt: i64) -> (r: bool)
    ensures
        r == (i64::MIN <= alpha * dt <= i64::MAX && i64::MIN <= a + alpha * dt <= i64::MAX),
{
    proof {
        assert(abs(alpha * dt) <= 0x4000_0000_0000_0000_0000_0000_0000_0000) by (nonlinear_arith)
            requires
                i64::MIN <= alpha <= i64::MAX,
                i64::MIN <= dt <= i64::MAX,
        ;
    }
    let t = alpha as i128 * dt as i128;
    within(t, i64::MIN as i128, i64::MAX as i128) && within(a as i128 + t, i64::MIN as i128, i64::MAX as i128)
}

/// Whether every cube can be advanced by `dt` milliseconds within the
/// ranges of the library.
pub fn can_advance(cubes: &Vec<Cube>, dt: i64) -> (r: bool)
    ensures
        r == forall|k: int| 0 <= k < cubes@.len() ==> step_ok(#[trigger] cubes@[k], dt as int) && turn_ok(
            cubes@[k],
            dt as int,
        ),
{
    if dt < 0 {
        proof {
            if cubes@.len() > 0 {
                assert(!step_ok(cubes@[0], dt as int));
            }
        }
        return cubes.len() == 0;
    }
    let mut i: usize = 0;
    while i < cubes.len()
        invariant
            0 <= dt,
            i <= cubes@.len(),
            forall|k: int| 0 <= k < i ==> step_ok(#[trigger] cubes@[k], dt as int) && turn_ok(cubes@[k], dt as int),
        decreases cubes@.len() - i,
    {
        let c = &cubes[i];
        let ok = 1 <= c.l && c.l <= MAX_SIDE && axis_ok(c.pos.x, c.v.x, dt) && axis_ok(c.pos.y, c.v.y, dt)
            && axis_ok(c.pos.z, c.v.z, dt) && turn_axis_ok(c.a.x, c.alpha.x, dt) && turn_axis_ok(
            c.a.y,
            c.alpha.y,
            dt,
        ) && turn_axis_ok(c.a.z, c.alpha.z, dt);
        if !ok {
            return false;
        }
        i = i + 1;
    }
    true
}

} // verus!
