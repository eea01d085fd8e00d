//! Random placement of the cubes at start.
use vstd::prelude::*;
use rand::Rng;
use crate::cube::{cloud, collides_any, in_bounds, step_ok, Cube, MAX_SIDE};
use crate::fixed::{COORD_MAX, ONE};
use crate::linalg::{Color, Vec3};

verus! {

/// What the cubes are drawn from: how many to try, the world bounds
/// within which they start, the range of their sides (`min_size`
/// included, `max_size` not), and the largest linear and angular speed.
#[derive(Clone, Copy, Debug, PartialEq, Eq, Structural)]
pub struct SpawnConfig {
    pub ncubes: usize,
    pub bounds: Vec3,
    pub min_size: u64,
    pub max_size: u64,
    pub v: i64,
    pub a: i64,
}

impl SpawnConfig {
    pub open spec fn valid(self) -> bool {
        &&& 0 <= self.bounds.x <= COORD_MAX
        &&& 0 <= self.bounds.y <= COORD_MAX
        &&& 0 <= self.bounds.z <= COORD_MAX
        &&& 1 <= self.min_size < self.max_size <= MAX_SIDE + 1
        &&& 0 <= self.v <= COORD_MAX
        &&& 0 <= self.a
    }
}

/// The colours a cube may be drawn in.
pub open spec fn palette(c: Color) -> bool {
    c == Color::Red || c == Color::Green || c == Color::Blue || c == Color::Yellow || c == Color::Cyan
        || c == Color::Purple
}

/// Relies on rand's `thread_rng().gen_range(low..high)`: a value drawn
/// from `[low, high)`; the range is not empty.
#[verifier::external_body]
fn random_in(low: i64, high: i64) -> (r: i64)
    requires
        low < high,
    ensures
        low <= r < high,
{
    rand::thread_rng().gen_range(low..high)
}

/// A draw from `[0, max)`, or zero when `max` is zero.
fn random_below(max: i64) -> (r: i64)
    requires
        max >= 0,
    ensures
        max == 0 ==> r == 0,
        max > 0 ==> 0 <= r < max,
{
    if max > 0 {
        random_in(0, max)
    } else {
        0
    }
}

/// A draw of three coordinates, each from `[0, max)` of its axis.
fn random_vec(max: Vec3) -> (r: Vec3)
    requires
        max.x >= 0 && max.y >= 0 && max.z >= 0,
    ensures
        0 <= r.x <= max.x && 0 <= r.y <= max.y && 0 <= r.z <= max.z,
        r.x < max.x || max.x == 0,
        r.y < max.y || max.y == 0,
        r.z < max.z || max.z == 0,
{
    Vec3 { x: random_below(max.x), y: random_below(max.y), z: random_below(max.z) }
}

/// Whether a cube is one that `spawn_cubes` can make.
pub open spec fn spawned(c: Cube, cfg: SpawnConfig) -> bool {
    &&& c.wf()
    &&& cfg.min_size <= c.l < cfg.max_size
    &&& in_bounds(c.pos, cfg.bounds)
    &&& 0 <= c.pos.x && 0 <= c.pos.y && 0 <= c.pos.z
    &&& 0 <= c.v.x <= cfg.v && 0 <= c.v.y <= cfg.v && 0 <= c.v.z <= cfg.v
    &&& 0 <= c.a.x < ONE && 0 <= c.a.y < ONE && 0 <= c.a.z < ONE
    &&& 0 <= c.alpha.x <= cfg.a && 0 <= c.alpha.y <= cfg.a && 0 <= c.alpha.z <= cfg.a
    &&& exists|color: Color| palette(color) && c.points@ == cloud([color, color, color, color, color, color], c.l as int)
}

/// Appends `c` to `kept` when it collides with none of them.
pub fn keep_if_apart(kept: &mut Vec<Cube>, c: Cube)
    requires
        step_ok(c, 0),
        forall|k: int| 0 <= k < old(kept)@.len() ==> step_ok(#[trigger] old(kept)@[k], 0),
    ensures
        !collides_any(c, old(kept)@, 0) ==> final(kept)@ == old(kept)@.push(c),
        collides_any(c, old(kept)@, 0) ==> final(kept)@ == old(kept)@,
{
    if !c.will_collide(kept, 0) {
        kept.push(c);
    }
}

/// Draws `cfg.ncubes` cubes at random and keeps each one that collides
/// with none of those kept before it.
pub fn spawn_cubes(cfg: &SpawnConfig) -> (r: Vec<Cube>)
    requires
        cfg.valid(),
    ensures
        r@.len() <= cfg.ncubes,
        cfg.ncubes > 0 ==> r@.len() > 0,
        forall|i: int| 0 <= i < r@.len() ==> spawned(#[trigger] r@[i], *cfg),
        forall|i: int| 0 <= i < r@.len() ==> !collides_any(#[trigger] r@[i], r@.take(i), 0),
{
    let colors = [Color::Red, Color::Green, Color::Blue, Color::Yellow, Color::Cyan, Color::Purple];
    let mut cubes: Vec<Cube> = Vec::new();
    let mut n: usize = 0;
    while n < cfg.ncubes
        invariant
            cfg.valid(),
            n <= cfg.ncubes,
            cubes@.len() <= n,
            n > 0 ==> cubes@.len() > 0,
            colors == [Color::Red, Color::Green, Color::Blue, Color::Yellow, Color::Cyan, Color::Purple],
            forall|i: int| 0 <= i < cubes@.len() ==> spawned(#[trigger] cubes@[i], *cfg),
            forall|i: int| 0 <= i < cubes@.len() ==> !collides_any(#[trigger] cubes@[i], cubes@.take(i), 0),
        decreases cfg.ncubes - n,
    {
        let pos = random_vec(cfg.bounds);
        let v = random_vec(Vec3 { x: cfg.v, y: cfg.v, z: cfg.v });
        let a = random_vec(Vec3 { x: ONE, y: ONE, z: ONE });
        let alpha = random_vec(Vec3 { x: cfg.a, y: cfg.a, z: cfg.a });
        let idx = random_in(0, 6) as usize;
        let l = random_in(cfg.min_size as i64, cfg.max_size as i64) as u64;
        let color = colors[idx];
        let cube = Cube::new(color, l, pos, v, a, alpha);
        proof {
            assert(palette(color));
            assert forall|k: int| 0 <= k < cubes@.len() implies step_ok(#[trigger] cubes@[k], 0) by {
                assert(spawned(cubes@[k], *cfg));
            }
        }
        let ghost before = cubes@;
        proof {
            assert(spawned(cube, *cfg));
            if before.len() == 0 {
                assert(!collides_any(cube, before, 0));
            }
        }
        keep_if_apart(&mut cubes, cube);
        proof {
            assert(cubes@.take(before.len() as int) =~= before);
            assert forall|i: int| 0 <= i < cubes@.len() implies spawned(#[trigger] cubes@[i], *cfg) by {
                if i < before.len() {
                    assert(cubes@[i] == before[i]);
                }
            }
            assert forall|i: int| 0 <= i < cubes@.len() implies !collides_any(#[trigger] cubes@[i], cubes@.take(i), 0) by {
                if i < before.len() {
                    assert(cubes@.take(i) =~= before.take(i));
                    assert(cubes@[i] == before[i]);
                } else {
                    assert(cubes@.take(i) =~= before);
                }
            }
        }
        n = n + 1;
    }
    cubes
}

} // verus!
