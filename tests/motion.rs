use ascii_cubes::cube::{advance, can_advance, scene_points, Cube};
use ascii_cubes::fixed::ONE;
use ascii_cubes::linalg::{Color, Point, Rotation, Turn, Vec3, Vec4};
use ascii_cubes::spawn::{keep_if_apart, spawn_cubes, SpawnConfig};

fn units(x: i64, y: i64, z: i64) -> Vec3 {
    Vec3 { x: x * ONE, y: y * ONE, z: z * ONE }
}

fn zero() -> Vec3 {
    Vec3 { x: 0, y: 0, z: 0 }
}

fn upright() -> Rotation {
    let level = Turn { cos: ONE, sin: 0 };
    Rotation { x: level, y: level, z: level }
}

fn still(side: u64, pos: Vec3) -> Cube {
    Cube::new(Color::Red, side, pos, zero(), zero(), zero())
}

#[test]
fn cloud_has_six_faces_of_side_squared_points() {
    let colors = [Color::Red, Color::Green, Color::Blue, Color::Yellow, Color::Cyan, Color::Purple];
    let c = Cube::new_colors(colors, 6, zero(), zero(), zero(), zero());
    assert_eq!(c.points.len(), 6 * 36);
    assert_eq!(c.points[0], Point { pos: Vec4 { x: -3 * ONE, y: -3 * ONE, z: 3 * ONE, w: ONE }, c: '.', color: Color::Red });
    assert_eq!(c.points[1].pos, Vec4 { x: -3 * ONE, y: -2 * ONE, z: 3 * ONE, w: ONE });
    assert_eq!(c.points[36], Point { pos: Vec4 { x: -3 * ONE, y: -3 * ONE, z: -3 * ONE, w: ONE }, c: '$', color: Color::Green });
    assert_eq!(c.points[72], Point { pos: Vec4 { x: 3 * ONE, y: -3 * ONE, z: -3 * ONE, w: ONE }, c: '^', color: Color::Blue });
    assert_eq!(c.points[108].c, '~');
    assert_eq!(c.points[108].pos.x, -3 * ONE);
    assert_eq!(c.points[144], Point { pos: Vec4 { x: -3 * ONE, y: 3 * ONE, z: -3 * ONE, w: ONE }, c: '#', color: Color::Cyan });
    assert_eq!(c.points[180].c, '!');
    assert_eq!(c.points[180].color, Color::Purple);
    assert_eq!(c.points[215].pos, Vec4 { x: 2 * ONE, y: -3 * ONE, z: 2 * ONE, w: ONE });
}

#[test]
fn odd_side_cloud() {
    let c = Cube::new(Color::Blue, 5, zero(), zero(), zero(), zero());
    assert_eq!(c.points.len(), 6 * 25);
    assert_eq!(c.points[0].pos, Vec4 { x: -2 * ONE, y: -2 * ONE, z: 5 * ONE / 2, w: ONE });
    assert_eq!(c.points[24].pos, Vec4 { x: 2 * ONE, y: 2 * ONE, z: 5 * ONE / 2, w: ONE });
    assert!(c.points.iter().all(|p| p.color == Color::Blue));
}

#[test]
fn bounce_at_boundary() {
    let bounds = units(50, 50, 50);
    let mut c = Cube::new(Color::Red, 5, units(49, 0, 0), units(2, 1, 0), zero(), zero());
    c.tick(false, 1, &bounds);
    assert_eq!(c.v, units(-2, 1, 0));
    assert_eq!(c.pos, units(49, 1, 0));
    c.tick(false, 1, &bounds);
    assert_eq!(c.pos, units(47, 2, 0));
}

#[test]
fn bounce_on_negative_side() {
    let bounds = units(10, 10, 10);
    let mut c = Cube::new(Color::Red, 5, units(0, 0, -9), units(0, 0, -2), zero(), zero());
    c.tick(false, 1, &bounds);
    assert_eq!(c.pos, units(0, 0, -9));
    assert_eq!(c.v, units(0, 0, 2));
}

#[test]
fn collision_flag_reverses_every_axis() {
    let bounds = units(50, 50, 50);
    let mut c = Cube::new(Color::Red, 5, units(1, 2, 3), units(1, -1, 1), zero(), zero());
    c.tick(true, 3, &bounds);
    assert_eq!(c.pos, units(1, 2, 3));
    assert_eq!(c.v, units(-1, 1, -1));
}

#[test]
fn angles_accumulate() {
    let bounds = units(50, 50, 50);
    let mut c = Cube::new(Color::Red, 5, zero(), zero(), Vec3 { x: 10, y: 0, z: -5 }, Vec3 { x: 3, y: 2, z: -1 });
    c.tick(false, 20, &bounds);
    assert_eq!(c.a, Vec3 { x: 70, y: 40, z: -25 });
}

#[test]
fn collision_symmetry() {
    let a = still(6, zero());
    let b = still(6, units(1, 0, 0));
    let la = vec![still(6, zero())];
    let lb = vec![still(6, units(1, 0, 0))];
    assert!(a.will_collide(&lb, 0));
    assert!(b.will_collide(&la, 0));
}

#[test]
fn collision_threshold_is_half_face_diagonals() {
    // 6 * sqrt(2) is about 8.49
    let a = still(6, zero());
    assert!(a.will_collide(&vec![still(6, units(8, 0, 0))], 0));
    assert!(!a.will_collide(&vec![still(6, units(9, 0, 0))], 0));
    assert!(!still(6, units(9, 0, 0)).will_collide(&vec![still(6, zero())], 0));
}

#[test]
fn collision_uses_predicted_positions() {
    let a = Cube::new(Color::Red, 2, zero(), units(1, 0, 0), zero(), zero());
    let b = Cube::new(Color::Red, 2, units(20, 0, 0), units(-1, 0, 0), zero(), zero());
    assert!(!a.will_collide(&vec![Cube::new(Color::Red, 2, units(20, 0, 0), units(-1, 0, 0), zero(), zero())], 2));
    assert!(a.will_collide(&vec![Cube::new(Color::Red, 2, units(20, 0, 0), units(-1, 0, 0), zero(), zero())], 10));
    assert!(b.will_collide(&vec![Cube::new(Color::Red, 2, zero(), units(1, 0, 0), zero(), zero())], 10));
}

#[test]
fn a_cube_does_not_collide_with_itself() {
    let a = still(6, units(3, 3, 3));
    assert!(!a.will_collide(&vec![still(6, units(3, 3, 3))], 5));
}

#[test]
fn advance_predicts_on_the_frame_before_moving() {
    let bounds = units(50, 50, 50);
    let mut cubes = vec![
        Cube::new(Color::Red, 2, zero(), units(1, 0, 0), zero(), zero()),
        Cube::new(Color::Red, 2, units(4, 0, 0), units(-1, 0, 0), zero(), zero()),
        Cube::new(Color::Red, 2, units(-30, 0, 0), units(0, 1, 0), zero(), zero()),
    ];
    assert!(can_advance(&cubes, 1));
    advance(&mut cubes, 1, &bounds);
    assert_eq!(cubes[0].pos, zero());
    assert_eq!(cubes[0].v, units(-1, 0, 0));
    assert_eq!(cubes[1].pos, units(4, 0, 0));
    assert_eq!(cubes[1].v, units(1, 0, 0));
    assert_eq!(cubes[2].pos, units(-30, 1, 0));
    assert_eq!(cubes[2].v, units(0, 1, 0));
}

#[test]
fn advance_refused_out_of_range() {
    let cubes = vec![Cube::new(Color::Red, 2, zero(), units(1, 0, 0), zero(), zero())];
    assert!(!can_advance(&cubes, -1));
    assert!(!can_advance(&cubes, 1000));
    assert!(can_advance(&cubes, 100));
}

#[test]
fn roto_transl_places_cloud_before_camera() {
    let c = Cube::new(Color::Red, 2, units(5, 0, 0), zero(), zero(), zero());
    let pts = c.roto_transl(&upright(), 50 * ONE);
    assert_eq!(pts.len(), c.points.len());
    assert_eq!(pts[0].pos, Vec4 { x: 4 * ONE, y: -ONE, z: -49 * ONE, w: ONE });
    assert_eq!(pts[0].c, '.');
}

#[test]
fn scene_points_concatenates_cubes() {
    let cubes = vec![still(2, zero()), still(3, units(10, 0, 0))];
    let pts = scene_points(&cubes, &vec![upright(), upright()], 0);
    assert_eq!(pts.len(), 6 * 4 + 6 * 9);
    assert_eq!(pts[0].pos, Vec4 { x: -ONE, y: -ONE, z: ONE, w: ONE });
    assert_eq!(pts[24].pos, Vec4 { x: 9 * ONE, y: -ONE, z: 3 * ONE / 2, w: ONE });
}

#[test]
fn spawned_cubes_keep_apart_and_in_bounds() {
    let cfg = SpawnConfig {
        ncubes: 20,
        bounds: units(100, 50, 20),
        min_size: 5,
        max_size: 10,
        v: 5243,
        a: 655,
    };
    let cubes = spawn_cubes(&cfg);
    assert!(!cubes.is_empty() && cubes.len() <= 20);
    for (i, c) in cubes.iter().enumerate() {
        assert!(c.l >= 5 && c.l < 10);
        assert!(c.pos.x >= 0 && c.pos.x < 100 * ONE);
        assert!(c.pos.y >= 0 && c.pos.y < 50 * ONE);
        assert!(c.pos.z >= 0 && c.pos.z < 20 * ONE);
        assert!(c.v.x >= 0 && c.v.x < 5243);
        assert!(c.a.x >= 0 && c.a.x < ONE);
        assert_eq!(c.points.len() as u64, 6 * c.l * c.l);
        let before: Vec<Cube> = cubes[..i]
            .iter()
            .map(|d| Cube::new(Color::Red, d.l, d.pos, d.v, d.a, d.alpha))
            .collect();
        assert!(!c.will_collide(&before, 0));
    }
}

#[test]
fn spawned_cubes_are_drawn_at_random() {
    let cfg = SpawnConfig {
        ncubes: 20,
        bounds: units(200, 200, 200),
        min_size: 1,
        max_size: 3,
        v: ONE,
        a: ONE,
    };
    let cubes = spawn_cubes(&cfg);
    assert!(cubes.len() >= 2);
    assert!(cubes.iter().any(|c| c.pos != cubes[0].pos));
    assert!(cubes.iter().all(|c| c.pos.x < 200 * ONE && c.v.y < ONE));
}

#[test]
fn keep_if_apart_keeps_only_cubes_far_enough() {
    let mut kept: Vec<Cube> = Vec::new();
    keep_if_apart(&mut kept, still(6, zero()));
    assert_eq!(kept.len(), 1);
    keep_if_apart(&mut kept, still(6, units(5, 0, 0)));
    assert_eq!(kept.len(), 1);
    keep_if_apart(&mut kept, still(6, units(20, 0, 0)));
    assert_eq!(kept.len(), 2);
    assert_eq!(kept[1].pos, units(20, 0, 0));
}

#[test]
fn one_cube_asked_gives_one_cube() {
    let cfg = SpawnConfig { ncubes: 1, bounds: units(10, 10, 10), min_size: 2, max_size: 3, v: 0, a: 0 };
    let cubes = spawn_cubes(&cfg);
    assert_eq!(cubes.len(), 1);
    assert_eq!(cubes[0].l, 2);
    assert_eq!(cubes[0].v, zero());
}
