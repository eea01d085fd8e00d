use ascii_cubes::fixed::ONE;
use ascii_cubes::linalg::{Color, Point, Vec4};
use ascii_cubes::raster::{blank_frame, display, get_proj, project, Cell, ConfigError, ProjT, RenderConfig};

/// Orthographic over the unit box: normalized coordinates are the view
/// coordinates themselves.
fn unit_ortho(s: usize) -> RenderConfig {
    RenderConfig::new(s, s, ProjT::Ortho, ONE, ONE, ONE, true).unwrap()
}

fn point(x: i64, y: i64, z: i64, c: char) -> Point {
    Point { pos: Vec4 { x, y, z, w: ONE }, c, color: Color::Green }
}

fn blank() -> Cell {
    Cell { c: ' ', color: Color::Neutral, z: 0, x: 0, y: 0, w: 0, drawn: false }
}

/// Row, column and depth of a projected point.
fn at(r: Option<(usize, usize, Cell)>) -> Option<(usize, usize, i128)> {
    r.map(|(row, col, n)| (row, col, n.z))
}

#[test]
fn nearest_wins() {
    let cfg = unit_ortho(10);
    let a = point(0, 0, ONE, 'A');
    let b = point(0, 0, 2 * ONE, 'B');
    let f1 = display(&vec![a, b], &cfg);
    let f2 = display(&vec![b, a], &cfg);
    assert_eq!(f1[5][5].c, 'B');
    assert_eq!(f2[5][5].c, 'B');
    assert_eq!(f1[5][5], Cell { c: 'B', color: Color::Green, z: 2 * ONE as i128, x: 0, y: 0, w: ONE, drawn: true });
    assert_eq!(f1, f2);
}

#[test]
fn equal_depths_go_to_the_smaller_x() {
    let cfg = unit_ortho(10);
    let a = point(1, 0, ONE, 'A');
    let b = point(0, 0, ONE, 'B');
    let f1 = display(&vec![a, b], &cfg);
    let f2 = display(&vec![b, a], &cfg);
    assert_eq!(f1[5][5].c, 'B');
    assert_eq!(f2[5][5].c, 'B');
    assert_eq!(f1, f2);
}

#[test]
fn equal_keys_go_to_the_smaller_glyph() {
    let cfg = unit_ortho(10);
    let a = point(0, 0, ONE, 'b');
    let b = point(0, 0, ONE, 'a');
    assert_eq!(display(&vec![a, b], &cfg)[5][5].c, 'a');
    assert_eq!(display(&vec![b, a], &cfg)[5][5].c, 'a');
}

#[test]
fn frame_ignores_the_order_of_points() {
    let cfg = unit_ortho(6);
    let pts = vec![
        point(0, 0, ONE, 'A'),
        point(3, -2, ONE, 'B'),
        point(-ONE / 3, ONE / 5, 0, 'C'),
        point(-ONE / 3 + 7, ONE / 5, 0, 'D'),
        point(ONE / 2, ONE / 2, -ONE, 'E'),
    ];
    let f = display(&pts, &cfg);
    let mut rev = pts.clone();
    rev.reverse();
    assert_eq!(display(&rev, &cfg), f);
    let rot: Vec<Point> = pts[2..].iter().chain(pts[..2].iter()).copied().collect();
    assert_eq!(display(&rot, &cfg), f);
    assert_eq!(f[3][3].c, 'A');
    assert_eq!(f[3][2].c, 'C');
}

#[test]
fn cells_order_by_depth_then_coordinates() {
    let near = Cell { c: 'a', color: Color::Red, z: 2, x: 9, y: 9, w: 9, drawn: true };
    let far = Cell { c: 'a', color: Color::Red, z: 1, x: 0, y: 0, w: 0, drawn: true };
    assert!(near.beats(&far) && !far.beats(&near));
    assert!(far.beats(&blank()) && !blank().beats(&far));
    let left = Cell { x: 0, ..near };
    assert!(left.beats(&near) && !near.beats(&left));
    let low = Cell { y: 0, ..near };
    assert!(low.beats(&near));
    let grey = Cell { color: Color::Grey, ..near };
    assert!(grey.beats(&near));
    assert!(!near.beats(&near));
}

#[test]
fn depth_compositing_is_repeatable() {
    let cfg = unit_ortho(8);
    let pts = vec![point(0, 0, ONE, 'A'), point(-ONE / 2, ONE / 4, -ONE, 'B'), point(0, 0, 3 * ONE, 'C')];
    let f1 = display(&pts, &cfg);
    let f2 = display(&pts, &cfg);
    assert_eq!(f1, f2);
    assert_eq!(f1[4][4].c, 'C');
    assert_eq!(f1[5][2].c, 'B');
}

#[test]
fn clipping() {
    let cfg = unit_ortho(10);
    for z in [-5 * ONE, 0, ONE, 100 * ONE] {
        let f = display(&vec![point(3 * ONE / 2, 0, z, 'X')], &cfg);
        assert!(f.iter().all(|row| row.iter().all(|cell| *cell == blank())));
        let f = display(&vec![point(0, -3 * ONE / 2, z, 'X')], &cfg);
        assert!(f.iter().all(|row| row.iter().all(|cell| *cell == blank())));
    }
}

#[test]
fn right_edge_falls_off_the_grid() {
    let cfg = unit_ortho(10);
    let proj = get_proj(&cfg);
    assert_eq!(at(project(&point(ONE, 0, 0, 'X'), &cfg, &proj)), None);
    assert_eq!(at(project(&point(-ONE, -ONE, 7, 'X'), &cfg, &proj)), Some((0, 0, 7)));
    assert_eq!(at(project(&point(ONE - 1, ONE - 1, 0, 'X'), &cfg, &proj)), Some((9, 9, 0)));
}

#[test]
fn blank_frame_is_empty() {
    let f = blank_frame(3, 4);
    assert_eq!(f.len(), 3);
    assert!(f.iter().all(|row| row.len() == 4 && row.iter().all(|cell| *cell == blank())));
}

#[test]
fn colour_off_keeps_glyphs() {
    let cfg = RenderConfig::new(10, 10, ProjT::Ortho, ONE, ONE, ONE, false).unwrap();
    let f = display(&vec![point(0, 0, ONE, 'A')], &cfg);
    assert_eq!(f[5][5], Cell { c: 'A', color: Color::Neutral, z: ONE as i128, x: 0, y: 0, w: ONE, drawn: true });
}

#[test]
fn perspective_divides_by_w() {
    let cfg = RenderConfig::new(10, 10, ProjT::Persp, ONE, ONE, ONE, true).unwrap();
    let proj = get_proj(&cfg);
    assert_eq!(proj, [[ONE, 0, 0, 0], [0, ONE, 0, 0], [0, 0, 0, ONE], [0, 0, -ONE, 0]]);
    // at z = -2 the point (1, 0) is seen at half the distance from the centre
    assert_eq!(at(project(&point(ONE, 0, -2 * ONE, 'X'), &cfg, &proj)), Some((5, 7, ONE as i128 / 2)));
    // at z = 0 the homogeneous w is zero: the point is dropped
    assert_eq!(at(project(&point(0, 0, 0, 'X'), &cfg, &proj)), None);
}

#[test]
fn orthographic_world_box() {
    let cfg = RenderConfig::new(200, 80, ProjT::Ortho, 100 * ONE, 50 * ONE, 20 * ONE, true).unwrap();
    let proj = get_proj(&cfg);
    assert_eq!(at(project(&point(0, 0, 0, 'X'), &cfg, &proj)), Some((40, 100, 0)));
    assert_eq!(at(project(&point(-100 * ONE, -50 * ONE, 0, 'X'), &cfg, &proj)), Some((0, 0, 0)));
    assert_eq!(at(project(&point(101 * ONE, 0, 0, 'X'), &cfg, &proj)), None);
}

#[test]
fn config_errors() {
    assert_eq!(RenderConfig::new(0, 10, ProjT::Ortho, ONE, ONE, ONE, true), Err(ConfigError::Screen));
    assert_eq!(RenderConfig::new(10, 70000, ProjT::Ortho, ONE, ONE, ONE, true), Err(ConfigError::Screen));
    assert_eq!(RenderConfig::new(10, 10, ProjT::Persp, 0, ONE, ONE, true), Err(ConfigError::Bounds));
    assert_eq!(RenderConfig::new(10, 10, ProjT::Persp, ONE, ONE, ONE / 2, true), Err(ConfigError::Bounds));
    assert_eq!(
        RenderConfig::new(10, 10, ProjT::Persp, ONE, 300 * ONE, ONE, true),
        Err(ConfigError::Bounds)
    );
    let ok = RenderConfig::new(200, 80, ProjT::Persp, 100 * ONE, 50 * ONE, 20 * ONE, false).unwrap();
    assert_eq!(ok.s_w, 200);
    assert_eq!(ok.max_z, 20 * ONE);
}

#[test]
fn projection_names() {
    assert_eq!(ProjT::Ortho.name(), "ortho");
    assert_eq!(ProjT::Persp.name(), "persp");
}
