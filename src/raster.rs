//! Projection of view-space points onto a character grid, nearest point
//! first at every cell.
use vstd::prelude::*;
use crate::fixed::{abs, fdiv, fx_div, lemma_mul_le, lemma_tdiv_bound, sdiv, tdiv, COORD_MAX, ONE};
use crate::linalg::{
    get_ortho_proj, get_persp_proj, mat_vec, max_abs, mul_mv4, ortho, persp,
    vec_max, view_max, Color, Mat4, Point,
};

verus! {

/// Largest width or height of a frame, in cells.
pub const MAX_SCREEN: usize = 65536;

/// Kind of projection from view space to the screen.
#[derive(Clone, Copy, Debug, PartialEq, Eq, Structural)]
pub enum ProjT {
    /// No "small stuff far away".
    Ortho,
    /// Far away stuff appears small.
    Persp,
}

impl ProjT {
    /// The projection's name on the command line.
    pub fn name(&self) -> (r: &'static str)
        ensures
            *self == ProjT::Ortho ==> r@ == "ortho"@,
            *self == ProjT::Persp ==> r@ == "persp"@,
    {
        match self {
            ProjT::Ortho => "ortho",
            ProjT::Persp => "persp",
        }
    }
}

/// What a frame is drawn with: the grid's size, the world's half extent
/// along each axis (which the projection maps onto the screen), the
/// projection and whether cells keep their colour.
#[derive(Clone, Copy, Debug, PartialEq, Eq, Structural)]
pub struct RenderConfig {
    pub s_w: usize,
    pub s_h: usize,
    pub proj: ProjT,
    pub max_l: i64,
    pub max_h: i64,
    pub max_z: i64,
    pub with_color: bool,
}

/// Why a configuration is refused.
#[derive(Clone, Copy, Debug, PartialEq, Eq, Structural)]
pub enum ConfigError {
    /// A side of the grid is zero or above `MAX_SCREEN`.
    Screen,
    /// A world bound is below one unit or above `COORD_MAX`.
    Bounds,
}

/// One cell of a frame: the glyph and colour drawn there, and the
/// normalized depth `z`, coordinates `x`, `y` and projected `w` of the
/// point that drew them. A cell that no point drew is empty.
#[derive(Clone, Copy, Debug, PartialEq, Eq, Structural)]
pub struct Cell {
    pub c: char,
    pub color: Color,
    pub z: i128,
    pub x: i128,
    pub y: i128,
    pub w: i64,
    pub drawn: bool,
}

/// Rank of a colour in the order that settles the last ties.
pub open spec fn rank(c: Color) -> int {
    match c {
        Color::Neutral => 0,
        Color::Grey => 1,
        Color::Red => 2,
        Color::Green => 3,
        Color::Yellow => 4,
        Color::Blue => 5,
        Color::Purple => 6,
        Color::Cyan => 7,
    }
}

/// `a`, a drawn cell, takes the place of `b`: `b` is empty, or `a` is
/// deeper, or as deep and first in the order of `x`, `y`, `w`, glyph and
/// colour. Over drawn cells this is a strict total order.
pub open spec fn beats(a: Cell, b: Cell) -> bool {
    a.drawn && (!b.drawn || a.z > b.z || (a.z == b.z && (a.x < b.x || (a.x == b.x && (a.y < b.y || (
    a.y == b.y && (a.w < b.w || (a.w == b.w && (a.c < b.c || (a.c == b.c && rank(a.color) < rank(
    b.color)))))))))))
}

/// What a cell holds once `n` is drawn on it.
pub open spec fn pick(k: Cell, n: Cell) -> Cell {
    if beats(n, k) {
        n
    } else {
        k
    }
}

fn color_rank(c: Color) -> (r: u8)
    ensures
        r == rank(c),
{
    match c {
        Color::Neutral => 0,
        Color::Grey => 1,
        Color::Red => 2,
        Color::Green => 3,
        Color::Yellow => 4,
        Color::Blue => 5,
        Color::Purple => 6,
        Color::Cyan => 7,
    }
}

impl Cell {
    /// Whether this cell, drawn, takes the place of `other`.
    pub fn beats(&self, other: &Cell) -> (r: bool)
        ensures
            r == beats(*self, *other),
    {
        if !self.drawn {
            return false;
        }
        if !other.drawn || self.z != other.z {
            return !other.drawn || self.z > other.z;
        }
        if self.x != other.x {
            return self.x < other.x;
        }
        if self.y != other.y {
            return self.y < other.y;
        }
        if self.w != other.w {
            return self.w < other.w;
        }
        if self.c != other.c {
            return self.c < other.c;
        }
        color_rank(self.color) < color_rank(other.color)
    }
}

pub open spec fn screen_ok(s_w: usize, s_h: usize) -> bool {
    1 <= s_w <= MAX_SCREEN && 1 <= s_h <= MAX_SCREEN
}

pub open spec fn bound_ok(b: i64) -> bool {
    ONE <= b <= COORD_MAX
}

impl RenderConfig {
    pub open spec fn valid(self) -> bool {
        screen_ok(self.s_w, self.s_h) && bound_ok(self.max_l) && bound_ok(self.max_h) && bound_ok(
            self.max_z,
        )
    }

    /// A configuration, once its sizes are checked.
    pub fn new(
        s_w: usize,
        s_h: usize,
        proj: ProjT,
        max_l: i64,
        max_h: i64,
        max_z: i64,
        with_color: bool,
    ) -> (r: Result<RenderConfig, ConfigError>)
        ensures
            !screen_ok(s_w, s_h) ==> r == Err::<RenderConfig, ConfigError>(ConfigError::Screen),
            screen_ok(s_w, s_h) && !(bound_ok(max_l) && bound_ok(max_h) && bound_ok(max_z)) ==> r
                == Err::<RenderConfig, ConfigError>(ConfigError::Bounds),
            screen_ok(s_w, s_h) && bound_ok(max_l) && bound_ok(max_h) && bound_ok(max_z) ==> r == Ok::<
                RenderConfig,
                ConfigError,
            >(RenderConfig { s_w, s_h, proj, max_l, max_h, max_z, with_color }),
            r is Ok ==> r->Ok_0.valid(),
    {
        if s_w < 1 || s_w > MAX_SCREEN || s_h < 1 || s_h > MAX_SCREEN {
            Err(ConfigError::Screen)
        } else if max_l < ONE || max_l > COORD_MAX || max_h < ONE || max_h > COORD_MAX || max_z < ONE
            || max_z > COORD_MAX {
            Err(ConfigError::Bounds)
        } else {
            Ok(RenderConfig { s_w, s_h, proj, max_l, max_h, max_z, with_color })
        }
    }
}

/// The empty cell.
pub open spec fn blank_cell() -> Cell {
    Cell { c: ' ', color: Color::Neutral, z: 0, x: 0, y: 0, w: 0, drawn: false }
}

/// A frame of `h` rows of `w` empty cells.
pub open spec fn blank(h: int, w: int) -> Seq<Seq<Cell>> {
    Seq::new(h as nat, |i: int| Seq::new(w as nat, |j: int| blank_cell()))
}

/// The rows of a frame.
pub open spec fn grid(f: Seq<Vec<Cell>>) -> Seq<Seq<Cell>> {
    Seq::new(f.len(), |i: int| f[i]@)
}

/// The projection matrix: the world box `[-max_l, max_l] x [-max_h, max_h]
/// x [-max_z, max_z]` onto `[-1, 1]` on each axis.
pub open spec fn proj_matrix(cfg: RenderConfig) -> Mat4 {
    let (l, h, z) = (cfg.max_l as int, cfg.max_h as int, cfg.max_z as int);
    match cfg.proj {
        ProjT::Ortho => ortho(-l, l, -h, h, -z, z),
        ProjT::Persp => persp(-l, l, -h, h, -z, z),
    }
}

/// Normalized device coordinates of a view-space point, and its projected
/// `w`: the projection, then for a perspective the division by `w`. None
/// when that `w` is zero.
pub open spec fn ndc(p: Point, cfg: RenderConfig) -> Option<(int, int, int, i64)> {
    let q = mat_vec(proj_matrix(cfg), p.pos);
    match cfg.proj {
        ProjT::Ortho => Some((q.x as int, q.y as int, q.z as int, q.w)),
        ProjT::Persp => if q.w == 0 {
            None
        } else {
            Some((fdiv(q.x as int, q.w as int), fdiv(q.y as int, q.w as int), fdiv(q.z as int, q.w as int), q.w))
        },
    }
}

/// Cell index of a normalized coordinate in `[-1, 1]` on a side of `n`
/// cells: `(x + 1) * n / 2`, rounded down.
pub open spec fn cell_index(x: int, n: int) -> int {
    ((x + ONE) * n) / (2 * ONE)
}

/// What a point writes into its cell.
pub open spec fn ink(p: Point, x: int, y: int, z: int, w: i64, cfg: RenderConfig) -> Cell {
    Cell {
        c: p.c,
        color: if cfg.with_color { p.color } else { Color::Neutral },
        z: z as i128,
        x: x as i128,
        y: y as i128,
        w,
        drawn: true,
    }
}

/// Row and column of the cell that a point lands on, with what it writes
/// there, or None when it is dropped: behind the camera, clipped
/// (normalized x or y beyond 1 in magnitude) or off the grid.
pub open spec fn placed(p: Point, cfg: RenderConfig) -> Option<(int, int, Cell)> {
    match ndc(p, cfg) {
        None => None,
        Some((x, y, z, w)) => if abs(x) > ONE || abs(y) > ONE {
            None
        } else {
            let col = cell_index(x, cfg.s_w as int);
            let row = cell_index(y, cfg.s_h as int);
            if col >= cfg.s_w || row >= cfg.s_h {
                None
            } else {
                Some((row, col, ink(p, x, y, z, w, cfg)))
            }
        },
    }
}

/// The frame after drawing `p`: its cell takes the point when the point
/// beats what the cell holds (deeper in `z` is nearer, by this
/// convention).
pub open spec fn paint(f: Seq<Seq<Cell>>, p: Point, cfg: RenderConfig) -> Seq<Seq<Cell>> {
    match placed(p, cfg) {
        None => f,
        Some((r, c, n)) => f.update(r, f[r].update(c, pick(f[r][c], n))),
    }
}

/// The frame after drawing `pts` in order.
pub open spec fn composite(f: Seq<Seq<Cell>>, pts: Seq<Point>, cfg: RenderConfig) -> Seq<Seq<Cell>>
    decreases pts.len(),
{
    if pts.len() == 0 {
        f
    } else {
        paint(composite(f, pts.drop_last(), cfg), pts.last(), cfg)
    }
}

/// The frame that `pts` make on an empty grid.
pub open spec fn frame(pts: Seq<Point>, cfg: RenderConfig) -> Seq<Seq<Cell>> {
    composite(blank(cfg.s_h as int, cfg.s_w as int), pts, cfg)
}


proof fn lemma_div_le(a: int, d: int, k: int)
    requires
        0 <= a <= k * d,
        d > 0,
        k >= 0,
    ensures
        0 <= tdiv(a, d) <= k,
{
    vstd::arithmetic::div_mod::lemma_div_is_ordered(a, k * d, d);
    vstd::arithmetic::div_mod::lemma_div_by_multiple(k, d);
    vstd::arithmetic::div_mod::lemma_div_pos_is_pos(a, d);
}

/// Entries of the projection matrix of a valid configuration stay within
/// the coordinate range.
pub proof fn lemma_proj_bounds(cfg: RenderConfig)
    requires
        cfg.valid(),
    ensures
        max_abs(proj_matrix(cfg)) <= COORD_MAX,
{
    let one = ONE as int;
    let c = COORD_MAX as int;
    let (l, h, z) = (cfg.max_l as int, cfg.max_h as int, cfg.max_z as int);
    vstd::arithmetic::div_mod::lemma_div_basics(2 * l);
    vstd::arithmetic::div_mod::lemma_div_basics(2 * h);
    vstd::arithmetic::div_mod::lemma_div_basics(2 * z);
    lemma_mul_le(one, one, one, l);
    lemma_mul_le(one, one, one, h);
    lemma_mul_le(one, one, one, z);
    lemma_div_le(2 * one * one, 2 * l, one);
    lemma_div_le(2 * one * one, 2 * h, one);
    lemma_div_le(2 * one * one, 2 * z, one);
    lemma_mul_le(z, one, c, l);
    lemma_mul_le(z, one, c, h);
    lemma_div_le(2 * z * one, 2 * l, c);
    lemma_div_le(2 * z * one, 2 * h, c);
    assert(2 * z * z == z * (2 * z)) by (nonlinear_arith);
    lemma_div_le(2 * z * z, 2 * z, z);
    assert(-(-z + z) * one == 0 && (-l + l) * one == 0 && (-h + h) * one == 0);
    assert(-(l + -l) * one == 0 && -(h + -h) * one == 0);
    assert(2 * (-z) * z == -(2 * z * z)) by (nonlinear_arith);
    let m = proj_matrix(cfg);
    assert(row_bounded(m[0]) && row_bounded(m[1]) && row_bounded(m[2]) && row_bounded(m[3]));
}

spec fn row_bounded(r: [i64; 4]) -> bool {
    abs(r[0] as int) <= COORD_MAX && abs(r[1] as int) <= COORD_MAX && abs(r[2] as int) <= COORD_MAX
        && abs(r[3] as int) <= COORD_MAX
}

/// The projection matrix of a configuration.
pub fn get_proj(cfg: &RenderConfig) -> (r: Mat4)
    requires
        cfg.valid(),
    ensures
        r == proj_matrix(*cfg),
        max_abs(r) <= COORD_MAX,
{
    proof {
        lemma_proj_bounds(*cfg);
    }
    match cfg.proj {
        ProjT::Ortho => get_ortho_proj(-cfg.max_l, cfg.max_l, -cfg.max_h, cfg.max_h, -cfg.max_z, cfg.max_z),
        ProjT::Persp => get_persp_proj(-cfg.max_l, cfg.max_l, -cfg.max_h, cfg.max_h, -cfg.max_z, cfg.max_z),
    }
}

/// Row, column and depth of the cell that `p` lands on, if any.
pub fn project(p: &Point, cfg: &RenderConfig, proj: &Mat4) -> (r: Option<(usize, usize, Cell)>)
    requires
        cfg.valid(),
        *proj == proj_matrix(*cfg),
        max_abs(*proj) <= COORD_MAX,
        vec_max(p.pos) <= view_max(),
    ensures
        match placed(*p, *cfg) {
            None => r is None,
            Some((row, col, n)) => r == Some((row as usize, col as usize, n)),
        },
{
    proof {
        lemma_depth_range(*p, *cfg);
    }
    proof {
        lemma_mul_le(max_abs(*proj), vec_max(p.pos), COORD_MAX as int, view_max());
        assert(16777216 * 0x100_0000_0000int <= 0x1000_0000_0000_0000_0000int);
    }
    let q = mul_mv4(proj, &p.pos);
    let x: i128;
    let y: i128;
    let z: i128;
    match cfg.proj {
        ProjT::Ortho => {
            x = q.x as i128;
            y = q.y as i128;
            z = q.z as i128;
        },
        ProjT::Persp => {
            if q.w == 0 {
                return None;
            }
            x = fx_div(q.x, q.w);
            y = fx_div(q.y, q.w);
            z = fx_div(q.z, q.w);
        },
    }
    if x < -(ONE as i128) || x > ONE as i128 || y < -(ONE as i128) || y > ONE as i128 {
        return None;
    }
    proof {
        lemma_mul_le((x + ONE) as int, cfg.s_w as int, 2 * ONE as int, MAX_SCREEN as int);
        lemma_mul_le((y + ONE) as int, cfg.s_h as int, 2 * ONE as int, MAX_SCREEN as int);
    }
    let col: i128 = ((x + ONE as i128) * (cfg.s_w as i128)) / (2 * ONE as i128);
    let row: i128 = ((y + ONE as i128) * (cfg.s_h as i128)) / (2 * ONE as i128);
    proof {
        vstd::arithmetic::div_mod::lemma_div_pos_is_pos((x + ONE) * cfg.s_w, 2 * ONE as int);
        vstd::arithmetic::div_mod::lemma_div_pos_is_pos((y + ONE) * cfg.s_h, 2 * ONE as int);
    }
    if col >= cfg.s_w as i128 || row >= cfg.s_h as i128 {
        return None;
    }
    let color = if cfg.with_color {
        p.color
    } else {
        Color::Neutral
    };
    Some((row as usize, col as usize, Cell { c: p.c, color, z, x, y, w: q.w, drawn: true }))
}


/// A frame of `s_h` rows of `s_w` empty cells.
pub fn blank_frame(s_h: usize, s_w: usize) -> (r: Vec<Vec<Cell>>)
    ensures
        grid(r@) == blank(s_h as int, s_w as int),
        r@.len() == s_h,
        forall|k: int| 0 <= k < r@.len() ==> (#[trigger] r@[k])@.len() == s_w,
{
    let mut buf: Vec<Vec<Cell>> = Vec::new();
    let mut i: usize = 0;
    while i < s_h
        invariant
            i <= s_h,
            buf@.len() == i,
            forall|k: int| 0 <= k < i ==> (#[trigger] buf@[k])@ == Seq::new(s_w as nat, |j: int| blank_cell()),
        decreases s_h - i,
    {
        let mut row: Vec<Cell> = Vec::new();
        let mut j: usize = 0;
        while j < s_w
            invariant
                j <= s_w,
                row@ == Seq::new(j as nat, |m: int| blank_cell()),
            decreases s_w - j,
        {
            row.push(Cell { c: ' ', color: Color::Neutral, z: 0, x: 0, y: 0, w: 0, drawn: false });
            proof {
                assert(row@ =~= Seq::new((j + 1) as nat, |m: int| blank_cell()));
            }
            j = j + 1;
        }
        buf.push(row);
        i = i + 1;
    }
    proof {
        assert(grid(buf@) =~= blank(s_h as int, s_w as int));
    }
    buf
}

/// Draws `points`, already in view space, on an empty grid: each point
/// is projected, clipped and placed on a cell, and every cell keeps the
/// point that is first in a total order: deepest `z` first, then the
/// smallest normalized `x`, `y`, projected `w`, glyph and colour. Keeping
/// the best so far as each point comes gives, cell by cell, what sorting
/// by that order first would give; the frame does not depend on the
/// order of `points`.
pub fn display(points: &Vec<Point>, cfg: &RenderConfig) -> (r: Vec<Vec<Cell>>)
    requires
        cfg.valid(),
        forall|k: int| 0 <= k < points@.len() ==> vec_max(#[trigger] points@[k].pos) <= view_max(),
    ensures
        grid(r@) == frame(points@, *cfg),
        forall|other: Seq<Point>| #[trigger] other.to_multiset() == points@.to_multiset() ==> frame(other, *cfg) == grid(r@),
{
    proof {
        assert forall|other: Seq<Point>| #[trigger] other.to_multiset() == points@.to_multiset() implies frame(other, *cfg) == frame(points@, *cfg) by {
            lemma_frame_order_free(other, points@, *cfg);
        }
    }
    let mut buf = blank_frame(cfg.s_h, cfg.s_w);
    let proj = get_proj(cfg);
    let mut i: usize = 0;
    while i < points.len()
        invariant
            i <= points@.len(),
            cfg.valid(),
            proj == proj_matrix(*cfg),
            max_abs(proj) <= COORD_MAX,
            forall|k: int| 0 <= k < points@.len() ==> vec_max(#[trigger] points@[k].pos) <= view_max(),
            buf@.len() == cfg.s_h,
            forall|k: int| 0 <= k < buf@.len() ==> (#[trigger] buf@[k])@.len() == cfg.s_w,
            grid(buf@) == composite(blank(cfg.s_h as int, cfg.s_w as int), points@.take(i as int), *cfg),
        decreases points@.len() - i,
    {
        let p = &points[i];
        let ghost before = grid(buf@);
        proof {
            assert(points@.take(i + 1).drop_last() =~= points@.take(i as int));
            assert(points@.take(i + 1).last() == *p);
        }
        match project(p, cfg, &proj) {
            None => {},
            Some((row, col, n)) => {
                let cur = buf[row][col];
                proof {
                    assert(cur == before[row as int][col as int]);
                }
                if n.beats(&cur) {
                    buf[row][col] = n;
                    proof {
                        assert(grid(buf@)[row as int] =~= before[row as int].update(col as int, n));
                        assert(grid(buf@) =~= before.update(row as int, before[row as int].update(col as int, n)));
                    }
                } else {
                    proof {
                        assert(before[row as int].update(col as int, cur) =~= before[row as int]);
                        assert(before.update(row as int, before[row as int]) =~= before);
                    }
                }
            },
        }
        proof {
            assert(grid(buf@) == paint(before, *p, *cfg));
        }
        i = i + 1;
    }
    proof {
        assert(points@.take(i as int) =~= points@);
    }
    buf
}


/// Two frames drawn from the same points with the same configuration,
/// each on an empty grid, are the same: nothing of one frame reaches the
/// next.
pub proof fn lemma_render_repeatable(r1: Seq<Vec<Cell>>, r2: Seq<Vec<Cell>>, pts: Seq<Point>, cfg: RenderConfig)
    requires
        grid(r1) == frame(pts, cfg),
        grid(r2) == frame(pts, cfg),
    ensures
        grid(r1) == grid(r2),
        r1.len() == r2.len(),
        forall|i: int| 0 <= i < r1.len() ==> (#[trigger] r1[i])@ == r2[i]@,
{
    assert(grid(r1).len() == r1.len() && grid(r2).len() == r2.len());
    assert forall|i: int| 0 <= i < r1.len() implies (#[trigger] r1[i])@ == r2[i]@ by {
        assert(grid(r1)[i] == grid(r2)[i]);
    }
}

/// A point whose normalized x or y lies beyond 1 in magnitude is dropped,
/// whatever its depth: drawing it changes no frame.
pub proof fn lemma_clipped(f: Seq<Seq<Cell>>, pts: Seq<Point>, p: Point, cfg: RenderConfig)
    requires
        ndc(p, cfg) matches Some((x, y, z, w)) && (abs(x) > ONE || abs(y) > ONE),
    ensures
        placed(p, cfg) is None,
        composite(f, pts.push(p), cfg) == composite(f, pts, cfg),
{
    assert(pts.push(p).drop_last() =~= pts);
}

proof fn lemma_sdiv_le(a: int, d: int)
    requires
        d != 0,
    ensures
        abs(sdiv(a, d)) <= abs(a),
{
    let m = if d > 0 { d } else { -d };
    let n = if d > 0 { a } else { -a };
    lemma_tdiv_bound(n, m, abs(n));
    vstd::arithmetic::div_mod::lemma_div_is_ordered_by_denominator(abs(n), 1, m);
    vstd::arithmetic::div_mod::lemma_div_basics(abs(n));
}

/// Normalized coordinates stay within the range of a cell's fields.
pub proof fn lemma_depth_range(p: Point, cfg: RenderConfig)
    ensures
        ndc(p, cfg) matches Some((x, y, z, w)) ==> -0x1_0000_0000_0000_0000_0000 <= z <= 0x1_0000_0000_0000_0000_0000
            && -0x1_0000_0000_0000_0000_0000 <= x <= 0x1_0000_0000_0000_0000_0000
            && -0x1_0000_0000_0000_0000_0000 <= y <= 0x1_0000_0000_0000_0000_0000,
{
    let q = mat_vec(proj_matrix(cfg), p.pos);
    if cfg.proj == ProjT::Persp && q.w != 0 {
        lemma_sdiv_le(q.x * ONE, q.w as int);
        lemma_sdiv_le(q.y * ONE, q.w as int);
        lemma_sdiv_le(q.z * ONE, q.w as int);
        assert(abs(q.x * ONE) <= 0x1_0000_0000_0000_0000_0000 && abs(q.y * ONE) <= 0x1_0000_0000_0000_0000_0000
            && abs(q.z * ONE) <= 0x1_0000_0000_0000_0000_0000) by (nonlinear_arith)
            requires
                i64::MIN <= q.x <= i64::MAX,
                i64::MIN <= q.y <= i64::MAX,
                i64::MIN <= q.z <= i64::MAX,
        ;
    }
}

/// A frame of `s_h` rows of `s_w` cells.
pub open spec fn shaped(f: Seq<Seq<Cell>>, cfg: RenderConfig) -> bool {
    f.len() == cfg.s_h && forall|i: int| 0 <= i < f.len() ==> (#[trigger] f[i]).len() == cfg.s_w
}

/// A placed point lands inside the grid, and what it writes is drawn.
pub proof fn lemma_placed_in_grid(p: Point, cfg: RenderConfig)
    ensures
        placed(p, cfg) matches Some((r, c, n)) ==> 0 <= r < cfg.s_h && 0 <= c < cfg.s_w && n.drawn,
{
    if let Some((x, y, z, w)) = ndc(p, cfg) {
        if abs(x) <= ONE && abs(y) <= ONE {
            assert((x + ONE) * cfg.s_w >= 0) by (nonlinear_arith)
                requires
                    x + ONE >= 0,
            ;
            assert((y + ONE) * cfg.s_h >= 0) by (nonlinear_arith)
                requires
                    y + ONE >= 0,
            ;
            vstd::arithmetic::div_mod::lemma_div_pos_is_pos((x + ONE) * cfg.s_w, 2 * ONE as int);
            vstd::arithmetic::div_mod::lemma_div_pos_is_pos((y + ONE) * cfg.s_h, 2 * ONE as int);
        }
    }
}

/// A frame keeps its shape as points are drawn on it.
pub proof fn lemma_composite_shape(f: Seq<Seq<Cell>>, pts: Seq<Point>, cfg: RenderConfig)
    requires
        shaped(f, cfg),
    ensures
        shaped(composite(f, pts, cfg), cfg),
    decreases pts.len(),
{
    if pts.len() > 0 {
        lemma_composite_shape(f, pts.drop_last(), cfg);
        lemma_placed_in_grid(pts.last(), cfg);
    }
}

/// An empty frame has the configured shape.
pub proof fn lemma_blank_shape(cfg: RenderConfig)
    ensures
        shaped(blank(cfg.s_h as int, cfg.s_w as int), cfg),
{
}

/// Drawing two cells on one spot gives the same result in either order.
pub proof fn lemma_pick_commute(k: Cell, a: Cell, b: Cell)
    requires
        a.drawn,
        b.drawn,
    ensures
        pick(pick(k, a), b) == pick(pick(k, b), a),
{
}

/// Drawing two points gives the same frame in either order.
pub proof fn lemma_paint_commute(f: Seq<Seq<Cell>>, a: Point, b: Point, cfg: RenderConfig)
    requires
        shaped(f, cfg),
    ensures
        paint(paint(f, a, cfg), b, cfg) == paint(paint(f, b, cfg), a, cfg),
{
    lemma_placed_in_grid(a, cfg);
    lemma_placed_in_grid(b, cfg);
    if let (Some((ra, ca, na)), Some((rb, cb, nb))) = (placed(a, cfg), placed(b, cfg)) {
        let fab = paint(paint(f, a, cfg), b, cfg);
        let fba = paint(paint(f, b, cfg), a, cfg);
        if ra == rb && ca == cb {
            lemma_pick_commute(f[ra][ca], na, nb);
            assert(fab =~= fba) by {
                assert(fab[ra] =~= fba[ra]);
            }
        } else if ra == rb {
            assert(fab =~= fba) by {
                assert(fab[ra] =~= fba[ra]);
            }
        } else {
            assert(fab =~= fba);
        }
    }
}

/// Drawing `x` at any place of a list gives the frame that drawing it
/// last gives.
pub proof fn lemma_move_last(f: Seq<Seq<Cell>>, s: Seq<Point>, i: int, x: Point, cfg: RenderConfig)
    requires
        shaped(f, cfg),
        0 <= i <= s.len(),
    ensures
        composite(f, s.insert(i, x), cfg) == paint(composite(f, s, cfg), x, cfg),
    decreases s.len(),
{
    let t = s.insert(i, x);
    if i == s.len() {
        assert(t.drop_last() =~= s);
    } else {
        assert(t.drop_last() =~= s.drop_last().insert(i, x));
        assert(t.last() == s.last());
        lemma_move_last(f, s.drop_last(), i, x, cfg);
        lemma_composite_shape(f, s.drop_last(), cfg);
        lemma_paint_commute(composite(f, s.drop_last(), cfg), x, s.last(), cfg);
    }
}

/// The frame depends on which points are drawn, not on their order: two
/// lists holding the same points, as many times each, draw the same
/// frame.
pub proof fn lemma_composite_perm(f: Seq<Seq<Cell>>, s1: Seq<Point>, s2: Seq<Point>, cfg: RenderConfig)
    requires
        shaped(f, cfg),
        s1.to_multiset() == s2.to_multiset(),
    ensures
        composite(f, s1, cfg) == composite(f, s2, cfg),
    decreases s1.len(),
{
    broadcast use vstd::seq_lib::group_to_multiset_ensures;

    assert(s1.to_multiset().len() == s1.len() && s2.to_multiset().len() == s2.len());
    if s1.len() == 0 {
        assert(s2.len() == 0);
        assert(s1 =~= s2);
    } else {
        let x = s1.last();
        let rest = s1.drop_last();
        assert(rest.push(x) =~= s1);
        assert(s1.to_multiset() == rest.to_multiset().insert(x));
        assert(s2.to_multiset().count(x) > 0);
        assert(s2.contains(x));
        let i = choose|i: int| 0 <= i < s2.len() && s2[i] == x;
        let r2 = s2.remove(i);
        assert(r2.to_multiset() == s2.to_multiset().remove(x));
        assert(rest.to_multiset() =~= r2.to_multiset());
        lemma_composite_perm(f, rest, r2, cfg);
        assert(r2.insert(i, x) =~= s2);
        lemma_move_last(f, r2, i, x, cfg);
    }
}

/// The frame of a list of points is the frame of any reordering of it.
pub proof fn lemma_frame_order_free(s1: Seq<Point>, s2: Seq<Point>, cfg: RenderConfig)
    requires
        s1.to_multiset() == s2.to_multiset(),
    ensures
        frame(s1, cfg) == frame(s2, cfg),
{
    lemma_blank_shape(cfg);
    lemma_composite_perm(blank(cfg.s_h as int, cfg.s_w as int), s1, s2, cfg);
}

/// Nearest wins: once every point of `pts` is drawn, the cell that a
/// point lands on holds that point's ink or one that beats it, so it is
/// drawn and at least as deep.
pub proof fn lemma_nearest_kept(pts: Seq<Point>, cfg: RenderConfig, k: int)
    requires
        0 <= k < pts.len(),
        placed(pts[k], cfg) is Some,
    ensures
        ({
            let (r, c, n) = placed(pts[k], cfg)->Some_0;
            &&& frame(pts, cfg)[r][c] == n || beats(frame(pts, cfg)[r][c], n)
            &&& frame(pts, cfg)[r][c].drawn
            &&& frame(pts, cfg)[r][c].z >= n.z
        }),
    decreases pts.len(),
{
    let b = blank(cfg.s_h as int, cfg.s_w as int);
    let pre = pts.drop_last();
    let last = pts.last();
    lemma_blank_shape(cfg);
    lemma_composite_shape(b, pre, cfg);
    lemma_placed_in_grid(pts[k], cfg);
    lemma_placed_in_grid(last, cfg);
    if k < pts.len() - 1 {
        assert(pre[k] == pts[k]);
        lemma_nearest_kept(pre, cfg, k);
    }
}

/// Nearest wins, for two points that land on one cell: whichever is
/// drawn first, the cell ends up with the deeper one.
pub proof fn lemma_nearest_wins(a: Point, b: Point, cfg: RenderConfig)
    requires
        placed(a, cfg) is Some,
        placed(b, cfg) is Some,
        placed(a, cfg)->Some_0.0 == placed(b, cfg)->Some_0.0,
        placed(a, cfg)->Some_0.1 == placed(b, cfg)->Some_0.1,
        placed(a, cfg)->Some_0.2.z < placed(b, cfg)->Some_0.2.z,
    ensures
        ({
            let (r, c, n) = placed(b, cfg)->Some_0;
            &&& frame(seq![a, b], cfg)[r][c] == n
            &&& frame(seq![b, a], cfg)[r][c] == n
        }),
{
    let bl = blank(cfg.s_h as int, cfg.s_w as int);
    let (r, c, n) = placed(b, cfg)->Some_0;
    lemma_placed_in_grid(a, cfg);
    lemma_placed_in_grid(b, cfg);
    assert(seq![a, b].drop_last() =~= seq![a]);
    assert(seq![b, a].drop_last() =~= seq![b]);
    assert(seq![a].drop_last() =~= Seq::<Point>::empty());
    assert(seq![b].drop_last() =~= Seq::<Point>::empty());
    assert(composite(bl, Seq::<Point>::empty(), cfg) == bl);
    let fa = paint(bl, a, cfg);
    let fb = paint(bl, b, cfg);
    assert(composite(bl, seq![a], cfg) == fa);
    assert(composite(bl, seq![b], cfg) == fb);
    assert(seq![a, b].last() == b);
    assert(seq![b, a].last() == a);
    assert(composite(bl, seq![a, b], cfg) == paint(fa, b, cfg));
    assert(composite(bl, seq![b, a], cfg) == paint(fb, a, cfg));
}

} // verus!
