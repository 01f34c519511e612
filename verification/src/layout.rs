use vstd::prelude::*;

use crate::mathx::isqrt128;
use crate::mathx::isqrt64;
use crate::mathx::isqrt_spec;
use crate::mathx::lemma_div_le_num;
use crate::mathx::lemma_isqrt_bounds;
use crate::mathx::lemma_isqrt_monotone;
use crate::mathx::lemma_isqrt_unique;
use crate::mathx::lemma_component_le_isqrt;
use crate::mathx::lemma_scaled_div_le;

verus! {

// ---------------------------------------------------------------------------
// The canvas and the engine's constants.
//
// All world coordinates are fixed-point: milli-units, one thousandth of a
// logical canvas unit. The canvas is the reference 800 x 600 logical
// units. Every constant of the force model is scaled accordingly, so the
// whole simulation is exact integer arithmetic.
// ---------------------------------------------------------------------------

/// Canvas width in milli-units (800 logical units).
pub const WIDTH: u64 = 800_000;

/// Canvas height in milli-units (600 logical units).
pub const HEIGHT: u64 = 600_000;

/// Milli-units per logical canvas unit.
pub const COORD_SCALE: u64 = 1000;

/// Starting temperature: a tenth of the canvas width.
pub const INITIAL_TEMPERATURE: u64 = 80_000;

/// Repulsive magnitude applied to a coincident pair (1000 logical units),
/// pushed along the x axis since no direction exists between equal points.
pub const ZERO_DIST_REPULSION: u64 = 1_000_000;

/// Divisor of the centering pull: strength 0.02 k, rescaled, is
/// `delta * k / 50_000`.
pub const GRAVITY_DIVISOR: u64 = 50_000;

/// Canvas center, x.
pub const CENTER_X: u64 = 400_000;

/// Canvas center, y.
pub const CENTER_Y: u64 = 300_000;

/// Upper bound on the ideal edge length `k`.
pub const K_MAX: u64 = 1_000_000;

/// Upper bound on the magnitude of any single force contribution.
pub const CONTRIB_MAX: i128 = 1_000_000_000_000;

/// Accumulated displacements beyond this magnitude are clamped to it
/// (an overflow guard far beyond any displacement the temperature cap
/// lets through).
pub const DISP_CAP: i128 = 0x100_0000_0000_0000;

/// Fixed seed of the position initializer.
pub const SEED: u64 = 0x9E37_79B9_7F4A_7C15;

/// Multiplier of the linear congruential step.
pub const LCG_MUL: u64 = 6_364_136_223_846_793_005;

/// Increment of the linear congruential step.
pub const LCG_ADD: u64 = 1_442_695_040_888_963_407;

// ---------------------------------------------------------------------------
// Positions.
// ---------------------------------------------------------------------------

/// A world position on the canvas, in milli-units.
#[derive(Clone, Copy, PartialEq, Eq, Structural, Debug)]
pub struct Position {
    pub x: u64,
    pub y: u64,
}

/// Within `[0, WIDTH] x [0, HEIGHT]`.
pub open spec fn in_canvas(p: Position) -> bool {
    p.x <= WIDTH && p.y <= HEIGHT
}

/// The squared Euclidean distance.
pub open spec fn spec_dist2(p: Position, q: Position) -> int {
    (p.x - q.x) * (p.x - q.x) + (p.y - q.y) * (p.y - q.y)
}

/// The Euclidean distance, rounded down.
pub open spec fn spec_dist(p: Position, q: Position) -> int {
    isqrt_spec(spec_dist2(p, q))
}

/// Distances on the canvas never exceed `isqrt(WIDTH^2 + HEIGHT^2)`,
/// which is exactly one million milli-units.
pub proof fn lemma_dist_bounds(p: Position, q: Position)
    requires
        in_canvas(p),
        in_canvas(q),
    ensures
        0 <= spec_dist2(p, q) <= 1_000_000_000_000,
        0 <= spec_dist(p, q) <= 1_000_000,
        spec_dist2(p, q) == 0 <==> spec_dist(p, q) == 0,
{
    let dx = p.x - q.x;
    let dy = p.y - q.y;
    assert(dx * dx <= 640_000_000_000) by (nonlinear_arith)
        requires
            -800_000 <= dx <= 800_000,
    ;
    assert(dy * dy <= 360_000_000_000) by (nonlinear_arith)
        requires
            -600_000 <= dy <= 600_000,
    ;
    assert(dx * dx >= 0) by (nonlinear_arith);
    assert(dy * dy >= 0) by (nonlinear_arith);
    lemma_isqrt_bounds(spec_dist2(p, q));
    lemma_isqrt_monotone(spec_dist2(p, q), 1_000_000_000_000);
    assert(1_000_000 * 1_000_000 == 1_000_000_000_000) by (nonlinear_arith);
    assert((1_000_000 + 1) * (1_000_000 + 1) == 1_000_002_000_001) by (nonlinear_arith);
    lemma_isqrt_unique(1_000_000_000_000, 1_000_000);
    if spec_dist2(p, q) == 0 {
    } else {
        assert(isqrt_spec(spec_dist2(p, q)) >= 1) by {
            if isqrt_spec(spec_dist2(p, q)) == 0 {
                assert((0 + 1) * (0 + 1) == 1) by (nonlinear_arith);
                assert(spec_dist2(p, q) < 1);
            }
        }
    }
}

/// An axis gap never exceeds the distance.
pub proof fn lemma_axis_le_dist(p: Position, q: Position)
    ensures
        p.x >= q.x ==> p.x - q.x <= spec_dist(p, q),
        q.x > p.x ==> q.x - p.x <= spec_dist(p, q),
        p.y >= q.y ==> p.y - q.y <= spec_dist(p, q),
        q.y > p.y ==> q.y - p.y <= spec_dist(p, q),
{
    let dx = p.x - q.x;
    let dy = p.y - q.y;
    let ax = if dx >= 0 { dx } else { -dx };
    let ay = if dy >= 0 { dy } else { -dy };
    assert(ax * ax == dx * dx) by (nonlinear_arith)
        requires
            ax == dx || ax == -dx,
    ;
    assert(ay * ay == dy * dy) by (nonlinear_arith)
        requires
            ay == dy || ay == -dy,
    ;
    assert(dx * dx >= 0) by (nonlinear_arith);
    assert(dy * dy >= 0) by (nonlinear_arith);
    lemma_isqrt_monotone(ax * ax, spec_dist2(p, q));
    lemma_isqrt_monotone(ay * ay, spec_dist2(p, q));
    assert(ax * ax < (ax + 1) * (ax + 1)) by (nonlinear_arith)
        requires
            ax >= 0,
    ;
    assert(ay * ay < (ay + 1) * (ay + 1)) by (nonlinear_arith)
        requires
            ay >= 0,
    ;
    lemma_isqrt_unique(ax * ax, ax);
    lemma_isqrt_unique(ay * ay, ay);
}

/// Distance is symmetric.
pub proof fn lemma_dist_symm(p: Position, q: Position)
    ensures
        spec_dist(p, q) == spec_dist(q, p),
{
    assert((p.x - q.x) * (p.x - q.x) == (q.x - p.x) * (q.x - p.x)) by (nonlinear_arith);
    assert((p.y - q.y) * (p.y - q.y) == (q.y - p.y) * (q.y - p.y)) by (nonlinear_arith);
}

impl Position {
    pub fn new(x: u64, y: u64) -> (p: Position)
        ensures
            p == (Position { x, y }),
    {
        Position { x, y }
    }

    /// The Euclidean distance to `other`, rounded down.
    pub fn distance(&self, other: &Position) -> (d: u64)
        requires
            in_canvas(*self),
            in_canvas(*other),
        ensures
            d == spec_dist(*self, *other),
            d <= 1_000_000,
    {
        let dx = if self.x >= other.x {
            self.x - other.x
        } else {
            other.x - self.x
        };
        let dy = if self.y >= other.y {
            self.y - other.y
        } else {
            other.y - self.y
        };
        proof {
            assert(dx * dx == (self.x - other.x) * (self.x - other.x)) by (nonlinear_arith)
                requires
                    dx == self.x - other.x || dx == other.x - self.x,
            ;
            assert(dy * dy == (self.y - other.y) * (self.y - other.y)) by (nonlinear_arith)
                requires
                    dy == self.y - other.y || dy == other.y - self.y,
            ;
            assert(dx * dx <= 640_000_000_000) by (nonlinear_arith)
                requires
                    0 <= dx <= 800_000,
            ;
            assert(dy * dy <= 360_000_000_000) by (nonlinear_arith)
                requires
                    0 <= dy <= 600_000,
            ;
            lemma_dist_bounds(*self, *other);
        }
        let d2 = dx * dx + dy * dy;
        isqrt64(d2)
    }
}

// ---------------------------------------------------------------------------
// Seeded initialization: a fixed linear congruential generator places
// every node uniformly on the canvas, so two runs over the same graph
// start, and therefore end, identically.
// ---------------------------------------------------------------------------

/// One step of the linear congruential generator, modulo 2^64.
pub open spec fn lcg_next(s: u64) -> u64 {
    ((s * LCG_MUL + LCG_ADD) % 0x1_0000_0000_0000_0000) as u64
}

/// The generator's state after `k` steps from the fixed seed.
pub open spec fn lcg_iter(k: nat) -> u64
    decreases k,
{
    if k == 0 {
        SEED
    } else {
        lcg_next(lcg_iter((k - 1) as nat))
    }
}

/// One step of the generator.
pub fn lcg_step(s: u64) -> (r: u64)
    ensures
        r == lcg_next(s),
{
    proof {
        assert((s as int) * (LCG_MUL as int) + (LCG_ADD as int) < 0x1_0000_0000_0000_0000_0000_0000_0000_0000)
            by (nonlinear_arith)
            requires
                0 <= s < 0x1_0000_0000_0000_0000,
                LCG_MUL < 0x1_0000_0000_0000_0000,
                LCG_ADD < 0x1_0000_0000_0000_0000,
        ;
    }
    let wide: u128 = (s as u128) * (LCG_MUL as u128) + (LCG_ADD as u128);
    let m: u128 = wide % 0x1_0000_0000_0000_0000u128;
    m as u64
}

/// Where node `i` starts: two generator draws, one per coordinate, taken
/// modulo the canvas bounds.
pub open spec fn init_position(i: nat) -> Position {
    Position {
        x: ((lcg_iter(2 * i + 1) as int) % ((WIDTH + 1) as int)) as u64,
        y: ((lcg_iter(2 * i + 2) as int) % ((HEIGHT + 1) as int)) as u64,
    }
}

/// The seeded starting positions of `n` nodes.
pub open spec fn init_positions(n: nat) -> Seq<Position> {
    Seq::new(n as nat, |i: int| init_position(i as nat))
}

/// Builds the seeded starting positions.
pub fn seed_positions(n: usize) -> (v: Vec<Position>)
    ensures
        v@ == init_positions(n as nat),
        forall|i: int| 0 <= i < v@.len() ==> in_canvas(#[trigger] v@[i]),
{
    let mut v: Vec<Position> = Vec::new();
    let mut st: u64 = SEED;
    let mut i: usize = 0;
    proof {
        assert(v@ =~= init_positions(0));
    }
    while i < n
        invariant
            i <= n,
            st == lcg_iter(2 * i as nat),
            v@ == init_positions(i as nat),
            forall|t: int| 0 <= t < v@.len() ==> in_canvas(#[trigger] v@[t]),
        decreases n - i,
    {
        st = lcg_step(st);
        let x = st % (WIDTH + 1);
        proof {
            assert(st == lcg_iter((2 * i + 1) as nat));
            assert(x as int == (lcg_iter((2 * i + 1) as nat) as int) % ((WIDTH + 1) as int));
        }
        st = lcg_step(st);
        let y = st % (HEIGHT + 1);
        proof {
            assert(st == lcg_iter((2 * i + 2) as nat));
            assert(y as int == (lcg_iter((2 * i + 2) as nat) as int) % ((HEIGHT + 1) as int));
        }
        v.push(Position::new(x, y));
        proof {
            assert(v@.last() == init_position(i as nat));
            assert(v@ =~= init_positions((i + 1) as nat));
        }
        i = i + 1;
    }
    v
}

// ---------------------------------------------------------------------------
// The ideal edge length.
// ---------------------------------------------------------------------------

/// The ideal edge length `k = sqrt(area / n)`, in milli-units, at least 1
/// so no force formula divides by zero.
pub open spec fn ideal_k(n: nat) -> int {
    let r = isqrt_spec(((WIDTH * HEIGHT) as int) / (n as int));
    if r < 1 {
        1
    } else {
        r
    }
}

/// Computes the ideal edge length for `n` nodes.
pub fn compute_k(n: usize) -> (k: u64)
    requires
        n >= 1,
    ensures
        k == ideal_k(n as nat),
        1 <= k <= K_MAX,
{
    let area: u64 = WIDTH * HEIGHT;
    let q = area / (n as u64);
    let r = isqrt64(q);
    proof {
        lemma_isqrt_bounds(q as int);
        if r > 999_999 {
            assert(1_000_000 * 1_000_000 <= (r as int) * (r as int)) by (nonlinear_arith)
                requires
                    r >= 1_000_000,
            ;
            assert(false);
        }
    }
    if r < 1 {
        1
    } else {
        r
    }
}

// ---------------------------------------------------------------------------
// Force contributions, as the specification states them.
// ---------------------------------------------------------------------------

/// A force of magnitude `f` applied along the axis gap from `b` to `a`,
/// scaled by the distance `d`: the signed integer `(a - b) * f / d` with
/// the division rounding toward zero.
pub open spec fn spec_axis(a: int, b: int, f: int, d: int) -> int {
    if a >= b {
        ((a - b) * f) / d
    } else {
        -(((b - a) * f) / d)
    }
}

/// Repulsive magnitude between two nodes at distance `d`: the fixed
/// constant when they coincide, else `k^2 / d`.
pub open spec fn spec_repulsion(k: int, d: int) -> int {
    if d == 0 {
        ZERO_DIST_REPULSION as int
    } else {
        (k * k) / d
    }
}

/// Attractive magnitude along an edge of length `d`: `d^2 / k`.
pub open spec fn spec_attraction(k: int, d: int) -> int {
    (d * d) / k
}

/// The x displacement repulsion of the node at `q` adds to the node at
/// `p`. A coincident pair is pushed apart along the x axis, the earlier
/// node (`before`) to the right, so the pair's pushes stay symmetric and
/// opposite.
pub open spec fn spec_rep_x(p: Position, q: Position, k: int, before: bool) -> int {
    let d = spec_dist(p, q);
    if d == 0 {
        if before {
            ZERO_DIST_REPULSION as int
        } else {
            -(ZERO_DIST_REPULSION as int)
        }
    } else {
        spec_axis(p.x as int, q.x as int, spec_repulsion(k, d), d)
    }
}

/// The y displacement repulsion of the node at `q` adds to the node at
/// `p`; zero for a coincident pair, whose push is along x.
pub open spec fn spec_rep_y(p: Position, q: Position, k: int, before: bool) -> int {
    let d = spec_dist(p, q);
    if d == 0 {
        0
    } else {
        spec_axis(p.y as int, q.y as int, spec_repulsion(k, d), d)
    }
}

/// The x displacement an edge toward the node at `q` adds to the node at
/// `p` (nothing when they coincide: the magnitude is zero there anyway).
pub open spec fn spec_attr_x(p: Position, q: Position, k: int) -> int {
    let d = spec_dist(p, q);
    if d == 0 {
        0
    } else {
        spec_axis(q.x as int, p.x as int, spec_attraction(k, d), d)
    }
}

/// The y displacement an edge toward the node at `q` adds to the node at
/// `p`.
pub open spec fn spec_attr_y(p: Position, q: Position, k: int) -> int {
    let d = spec_dist(p, q);
    if d == 0 {
        0
    } else {
        spec_axis(q.y as int, p.y as int, spec_attraction(k, d), d)
    }
}

/// The x displacement the centering pull adds to the node at `p`.
pub open spec fn spec_grav_x(p: Position, k: int) -> int {
    spec_axis(CENTER_X as int, p.x as int, k, GRAVITY_DIVISOR as int)
}

/// The y displacement the centering pull adds to the node at `p`.
pub open spec fn spec_grav_y(p: Position, k: int) -> int {
    spec_axis(CENTER_Y as int, p.y as int, k, GRAVITY_DIVISOR as int)
}

/// Every single contribution stays below `CONTRIB_MAX` in magnitude.
pub proof fn lemma_contrib_bounds(p: Position, q: Position, k: int, before: bool)
    requires
        in_canvas(p),
        in_canvas(q),
        1 <= k <= K_MAX,
    ensures
        -CONTRIB_MAX <= spec_rep_x(p, q, k, before) <= CONTRIB_MAX,
        -CONTRIB_MAX <= spec_rep_y(p, q, k, before) <= CONTRIB_MAX,
        -CONTRIB_MAX <= spec_attr_x(p, q, k) <= CONTRIB_MAX,
        -CONTRIB_MAX <= spec_attr_y(p, q, k) <= CONTRIB_MAX,
        -CONTRIB_MAX <= spec_grav_x(p, k) <= CONTRIB_MAX,
        -CONTRIB_MAX <= spec_grav_y(p, k) <= CONTRIB_MAX,
{
    lemma_dist_bounds(p, q);
    lemma_axis_le_dist(p, q);
    let d = spec_dist(p, q);
    assert(k * k <= 1_000_000_000_000) by (nonlinear_arith)
        requires
            1 <= k <= 1_000_000,
    ;
    assert(k * k >= 0) by (nonlinear_arith)
        requires
            1 <= k,
    ;
    if d != 0 {
        lemma_div_le_num(k * k, d);
        let fr = spec_repulsion(k, d);
        assert(0 <= fr <= 1_000_000_000_000);
        if p.x >= q.x {
            lemma_scaled_div_le(p.x - q.x, fr, d);
        } else {
            lemma_scaled_div_le(q.x - p.x, fr, d);
        }
        if p.y >= q.y {
            lemma_scaled_div_le(p.y - q.y, fr, d);
        } else {
            lemma_scaled_div_le(q.y - p.y, fr, d);
        }
        assert(d * d <= 1_000_000_000_000) by (nonlinear_arith)
            requires
                0 <= d <= 1_000_000,
        ;
        assert(d * d >= 0) by (nonlinear_arith);
        lemma_div_le_num(d * d, k);
        let fa = spec_attraction(k, d);
        assert(0 <= fa <= 1_000_000_000_000);
        if q.x >= p.x {
            lemma_scaled_div_le(q.x - p.x, fa, d);
        } else {
            lemma_scaled_div_le(p.x - q.x, fa, d);
        }
        if q.y >= p.y {
            lemma_scaled_div_le(q.y - p.y, fa, d);
        } else {
            lemma_scaled_div_le(p.y - q.y, fa, d);
        }
    }
    let cx = CENTER_X as int;
    let gx = if cx >= p.x {
        cx - p.x
    } else {
        p.x - cx
    };
    assert(gx * k <= 800_000 * 1_000_000) by (nonlinear_arith)
        requires
            0 <= gx <= 800_000,
            0 <= k <= 1_000_000,
    ;
    assert(gx * k >= 0) by (nonlinear_arith)
        requires
            0 <= gx,
            0 <= k,
    ;
    assert((gx * k) / (GRAVITY_DIVISOR as int) <= CONTRIB_MAX) by (nonlinear_arith)
        requires
            0 <= gx * k <= 800_000_000_000,
    ;
    assert((gx * k) / (GRAVITY_DIVISOR as int) >= 0) by (nonlinear_arith)
        requires
            0 <= gx * k,
    ;
    let cy = CENTER_Y as int;
    let gy = if cy >= p.y {
        cy - p.y
    } else {
        p.y - cy
    };
    assert(gy * k <= 600_000 * 1_000_000) by (nonlinear_arith)
        requires
            0 <= gy <= 600_000,
            0 <= k <= 1_000_000,
    ;
    assert(gy * k >= 0) by (nonlinear_arith)
        requires
            0 <= gy,
            0 <= k,
    ;
    assert((gy * k) / (GRAVITY_DIVISOR as int) <= CONTRIB_MAX) by (nonlinear_arith)
        requires
            0 <= gy * k <= 600_000_000_000,
    ;
    assert((gy * k) / (GRAVITY_DIVISOR as int) >= 0) by (nonlinear_arith)
        requires
            0 <= gy * k,
    ;
}

/// Computes `spec_axis(a, b, f, d)` exactly.
fn axis_component(a: u64, b: u64, f: u64, d: u64) -> (r: i128)
    requires
        1 <= d,
        a <= 1_000_000,
        b <= 1_000_000,
        f <= 1_000_000_000_000,
    ensures
        r == spec_axis(a as int, b as int, f as int, d as int),
{
    if a >= b {
        let g = a - b;
        proof {
            assert((g as int) * (f as int) <= 1_000_000_000_000_000_000) by (nonlinear_arith)
                requires
                    0 <= g <= 1_000_000,
                    0 <= f <= 1_000_000_000_000,
            ;
            lemma_div_le_num((g as int) * (f as int), d as int);
        }
        let m = ((g as u128) * (f as u128)) / (d as u128);
        m as i128
    } else {
        let g = b - a;
        proof {
            assert((g as int) * (f as int) <= 1_000_000_000_000_000_000) by (nonlinear_arith)
                requires
                    0 <= g <= 1_000_000,
                    0 <= f <= 1_000_000_000_000,
            ;
            lemma_div_le_num((g as int) * (f as int), d as int);
        }
        let m = ((g as u128) * (f as u128)) / (d as u128);
        -(m as i128)
    }
}

// ---------------------------------------------------------------------------
// Displacement sums: what one whole iteration adds to each node.
// ---------------------------------------------------------------------------

/// The x repulsion node `i` receives from nodes `0 .. upto` (itself
/// skipped).
pub open spec fn rep_sum_x(pos: Seq<Position>, k: int, i: int, upto: int) -> int
    decreases upto,
{
    if upto <= 0 {
        0
    } else {
        rep_sum_x(pos, k, i, upto - 1) + if upto - 1 == i {
            0
        } else {
            spec_rep_x(pos[i], pos[upto - 1], k, i < upto - 1)
        }
    }
}

/// The y repulsion node `i` receives from nodes `0 .. upto`.
pub open spec fn rep_sum_y(pos: Seq<Position>, k: int, i: int, upto: int) -> int
    decreases upto,
{
    if upto <= 0 {
        0
    } else {
        rep_sum_y(pos, k, i, upto - 1) + if upto - 1 == i {
            0
        } else {
            spec_rep_y(pos[i], pos[upto - 1], k, i < upto - 1)
        }
    }
}

/// The x attraction node `i` receives from edges `0 .. upto`; each edge
/// instance pulls both its endpoints, so parallel edges add up.
pub open spec fn attr_sum_x(
    pos: Seq<Position>,
    edges: Seq<(usize, usize)>,
    k: int,
    i: int,
    upto: int,
) -> int
    decreases upto,
{
    if upto <= 0 {
        0
    } else {
        attr_sum_x(pos, edges, k, i, upto - 1) + (if edges[upto - 1].0 == i {
            spec_attr_x(pos[i], pos[edges[upto - 1].1 as int], k)
        } else {
            0
        }) + (if edges[upto - 1].1 == i {
            spec_attr_x(pos[i], pos[edges[upto - 1].0 as int], k)
        } else {
            0
        })
    }
}

/// The y attraction node `i` receives from edges `0 .. upto`.
pub open spec fn attr_sum_y(
    pos: Seq<Position>,
    edges: Seq<(usize, usize)>,
    k: int,
    i: int,
    upto: int,
) -> int
    decreases upto,
{
    if upto <= 0 {
        0
    } else {
        attr_sum_y(pos, edges, k, i, upto - 1) + (if edges[upto - 1].0 == i {
            spec_attr_y(pos[i], pos[edges[upto - 1].1 as int], k)
        } else {
            0
        }) + (if edges[upto - 1].1 == i {
            spec_attr_y(pos[i], pos[edges[upto - 1].0 as int], k)
        } else {
            0
        })
    }
}

/// The whole x displacement of node `i` in one iteration: all repulsions,
/// all edge pulls, and the centering pull.
pub open spec fn spec_disp_x(pos: Seq<Position>, edges: Seq<(usize, usize)>, k: int, i: int) -> int {
    rep_sum_x(pos, k, i, pos.len() as int) + attr_sum_x(pos, edges, k, i, edges.len() as int)
        + spec_grav_x(pos[i], k)
}

/// The whole y displacement of node `i` in one iteration.
pub open spec fn spec_disp_y(pos: Seq<Position>, edges: Seq<(usize, usize)>, k: int, i: int) -> int {
    rep_sum_y(pos, k, i, pos.len() as int) + attr_sum_y(pos, edges, k, i, edges.len() as int)
        + spec_grav_y(pos[i], k)
}

/// Repulsion sums stay within `upto` contributions.
pub proof fn lemma_rep_sum_bound(pos: Seq<Position>, k: int, i: int, upto: int)
    requires
        forall|t: int| 0 <= t < pos.len() ==> in_canvas(#[trigger] pos[t]),
        1 <= k <= K_MAX,
        0 <= i < pos.len(),
        0 <= upto <= pos.len(),
    ensures
        -1_000_000_000_000 * upto <= rep_sum_x(pos, k, i, upto) <= 1_000_000_000_000 * upto,
        -1_000_000_000_000 * upto <= rep_sum_y(pos, k, i, upto) <= 1_000_000_000_000 * upto,
    decreases upto,
{
    if upto <= 0 {
    } else {
        lemma_rep_sum_bound(pos, k, i, upto - 1);
        if upto - 1 != i {
            lemma_contrib_bounds(pos[i], pos[upto - 1], k, i < upto - 1);
        }
    }
}

/// Attraction sums stay within two contributions per edge.
pub proof fn lemma_attr_sum_bound(
    pos: Seq<Position>,
    edges: Seq<(usize, usize)>,
    k: int,
    i: int,
    upto: int,
)
    requires
        forall|t: int| 0 <= t < pos.len() ==> in_canvas(#[trigger] pos[t]),
        forall|e: int|
            0 <= e < edges.len() ==> (#[trigger] edges[e]).0 < pos.len() && edges[e].1 < pos.len(),
        1 <= k <= K_MAX,
        0 <= i < pos.len(),
        0 <= upto <= edges.len(),
    ensures
        -2_000_000_000_000 * upto <= attr_sum_x(pos, edges, k, i, upto) <= 2_000_000_000_000
            * upto,
        -2_000_000_000_000 * upto <= attr_sum_y(pos, edges, k, i, upto) <= 2_000_000_000_000
            * upto,
    decreases upto,
{
    if upto <= 0 {
    } else {
        lemma_attr_sum_bound(pos, edges, k, i, upto - 1);
        let a = edges[upto - 1].0;
        let b = edges[upto - 1].1;
        lemma_contrib_bounds(pos[i], pos[b as int], k, true);
        lemma_contrib_bounds(pos[i], pos[a as int], k, true);
        let ta = if a == i { spec_attr_x(pos[i], pos[b as int], k) } else { 0int };
        let tb = if b == i { spec_attr_x(pos[i], pos[a as int], k) } else { 0int };
        let ua = if a == i { spec_attr_y(pos[i], pos[b as int], k) } else { 0int };
        let ub = if b == i { spec_attr_y(pos[i], pos[a as int], k) } else { 0int };
        assert(attr_sum_x(pos, edges, k, i, upto) == attr_sum_x(pos, edges, k, i, upto - 1) + ta
            + tb);
        assert(attr_sum_y(pos, edges, k, i, upto) == attr_sum_y(pos, edges, k, i, upto - 1) + ua
            + ub);
        assert(-CONTRIB_MAX <= ta <= CONTRIB_MAX);
        assert(-CONTRIB_MAX <= tb <= CONTRIB_MAX);
        assert(-CONTRIB_MAX <= ua <= CONTRIB_MAX);
        assert(-CONTRIB_MAX <= ub <= CONTRIB_MAX);
        assert(2_000_000_000_000 * upto == 2_000_000_000_000 * (upto - 1) + 2_000_000_000_000);
    }
}

/// The whole displacement of one node stays far below the saturation
/// guard's reach in magnitude.
pub proof fn lemma_disp_bound(pos: Seq<Position>, edges: Seq<(usize, usize)>, k: int, i: int)
    requires
        forall|t: int| 0 <= t < pos.len() ==> in_canvas(#[trigger] pos[t]),
        forall|e: int|
            0 <= e < edges.len() ==> (#[trigger] edges[e]).0 < pos.len() && edges[e].1 < pos.len(),
        1 <= k <= K_MAX,
        0 <= i < pos.len(),
        pos.len() <= 0xFFFF_FFFF_FFFF_FFFF,
        edges.len() <= 0xFFFF_FFFF_FFFF_FFFF,
    ensures
        -0x1_0000_0000_0000_0000_0000_0000_0000 <= spec_disp_x(pos, edges, k, i)
            <= 0x1_0000_0000_0000_0000_0000_0000_0000,
        -0x1_0000_0000_0000_0000_0000_0000_0000 <= spec_disp_y(pos, edges, k, i)
            <= 0x1_0000_0000_0000_0000_0000_0000_0000,
{
    lemma_rep_sum_bound(pos, k, i, pos.len() as int);
    lemma_attr_sum_bound(pos, edges, k, i, edges.len() as int);
    lemma_contrib_bounds(pos[i], pos[i], k, true);
    let n = pos.len() as int;
    let m = edges.len() as int;
    assert(1_000_000_000_000 * n + 2_000_000_000_000 * m + 1_000_000_000_000
        <= 0x1_0000_0000_0000_0000_0000_0000_0000) by (nonlinear_arith)
        requires
            0 <= n <= 0xFFFF_FFFF_FFFF_FFFF,
            0 <= m <= 0xFFFF_FFFF_FFFF_FFFF,
    ;
}

// ---------------------------------------------------------------------------
// Integration: displacement to movement.
// ---------------------------------------------------------------------------

/// Saturates an accumulated displacement at the overflow guard.
pub open spec fn clamp_cap(v: int) -> int {
    if v > DISP_CAP {
        DISP_CAP as int
    } else if v < -DISP_CAP {
        -(DISP_CAP as int)
    } else {
        v
    }
}

/// Magnitude.
pub open spec fn abs_i(v: int) -> int {
    if v >= 0 {
        v
    } else {
        -v
    }
}

/// Clamps a coordinate into `[0, hi]`.
pub open spec fn clamp_coord(v: int, hi: int) -> int {
    if v < 0 {
        0
    } else if v > hi {
        hi
    } else {
        v
    }
}

/// Where a node moves under displacement `(rdx, rdy)`: the displacement
/// is capped, its length is limited to the temperature, the node moves
/// that far along it, and the result is clamped into the canvas. A zero
/// displacement leaves the node where it was.
pub open spec fn step_position(p: Position, rdx: int, rdy: int, temp: int) -> Position {
    let dx = clamp_cap(rdx);
    let dy = clamp_cap(rdy);
    let len = isqrt_spec(dx * dx + dy * dy);
    if len == 0 {
        p
    } else {
        let lim = if len > temp {
            temp
        } else {
            len
        };
        let mx = (abs_i(dx) * lim) / len;
        let my = (abs_i(dy) * lim) / len;
        let nx = if dx >= 0 {
            clamp_coord(p.x + mx, WIDTH as int)
        } else {
            clamp_coord(p.x - mx, WIDTH as int)
        };
        let ny = if dy >= 0 {
            clamp_coord(p.y + my, HEIGHT as int)
        } else {
            clamp_coord(p.y - my, HEIGHT as int)
        };
        Position { x: nx as u64, y: ny as u64 }
    }
}

/// A step never leaves the canvas.
pub proof fn lemma_step_in_canvas(p: Position, rdx: int, rdy: int, temp: int)
    requires
        in_canvas(p),
    ensures
        in_canvas(step_position(p, rdx, rdy, temp)),
{
}

/// One whole iteration: every node moves under its displacement, all
/// displacements taken against the same starting positions.
pub open spec fn iterate_positions(
    pos: Seq<Position>,
    edges: Seq<(usize, usize)>,
    k: int,
    temp: int,
) -> Seq<Position> {
    Seq::new(
        pos.len(),
        |i: int|
            step_position(pos[i], spec_disp_x(pos, edges, k, i), spec_disp_y(pos, edges, k, i), temp),
    )
}

/// `iters` iterations with the temperature cooling by 95/100 each time.
pub open spec fn run_positions(
    pos: Seq<Position>,
    edges: Seq<(usize, usize)>,
    k: int,
    temp: int,
    iters: nat,
) -> Seq<Position>
    decreases iters,
{
    if iters == 0 {
        pos
    } else {
        run_positions(
            iterate_positions(pos, edges, k, temp),
            edges,
            k,
            (temp * 95) / 100,
            (iters - 1) as nat,
        )
    }
}

/// The whole layout of `n` nodes under `edges`: seeded initialization,
/// the ideal edge length, the initial temperature, `iters` iterations.
pub open spec fn layout_positions(n: nat, edges: Seq<(usize, usize)>, iters: nat) -> Seq<Position> {
    run_positions(init_positions(n), edges, ideal_k(n), INITIAL_TEMPERATURE as int, iters)
}

/// A run keeps the node count.
pub proof fn lemma_run_len(
    pos: Seq<Position>,
    edges: Seq<(usize, usize)>,
    k: int,
    temp: int,
    iters: nat,
)
    ensures
        run_positions(pos, edges, k, temp, iters).len() == pos.len(),
    decreases iters,
{
    if iters == 0 {
    } else {
        lemma_run_len(iterate_positions(pos, edges, k, temp), edges, k, (temp * 95) / 100, (iters
            - 1) as nat);
    }
}

/// A run keeps every node on the canvas.
pub proof fn lemma_run_in_canvas(
    pos: Seq<Position>,
    edges: Seq<(usize, usize)>,
    k: int,
    temp: int,
    iters: nat,
)
    requires
        forall|t: int| 0 <= t < pos.len() ==> in_canvas(#[trigger] pos[t]),
    ensures
        forall|t: int|
            0 <= t < run_positions(pos, edges, k, temp, iters).len() ==> in_canvas(
                #[trigger] run_positions(pos, edges, k, temp, iters)[t],
            ),
    decreases iters,
{
    if iters == 0 {
    } else {
        let next = iterate_positions(pos, edges, k, temp);
        assert forall|t: int| 0 <= t < next.len() implies in_canvas(#[trigger] next[t]) by {
            lemma_step_in_canvas(
                pos[t],
                spec_disp_x(pos, edges, k, t),
                spec_disp_y(pos, edges, k, t),
                temp,
            );
        }
        lemma_run_in_canvas(next, edges, k, (temp * 95) / 100, (iters - 1) as nat);
        assert(run_positions(pos, edges, k, temp, iters) == run_positions(
            next,
            edges,
            k,
            (temp * 95) / 100,
            (iters - 1) as nat,
        ));
    }
}

/// A layout of no nodes is empty.
pub proof fn lemma_layout_empty(edges: Seq<(usize, usize)>, iters: nat)
    ensures
        layout_positions(0, edges, iters).len() == 0,
{
    lemma_run_len(init_positions(0), edges, ideal_k(0), INITIAL_TEMPERATURE as int, iters);
}

/// Every produced position lies on the canvas.
pub proof fn lemma_layout_in_canvas(n: nat, edges: Seq<(usize, usize)>, iters: nat)
    ensures
        forall|t: int|
            0 <= t < layout_positions(n, edges, iters).len() ==> in_canvas(
                #[trigger] layout_positions(n, edges, iters)[t],
            ),
{
    lemma_run_in_canvas(init_positions(n), edges, ideal_k(n), INITIAL_TEMPERATURE as int, iters);
}

/// The layout is a function of the graph alone: two results of the same
/// seeded run over the same nodes and edges are identical.
pub proof fn lemma_layout_deterministic(
    a: Seq<Position>,
    b: Seq<Position>,
    n: nat,
    edges: Seq<(usize, usize)>,
    iters: nat,
)
    requires
        a == layout_positions(n, edges, iters),
        b == layout_positions(n, edges, iters),
    ensures
        a == b,
{
}

// ---------------------------------------------------------------------------
// The engine.
// ---------------------------------------------------------------------------

/// The force-directed layout engine: a position per node, the ideal edge
/// length `k`, and the decaying temperature. It allocates its own
/// positions and never reads anything but the node count and the edge
/// list, so it cannot mutate the graph.
pub struct ForceDirectedLayout {
    pub positions: Vec<Position>,
    pub k: u64,
    pub temperature: u64,
}

impl ForceDirectedLayout {
    /// The engine's invariant: `k` in range, temperature below its start,
    /// every node on the canvas.
    pub open spec fn wf(self) -> bool {
        &&& 1 <= self.k <= K_MAX
        &&& self.temperature <= INITIAL_TEMPERATURE
        &&& forall|i: int|
            0 <= i < self.positions@.len() ==> in_canvas(#[trigger] self.positions@[i])
    }

    /// A fresh engine for `n` nodes: seeded positions, ideal edge length,
    /// initial temperature.
    pub fn new(n: usize) -> (engine: ForceDirectedLayout)
        requires
            n >= 1,
        ensures
            engine.wf(),
            engine.positions@ == init_positions(n as nat),
            engine.positions@.len() == n,
            engine.k == ideal_k(n as nat),
            engine.temperature == INITIAL_TEMPERATURE,
    {
        ForceDirectedLayout {
            positions: seed_positions(n),
            k: compute_k(n),
            temperature: INITIAL_TEMPERATURE,
        }
    }

    /// Repulsive magnitude at the given distance.
    pub fn calculate_repulsive_force(&self, distance: u64) -> (f: u64)
        requires
            self.wf(),
        ensures
            f == spec_repulsion(self.k as int, distance as int),
            f <= 1_000_000_000_000,
    {
        if distance == 0 {
            ZERO_DIST_REPULSION
        } else {
            proof {
                assert((self.k as int) * (self.k as int) <= 1_000_000_000_000) by (nonlinear_arith)
                    requires
                        1 <= self.k <= 1_000_000,
                ;
                lemma_div_le_num((self.k as int) * (self.k as int), distance as int);
            }
            (self.k * self.k) / distance
        }
    }

    /// Attractive magnitude at the given distance.
    pub fn calculate_attractive_force(&self, distance: u64) -> (f: u64)
        requires
            self.wf(),
            distance <= 1_000_000,
        ensures
            f == spec_attraction(self.k as int, distance as int),
            f <= 1_000_000_000_000,
    {
        proof {
            assert((distance as int) * (distance as int) <= 1_000_000_000_000) by (nonlinear_arith)
                requires
                    distance <= 1_000_000,
            ;
            lemma_div_le_num((distance as int) * (distance as int), self.k as int);
        }
        (distance * distance) / self.k
    }

    /// One iteration: every pair repels, every edge instance attracts its
    /// endpoints, the center pulls, each node moves at most the current
    /// temperature and is clamped into the canvas, and the temperature
    /// cools by 95/100. All forces are computed against the positions the
    /// iteration started from.
    #[verifier::loop_isolation(false)]
    #[verifier::rlimit(100)]
    pub fn iterate(&mut self, edges: &Vec<(usize, usize)>)
        requires
            old(self).wf(),
            forall|e: int|
                0 <= e < edges@.len() ==> (#[trigger] edges@[e]).0 < old(self).positions@.len()
                    && edges@[e].1 < old(self).positions@.len(),
        ensures
            final(self).wf(),
            final(self).k == old(self).k,
            final(self).positions@ == iterate_positions(
                old(self).positions@,
                edges@,
                old(self).k as int,
                old(self).temperature as int,
            ),
            final(self).temperature == old(self).temperature * 95 / 100,
    {
        let n = self.positions.len();
        let ghost pos0 = self.positions@;
        let ghost kk = self.k as int;
        let ghost temp0 = self.temperature as int;
        let ghost m = edges@.len() as int;

        let mut disp: Vec<(i128, i128)> = Vec::new();
        let mut z: usize = 0;
        while z < n
            invariant
                z <= n,
                disp@.len() == z,
                forall|t: int| 0 <= t < z ==> disp@[t] == (0i128, 0i128),
            decreases n - z,
        {
            disp.push((0i128, 0i128));
            z = z + 1;
        }

        // Repulsion: node i against every other node.
        let mut i: usize = 0;
        while i < n
            invariant
                i <= n,
                n == self.positions@.len(),
                self.positions@ == pos0,
                self.k == old(self).k,
                self.temperature == old(self).temperature,
                self.wf(),
                disp@.len() == n,
                forall|t: int|
                    0 <= t < i ==> (#[trigger] disp@[t]).0 == rep_sum_x(pos0, kk, t, n as int)
                        && disp@[t].1 == rep_sum_y(pos0, kk, t, n as int),
                forall|t: int| i <= t < n ==> disp@[t] == (0i128, 0i128),
            decreases n - i,
        {
            let mut ax: i128 = 0;
            let mut ay: i128 = 0;
            let mut j: usize = 0;
            while j < n
                invariant
                    i < n,
                    j <= n,
                    n == self.positions@.len(),
                    self.positions@ == pos0,
                    self.k == old(self).k,
                    self.temperature == old(self).temperature,
                    self.wf(),
                    kk == self.k as int,
                    ax == rep_sum_x(pos0, kk, i as int, j as int),
                    ay == rep_sum_y(pos0, kk, i as int, j as int),
                decreases n - j,
            {
                proof {
                    lemma_rep_sum_bound(pos0, kk, i as int, j as int);
                }
                if j != i {
                    let pi = self.positions[i];
                    let pj = self.positions[j];
                    let d = pi.distance(&pj);
                    proof {
                        lemma_contrib_bounds(pi, pj, kk, (i as int) < (j as int));
                        lemma_dist_bounds(pi, pj);
                    }
                    let cx: i128;
                    let cy: i128;
                    if d == 0 {
                        if i < j {
                            cx = ZERO_DIST_REPULSION as i128;
                        } else {
                            cx = -(ZERO_DIST_REPULSION as i128);
                        }
                        cy = 0;
                    } else {
                        let f = self.calculate_repulsive_force(d);
                        proof {
                            lemma_axis_le_dist(pi, pj);
                        }
                        cx = axis_component(pi.x, pj.x, f, d);
                        cy = axis_component(pi.y, pj.y, f, d);
                    }
                    proof {
                        assert(cx == spec_rep_x(pos0[i as int], pos0[j as int], kk, (i as int) < (
                        j as int)));
                        assert(cy == spec_rep_y(pos0[i as int], pos0[j as int], kk, (i as int) < (
                        j as int)));
                    }
                    ax = ax + cx;
                    ay = ay + cy;
                }
                j = j + 1;
            }
            disp[i] = (ax, ay);
            i = i + 1;
        }

        // Attraction: every edge instance pulls both endpoints.
        let mut e: usize = 0;
        while e < edges.len()
            invariant
                e <= edges@.len(),
                n == self.positions@.len(),
                self.positions@ == pos0,
                self.k == old(self).k,
                self.temperature == old(self).temperature,
                self.wf(),
                kk == self.k as int,
                disp@.len() == n,
                forall|ee: int|
                    0 <= ee < edges@.len() ==> (#[trigger] edges@[ee]).0 < n && edges@[ee].1 < n,
                forall|t: int|
                    0 <= t < n ==> (#[trigger] disp@[t]).0 == rep_sum_x(pos0, kk, t, n as int)
                        + attr_sum_x(pos0, edges@, kk, t, e as int) && disp@[t].1 == rep_sum_y(
                        pos0,
                        kk,
                        t,
                        n as int,
                    ) + attr_sum_y(pos0, edges@, kk, t, e as int),
            decreases edges@.len() - e,
        {
            let (a, b) = edges[e];
            let pa = self.positions[a];
            let pb = self.positions[b];
            let d = pa.distance(&pb);
            proof {
                lemma_dist_bounds(pa, pb);
                lemma_contrib_bounds(pa, pb, kk, true);
                lemma_contrib_bounds(pb, pa, kk, true);
                lemma_rep_sum_bound(pos0, kk, a as int, n as int);
                lemma_rep_sum_bound(pos0, kk, b as int, n as int);
                lemma_attr_sum_bound(pos0, edges@, kk, a as int, e as int);
                lemma_attr_sum_bound(pos0, edges@, kk, b as int, e as int);
            }
            if d > 0 {
                let f = self.calculate_attractive_force(d);
                proof {
                    lemma_axis_le_dist(pa, pb);
                    lemma_axis_le_dist(pb, pa);
                }
                let cxa = axis_component(pb.x, pa.x, f, d);
                let cya = axis_component(pb.y, pa.y, f, d);
                let cxb = axis_component(pa.x, pb.x, f, d);
                let cyb = axis_component(pa.y, pb.y, f, d);
                proof {
                    lemma_dist_symm(pa, pb);
                    assert(cxa == spec_attr_x(pos0[a as int], pos0[b as int], kk));
                    assert(cya == spec_attr_y(pos0[a as int], pos0[b as int], kk));
                    assert(cxb == spec_attr_x(pos0[b as int], pos0[a as int], kk));
                    assert(cyb == spec_attr_y(pos0[b as int], pos0[a as int], kk));
                }
                let (dxa, dya) = disp[a];
                disp[a] = (dxa + cxa, dya + cya);
                let (dxb, dyb) = disp[b];
                disp[b] = (dxb + cxb, dyb + cyb);
            }
            proof {
                assert forall|t: int| 0 <= t < n implies (#[trigger] disp@[t]).0 == rep_sum_x(
                    pos0,
                    kk,
                    t,
                    n as int,
                ) + attr_sum_x(pos0, edges@, kk, t, e + 1int) && disp@[t].1 == rep_sum_y(
                    pos0,
                    kk,
                    t,
                    n as int,
                ) + attr_sum_y(pos0, edges@, kk, t, e + 1int) by {
                    if d == 0 {
                        lemma_dist_symm(pa, pb);
                        assert(spec_attr_x(pos0[a as int], pos0[b as int], kk) == 0);
                        assert(spec_attr_y(pos0[a as int], pos0[b as int], kk) == 0);
                        assert(spec_attr_x(pos0[b as int], pos0[a as int], kk) == 0);
                        assert(spec_attr_y(pos0[b as int], pos0[a as int], kk) == 0);
                    }
                }
            }
            e = e + 1;
        }

        // Centering pull and integration.
        let mut i: usize = 0;
        while i < n
            invariant
                i <= n,
                n == self.positions@.len(),
                n == pos0.len(),
                self.k == old(self).k,
                self.temperature == old(self).temperature,
                kk == self.k as int,
                temp0 == self.temperature as int,
                1 <= self.k <= K_MAX,
                self.temperature <= INITIAL_TEMPERATURE,
                m == edges@.len() as int,
                forall|ee: int|
                    0 <= ee < edges@.len() ==> (#[trigger] edges@[ee]).0 < n && edges@[ee].1 < n,
                forall|t: int| 0 <= t < pos0.len() ==> in_canvas(#[trigger] pos0[t]),
                disp@.len() == n,
                forall|t: int|
                    0 <= t < n ==> (#[trigger] disp@[t]).0 == rep_sum_x(pos0, kk, t, n as int)
                        + attr_sum_x(pos0, edges@, kk, t, m) && disp@[t].1 == rep_sum_y(
                        pos0,
                        kk,
                        t,
                        n as int,
                    ) + attr_sum_y(pos0, edges@, kk, t, m),
                forall|t: int|
                    0 <= t < i ==> #[trigger] self.positions@[t] == step_position(
                        pos0[t],
                        spec_disp_x(pos0, edges@, kk, t),
                        spec_disp_y(pos0, edges@, kk, t),
                        temp0,
                    ),
                forall|t: int| i <= t < n ==> #[trigger] self.positions@[t] == pos0[t],
            decreases n - i,
        {
            let p = self.positions[i];
            proof {
                assert(p == pos0[i as int]);
                lemma_contrib_bounds(p, p, kk, true);
                lemma_rep_sum_bound(pos0, kk, i as int, n as int);
                lemma_attr_sum_bound(pos0, edges@, kk, i as int, m);
            }
            let gx = axis_component(CENTER_X, p.x, self.k, GRAVITY_DIVISOR);
            let gy = axis_component(CENTER_Y, p.y, self.k, GRAVITY_DIVISOR);
            let (sx, sy) = disp[i];
            proof {
                lemma_disp_bound(pos0, edges@, kk, i as int);
                assert(sx + gx == spec_disp_x(pos0, edges@, kk, i as int));
                assert(sy + gy == spec_disp_y(pos0, edges@, kk, i as int));
            }
            let tx = sx + gx;
            let ty = sy + gy;
            proof {
                assert(tx == spec_disp_x(pos0, edges@, kk, i as int));
                assert(ty == spec_disp_y(pos0, edges@, kk, i as int));
            }
            let cdx: i128 = if tx > DISP_CAP {
                DISP_CAP
            } else if tx < -DISP_CAP {
                -DISP_CAP
            } else {
                tx
            };
            let cdy: i128 = if ty > DISP_CAP {
                DISP_CAP
            } else if ty < -DISP_CAP {
                -DISP_CAP
            } else {
                ty
            };
            let mxm: u128 = if cdx >= 0 {
                cdx as u128
            } else {
                (-cdx) as u128
            };
            let mym: u128 = if cdy >= 0 {
                cdy as u128
            } else {
                (-cdy) as u128
            };
            proof {
                assert((mxm as int) * (mxm as int) == (cdx as int) * (cdx as int))
                    by (nonlinear_arith)
                    requires
                        mxm == cdx || mxm as int == -(cdx as int),
                ;
                assert((mym as int) * (mym as int) == (cdy as int) * (cdy as int))
                    by (nonlinear_arith)
                    requires
                        mym == cdy || mym as int == -(cdy as int),
                ;
                assert((mxm as int) * (mxm as int) <= 0x100_0000_0000_0000 * 0x100_0000_0000_0000)
                    by (nonlinear_arith)
                    requires
                        0 <= mxm <= 0x100_0000_0000_0000,
                ;
                assert((mym as int) * (mym as int) <= 0x100_0000_0000_0000 * 0x100_0000_0000_0000)
                    by (nonlinear_arith)
                    requires
                        0 <= mym <= 0x100_0000_0000_0000,
                ;
            }
            let len2: u128 = mxm * mxm + mym * mym;
            let len128 = isqrt128(len2);
            proof {
                lemma_component_le_isqrt(mxm as int, mym as int);
                lemma_component_le_isqrt(mym as int, mxm as int);
                assert((mym as int) * (mym as int) + (mxm as int) * (mxm as int) == len2);
            }
            if len128 == 0 {
                proof {
                    assert(self.positions@[i as int] == step_position(
                        pos0[i as int],
                        spec_disp_x(pos0, edges@, kk, i as int),
                        spec_disp_y(pos0, edges@, kk, i as int),
                        temp0,
                    ));
                }
            } else {
                let len: u64 = len128 as u64;
                let lim: u64 = if len128 > self.temperature as u128 {
                    self.temperature
                } else {
                    len
                };
                proof {
                    assert((mxm as int) * (lim as int) <= (len as int) * (lim as int))
                        by (nonlinear_arith)
                        requires
                            0 <= mxm <= len as int,
                            0 <= lim,
                    ;
                    assert((mym as int) * (lim as int) <= (len as int) * (lim as int))
                        by (nonlinear_arith)
                        requires
                            0 <= mym <= len as int,
                            0 <= lim,
                    ;
                    assert((len as int) * (lim as int) <= 0x1_0000_0000_0000_0000 * 0x1_0000_0000_0000_0000)
                        by (nonlinear_arith)
                        requires
                            0 <= (len as int) && (len as int) < 0x1_0000_0000_0000_0000,
                            0 <= (lim as int) && (lim as int) < 0x1_0000_0000_0000_0000,
                    ;
                    lemma_scaled_div_le(mxm as int, lim as int, len as int);
                    lemma_scaled_div_le(mym as int, lim as int, len as int);
                    assert((mxm as int) * (lim as int) <= 0x100_0000_0000_0000 * 80_000)
                        by (nonlinear_arith)
                        requires
                            0 <= mxm <= 0x100_0000_0000_0000,
                            0 <= lim <= 80_000,
                    ;
                    assert((mym as int) * (lim as int) <= 0x100_0000_0000_0000 * 80_000)
                        by (nonlinear_arith)
                        requires
                            0 <= mym <= 0x100_0000_0000_0000,
                            0 <= lim <= 80_000,
                    ;
                }
                let mvx: u64 = ((mxm * (lim as u128)) / len128) as u64;
                let mvy: u64 = ((mym * (lim as u128)) / len128) as u64;
                proof {
                    assert((mxm as int) * (lim as int) / (len as int) == abs_i(cdx as int) * (
                    if (len as int) > temp0 {
                        temp0
                    } else {
                        len as int
                    }) / (len as int));
                }
                let nx: u64 = if cdx >= 0 {
                    let s = p.x + mvx;
                    if s > WIDTH {
                        WIDTH
                    } else {
                        s
                    }
                } else {
                    if mvx > p.x {
                        0
                    } else {
                        p.x - mvx
                    }
                };
                let ny: u64 = if cdy >= 0 {
                    let s = p.y + mvy;
                    if s > HEIGHT {
                        HEIGHT
                    } else {
                        s
                    }
                } else {
                    if mvy > p.y {
                        0
                    } else {
                        p.y - mvy
                    }
                };
                let np = Position { x: nx, y: ny };
                proof {
                    assert(np == step_position(
                        pos0[i as int],
                        spec_disp_x(pos0, edges@, kk, i as int),
                        spec_disp_y(pos0, edges@, kk, i as int),
                        temp0,
                    ));
                }
                self.positions[i] = np;
            }
            i = i + 1;
        }
        self.temperature = self.temperature * 95 / 100;
        proof {
            assert(self.positions@ =~= iterate_positions(pos0, edges@, kk, temp0));
            assert forall|t: int| 0 <= t < self.positions@.len() implies in_canvas(
                #[trigger] self.positions@[t],
            ) by {
                lemma_step_in_canvas(
                    pos0[t],
                    spec_disp_x(pos0, edges@, kk, t),
                    spec_disp_y(pos0, edges@, kk, t),
                    temp0,
                );
            }
        }
    }

    /// Runs the fixed iteration budget, with no early convergence check.
    pub fn run(&mut self, edges: &Vec<(usize, usize)>, iterations: usize)
        requires
            old(self).wf(),
            forall|e: int|
                0 <= e < edges@.len() ==> (#[trigger] edges@[e]).0 < old(self).positions@.len()
                    && edges@[e].1 < old(self).positions@.len(),
        ensures
            final(self).wf(),
            final(self).k == old(self).k,
            final(self).positions@ == run_positions(
                old(self).positions@,
                edges@,
                old(self).k as int,
                old(self).temperature as int,
                iterations as nat,
            ),
    {
        let mut it: usize = 0;
        while it < iterations
            invariant
                it <= iterations,
                self.wf(),
                self.k == old(self).k,
                forall|e: int|
                    0 <= e < edges@.len() ==> (#[trigger] edges@[e]).0 < self.positions@.len()
                        && edges@[e].1 < self.positions@.len(),
                run_positions(
                    old(self).positions@,
                    edges@,
                    old(self).k as int,
                    old(self).temperature as int,
                    iterations as nat,
                ) == run_positions(
                    self.positions@,
                    edges@,
                    self.k as int,
                    self.temperature as int,
                    (iterations - it) as nat,
                ),
            decreases iterations - it,
        {
            self.iterate(edges);
            it = it + 1;
        }
    }
}

} // verus!
