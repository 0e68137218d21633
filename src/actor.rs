use vstd::arithmetic::div_mod::lemma_fundamental_div_mod_converse;
use vstd::prelude::*;

verus! {

/// Sub-pixel units in one pixel: positions are in thousandths of a pixel.
pub const UNITS_PER_PIXEL: i64 = 1000;

/// Microseconds in one second: times and time steps are in microseconds.
pub const MICROS_PER_SEC: i64 = 1_000_000;

/// Largest magnitude of a position coordinate (2^50 units).
pub const POS_LIMIT: i64 = 1_125_899_906_842_624;

/// Largest magnitude of a velocity component (2^40 units per second).
pub const VEL_LIMIT: i64 = 1_099_511_627_776;

/// Largest time step that one physics tick accepts (one second).
pub const MAX_DELTA: i64 = 1_000_000;

/// Largest screen extent on either axis, in units (2^42).
pub const MAX_EXTENT: i64 = 4_398_046_511_104;

/// Speed limit of every actor, in units per second (950 pixels per second).
pub const MAX_PHYSICS_VEL: i64 = 950_000;

/// One full turn in microradians, the unit of `facing` and `ang_vel`.
pub const TURN: i64 = 6_283_185;

pub const PLAYER_BBOX: i64 = 12_000;
pub const ROCK_BBOX: i64 = 12_000;
pub const SHOT_BBOX: i64 = 6_000;

/// Spin of a shot, in microradians per tick.
pub const SHOT_ANG_VEL: i64 = 100_000;

/// Upper bound (exclusive) of a rock's random spin, in microradians per tick.
pub const ROCK_SPIN_MAX: i64 = 20_000;

/// The role of an actor.
#[derive(Debug, Clone, Copy, PartialEq, Eq, Structural)]
pub enum ActorType {
    Player,
    Rock,
    Shot,
}

/// A pair of fixed-point coordinates (a position or a velocity).
#[derive(Debug, Clone, Copy, PartialEq, Eq, Structural)]
pub struct Vector2 {
    pub x: i64,
    pub y: i64,
}

/// Anything simulated in the game world: a ship, a rock or a shot.
#[derive(Debug, Clone, Copy, PartialEq, Eq, Structural)]
pub struct Actor {
    pub tag: ActorType,
    /// Position in units; the origin is the screen's centre, y points up.
    pub pos: Vector2,
    /// Heading in microradians, kept in `[0, TURN)`.
    pub facing: i64,
    /// Velocity in units per second.
    pub velocity: Vector2,
    /// Turn per tick in microradians.
    pub ang_vel: i64,
    /// Collision radius in units; fixed by the role.
    pub bbox_size: i64,
    pub kill: bool,
}

pub open spec fn bbox_of(tag: ActorType) -> int {
    match tag {
        ActorType::Player => PLAYER_BBOX as int,
        ActorType::Rock => ROCK_BBOX as int,
        ActorType::Shot => SHOT_BBOX as int,
    }
}

pub open spec fn abs(a: int) -> int {
    if a >= 0 { a } else { -a }
}

pub open spec fn pos_ok(v: Vector2) -> bool {
    abs(v.x as int) <= POS_LIMIT && abs(v.y as int) <= POS_LIMIT
}

pub open spec fn vel_ok(v: Vector2) -> bool {
    abs(v.x as int) <= VEL_LIMIT && abs(v.y as int) <= VEL_LIMIT
}

/// Division that rounds toward zero, as integer division does in Rust.
pub open spec fn tdiv(a: int, b: int) -> int {
    if a >= 0 { a / b } else { -((-a) / b) }
}

pub open spec fn speed_sq(v: Vector2) -> int {
    v.x as int * v.x as int + v.y as int * v.y as int
}

/// `s` is the ceiling of the square root of `n`.
pub open spec fn is_ceil_sqrt(n: int, s: int) -> bool {
    s >= 0 && s * s >= n && (s == 0 || (s - 1) * (s - 1) < n)
}

pub open spec fn ceil_sqrt(n: int) -> int {
    choose|s: int| is_ceil_sqrt(n, s)
}

/// The velocity after the speed limit: rescaled to `MAX_PHYSICS_VEL` when
/// faster, its direction kept (each component rounds toward zero).
pub open spec fn clamped_velocity(v: Vector2) -> Vector2 {
    if speed_sq(v) > MAX_PHYSICS_VEL * MAX_PHYSICS_VEL {
        let s = ceil_sqrt(speed_sq(v));
        Vector2 {
            x: tdiv(v.x * MAX_PHYSICS_VEL, s) as i64,
            y: tdiv(v.y * MAX_PHYSICS_VEL, s) as i64,
        }
    } else {
        v
    }
}

pub open spec fn clamp_coord(a: int) -> int {
    if a > POS_LIMIT {
        POS_LIMIT as int
    } else if a < -POS_LIMIT {
        -POS_LIMIT
    } else {
        a
    }
}

/// One coordinate moved by `vel` for `delta` microseconds.
pub open spec fn moved(p: i64, vel: i64, delta: int) -> i64 {
    clamp_coord(p + tdiv(vel * delta, MICROS_PER_SEC as int)) as i64
}

pub open spec fn turned(facing: i64, ang_vel: i64) -> i64 {
    ((facing + ang_vel) % (TURN as int)) as i64
}

/// `a` after one physics step of `delta` microseconds.
pub open spec fn physics_step(a: Actor, delta: int) -> Actor {
    let v = clamped_velocity(a.velocity);
    Actor {
        velocity: v,
        pos: Vector2 { x: moved(a.pos.x, v.x, delta), y: moved(a.pos.y, v.y, delta) },
        facing: turned(a.facing, a.ang_vel),
        ..a
    }
}

/// One coordinate wrapped into the screen: past half the extent it moves by
/// the full extent to the opposite side.
pub open spec fn wrapped(p: i64, extent: int) -> i64 {
    let half = extent / 2;
    if p > half {
        (p - extent) as i64
    } else if p < -half {
        (p + extent) as i64
    } else {
        p
    }
}

pub open spec fn outside(p: i64, extent: int) -> bool {
    p > extent / 2 || p < -(extent / 2)
}

pub open spec fn extents_ok(sx: i64, sy: i64) -> bool {
    0 < sx <= MAX_EXTENT && 0 < sy <= MAX_EXTENT
}

/// Screen coordinates of a world point: the origin moves to the top-left
/// corner and y turns to point down.
pub open spec fn to_screen(width: int, height: int, p: Vector2) -> Vector2 {
    Vector2 { x: (p.x + width / 2) as i64, y: (height - (p.y + height / 2)) as i64 }
}

/// Translates a world position (origin at the centre, y up) to the screen's
/// (origin at the top-left, y down), both in units, on a screen of `width`
/// by `height` units.
pub fn world_to_screen_coords(width: i64, height: i64, point: Vector2) -> (r: Vector2)
    requires
        extents_ok(width, height),
        pos_ok(point),
    ensures
        r == to_screen(width as int, height as int, point),
{
    Vector2 { x: point.x + width / 2, y: height - (point.y + height / 2) }
}

/// A uniform 32-bit draw mapped onto `[0, bound)`.
pub open spec fn scaled(draw: u32, bound: u64) -> int {
    (draw as int * bound as int) / 0x1_0000_0000
}

/// Maps a uniform 32-bit draw onto `[0, bound)` (onto zero when `bound` is zero).
pub fn scale_draw(draw: u32, bound: u64) -> (r: u64)
    requires
        bound <= 0x1_0000_0000_0000,
    ensures
        r == scaled(draw, bound),
        r <= bound,
        bound > 0 ==> r < bound,
{
    if bound == 0 {
        return 0;
    }
    assert(draw as int * bound < bound * 0x1_0000_0000) by (nonlinear_arith)
        requires draw < 0x1_0000_0000, bound > 0;
    assert(bound * 0x1_0000_0000 <= 0x1_0000_0000_0000_0000_0000) by (nonlinear_arith)
        requires bound <= 0x1_0000_0000_0000;
    let p = draw as u128 * bound as u128;
    let r = p / 0x1_0000_0000;
    assert(r < bound) by (nonlinear_arith) requires r == p / 0x1_0000_0000, p < bound * 0x1_0000_0000;
    r as u64
}

/// Quotient rounded toward zero.
fn trunc_div(a: i128, b: i128) -> (r: i128)
    requires
        b > 0,
        -0x1000_0000_0000_0000_0000_0000_0000_0000 < a < 0x1000_0000_0000_0000_0000_0000_0000_0000,
    ensures
        r == tdiv(a as int, b as int),
{
    if a >= 0 {
        a / b
    } else {
        let q = (-a) / b;
        -q
    }
}

pub(crate) proof fn lemma_square_monotone(a: int, b: int)
    requires
        0 <= a <= b,
    ensures
        a * a <= b * b,
{
    assert(a * a <= b * b) by (nonlinear_arith)
        requires
            0 <= a <= b,
    ;
}

proof fn lemma_ceil_sqrt_unique(n: int, s: int)
    requires
        is_ceil_sqrt(n, s),
    ensures
        ceil_sqrt(n) == s,
{
    let t = ceil_sqrt(n);
    assert(is_ceil_sqrt(n, t));
    if t < s {
        lemma_square_monotone(t, s - 1);
    } else if s < t {
        lemma_square_monotone(s, t - 1);
    }
}

/// Smallest `s` with `s * s >= n`.
pub(crate) fn ceil_sqrt_exec(n: i128) -> (s: i128)
    requires
        0 <= n <= 0x4_0000_0000_0000_0000_0000,
    ensures
        is_ceil_sqrt(n as int, s as int),
        s <= 0x200_0000_0000,
{
    if n == 0 {
        return 0;
    }
    let mut lo: i128 = 0;
    let mut hi: i128 = 0x200_0000_0000;
    assert(hi * hi == 0x4_0000_0000_0000_0000_0000);
    while hi - lo > 1
        invariant
            0 <= lo < hi <= 0x200_0000_0000,
            lo * lo < n,
            hi * hi >= n,
        decreases hi - lo,
    {
        let mid = lo + (hi - lo) / 2;
        proof { lemma_square_monotone(mid as int, 0x200_0000_0000); }
        if mid * mid >= n {
            hi = mid;
        } else {
            lo = mid;
        }
    }
    hi
}

/// `a` reduced into `[0, TURN)`.
fn normalize_angle(a: i64) -> (r: i64)
    requires
        -2 * TURN <= a < 2 * TURN,
    ensures
        r == a % TURN,
        0 <= r < TURN,
{
    let ghost t = TURN as int;
    if a >= TURN {
        proof { lemma_fundamental_div_mod_converse(a as int, t, 1, a - t); }
        a - TURN
    } else if a >= 0 {
        proof { lemma_fundamental_div_mod_converse(a as int, t, 0, a as int); }
        a
    } else if a >= -TURN {
        proof { lemma_fundamental_div_mod_converse(a as int, t, -1, a + t); }
        a + TURN
    } else {
        proof { lemma_fundamental_div_mod_converse(a as int, t, -2, a + 2 * t); }
        a + 2 * TURN
    }
}

impl Actor {
    /// Well-formed: coordinates within their limits, heading normalised, the
    /// radius the one that the role fixes.
    pub open spec fn wf(&self) -> bool {
        &&& pos_ok(self.pos)
        &&& vel_ok(self.velocity)
        &&& 0 <= self.facing < TURN
        &&& abs(self.ang_vel as int) <= TURN
        &&& self.bbox_size == bbox_of(self.tag)
    }

    pub open spec fn fresh(tag: ActorType, ang_vel: i64) -> Actor {
        Actor {
            tag,
            pos: Vector2 { x: 0, y: 0 },
            facing: 0,
            velocity: Vector2 { x: 0, y: 0 },
            ang_vel,
            bbox_size: bbox_of(tag) as i64,
            kill: false,
        }
    }

    pub fn create_player_actor() -> (r: Actor)
        ensures
            r == Actor::fresh(ActorType::Player, 0),
            r.wf(),
    {
        Actor {
            tag: ActorType::Player,
            pos: Vector2 { x: 0, y: 0 },
            facing: 0,
            velocity: Vector2 { x: 0, y: 0 },
            ang_vel: 0,
            bbox_size: PLAYER_BBOX,
            kill: false,
        }
    }

    pub fn create_shot() -> (r: Actor)
        ensures
            r == Actor::fresh(ActorType::Shot, SHOT_ANG_VEL),
            r.wf(),
    {
        Actor {
            tag: ActorType::Shot,
            pos: Vector2 { x: 0, y: 0 },
            facing: 0,
            velocity: Vector2 { x: 0, y: 0 },
            ang_vel: SHOT_ANG_VEL,
            bbox_size: SHOT_BBOX,
            kill: false,
        }
    }

    /// A rock at the origin with the given spin (microradians per tick).
    pub fn create_rock_with_spin(ang_vel: i64) -> (r: Actor)
        requires
            0 <= ang_vel < ROCK_SPIN_MAX,
        ensures
            r == Actor::fresh(ActorType::Rock, ang_vel),
            r.wf(),
    {
        Actor {
            tag: ActorType::Rock,
            pos: Vector2 { x: 0, y: 0 },
            facing: 0,
            velocity: Vector2 { x: 0, y: 0 },
            ang_vel,
            bbox_size: ROCK_BBOX,
            kill: false,
        }
    }

    /// A rock at the origin with a random spin below `ROCK_SPIN_MAX`.
    pub fn create_rock() -> (r: Actor)
        ensures
            r.wf(),
            r.tag == ActorType::Rock,
            0 <= r.ang_vel < ROCK_SPIN_MAX,
            r == Actor::fresh(ActorType::Rock, r.ang_vel),
    {
        let draw: u32 = rand::random::<u32>();
        Actor::create_rock_with_spin(scale_draw(draw, ROCK_SPIN_MAX as u64) as i64)
    }

    /// Moves the actor by one screen extent toward the centre on each axis
    /// where it is past half the extent (the screen is a torus).
    pub fn wrap_position(&mut self, sx: i64, sy: i64)
        requires
            old(self).wf(),
            extents_ok(sx, sy),
        ensures
            *final(self) == (Actor {
                pos: Vector2 { x: wrapped(old(self).pos.x, sx as int), y: wrapped(old(self).pos.y, sy as int) },
                ..*old(self)
            }),
            final(self).wf(),
    {
        let half_x = sx / 2;
        let half_y = sy / 2;
        if self.pos.x > half_x {
            self.pos.x = self.pos.x - sx;
        } else if self.pos.x < -half_x {
            self.pos.x = self.pos.x + sx;
        }
        if self.pos.y > half_y {
            self.pos.y = self.pos.y - sy;
        } else if self.pos.y < -half_y {
            self.pos.y = self.pos.y + sy;
        }
    }

    /// Whether the actor is past half the screen extent on some axis.
    pub fn is_out_of_bounds(&self, sx: i64, sy: i64) -> (r: bool)
        requires
            extents_ok(sx, sy),
        ensures
            r == (outside(self.pos.x, sx as int) || outside(self.pos.y, sy as int)),
    {
        let half_x = sx / 2;
        let half_y = sy / 2;
        self.pos.x > half_x || self.pos.x < -half_x || self.pos.y > half_y || self.pos.y < -half_y
    }

    /// Applies the speed limit, then moves the actor by its velocity for
    /// `delta` microseconds and turns it by its spin (a fixed turn per tick).
    pub fn tick_physics(&mut self, delta: i64)
        requires
            old(self).wf(),
            0 <= delta <= MAX_DELTA,
        ensures
            *final(self) == physics_step(*old(self), delta as int),
            final(self).wf(),
    {
        let vx = self.velocity.x as i128;
        let vy = self.velocity.y as i128;
        proof {
            lemma_square_bound(vx as int);
            lemma_square_bound(vy as int);
        }
        let norm_sq = vx * vx + vy * vy;
        let limit = MAX_PHYSICS_VEL as i128;
        if norm_sq > limit * limit {
            let s = ceil_sqrt_exec(norm_sq);
            proof {
                lemma_ceil_sqrt_unique(norm_sq as int, s as int);
                assert(s > MAX_PHYSICS_VEL) by {
                    if s <= MAX_PHYSICS_VEL {
                        lemma_square_monotone(s as int, MAX_PHYSICS_VEL as int);
                    }
                }
            }
            let nx = trunc_div(vx * limit, s);
            let ny = trunc_div(vy * limit, s);
            proof { lemma_scaled_bound(vx as int, s as int); lemma_scaled_bound(vy as int, s as int); }
            self.velocity = Vector2 { x: nx as i64, y: ny as i64 };
        }
        proof {
            lemma_step_bound(self.velocity.x as int, delta as int);
            lemma_step_bound(self.velocity.y as int, delta as int);
        }
        let dx = trunc_div(self.velocity.x as i128 * delta as i128, MICROS_PER_SEC as i128);
        let dy = trunc_div(self.velocity.y as i128 * delta as i128, MICROS_PER_SEC as i128);
        self.pos = Vector2 { x: clamp_coord_exec(self.pos.x + dx as i64), y: clamp_coord_exec(self.pos.y + dy as i64) };
        self.facing = normalize_angle(self.facing + self.ang_vel);
    }
}

proof fn lemma_square_bound(v: int)
    requires
        abs(v) <= VEL_LIMIT,
    ensures
        0 <= v * v <= 0x1_0000_0000_0000_0000_0000,
{
    if v >= 0 {
        lemma_square_monotone(v, VEL_LIMIT as int);
    } else {
        lemma_square_monotone(-v, VEL_LIMIT as int);
        assert(v * v == (-v) * (-v)) by (nonlinear_arith);
    }
}

/// Rounding toward zero: `q * s` lies within `s` of `a`, on the side of zero.
proof fn lemma_tdiv_bounds(a: int, s: int)
    requires
        s > 0,
    ensures
        a >= 0 ==> tdiv(a, s) >= 0 && tdiv(a, s) * s <= a < (tdiv(a, s) + 1) * s,
        a < 0 ==> tdiv(a, s) <= 0 && (tdiv(a, s) - 1) * s < a <= tdiv(a, s) * s,
{
    if a >= 0 {
        vstd::arithmetic::div_mod::lemma_fundamental_div_mod(a, s);
        assert(0 <= a % s < s);
        assert(a / s >= 0) by (nonlinear_arith) requires a >= 0, s > 0, a == s * (a / s) + a % s, a % s < s;
        assert((a / s) * s <= a < (a / s + 1) * s) by (nonlinear_arith)
            requires a == s * (a / s) + a % s, 0 <= a % s < s;
    } else {
        let b = -a;
        vstd::arithmetic::div_mod::lemma_fundamental_div_mod(b, s);
        assert(0 <= b % s < s);
        assert(b / s >= 0) by (nonlinear_arith) requires b > 0, s > 0, b == s * (b / s) + b % s, b % s < s;
        assert((b / s) * s <= b < (b / s + 1) * s) by (nonlinear_arith)
            requires b == s * (b / s) + b % s, 0 <= b % s < s;
        assert(tdiv(a, s) == -(b / s));
        assert((-(b / s) - 1) * s == -((b / s + 1) * s)) by (nonlinear_arith);
        assert(-(b / s) * s == -((b / s) * s)) by (nonlinear_arith);
    }
}

/// The magnitude of one rescaled component, in terms of the old one.
proof fn lemma_rescaled_component(v: int, s: int)
    requires
        s > MAX_PHYSICS_VEL,
    ensures
        abs(tdiv(v * MAX_PHYSICS_VEL, s)) * s <= abs(v) * MAX_PHYSICS_VEL,
        abs(v) * MAX_PHYSICS_VEL < (abs(tdiv(v * MAX_PHYSICS_VEL, s)) + 1) * s,
        v >= 0 ==> tdiv(v * MAX_PHYSICS_VEL, s) >= 0,
        v <= 0 ==> tdiv(v * MAX_PHYSICS_VEL, s) <= 0,
{
    let m = MAX_PHYSICS_VEL as int;
    lemma_tdiv_bounds(v * m, s);
    if v >= 0 {
        assert(v * m >= 0) by (nonlinear_arith) requires v >= 0, m > 0;
    } else {
        assert(v * m < 0) by (nonlinear_arith) requires v < 0, m > 0;
        let q = tdiv(v * m, s);
        assert(abs(v) * m == -(v * m)) by (nonlinear_arith) requires v < 0;
        assert(abs(q) * s == -(q * s)) by (nonlinear_arith) requires q <= 0;
        assert((abs(q) + 1) * s == -((q - 1) * s)) by (nonlinear_arith) requires q <= 0;
    }
}

/// Above the speed limit, one physics step leaves the actor moving at the
/// limit (up to rounding of less than four units per second) in the same
/// direction: each component keeps its sign and is the exact rescaled
/// component rounded toward zero, so the cross product of the old and new
/// velocities stays below `|v.x| + |v.y|`.
pub proof fn lemma_speed_limit(v: Vector2)
    requires
        vel_ok(v),
        speed_sq(v) > MAX_PHYSICS_VEL * MAX_PHYSICS_VEL,
    ensures
        speed_sq(clamped_velocity(v)) <= MAX_PHYSICS_VEL * MAX_PHYSICS_VEL,
        speed_sq(clamped_velocity(v)) > (MAX_PHYSICS_VEL - 4) * (MAX_PHYSICS_VEL - 4),
        v.x >= 0 ==> clamped_velocity(v).x >= 0,
        v.x <= 0 ==> clamped_velocity(v).x <= 0,
        v.y >= 0 ==> clamped_velocity(v).y >= 0,
        v.y <= 0 ==> clamped_velocity(v).y <= 0,
        clamped_velocity(v).x == tdiv(v.x * MAX_PHYSICS_VEL, ceil_sqrt(speed_sq(v))),
        clamped_velocity(v).y == tdiv(v.y * MAX_PHYSICS_VEL, ceil_sqrt(speed_sq(v))),
        abs(clamped_velocity(v).x * v.y - clamped_velocity(v).y * v.x) < abs(v.x as int) + abs(v.y as int),
{
    let m = MAX_PHYSICS_VEL as int;
    let n = speed_sq(v);
    lemma_square_bound(v.x as int);
    lemma_square_bound(v.y as int);
    assert(exists|s: int| #[trigger] is_ceil_sqrt(n, s)) by {
        lemma_ceil_sqrt_exists(n);
    }
    let s = ceil_sqrt(n);
    assert(is_ceil_sqrt(n, s));
    assert(s > m) by {
        if s <= m {
            lemma_square_monotone(s, m);
        }
    }
    lemma_rescaled_component(v.x as int, s);
    lemma_rescaled_component(v.y as int, s);
    lemma_scaled_bound(v.x as int, s);
    lemma_scaled_bound(v.y as int, s);
    let c = clamped_velocity(v);
    let qa = abs(c.x as int);
    let qb = abs(c.y as int);
    let a = abs(v.x as int);
    let b = abs(v.y as int);
    assert(a * a + b * b == n) by (nonlinear_arith)
        requires a == abs(v.x as int), b == abs(v.y as int), n == v.x * v.x + v.y * v.y;
    assert(qa * qa + qb * qb == speed_sq(c)) by (nonlinear_arith)
        requires qa == abs(c.x as int), qb == abs(c.y as int);
    // Upper bound: (qa² + qb²) s² <= (a² + b²) m² = n m² <= s² m².
    assert((qa * qa + qb * qb) * (s * s) <= (s * s) * (m * m)) by (nonlinear_arith)
        requires qa >= 0, qb >= 0, qa * s <= a * m, qb * s <= b * m, a * a + b * b == n, n <= s * s, s > 0, m > 0;
    assert(qa * qa + qb * qb <= m * m) by (nonlinear_arith)
        requires (qa * qa + qb * qb) * (s * s) <= (s * s) * (m * m), s > 0;
    // Lower bound: ((qa+1)² + (qb+1)²) s² > n m² > (s-1)² m².
    lemma_square_strict(a * m, (qa + 1) * s);
    lemma_square_strict(b * m, (qb + 1) * s);
    assert(a * m >= 0 && b * m >= 0) by (nonlinear_arith) requires a >= 0, b >= 0, m > 0;
    assert((a * m) * (a * m) + (b * m) * (b * m) == n * (m * m)) by (nonlinear_arith)
        requires a * a + b * b == n;
    assert(((qa + 1) * s) * ((qa + 1) * s) + ((qb + 1) * s) * ((qb + 1) * s)
        == ((qa + 1) * (qa + 1) + (qb + 1) * (qb + 1)) * (s * s)) by (nonlinear_arith);
    assert(n * (m * m) > ((s - 1) * (s - 1)) * (m * m)) by (nonlinear_arith)
        requires (s - 1) * (s - 1) < n, m > 0;
    assert(qa <= m && qb <= m) by (nonlinear_arith)
        requires qa >= 0, qb >= 0, qa * qa + qb * qb <= m * m, m > 0;
    assert((qa + 1) * (qa + 1) + (qb + 1) * (qb + 1) > m * m - 2 * m) by (nonlinear_arith)
        requires ((qa + 1) * (qa + 1) + (qb + 1) * (qb + 1)) * (s * s) > ((s - 1) * (s - 1)) * (m * m),
            s > m, m > 0, qa >= 0, qb >= 0;
    assert(qa * qa + qb * qb > (m - 4) * (m - 4)) by (nonlinear_arith)
        requires (qa + 1) * (qa + 1) + (qb + 1) * (qb + 1) > m * m - 2 * m, qa <= m, qb <= m, m > 100;
    // Direction: the cross product of the old and new velocities is only rounding.
    let cx = c.x as int;
    let cy = c.y as int;
    let vx = v.x as int;
    let vy = v.y as int;
    lemma_tdiv_bounds(vx * m, s);
    lemma_tdiv_bounds(vy * m, s);
    let rx = vx * m - cx * s;
    let ry = vy * m - cy * s;
    assert(cx == tdiv(vx * m, s) && cy == tdiv(vy * m, s));
    assert((cx + 1) * s == cx * s + s && (cx - 1) * s == cx * s - s) by (nonlinear_arith);
    assert((cy + 1) * s == cy * s + s && (cy - 1) * s == cy * s - s) by (nonlinear_arith);
    assert(abs(rx) < s);
    assert(abs(ry) < s);
    assert(s * (cx * vy - cy * vx) == ry * vx - rx * vy) by (nonlinear_arith)
        requires rx == vx * m - cx * s, ry == vy * m - cy * s;
    assert(vx != 0 || vy != 0) by {
        if vx == 0 && vy == 0 {
            assert(n == 0) by (nonlinear_arith) requires n == vx * vx + vy * vy, vx == 0, vy == 0;
        }
    }
    assert(abs(ry * vx - rx * vy) < s * (abs(vx) + abs(vy))) by (nonlinear_arith)
        requires abs(rx) < s, abs(ry) < s, vx != 0 || vy != 0, s > 0;
    assert(abs(cx * vy - cy * vx) < abs(vx) + abs(vy)) by (nonlinear_arith)
        requires s * (cx * vy - cy * vx) == ry * vx - rx * vy, abs(ry * vx - rx * vy) < s * (abs(vx) + abs(vy)), s > 0;
}

pub(crate) proof fn lemma_square_strict(x: int, y: int)
    requires
        0 <= x < y,
    ensures
        x * x < y * y,
{
    assert(x * x < y * y) by (nonlinear_arith) requires 0 <= x < y;
}

/// Every non-negative number has a ceiling square root.
pub(crate) proof fn lemma_ceil_sqrt_exists(n: int)
    requires
        0 <= n,
    ensures
        exists|s: int| #[trigger] is_ceil_sqrt(n, s),
    decreases n,
{
    if n == 0 {
        assert(is_ceil_sqrt(0, 0));
    } else {
        lemma_ceil_sqrt_exists(n - 1);
        let t = choose|s: int| #[trigger] is_ceil_sqrt(n - 1, s);
        if t * t >= n {
            assert(t != 0) by {
                if t == 0 {
                    assert(t * t == 0) by (nonlinear_arith) requires t == 0;
                }
            }
            assert(is_ceil_sqrt(n, t));
        } else {
            assert(t * t == n - 1);
            assert((t + 1) * (t + 1) >= n) by (nonlinear_arith) requires t >= 0, t * t == n - 1;
            assert(is_ceil_sqrt(n, t + 1));
        }
    }
}

/// A component rescaled by `MAX_PHYSICS_VEL / s` with `s > MAX_PHYSICS_VEL` shrinks.
proof fn lemma_scaled_bound(v: int, s: int)
    requires
        abs(v) <= VEL_LIMIT,
        s > MAX_PHYSICS_VEL,
    ensures
        abs(tdiv(v * MAX_PHYSICS_VEL, s)) <= abs(v),
{
    let m = MAX_PHYSICS_VEL as int;
    if v >= 0 {
        assert(v * m >= 0) by (nonlinear_arith) requires v >= 0, m > 0;
        assert((v * m) / s <= v) by (nonlinear_arith) requires v >= 0, s > m, m > 0;
        assert((v * m) / s >= 0) by (nonlinear_arith) requires v >= 0, s > m, m > 0;
    } else {
        assert(-(v * m) == (-v) * m) by (nonlinear_arith);
        assert(((-v) * m) / s <= -v) by (nonlinear_arith) requires -v > 0, s > m, m > 0;
        assert(((-v) * m) / s >= 0) by (nonlinear_arith) requires -v > 0, s > m, m > 0;
    }
}

/// The distance covered in one step fits a coordinate's slack.
proof fn lemma_step_bound(v: int, delta: int)
    requires
        abs(v) <= VEL_LIMIT,
        0 <= delta <= MAX_DELTA,
    ensures
        abs(v * delta) <= VEL_LIMIT * MICROS_PER_SEC,
        abs(tdiv(v * delta, MICROS_PER_SEC as int)) <= VEL_LIMIT,
{
    let l = VEL_LIMIT as int;
    let u = MICROS_PER_SEC as int;
    if v >= 0 {
        assert(0 <= v * delta <= l * u) by (nonlinear_arith) requires 0 <= v <= l, 0 <= delta <= u;
    } else {
        assert(-(v * delta) == (-v) * delta) by (nonlinear_arith);
        assert(0 <= (-v) * delta <= l * u) by (nonlinear_arith) requires 0 < -v <= l, 0 <= delta <= u;
    }
}

fn clamp_coord_exec(a: i64) -> (r: i64)
    ensures
        r == clamp_coord(a as int),
{
    if a > POS_LIMIT {
        POS_LIMIT
    } else if a < -POS_LIMIT {
        -POS_LIMIT
    } else {
        a
    }
}

/// A player just past a screen edge reappears exactly one extent away, on the
/// opposite side. Wrapping again leaves it where it is, unless it was more
/// than one extent past the edge, in which case it moves once more.
pub proof fn lemma_wrap_edge(p: int, eps: int, extent: int)
    requires
        0 < extent <= MAX_EXTENT,
        eps > 0,
        abs(extent / 2 + eps) <= POS_LIMIT,
        p == extent / 2 + eps || p == -(extent / 2) - eps,
    ensures
        p > 0 ==> wrapped(p as i64, extent) == p - extent,
        p < 0 ==> wrapped(p as i64, extent) == p + extent,
        abs(p - wrapped(p as i64, extent)) == extent,
        (wrapped(wrapped(p as i64, extent), extent) == wrapped(p as i64, extent)) <==> eps <= extent,
{
}

} // verus!
