//! Rock generation, scaled by one pressure value that grows with time.

use crate::actor::{abs, scale_draw, scaled, tdiv, Actor, ActorType, Vector2, MAX_DELTA, ROCK_SPIN_MAX};
use crate::angle::{unit_cos, unit_pair, unit_sin, ONE};
use crate::structs::{actors_ok, MainState};
use vstd::prelude::*;

verus! {

/// One spawn opportunity per this many microseconds of a tick.
pub const SPAWN_SUBSTEP: i64 = 4_000;

/// Largest spawn angle away from straight down, in microradians.
pub const MAX_SPAWN_ANGLE: i64 = 500_000;

/// Largest speed scale that the spawner takes, in units per second.
pub const MAX_SPEED_MOD: u64 = 4_294_967_296;

/// Rocks appear this far below the top edge, in units.
pub const SPAWN_MARGIN: i64 = 15_000;

/// The random values behind one spawn opportunity.
#[derive(Debug, Clone, Copy, PartialEq, Eq, Structural)]
pub struct SpawnDraw {
    /// Decides whether a rock appears.
    pub roll: u32,
    /// Size of the deviation from straight down.
    pub angle: u32,
    /// Deviates to the negative side.
    pub negate: bool,
    /// Position along the top edge.
    pub x: u32,
    /// Speed within `[speed_mod / 2, 3 * speed_mod / 2)`.
    pub speed: u32,
    /// Spin of the rock.
    pub spin: u32,
}

/// The pressure value: round time (seconds) times difficulty, in thousandths.
pub open spec fn time_mult(curr_time: int, difficulty_mult: int) -> int {
    if curr_time <= 0 { 0 } else { curr_time * difficulty_mult / 1_000_000 }
}

/// Chance of a rock per opportunity, in parts per million: `tm / 1600 + 0.01`.
pub open spec fn spawn_ppm(tm: int) -> int {
    tm * 5 / 8 + 10_000
}

/// Largest deviation from straight down: `min(tm / 240, 0.5)` radians.
pub open spec fn max_angle(tm: int) -> int {
    if tm * 25 / 6 > MAX_SPAWN_ANGLE { MAX_SPAWN_ANGLE as int } else { tm * 25 / 6 }
}

/// Spawn opportunities in a tick of `delta` microseconds, rounded to nearest.
pub open spec fn spawn_loops(delta: int) -> int {
    (delta + SPAWN_SUBSTEP / 2) / (SPAWN_SUBSTEP as int)
}

pub open spec fn spawns(d: SpawnDraw, tm: int) -> bool {
    scaled(d.roll, 1_000_000) < spawn_ppm(tm)
}

pub open spec fn spawn_angle(d: SpawnDraw, max_angle: int) -> int {
    if d.negate { -scaled(d.angle, max_angle as u64) } else { scaled(d.angle, max_angle as u64) }
}

pub open spec fn spawn_speed(d: SpawnDraw, speed_mod: int) -> int {
    scaled(d.speed, speed_mod as u64) + speed_mod / 2
}

/// The rock that the draws `d` give: on the top edge, heading down, turned
/// by the drawn angle, at the drawn speed.
pub open spec fn rock_from(d: SpawnDraw, sx: int, sy: int, max_angle: int, speed_mod: int) -> Actor {
    let a = spawn_angle(d, max_angle);
    let speed = spawn_speed(d, speed_mod);
    Actor {
        pos: Vector2 { x: (scaled(d.x, sx as u64) - sx / 2) as i64, y: (sy / 2 - SPAWN_MARGIN) as i64 },
        velocity: Vector2 { x: tdiv(-unit_sin(a) * speed, ONE as int) as i64, y: tdiv(-unit_cos(a) * speed, ONE as int) as i64 },
        ..Actor::fresh(ActorType::Rock, scaled(d.spin, ROCK_SPIN_MAX as u64) as i64)
    }
}

/// The rocks that a sequence of draws gives, in order.
pub open spec fn rocks_from(ds: Seq<SpawnDraw>, tm: int, sx: int, sy: int, speed_mod: int) -> Seq<Actor>
    decreases ds.len(),
{
    if ds.len() == 0 {
        Seq::empty()
    } else {
        let rest = rocks_from(ds.drop_last(), tm, sx, sy, speed_mod);
        if spawns(ds.last(), tm) {
            rest.push(rock_from(ds.last(), sx, sy, max_angle(tm), speed_mod))
        } else {
            rest
        }
    }
}

/// The rock that the draws `d` give (see `rock_from`), on a screen of
/// `sx` by `sy` units.
pub fn rock_from_draws(d: SpawnDraw, sx: i64, sy: i64, max_angle: i64, speed_mod: u64) -> (r: Actor)
    requires
        crate::actor::extents_ok(sx, sy),
        0 <= max_angle <= MAX_SPAWN_ANGLE,
        speed_mod <= MAX_SPEED_MOD,
    ensures
        r == rock_from(d, sx as int, sy as int, max_angle as int, speed_mod as int),
        r.wf(),
{
    let a0 = scale_draw(d.angle, max_angle as u64) as i64;
    let a = if d.negate { -a0 } else { a0 };
    let speed = (scale_draw(d.speed, speed_mod) + speed_mod / 2) as i64;
    let (s, c) = unit_pair(a);
    let ns = -s;
    let nc = -c;
    assert(abs(ns * speed) <= ONE * 0x1_8000_0000) by (nonlinear_arith)
        requires abs(ns as int) <= ONE, 0 <= speed <= 0x1_8000_0000;
    assert(abs(nc * speed) <= ONE * 0x1_8000_0000) by (nonlinear_arith)
        requires abs(nc as int) <= ONE, 0 <= speed <= 0x1_8000_0000;
    let ps = ns * speed;
    let pc = nc * speed;
    let vx = if ps >= 0 { ps / ONE } else { -((-ps) / ONE) };
    let vy = if pc >= 0 { pc / ONE } else { -((-pc) / ONE) };
    assert(abs(vx as int) <= 0x100_0000_0000) by (nonlinear_arith)
        requires abs(ps as int) <= ONE * 0x1_8000_0000, vx == crate::actor::tdiv(ps as int, ONE as int);
    let spin = scale_draw(d.spin, ROCK_SPIN_MAX as u64) as i64;
    let mut rock = Actor::create_rock_with_spin(spin);
    rock.pos = Vector2 { x: scale_draw(d.x, sx as u64) as i64 - sx / 2, y: sy / 2 - SPAWN_MARGIN };
    rock.velocity = Vector2 { x: vx, y: vy };
    rock
}

impl MainState {
    /// The pressure value of the current moment (see `time_mult`).
    pub fn time_mult(&self) -> (r: i64)
        requires
            self.wf(),
        ensures
            r == time_mult(self.curr_time as int, self.difficulty_mult as int),
            0 <= r <= 1_125_899_906_842_624_000,
    {
        if self.curr_time <= 0 {
            0
        } else {
            let t = self.curr_time as u128;
            let m = self.difficulty_mult as u128;
            assert(t * m <= 0x4_0000_0000_0000 * 1_000_000_000) by (nonlinear_arith)
                requires t <= 0x4_0000_0000_0000, m <= 1_000_000_000;
            let q = t * m / 1_000_000;
            assert(q <= 1_125_899_906_842_624_000) by (nonlinear_arith)
                requires q == t * m / 1_000_000, t * m <= 0x4_0000_0000_0000 * 1_000_000_000;
            q as i64
        }
    }

    /// Spawns the rocks that `draws` give, one draw per spawn opportunity of a
    /// tick of `delta` microseconds, appended in order after the current rocks.
    pub fn spawn_rocks_from(&mut self, delta: i64, speed_mod: u64, draws: &Vec<SpawnDraw>)
        requires
            old(self).wf(),
            0 <= delta <= MAX_DELTA,
            speed_mod <= MAX_SPEED_MOD,
            draws@.len() == spawn_loops(delta as int),
        ensures
            final(self).wf(),
            final(self).rocks@ == old(self).rocks@ + rocks_from(
                draws@,
                time_mult(old(self).curr_time as int, old(self).difficulty_mult as int),
                old(self).extent_x(),
                old(self).extent_y(),
                speed_mod as int,
            ),
            final(self).same_except_actors(old(self)),
            final(self).shots@ == old(self).shots@,
            final(self).score == old(self).score,
            final(self).play_sounds == old(self).play_sounds,
    {
        let tm = self.time_mult();
        let ppm = tm * 5 / 8 + 10_000;
        let ma = if tm > 120_000 { MAX_SPAWN_ANGLE } else { tm * 25 / 6 };
        let sx = self.screen_width as i64 * 1000;
        let sy = self.screen_height as i64 * 1000;
        let ghost rocks0 = self.rocks@;
        let ghost sxi = self.extent_x();
        let ghost syi = self.extent_y();
        let mut k: usize = 0;
        while k < draws.len()
            invariant
                0 <= k <= draws.len(),
                self.wf(),
                speed_mod <= MAX_SPEED_MOD,
                sx as int == sxi && sy as int == syi,
                crate::actor::extents_ok(sx, sy),
                ppm == spawn_ppm(tm as int),
                ma == max_angle(tm as int),
                0 <= ma <= MAX_SPAWN_ANGLE,
                self.rocks@ == rocks0 + rocks_from(draws@.take(k as int), tm as int, sxi, syi, speed_mod as int),
                self.same_except_actors(old(self)),
                self.shots@ == old(self).shots@,
                self.score == old(self).score,
                self.play_sounds == old(self).play_sounds,
            decreases draws.len() - k,
        {
            let d = draws[k];
            proof {
                let t = draws@.take(k as int + 1);
                assert(t.drop_last() =~= draws@.take(k as int));
                assert(t.last() == d);
            }
            if (scale_draw(d.roll, 1_000_000) as i64) < ppm {
                let rock = rock_from_draws(d, sx, sy, ma, speed_mod);
                self.rocks.push(rock);
                proof {
                    assert(actors_ok(self.rocks@, ActorType::Rock)) by {
                        assert forall|i: int| 0 <= i < self.rocks@.len() implies (#[trigger] self.rocks@[i]).wf() && self.rocks@[i].tag == ActorType::Rock by {
                            if i < self.rocks@.len() - 1 {
                                assert(self.rocks@[i] == self.rocks@.drop_last()[i]);
                            }
                        }
                    }
                }
            }
            k = k + 1;
        }
        assert(draws@.take(k as int) =~= draws@);
    }

    /// Draws the random values for each spawn opportunity of a tick of
    /// `delta` microseconds and spawns the rocks that they give.
    pub fn spawn_rocks(&mut self, delta: i64, speed_mod: u64)
        requires
            old(self).wf(),
            0 <= delta <= MAX_DELTA,
            speed_mod <= MAX_SPEED_MOD,
        ensures
            final(self).wf(),
            exists|draws: Seq<SpawnDraw>| draws.len() == spawn_loops(delta as int)
                && #[trigger] final(self).rocks@ == old(self).rocks@ + rocks_from(
                    draws,
                    time_mult(old(self).curr_time as int, old(self).difficulty_mult as int),
                    old(self).extent_x(),
                    old(self).extent_y(),
                    speed_mod as int,
                ),
            final(self).same_except_actors(old(self)),
            final(self).shots@ == old(self).shots@,
            final(self).score == old(self).score,
            final(self).play_sounds == old(self).play_sounds,
    {
        let loops = (delta + SPAWN_SUBSTEP / 2) / SPAWN_SUBSTEP;
        let mut draws: Vec<SpawnDraw> = Vec::new();
        let mut k: i64 = 0;
        while k < loops
            invariant
                0 <= k <= loops,
                loops == spawn_loops(delta as int),
                draws@.len() == k,
            decreases loops - k,
        {
            let d = SpawnDraw {
                roll: rand::random::<u32>(),
                angle: rand::random::<u32>(),
                negate: rand::random::<bool>(),
                x: rand::random::<u32>(),
                speed: rand::random::<u32>(),
                spin: rand::random::<u32>(),
            };
            draws.push(d);
            k = k + 1;
        }
        self.spawn_rocks_from(delta, speed_mod, &draws);
    }
}

/// How many of the draws `ds` spawn a rock.
pub open spec fn spawn_count(ds: Seq<SpawnDraw>, tm: int) -> nat
    decreases ds.len(),
{
    if ds.len() == 0 {
        0
    } else {
        spawn_count(ds.drop_last(), tm) + if spawns(ds.last(), tm) { 1nat } else { 0nat }
    }
}

/// With no pressure, a tick's draws spawn one rock for each roll below one
/// in a hundred, and every such rock heads straight down at a speed between
/// half and one and a half times the speed scale.
pub proof fn lemma_rocks_without_pressure(ds: Seq<SpawnDraw>, curr_time: int, sx: int, sy: int, speed_mod: int)
    requires
        0 < speed_mod <= MAX_SPEED_MOD,
    ensures
        rocks_from(ds, time_mult(curr_time, 0), sx, sy, speed_mod).len() == spawn_count(ds, 0),
        forall|i: int| 0 <= i < rocks_from(ds, time_mult(curr_time, 0), sx, sy, speed_mod).len() ==> {
            let r = #[trigger] rocks_from(ds, time_mult(curr_time, 0), sx, sy, speed_mod)[i];
            &&& r.velocity.x == 0
            &&& -(speed_mod / 2 + speed_mod) < r.velocity.y <= -(speed_mod / 2)
        },
    decreases ds.len(),
{
    if ds.len() > 0 {
        lemma_rocks_without_pressure(ds.drop_last(), curr_time, sx, sy, speed_mod);
        lemma_spawn_without_pressure(ds.last(), curr_time, sx, sy, speed_mod);
        assert(time_mult(curr_time, 0) == 0);
        let rs = rocks_from(ds, time_mult(curr_time, 0), sx, sy, speed_mod);
        let prev = rocks_from(ds.drop_last(), time_mult(curr_time, 0), sx, sy, speed_mod);
        assert forall|i: int| 0 <= i < rs.len() implies {
            let r = #[trigger] rs[i];
            &&& r.velocity.x == 0
            &&& -(speed_mod / 2 + speed_mod) < r.velocity.y <= -(speed_mod / 2)
        } by {
            if i < prev.len() {
                assert(rs[i] == prev[i]);
            }
        }
    }
}

/// With no pressure (difficulty zero, or the round's first instant) a rock
/// appears with chance one in a hundred, heads straight down, and its speed
/// lies between half and one and a half times the speed scale.
pub proof fn lemma_spawn_without_pressure(d: SpawnDraw, curr_time: int, sx: int, sy: int, speed_mod: int)
    requires
        0 <= speed_mod <= MAX_SPEED_MOD,
    ensures
        spawn_ppm(time_mult(curr_time, 0)) == 10_000,
        max_angle(time_mult(curr_time, 0)) == 0,
        spawn_angle(d, 0) == 0,
        rock_from(d, sx, sy, 0, speed_mod).velocity == (Vector2 { x: 0, y: -spawn_speed(d, speed_mod) as i64 }),
        speed_mod / 2 <= spawn_speed(d, speed_mod) <= speed_mod / 2 + speed_mod,
        speed_mod > 0 ==> spawn_speed(d, speed_mod) < speed_mod / 2 + speed_mod,
{
    assert(time_mult(curr_time, 0) == 0) by (nonlinear_arith)
        requires curr_time > 0 ==> time_mult(curr_time, 0) == curr_time * 0 / 1_000_000, curr_time <= 0 ==> time_mult(curr_time, 0) == 0;
    assert(scaled(d.angle, 0) == 0) by (nonlinear_arith)
        requires scaled(d.angle, 0) == (d.angle as int * 0) / 0x1_0000_0000;
    assert(crate::angle::sq(0) == 0);
    assert forall|t: int, k: int| k > 0 implies #[trigger] crate::angle::horner(0, t, k) == ONE by {
        assert(0 * t == 0);
        assert(k * ONE > 0) by (nonlinear_arith) requires k > 0;
    }
    assert(crate::angle::sin_small(0) == 0);
    assert(unit_sin(0) == 0);
    assert(crate::angle::is_floor_sqrt(ONE * ONE, ONE as int)) by (nonlinear_arith);
    crate::angle::lemma_floor_sqrt_unique(ONE * ONE, ONE as int);
    assert(unit_cos(0) == ONE);
    let sp = spawn_speed(d, speed_mod);
    let k = scaled(d.speed, speed_mod as u64);
    assert(0 <= k <= speed_mod) by (nonlinear_arith)
        requires k == (d.speed as int * speed_mod) / 0x1_0000_0000, 0 <= speed_mod, d.speed < 0x1_0000_0000;
    if speed_mod > 0 {
        assert(k < speed_mod) by (nonlinear_arith)
            requires k == (d.speed as int * speed_mod) / 0x1_0000_0000, 0 < speed_mod, d.speed < 0x1_0000_0000;
    }
    assert(-unit_sin(0) * sp == 0) by (nonlinear_arith) requires unit_sin(0) == 0;
    assert(tdiv(0, ONE as int) == 0);
    assert(tdiv(-ONE * sp, ONE as int) == -sp) by (nonlinear_arith)
        requires sp >= 0;
}

} // verus!
