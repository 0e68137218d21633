//! The stages of one simulation tick: steering, firing and motion.

use crate::actor::{
    abs, extents_ok, outside, physics_step, tdiv, wrapped, Actor, ActorType, Vector2, MAX_DELTA,
    UNITS_PER_PIXEL,
};
use crate::angle::{direction, vec_from_angle, ONE, QUARTER_TURN};
use crate::spawner::{rocks_from, spawn_loops, time_mult, SpawnDraw};
use crate::structs::{count_pairs, crashes, no_input, saturating_score, touched_by, live, actors_ok, players_ok, steer, axis, time_ok, MainState, Player};
use vstd::prelude::*;

verus! {

/// Least time between two volleys of one ship, in microseconds.
pub const PLAYER_SHOT_TIME: i64 = 200_000;

/// Muzzle speed of a shot, in units per second.
pub const SHOT_SPEED: i64 = 1_100_000;

/// The shot of a volley with spread `i` (-1, 0 or 1) fired by `ship`.
pub open spec fn shot_from(ship: Actor, i: int) -> Actor {
    let dir = direction(ship.facing as int);
    Actor {
        pos: ship.pos,
        facing: ship.facing,
        velocity: Vector2 {
            x: (tdiv(SHOT_SPEED * dir.x, ONE as int) + i * (SHOT_SPEED / 3)) as i64,
            y: tdiv(SHOT_SPEED * dir.y, ONE as int) as i64,
        },
        ..Actor::fresh(ActorType::Shot, crate::actor::SHOT_ANG_VEL)
    }
}

/// The three shots of one volley, spread left, straight and right.
pub open spec fn volley(ship: Actor) -> Seq<Actor> {
    seq![shot_from(ship, -1), shot_from(ship, 0), shot_from(ship, 1)]
}

/// The ship may fire: the key is held and the cooldown has passed.
pub open spec fn ready(p: Player, now: int) -> bool {
    p.input.fire && p.last_shot_at <= now - PLAYER_SHOT_TIME
}

/// The volleys of the ships in `ps` that are ready, in their order.
pub open spec fn volleys(ps: Seq<Player>, now: int) -> Seq<Actor>
    decreases ps.len(),
{
    if ps.len() == 0 {
        Seq::empty()
    } else {
        volleys(ps.drop_last(), now) + if ready(ps.last(), now) { volley(ps.last().actor) } else { Seq::empty() }
    }
}

pub open spec fn fired(p: Player, now: int) -> Player {
    if ready(p, now) { Player { last_shot_at: now as i64, ..p } } else { p }
}

pub open spec fn any_ready(ps: Seq<Player>, now: int) -> bool {
    exists|i: int| 0 <= i < ps.len() && #[trigger] ready(ps[i], now)
}

/// A ship after steering for `delta` microseconds.
pub open spec fn steered(p: Player, delta: int) -> Player {
    Player {
        actor: Actor {
            pos: Vector2 {
                x: steer(p.actor.pos.x, axis(p.input.right, p.input.left), delta),
                y: steer(p.actor.pos.y, axis(p.input.up, p.input.down), delta),
            },
            ..p.actor
        },
        ..p
    }
}

/// A ship after one physics step, wrapped into a screen of `sx` by `sy` units.
pub open spec fn ship_moved(p: Player, delta: int, sx: int, sy: int) -> Player {
    let a = physics_step(p.actor, delta);
    Player { actor: Actor { pos: Vector2 { x: wrapped(a.pos.x, sx), y: wrapped(a.pos.y, sy) }, ..a }, ..p }
}

/// A shot or rock after moving for `delta` microseconds; when `cull`, it is
/// marked dead once past the screen's edge.
pub open spec fn drifted(a: Actor, delta: int, sx: int, sy: int, cull: bool) -> Actor {
    let m = physics_step(a, delta);
    if cull && (outside(m.pos.x, sx) || outside(m.pos.y, sy)) { Actor { kill: true, ..m } } else { m }
}

pub open spec fn all_drifted(s: Seq<Actor>, old_s: Seq<Actor>, delta: int, sx: int, sy: int, cull: bool) -> bool {
    &&& s.len() == old_s.len()
    &&& forall|i: int| 0 <= i < s.len() ==> #[trigger] s[i] == drifted(old_s[i], delta, sx, sy, cull)
}

proof fn lemma_shot_from_wf(ship: Actor, i: int)
    requires
        ship.wf(),
        -1 <= i <= 1,
    ensures
        shot_from(ship, i).wf(),
        shot_from(ship, i).tag == ActorType::Shot,
{
    let dir = direction(ship.facing as int);
    crate::angle::lemma_direction_bounds(ship.facing as int);
    let px = SHOT_SPEED * dir.x;
    let py = SHOT_SPEED * dir.y;
    assert(abs(px) <= SHOT_SPEED * QUARTER_TURN) by (nonlinear_arith)
        requires abs(dir.x as int) <= QUARTER_TURN, px == SHOT_SPEED * dir.x;
    assert(abs(py) <= SHOT_SPEED * ONE) by (nonlinear_arith)
        requires abs(dir.y as int) <= ONE, py == SHOT_SPEED * dir.y;
    assert(abs(tdiv(px, ONE as int)) <= 2 * SHOT_SPEED) by (nonlinear_arith)
        requires abs(px) <= SHOT_SPEED * QUARTER_TURN;
    assert(abs(tdiv(py, ONE as int)) <= SHOT_SPEED) by (nonlinear_arith)
        requires abs(py) <= SHOT_SPEED * ONE;
}

proof fn lemma_volleys_ok(ps: Seq<Player>, now: int)
    requires
        players_ok(ps),
    ensures
        actors_ok(volleys(ps, now), ActorType::Shot),
    decreases ps.len(),
{
    if ps.len() > 0 {
        assert(players_ok(ps.drop_last())) by {
            assert forall|i: int| 0 <= i < ps.drop_last().len() implies (#[trigger] ps.drop_last()[i]).wf() by {
                assert(ps[i].wf());
            }
        }
        lemma_volleys_ok(ps.drop_last(), now);
        assert(ps.last().wf());
        lemma_shot_from_wf(ps.last().actor, -1);
        lemma_shot_from_wf(ps.last().actor, 0);
        lemma_shot_from_wf(ps.last().actor, 1);
    }
}

impl MainState {
    /// Appends to `shots` the three shots of a volley from `player`'s ship:
    /// along its heading at `SHOT_SPEED`, the outer two with a sideways drift
    /// of a third of that speed.
    pub fn fire_player_shot(shots: &mut Vec<Actor>, player: &Player)
        requires
            player.wf(),
        ensures
            final(shots)@ == old(shots)@ + volley(player.actor),
    {
        let dir = vec_from_angle(player.actor.facing);
        assert(abs(SHOT_SPEED * dir.x) <= SHOT_SPEED * QUARTER_TURN) by (nonlinear_arith)
            requires abs(dir.x as int) <= QUARTER_TURN;
        assert(abs(SHOT_SPEED * dir.y) <= SHOT_SPEED * ONE) by (nonlinear_arith)
            requires abs(dir.y as int) <= ONE;
        let px = SHOT_SPEED * dir.x;
        let py = SHOT_SPEED * dir.y;
        let bx = if px >= 0 { px / ONE } else { -((-px) / ONE) };
        let by = if py >= 0 { py / ONE } else { -((-py) / ONE) };
        assert(abs(bx as int) <= 2 * SHOT_SPEED) by (nonlinear_arith)
            requires abs(px as int) <= SHOT_SPEED * QUARTER_TURN, bx == tdiv(px as int, ONE as int);
        let ghost s0 = shots@;
        let mut i: i64 = -1;
        while i < 2
            invariant
                -1 <= i <= 2,
                abs(bx as int) <= 2 * SHOT_SPEED,
                bx == tdiv(SHOT_SPEED * direction(player.actor.facing as int).x, ONE as int),
                by == tdiv(SHOT_SPEED * direction(player.actor.facing as int).y, ONE as int),
                shots@ == s0 + volley(player.actor).take(i + 1),
            decreases 2 - i,
        {
            let mut shot = Actor::create_shot();
            shot.pos = player.actor.pos;
            shot.facing = player.actor.facing;
            shot.velocity = Vector2 { x: bx + i * (SHOT_SPEED / 3), y: by };
            assert(shot == shot_from(player.actor, i as int));
            shots.push(shot);
            assert(volley(player.actor).take(i + 2) =~= volley(player.actor).take(i + 1).push(shot));
            i = i + 1;
        }
        assert(volley(player.actor).take(3) =~= volley(player.actor));
    }
}

impl MainState {
    /// Steers every ship by its held keys for `delta` microseconds.
    pub fn steer_players(&mut self, delta: i64)
        requires
            old(self).wf(),
            0 <= delta <= MAX_DELTA,
        ensures
            final(self).wf(),
            final(self).players@.len() == old(self).players@.len(),
            forall|i: int| 0 <= i < old(self).players@.len() ==> #[trigger] final(self).players@[i] == steered(old(self).players@[i], delta as int),
            final(self).same_except_players(old(self)),
    {
        let n = self.players.len();
        let mut i: usize = 0;
        while i < n
            invariant
                0 <= i <= n == self.players.len() == old(self).players.len(),
                0 <= delta <= MAX_DELTA,
                self.wf(),
                forall|k: int| 0 <= k < i ==> #[trigger] self.players@[k] == steered(old(self).players@[k], delta as int),
                forall|k: int| i <= k < n ==> #[trigger] self.players@[k] == old(self).players@[k],
                self.same_except_players(old(self)),
            decreases n - i,
        {
            let mut p = self.players[i];
            assert(self.players@[i as int].wf());
            p.tick_input(delta);
            self.players.set(i, p);
            proof { self.lemma_players_set_ok(i as int); }
            i = i + 1;
        }
    }

    /// Fires a volley from every ship that is ready; firing restarts its
    /// cooldown from the current time and asks for the shot sound.
    pub fn fire_ready_players(&mut self)
        requires
            old(self).wf(),
        ensures
            final(self).wf(),
            final(self).players@.len() == old(self).players@.len(),
            forall|i: int| 0 <= i < old(self).players@.len() ==> #[trigger] final(self).players@[i] == fired(old(self).players@[i], old(self).curr_time as int),
            final(self).shots@ == old(self).shots@ + volleys(old(self).players@, old(self).curr_time as int),
            final(self).play_sounds.play_shot == (old(self).play_sounds.play_shot || any_ready(old(self).players@, old(self).curr_time as int)),
            final(self).play_sounds.play_hit == old(self).play_sounds.play_hit,
            final(self).rocks@ == old(self).rocks@,
            final(self).score == old(self).score,
            final(self).local_player_index == old(self).local_player_index,
            final(self).local_input == old(self).local_input,
            final(self).local_shots_made@ == old(self).local_shots_made@,
            final(self).screen_width == old(self).screen_width,
            final(self).screen_height == old(self).screen_height,
            final(self).start_time == old(self).start_time,
            final(self).curr_time == old(self).curr_time,
            final(self).difficulty_mult == old(self).difficulty_mult,
    {
        let n = self.players.len();
        let now = self.curr_time;
        let ghost ps0 = self.players@;
        let ghost shots0 = self.shots@;
        let mut i: usize = 0;
        while i < n
            invariant
                0 <= i <= n == self.players.len() == ps0.len(),
                ps0 == old(self).players@,
                shots0 == old(self).shots@,
                now == self.curr_time == old(self).curr_time,
                self.wf(),
                players_ok(ps0),
                forall|k: int| 0 <= k < i ==> #[trigger] self.players@[k] == fired(ps0[k], now as int),
                forall|k: int| i <= k < n ==> #[trigger] self.players@[k] == ps0[k],
                self.shots@ == shots0 + volleys(ps0.take(i as int), now as int),
                self.play_sounds.play_shot == (old(self).play_sounds.play_shot || any_ready(ps0.take(i as int), now as int)),
                self.play_sounds.play_hit == old(self).play_sounds.play_hit,
                self.rocks@ == old(self).rocks@,
                self.score == old(self).score,
                self.local_player_index == old(self).local_player_index,
                self.local_input == old(self).local_input,
                self.local_shots_made@ == old(self).local_shots_made@,
                self.screen_width == old(self).screen_width,
                self.screen_height == old(self).screen_height,
                self.start_time == old(self).start_time,
                self.difficulty_mult == old(self).difficulty_mult,
            decreases n - i,
        {
            let mut p = self.players[i];
            assert(ps0[i as int].wf());
            let ghost t = ps0.take(i as int + 1);
            proof {
                assert(t.drop_last() =~= ps0.take(i as int));
                assert(t.last() == ps0[i as int]);
            }
            let go = p.input.fire && p.last_shot_at <= now - PLAYER_SHOT_TIME;
            if go {
                p.last_shot_at = now;
                MainState::fire_player_shot(&mut self.shots, &p);
                self.players.set(i, p);
                self.play_sounds.play_shot = true;
                proof {
                    assert(volley(p.actor) == volley(ps0[i as int].actor));
                    assert(ready(t[i as int], now as int));
                }
            }
            proof {
                assert(self.shots@ =~= shots0 + volleys(t, now as int));
                if any_ready(t, now as int) {
                    let k = choose|k: int| 0 <= k < t.len() && #[trigger] ready(t[k], now as int);
                    if k < i {
                        assert(ps0.take(i as int)[k] == t[k]);
                    }
                }
                if any_ready(ps0.take(i as int), now as int) {
                    let k = choose|k: int| 0 <= k < i && #[trigger] ready(ps0.take(i as int)[k], now as int);
                    assert(ps0.take(i as int)[k] == t[k]);
                }
                lemma_volleys_ok(t, now as int);
                assert(actors_ok(self.shots@, ActorType::Shot)) by {
                    let v = volleys(t, now as int);
                    assert forall|k: int| 0 <= k < self.shots@.len() implies (#[trigger] self.shots@[k]).wf() && self.shots@[k].tag == ActorType::Shot by {
                        if k < shots0.len() {
                            assert(shots0[k] == self.shots@[k]);
                        } else {
                            assert(v[k - shots0.len()] == self.shots@[k]);
                        }
                    }
                }
                self.lemma_players_set_ok(i as int);
            }
            i = i + 1;
        }
        assert(ps0.take(n as int) =~= ps0);
    }

    /// The client's firing: every ready ship restarts its cooldown and asks
    /// for the shot sound. The local ship's volley is only kept, to be
    /// reported to the server: the world's shots come from snapshots alone.
    pub fn fire_ready_players_client(&mut self)
        requires
            old(self).wf(),
        ensures
            final(self).wf(),
            final(self).players@.len() == old(self).players@.len(),
            forall|i: int| 0 <= i < old(self).players@.len() ==> #[trigger] final(self).players@[i] == fired(old(self).players@[i], old(self).curr_time as int),
            final(self).play_sounds.play_shot == (old(self).play_sounds.play_shot || any_ready(old(self).players@, old(self).curr_time as int)),
            final(self).play_sounds.play_hit == old(self).play_sounds.play_hit,
            final(self).local_shots_made@ == old(self).local_shots_made@ + local_volley(
                old(self).players@,
                old(self).local_player_index,
                old(self).curr_time as int,
            ),
            final(self).shots@ == old(self).shots@,
            final(self).rocks@ == old(self).rocks@,
            final(self).score == old(self).score,
            final(self).local_player_index == old(self).local_player_index,
            final(self).local_input == old(self).local_input,
            final(self).screen_width == old(self).screen_width,
            final(self).screen_height == old(self).screen_height,
            final(self).start_time == old(self).start_time,
            final(self).curr_time == old(self).curr_time,
            final(self).difficulty_mult == old(self).difficulty_mult,
    {
        let ghost pre = *self;
        match self.local_player_index {
            Some(li) => {
                if li < self.players.len() {
                    let p = self.players[li];
                    assert(pre.players@[li as int].wf());
                    if p.input.fire && p.last_shot_at <= self.curr_time - PLAYER_SHOT_TIME {
                        MainState::fire_player_shot(&mut self.local_shots_made, &p);
                        proof {
                            lemma_shot_from_wf(p.actor, -1);
                            lemma_shot_from_wf(p.actor, 0);
                            lemma_shot_from_wf(p.actor, 1);
                            assert forall|k: int| 0 <= k < self.local_shots_made@.len() implies (#[trigger] self.local_shots_made@[k]).wf() && self.local_shots_made@[k].tag == ActorType::Shot by {
                                if k < pre.local_shots_made@.len() {
                                    assert(pre.local_shots_made@[k] == self.local_shots_made@[k]);
                                } else {
                                    assert(volley(p.actor)[k - pre.local_shots_made@.len()] == self.local_shots_made@[k]);
                                }
                            }
                        }
                    } else {
                        assert(self.local_shots_made@ =~= pre.local_shots_made@ + Seq::empty());
                    }
                } else {
                    assert(self.local_shots_made@ =~= pre.local_shots_made@ + Seq::empty());
                }
            },
            None => {
                assert(self.local_shots_made@ =~= pre.local_shots_made@ + Seq::empty());
            },
        }
        restart_cooldowns(&mut self.players, self.curr_time, &mut self.play_sounds);
    }

    /// Whether some rock and some shot touch (the client plays the hit sound
    /// for it; the server's snapshot decides what dies).
    pub fn any_contact(&self) -> (r: bool)
        requires
            self.wf(),
        ensures
            r == exists|i: int, j: int| 0 <= i < self.rocks@.len() && 0 <= j < self.shots@.len()
                && #[trigger] crate::structs::hits(self.rocks@[i], self.shots@[j]),
    {
        let mut i: usize = 0;
        while i < self.rocks.len()
            invariant
                0 <= i <= self.rocks.len(),
                self.wf(),
                forall|a: int, b: int| 0 <= a < i && 0 <= b < self.shots@.len() ==> !#[trigger] crate::structs::hits(self.rocks@[a], self.shots@[b]),
            decreases self.rocks.len() - i,
        {
            let mut j: usize = 0;
            while j < self.shots.len()
                invariant
                    0 <= i < self.rocks.len(),
                    0 <= j <= self.shots.len(),
                    self.wf(),
                    forall|a: int, b: int| 0 <= a < i && 0 <= b < self.shots@.len() ==> !#[trigger] crate::structs::hits(self.rocks@[a], self.shots@[b]),
                    forall|b: int| 0 <= b < j ==> !#[trigger] crate::structs::hits(self.rocks@[i as int], self.shots@[b]),
                decreases self.shots.len() - j,
            {
                assert(self.rocks@[i as int].wf() && self.shots@[j as int].wf());
                if crate::structs::hits_exec(&self.rocks[i], &self.shots[j]) {
                    return true;
                }
                j = j + 1;
            }
            i = i + 1;
        }
        false
    }

    /// One tick of the authoritative simulation, `delta` microseconds long,
    /// at clock reading `now`: the local keys drive ship 0; ships steer, fire
    /// and move (wrapping around the screen); shots and rocks move and die
    /// past the edge; contacts are settled; the dead are swept; new rocks
    /// spawn with speeds scaled by `speed_mod`.
    pub fn real_update_server(&mut self, delta: i64, speed_mod: u64, now: i64)
        requires
            old(self).wf(),
            0 <= delta <= MAX_DELTA,
            speed_mod <= crate::spawner::MAX_SPEED_MOD,
            time_ok(now as int),
        ensures
            final(self).wf(),
            server_step(*old(self), *final(self), delta as int, speed_mod as int, now as int),
    {
        let ghost s0 = *self;
        let ghost d = delta as int;
        let ghost sx = self.extent_x();
        let ghost sy = self.extent_y();
        let ghost t = self.curr_time as int;
        if self.players.len() > 0 {
            let mut p = self.players[0];
            assert(self.players@[0].wf());
            p.input = self.local_input;
            self.players.set(0, p);
            proof { self.lemma_players_set_ok(0); }
        }
        assert(self.players@ =~= drive_first(s0.players@, s0.local_input));
        let ghost ps0 = self.players@;
        self.steer_players(delta);
        assert(self.players@ =~= steered_seq(ps0, d));
        let ghost ps1 = self.players@;
        self.fire_ready_players();
        assert(self.players@ =~= fired_seq(ps1, t));
        let ghost ps2 = self.players@;
        self.move_players(delta);
        assert(self.players@ =~= moved_seq(ps2, d, sx, sy));
        let ghost shots2 = self.shots@;
        self.move_debris(delta, true);
        assert(self.shots@ =~= drifted_seq(shots2, d, sx, sy, true));
        assert(self.rocks@ =~= drifted_seq(s0.rocks@, d, sx, sy, true));
        let ghost mid = *self;
        self.handle_collisions(now);
        proof {
            if crashes(mid.rocks@, mid.players@) {
                lemma_live_of_killed(self.shots@, mid.shots@);
                lemma_live_of_killed(self.rocks@, mid.rocks@);
                assert(self.players@ =~= reset_seq(mid.players@));
            } else {
                assert(self.shots@ =~= struck_seq(mid.shots@, mid.rocks@));
                assert(self.rocks@ =~= struck_seq(mid.rocks@, mid.shots@));
            }
        }
        let ghost before_sweep = self.shots@;
        self.clear_dead_stuff();
        proof { lemma_live_alive(before_sweep); }
        let ghost swept = self.rocks@;
        self.spawn_rocks(delta, speed_mod);
        proof {
            let tm = time_mult(t, s0.difficulty_mult as int);
            let ds = choose|ds: Seq<SpawnDraw>| ds.len() == spawn_loops(d)
                && #[trigger] self.rocks@ == swept + rocks_from(ds, tm, sx, sy, speed_mod as int);
            let fresh = rocks_from(ds, tm, sx, sy, speed_mod as int);
            assert(self.rocks@.subrange(swept.len() as int, self.rocks@.len() as int) =~= fresh);
            assert(self.rocks@.subrange(0, swept.len() as int) =~= swept);
            if crashes(mid.rocks@, mid.players@) {
                assert(swept.len() == 0);
                assert(self.rocks@ =~= fresh);
            }
        }
    }

    /// One tick of the client's prediction, `delta` microseconds long: the
    /// local keys drive the local ship; ships steer, fire and move; shots and
    /// rocks move, none created and none killed (snapshots replace them); the
    /// local ship's volley is kept for the server; a contact asks for the hit
    /// sound.
    pub fn real_update_client(&mut self, delta: i64)
        requires
            old(self).wf(),
            0 <= delta <= MAX_DELTA,
        ensures
            final(self).wf(),
            client_step(*old(self), *final(self), delta as int),
    {
        let ghost s0 = *self;
        let ghost d = delta as int;
        let ghost sx = self.extent_x();
        let ghost sy = self.extent_y();
        let ghost t = self.curr_time as int;
        match self.local_player_index {
            Some(li) => {
                if li < self.players.len() {
                    let mut p = self.players[li];
                    assert(self.players@[li as int].wf());
                    p.input = self.local_input;
                    self.players.set(li, p);
                    proof { self.lemma_players_set_ok(li as int); }
                }
            },
            None => {},
        }
        assert(self.players@ =~= drive_local(s0.players@, s0.local_player_index, s0.local_input));
        let ghost ps0 = self.players@;
        self.steer_players(delta);
        assert(self.players@ =~= steered_seq(ps0, d));
        let ghost ps1 = self.players@;
        self.fire_ready_players_client();
        assert(self.players@ =~= fired_seq(ps1, t));
        assert(self.shots@ == s0.shots@);
        assert(self.local_shots_made@ == s0.local_shots_made@ + local_volley(ps1, s0.local_player_index, t));
        let ghost ps2 = self.players@;
        self.move_players(delta);
        assert(self.players@ =~= moved_seq(ps2, d, sx, sy));
        let ghost shots2 = self.shots@;
        self.move_debris(delta, false);
        assert(self.shots@ =~= drifted_seq(shots2, d, sx, sy, false));
        assert(self.rocks@ =~= drifted_seq(s0.rocks@, d, sx, sy, false));
        if self.any_contact() {
            self.play_sounds.play_hit = true;
        }
        assert(self.play_sounds.play_shot == (s0.play_sounds.play_shot || any_ready(ps1, t)));
        assert(self.score == s0.score);
        assert(self.start_time == s0.start_time);
        assert(self.players@ == moved_seq(fired_seq(ps1, t), d, sx, sy));
        assert(self.shots@ == drifted_seq(s0.shots@, d, sx, sy, false));
        assert(self.rocks@ == drifted_seq(s0.rocks@, d, sx, sy, false));
        assert(self.local_shots_made@ == s0.local_shots_made@ + local_volley(ps1, s0.local_player_index, t));
        assert(self.local_player_index == s0.local_player_index);
        assert(self.local_input == s0.local_input);
        assert(self.curr_time == s0.curr_time);
        assert(self.difficulty_mult == s0.difficulty_mult);
        assert(self.screen_width == s0.screen_width);
    }

    /// Advances the game by one tick of `delta` microseconds at clock reading
    /// `now`. The server measures round time from the round's start; a client
    /// advances its own clock by `delta` until a snapshot sets it.
    pub fn update(&mut self, delta: i64, speed_mod: u64, now: i64)
        requires
            old(self).wf(),
            0 <= delta <= MAX_DELTA,
            speed_mod <= crate::spawner::MAX_SPEED_MOD,
            time_ok(now as int),
        ensures
            final(self).wf(),
            final(self).local_player_index == old(self).local_player_index,
            old(self).local_player_index == Some(0usize) ==> server_step(
                MainState { curr_time: crate::structs::clamp_time(now - old(self).start_time) as i64, ..*old(self) },
                *final(self),
                delta as int,
                speed_mod as int,
                now as int,
            ),
            old(self).local_player_index != Some(0usize) ==> client_step(
                MainState { curr_time: crate::structs::clamp_time(old(self).curr_time + delta) as i64, ..*old(self) },
                *final(self),
                delta as int,
            ),
    {
        if self.is_server() {
            let t = now - self.start_time;
            self.curr_time = if t > crate::structs::TIME_LIMIT { crate::structs::TIME_LIMIT } else if t < -crate::structs::TIME_LIMIT { -crate::structs::TIME_LIMIT } else { t };
            self.real_update_server(delta, speed_mod, now);
        } else {
            let t = self.curr_time + delta;
            self.curr_time = if t > crate::structs::TIME_LIMIT { crate::structs::TIME_LIMIT } else { t };
            self.real_update_client(delta);
        }
    }

    /// Moves every ship one physics step, wrapping it around the screen.
    pub fn move_players(&mut self, delta: i64)
        requires
            old(self).wf(),
            0 <= delta <= MAX_DELTA,
        ensures
            final(self).wf(),
            final(self).players@.len() == old(self).players@.len(),
            forall|i: int| 0 <= i < old(self).players@.len() ==> #[trigger] final(self).players@[i] == ship_moved(old(self).players@[i], delta as int, old(self).extent_x(), old(self).extent_y()),
            final(self).same_except_players(old(self)),
    {
        let n = self.players.len();
        let sx = self.screen_width as i64 * UNITS_PER_PIXEL;
        let sy = self.screen_height as i64 * UNITS_PER_PIXEL;
        let mut i: usize = 0;
        while i < n
            invariant
                0 <= i <= n == self.players.len() == old(self).players.len(),
                0 <= delta <= MAX_DELTA,
                sx == old(self).extent_x(),
                sy == old(self).extent_y(),
                extents_ok(sx, sy),
                self.wf(),
                forall|k: int| 0 <= k < i ==> #[trigger] self.players@[k] == ship_moved(old(self).players@[k], delta as int, sx as int, sy as int),
                forall|k: int| i <= k < n ==> #[trigger] self.players@[k] == old(self).players@[k],
                self.same_except_players(old(self)),
            decreases n - i,
        {
            let mut p = self.players[i];
            assert(self.players@[i as int].wf());
            p.actor.tick_physics(delta);
            p.actor.wrap_position(sx, sy);
            self.players.set(i, p);
            proof { self.lemma_players_set_ok(i as int); }
            i = i + 1;
        }
    }

    /// Moves every shot and rock one physics step; when `cull`, those past
    /// the screen's edge are marked dead.
    pub fn move_debris(&mut self, delta: i64, cull: bool)
        requires
            old(self).wf(),
            0 <= delta <= MAX_DELTA,
        ensures
            final(self).wf(),
            all_drifted(final(self).shots@, old(self).shots@, delta as int, old(self).extent_x(), old(self).extent_y(), cull),
            all_drifted(final(self).rocks@, old(self).rocks@, delta as int, old(self).extent_x(), old(self).extent_y(), cull),
            final(self).same_except_actors(old(self)),
            final(self).score == old(self).score,
            final(self).play_sounds == old(self).play_sounds,
    {
        let sx = self.screen_width as i64 * UNITS_PER_PIXEL;
        let sy = self.screen_height as i64 * UNITS_PER_PIXEL;
        drift_all(&mut self.shots, delta, sx, sy, cull, ActorType::Shot);
        drift_all(&mut self.rocks, delta, sx, sy, cull, ActorType::Rock);
    }
}

/// The ships with the local keys given to ship 0.
pub open spec fn drive_first(ps: Seq<Player>, input: crate::structs::InputState) -> Seq<Player> {
    if ps.len() > 0 { ps.update(0, Player { input, ..ps[0] }) } else { ps }
}

pub open spec fn steered_seq(ps: Seq<Player>, delta: int) -> Seq<Player> {
    Seq::new(ps.len(), |i: int| steered(ps[i], delta))
}

pub open spec fn fired_seq(ps: Seq<Player>, now: int) -> Seq<Player> {
    Seq::new(ps.len(), |i: int| fired(ps[i], now))
}

pub open spec fn moved_seq(ps: Seq<Player>, delta: int, sx: int, sy: int) -> Seq<Player> {
    Seq::new(ps.len(), |i: int| ship_moved(ps[i], delta, sx, sy))
}

pub open spec fn drifted_seq(s: Seq<Actor>, delta: int, sx: int, sy: int, cull: bool) -> Seq<Actor> {
    Seq::new(s.len(), |i: int| drifted(s[i], delta, sx, sy, cull))
}

/// Each actor of `s`, marked dead when it touches one of `others`.
pub open spec fn struck_seq(s: Seq<Actor>, others: Seq<Actor>) -> Seq<Actor> {
    Seq::new(s.len(), |i: int| Actor { kill: s[i].kill || touched_by(s[i], others), ..s[i] })
}

/// The ships after a restart: timers and inputs cleared.
pub open spec fn reset_seq(ps: Seq<Player>) -> Seq<Player> {
    Seq::new(ps.len(), |i: int| Player { last_shot_at: 0, input: no_input(), ..ps[i] })
}

/// `new` is `old` after one server tick (`real_update_server`). The stages
/// are named after the state that they produce.
pub open spec fn server_step(old: MainState, new: MainState, delta: int, speed_mod: int, now: int) -> bool {
    let sx = old.extent_x();
    let sy = old.extent_y();
    let t = old.curr_time as int;
    let steered_ps = steered_seq(drive_first(old.players@, old.local_input), delta);
    let moved_ps = moved_seq(fired_seq(steered_ps, t), delta, sx, sy);
    let shots = drifted_seq(old.shots@ + volleys(steered_ps, t), delta, sx, sy, true);
    let rocks = drifted_seq(old.rocks@, delta, sx, sy, true);
    let tm = time_mult(t, old.difficulty_mult as int);
    let pairs = count_pairs(rocks, shots);
    let crash = crashes(rocks, moved_ps);
    &&& new.local_player_index == old.local_player_index
    &&& new.curr_time == old.curr_time
    &&& new.difficulty_mult == old.difficulty_mult
    &&& new.screen_width == old.screen_width
    &&& new.screen_height == old.screen_height
    &&& new.local_shots_made@ == old.local_shots_made@
    &&& new.play_sounds.play_shot == (old.play_sounds.play_shot || any_ready(steered_ps, t))
    &&& new.play_sounds.play_hit == (old.play_sounds.play_hit || crash || pairs > 0)
    &&& crash ==> {
        &&& new.players@ == reset_seq(moved_ps)
        &&& new.shots@.len() == 0
        &&& new.score == 0
        &&& new.start_time == now
        &&& new.local_input == no_input()
        &&& exists|ds: Seq<SpawnDraw>| ds.len() == spawn_loops(delta)
            && #[trigger] rocks_from(ds, tm, sx, sy, speed_mod) == new.rocks@
    }
    &&& !crash ==> {
        &&& new.players@ == moved_ps
        &&& new.shots@ == live(struck_seq(shots, rocks))
        &&& new.score == saturating_score(old.score as int, pairs as int)
        &&& new.start_time == old.start_time
        &&& new.local_input == old.local_input
        &&& exists|ds: Seq<SpawnDraw>| ds.len() == spawn_loops(delta)
            && #[trigger] rocks_from(ds, tm, sx, sy, speed_mod) == new.rocks@.subrange(
                live(struck_seq(rocks, shots)).len() as int, new.rocks@.len() as int)
            && new.rocks@.subrange(0, live(struck_seq(rocks, shots)).len() as int) == live(struck_seq(rocks, shots))
    }
}

/// The ships with the local keys given to the local ship, if it is known.
pub open spec fn drive_local(ps: Seq<Player>, local: Option<usize>, input: crate::structs::InputState) -> Seq<Player> {
    match local {
        Some(li) => if li < ps.len() { ps.update(li as int, Player { input, ..ps[li as int] }) } else { ps },
        None => ps,
    }
}

/// The volley that the local ship fires, if it is known and ready.
pub open spec fn local_volley(ps: Seq<Player>, local: Option<usize>, now: int) -> Seq<Actor> {
    match local {
        Some(li) => if li < ps.len() && ready(ps[li as int], now) { volley(ps[li as int].actor) } else { Seq::empty() },
        None => Seq::empty(),
    }
}

/// `new` is `old` after one client tick (`real_update_client`).
pub open spec fn client_step(old: MainState, new: MainState, delta: int) -> bool {
    let sx = old.extent_x();
    let sy = old.extent_y();
    let t = old.curr_time as int;
    let steered_ps = steered_seq(drive_local(old.players@, old.local_player_index, old.local_input), delta);
    let v = local_volley(steered_ps, old.local_player_index, t);
    &&& new.players@ == moved_seq(fired_seq(steered_ps, t), delta, sx, sy)
    &&& new.shots@ == drifted_seq(old.shots@, delta, sx, sy, false)
    &&& new.rocks@ == drifted_seq(old.rocks@, delta, sx, sy, false)
    &&& new.local_shots_made@ == old.local_shots_made@ + v
    &&& new.play_sounds.play_shot == (old.play_sounds.play_shot || any_ready(steered_ps, t))
    &&& new.play_sounds.play_hit == (old.play_sounds.play_hit || exists|i: int, j: int|
        0 <= i < new.rocks@.len() && 0 <= j < new.shots@.len() && #[trigger] crate::structs::hits(new.rocks@[i], new.shots@[j]))
    &&& new.score == old.score
    &&& new.local_player_index == old.local_player_index
    &&& new.local_input == old.local_input
    &&& new.curr_time == old.curr_time
    &&& new.start_time == old.start_time
    &&& new.difficulty_mult == old.difficulty_mult
    &&& new.screen_width == old.screen_width
    &&& new.screen_height == old.screen_height
}

/// Once every actor is marked dead, sweeping leaves none.
pub proof fn lemma_live_of_killed(s: Seq<Actor>, old_s: Seq<Actor>)
    requires
        crate::structs::all_killed(s, old_s),
    ensures
        live(s).len() == 0,
    decreases s.len(),
{
    if s.len() > 0 {
        let t = s.drop_last();
        assert(crate::structs::all_killed(t, old_s.drop_last())) by {
            assert forall|i: int| 0 <= i < t.len() implies #[trigger] t[i] == (Actor { kill: true, ..old_s.drop_last()[i] }) by {
                assert(s[i] == (Actor { kill: true, ..old_s[i] }));
            }
        }
        lemma_live_of_killed(t, old_s.drop_last());
        assert(s.last() == (Actor { kill: true, ..old_s[s.len() - 1] }));
    }
}

/// Sweeping leaves only live actors.
pub proof fn lemma_live_alive(s: Seq<Actor>)
    ensures
        forall|i: int| 0 <= i < live(s).len() ==> !(#[trigger] live(s)[i]).kill,
    decreases s.len(),
{
    if s.len() > 0 {
        lemma_live_alive(s.drop_last());
    }
}

/// Restarts the cooldown of each ready ship at `now`, asking for the shot sound.
fn restart_cooldowns(ps: &mut Vec<Player>, now: i64, sounds: &mut crate::structs::PlaySounds)
    requires
        players_ok(old(ps)@),
        time_ok(now as int),
    ensures
        players_ok(final(ps)@),
        final(ps)@.len() == old(ps)@.len(),
        forall|i: int| 0 <= i < old(ps)@.len() ==> #[trigger] final(ps)@[i] == fired(old(ps)@[i], now as int),
        final(sounds).play_shot == (old(sounds).play_shot || any_ready(old(ps)@, now as int)),
        final(sounds).play_hit == old(sounds).play_hit,
{
    let n = ps.len();
    let ghost ps0 = ps@;
    let mut i: usize = 0;
    while i < n
        invariant
            0 <= i <= n == ps.len() == ps0.len(),
            ps0 == old(ps)@,
            time_ok(now as int),
            players_ok(ps0),
            players_ok(ps@),
            forall|k: int| 0 <= k < i ==> #[trigger] ps@[k] == fired(ps0[k], now as int),
            forall|k: int| i <= k < n ==> #[trigger] ps@[k] == ps0[k],
            sounds.play_shot == (old(sounds).play_shot || any_ready(ps0.take(i as int), now as int)),
            sounds.play_hit == old(sounds).play_hit,
        decreases n - i,
    {
        let mut p = ps[i];
        let ghost t = ps0.take(i as int + 1);
        proof {
            assert(t[i as int] == ps0[i as int]);
            if any_ready(t, now as int) {
                let k = choose|k: int| 0 <= k < t.len() && #[trigger] ready(t[k], now as int);
                if k < i {
                    assert(ps0.take(i as int)[k] == t[k]);
                }
            }
            if any_ready(ps0.take(i as int), now as int) {
                let k = choose|k: int| 0 <= k < i && #[trigger] ready(ps0.take(i as int)[k], now as int);
                assert(ps0.take(i as int)[k] == t[k]);
            }
        }
        if p.input.fire && p.last_shot_at <= now - PLAYER_SHOT_TIME {
            p.last_shot_at = now;
            ps.set(i, p);
            sounds.play_shot = true;
        }
        proof {
            assert forall|k: int| 0 <= k < ps@.len() implies (#[trigger] ps@[k]).wf() by {
                assert(ps0[k].wf());
            }
        }
        i = i + 1;
    }
    assert(ps0.take(n as int) =~= ps0);
}

fn drift_all(v: &mut Vec<Actor>, delta: i64, sx: i64, sy: i64, cull: bool, tag: ActorType)
    requires
        actors_ok(old(v)@, tag),
        0 <= delta <= MAX_DELTA,
        extents_ok(sx, sy),
    ensures
        actors_ok(final(v)@, tag),
        all_drifted(final(v)@, old(v)@, delta as int, sx as int, sy as int, cull),
{
    let n = v.len();
    let mut i: usize = 0;
    while i < n
        invariant
            0 <= i <= n == v.len() == old(v).len(),
            0 <= delta <= MAX_DELTA,
            extents_ok(sx, sy),
            actors_ok(old(v)@, tag),
            forall|k: int| 0 <= k < i ==> #[trigger] v@[k] == drifted(old(v)@[k], delta as int, sx as int, sy as int, cull),
            forall|k: int| i <= k < n ==> #[trigger] v@[k] == old(v)@[k],
            actors_ok(v@, tag),
        decreases n - i,
    {
        let mut a = v[i];
        assert(old(v)@[i as int].wf());
        a.tick_physics(delta);
        if cull && a.is_out_of_bounds(sx, sy) {
            a.kill = true;
        }
        v.set(i, a);
        proof {
            assert forall|k: int| 0 <= k < v@.len() implies (#[trigger] v@[k]).wf() && v@[k].tag == tag by {
                if k != i {
                    assert(old(v)@[k].wf());
                }
            }
        }
        i = i + 1;
    }
}

} // verus!
