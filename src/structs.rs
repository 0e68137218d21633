//! The world state: players, rocks, shots, score and clocks, with the rules
//! that one tick of the game applies to them.

use crate::actor::{abs, clamp_coord, tdiv, Actor, ActorType, Vector2, MAX_DELTA,
    MICROS_PER_SEC, POS_LIMIT, UNITS_PER_PIXEL};
use vstd::prelude::*;

verus! {

/// Ship speed under keyboard control, in units per second (500 pixels per second).
pub const PLAYER_SPEED: i64 = 500_000;

/// Largest magnitude of a time, in microseconds (2^50, about 35 years).
pub const TIME_LIMIT: i64 = 1_125_899_906_842_624;

/// Largest difficulty factor, in thousandths (a million times the normal pace).
pub const MAX_DIFFICULTY: u64 = 1_000_000_000;

/// What the keys of one participant hold down.
#[derive(Debug, Clone, Copy, PartialEq, Eq, Structural)]
pub struct InputState {
    pub fire: bool,
    pub up: bool,
    pub down: bool,
    pub right: bool,
    pub left: bool,
}

/// Sounds that the renderer is asked to play after this tick.
#[derive(Debug, Clone, Copy, PartialEq, Eq, Structural)]
pub struct PlaySounds {
    pub play_hit: bool,
    pub play_shot: bool,
}

/// A participant's ship.
#[derive(Debug, Clone, Copy, PartialEq, Eq, Structural)]
pub struct Player {
    pub actor: Actor,
    pub input: InputState,
    pub index: u32,
    /// When this ship last fired, in microseconds of the local clock.
    pub last_shot_at: i64,
}

pub open spec fn no_input() -> InputState {
    InputState { fire: false, up: false, down: false, right: false, left: false }
}

pub open spec fn no_sounds() -> PlaySounds {
    PlaySounds { play_hit: false, play_shot: false }
}

pub open spec fn time_ok(t: int) -> bool {
    abs(t) <= TIME_LIMIT
}

pub open spec fn clamp_time(t: int) -> int {
    if t > TIME_LIMIT {
        TIME_LIMIT as int
    } else if t < -TIME_LIMIT {
        -TIME_LIMIT
    } else {
        t
    }
}

pub open spec fn axis(plus: bool, minus: bool) -> int {
    (if plus { 1int } else { 0int }) - (if minus { 1int } else { 0int })
}

/// The shift of one coordinate under keyboard control for `delta` microseconds.
pub open spec fn steer(p: i64, dir: int, delta: int) -> i64 {
    clamp_coord(p + tdiv(dir * PLAYER_SPEED * delta, MICROS_PER_SEC as int)) as i64
}

impl InputState {
    pub fn default() -> (r: InputState)
        ensures
            r == no_input(),
    {
        InputState { fire: false, up: false, down: false, right: false, left: false }
    }
}

/// The keys that the game reads.
#[derive(Debug, Clone, Copy, PartialEq, Eq, Structural)]
pub enum Key {
    Up,
    Down,
    Left,
    Right,
    Space,
    Escape,
    Other,
}

impl InputState {
    /// Records a key going down (`pressed`) or up; returns whether the game
    /// should quit (Escape pressed).
    pub fn apply_key(&mut self, key: Key, pressed: bool) -> (quit: bool)
        ensures
            quit == (pressed && key == Key::Escape),
            *final(self) == (match key {
                Key::Up => InputState { up: pressed, ..*old(self) },
                Key::Down => InputState { down: pressed, ..*old(self) },
                Key::Left => InputState { left: pressed, ..*old(self) },
                Key::Right => InputState { right: pressed, ..*old(self) },
                Key::Space => InputState { fire: pressed, ..*old(self) },
                _ => *old(self),
            }),
    {
        match key {
            Key::Up => { self.up = pressed; },
            Key::Down => { self.down = pressed; },
            Key::Left => { self.left = pressed; },
            Key::Right => { self.right = pressed; },
            Key::Space => { self.fire = pressed; },
            Key::Escape => { return pressed; },
            Key::Other => {},
        }
        false
    }
}

impl PlaySounds {
    /// Forgets the requests once the renderer has played them.
    pub fn clear_sounds(&mut self)
        ensures
            *final(self) == no_sounds(),
    {
        *self = PlaySounds::default();
    }

    pub fn default() -> (r: PlaySounds)
        ensures
            r == no_sounds(),
    {
        PlaySounds { play_hit: false, play_shot: false }
    }
}

impl Player {
    pub open spec fn wf(&self) -> bool {
        &&& self.actor.wf()
        &&& self.actor.tag == ActorType::Player
        &&& time_ok(self.last_shot_at as int)
    }

    pub fn create() -> (r: Player)
        ensures
            r == (Player {
                actor: Actor::fresh(ActorType::Player, 0),
                input: no_input(),
                index: 0,
                last_shot_at: 0,
            }),
            r.wf(),
    {
        Player::from_actor(Actor::create_player_actor())
    }

    pub fn from_actor(actor: Actor) -> (r: Player)
        ensures
            r == (Player { actor, input: no_input(), index: 0, last_shot_at: 0 }),
    {
        Player { actor, input: InputState::default(), index: 0, last_shot_at: 0 }
    }

    /// Moves the ship along the held arrow keys for `delta` microseconds.
    pub fn tick_input(&mut self, delta: i64)
        requires
            old(self).wf(),
            0 <= delta <= MAX_DELTA,
        ensures
            *final(self) == (Player {
                actor: Actor {
                    pos: Vector2 {
                        x: steer(old(self).actor.pos.x, axis(old(self).input.right, old(self).input.left), delta as int),
                        y: steer(old(self).actor.pos.y, axis(old(self).input.up, old(self).input.down), delta as int),
                    },
                    ..old(self).actor
                },
                ..*old(self)
            }),
            final(self).wf(),
    {
        let dir_x: i64 = (if self.input.right { 1 } else { 0 }) - (if self.input.left { 1 } else { 0 });
        let dir_y: i64 = (if self.input.up { 1 } else { 0 }) - (if self.input.down { 1 } else { 0 });
        let nx = steer_exec(self.actor.pos.x, dir_x, delta);
        let ny = steer_exec(self.actor.pos.y, dir_y, delta);
        self.actor.pos = Vector2 { x: nx, y: ny };
    }
}

/// The whole game state of one process. Positions are in units (thousandths
/// of a pixel) around the screen's centre; times are in microseconds.
pub struct MainState {
    /// The ship that this process steers; `None` for a spectator.
    pub local_player_index: Option<usize>,
    pub local_input: InputState,
    pub players: Vec<Player>,
    pub shots: Vec<Actor>,
    pub rocks: Vec<Actor>,
    /// Shots fired here that are yet to be reported to the server.
    pub local_shots_made: Vec<Actor>,
    pub score: i32,
    pub screen_width: u32,
    pub screen_height: u32,
    /// Clock reading at the start of the current round.
    pub start_time: i64,
    /// Time into the current round.
    pub curr_time: i64,
    /// Difficulty factor in thousandths (1000 is the normal pace).
    pub difficulty_mult: u64,
    pub play_sounds: PlaySounds,
}

pub open spec fn actors_ok(s: Seq<Actor>, tag: ActorType) -> bool {
    forall|i: int| 0 <= i < s.len() ==> (#[trigger] s[i]).wf() && s[i].tag == tag
}

pub open spec fn players_ok(s: Seq<Player>) -> bool {
    forall|i: int| 0 <= i < s.len() ==> (#[trigger] s[i]).wf()
}

/// All shots and rocks marked dead.
pub open spec fn all_killed(s: Seq<Actor>, old_s: Seq<Actor>) -> bool {
    &&& s.len() == old_s.len()
    &&& forall|i: int| 0 <= i < s.len() ==> #[trigger] s[i] == (Actor { kill: true, ..old_s[i] })
}

/// The actors that are still alive, in their order.
pub open spec fn live(s: Seq<Actor>) -> Seq<Actor>
    decreases s.len(),
{
    if s.len() == 0 {
        s
    } else {
        let rest = live(s.drop_last());
        if s.last().kill { rest } else { rest.push(s.last()) }
    }
}

/// Players after a restart: timers and inputs reset, ships kept.
pub open spec fn reset_players(s: Seq<Player>, old_s: Seq<Player>) -> bool {
    &&& s.len() == old_s.len()
    &&& forall|i: int|
        0 <= i < s.len() ==> #[trigger] s[i] == (Player { last_shot_at: 0, input: no_input(), ..old_s[i] })
}

pub open spec fn dist_sq(a: Vector2, b: Vector2) -> int {
    (a.x - b.x) * (a.x - b.x) + (a.y - b.y) * (a.y - b.y)
}

/// Two actors touch: their centres are closer than the sum of their radii.
pub open spec fn hits(a: Actor, b: Actor) -> bool {
    dist_sq(a.pos, b.pos) < (a.bbox_size + b.bbox_size) * (a.bbox_size + b.bbox_size)
}

/// How many of `shots` touch `rock`.
pub open spec fn count_hits(rock: Actor, shots: Seq<Actor>) -> nat
    decreases shots.len(),
{
    if shots.len() == 0 {
        0
    } else {
        count_hits(rock, shots.drop_last()) + if hits(rock, shots.last()) { 1nat } else { 0nat }
    }
}

/// How many (rock, shot) pairs touch.
pub open spec fn count_pairs(rocks: Seq<Actor>, shots: Seq<Actor>) -> nat
    decreases rocks.len(),
{
    if rocks.len() == 0 {
        0
    } else {
        count_pairs(rocks.drop_last(), shots) + count_hits(rocks.last(), shots)
    }
}

pub open spec fn touched_by(a: Actor, others: Seq<Actor>) -> bool {
    exists|k: int| 0 <= k < others.len() && #[trigger] hits(others[k], a)
}

/// Some rock touches some ship.
pub open spec fn crashes(rocks: Seq<Actor>, players: Seq<Player>) -> bool {
    exists|i: int, p: int| 0 <= i < rocks.len() && 0 <= p < players.len() && #[trigger] hits(rocks[i], #[trigger] players[p].actor)
}

/// Each actor of `s` is the one of `old_s`, marked dead when it touches one of `others`.
pub open spec fn struck(s: Seq<Actor>, old_s: Seq<Actor>, others: Seq<Actor>) -> bool {
    &&& s.len() == old_s.len()
    &&& forall|i: int| 0 <= i < s.len() ==> #[trigger] s[i] == (Actor { kill: old_s[i].kill || touched_by(old_s[i], others), ..old_s[i] })
}

pub open spec fn saturating_score(score: int, n: int) -> i32 {
    if score + n > i32::MAX { i32::MAX } else { (score + n) as i32 }
}

impl MainState {
    pub open spec fn extent_x(&self) -> int {
        self.screen_width as int * UNITS_PER_PIXEL
    }

    pub open spec fn extent_y(&self) -> int {
        self.screen_height as int * UNITS_PER_PIXEL
    }

    pub open spec fn wf(&self) -> bool {
        &&& players_ok(self.players@)
        &&& actors_ok(self.shots@, ActorType::Shot)
        &&& actors_ok(self.rocks@, ActorType::Rock)
        &&& actors_ok(self.local_shots_made@, ActorType::Shot)
        &&& self.players.len() > 0
        &&& self.screen_width > 0
        &&& self.screen_height > 0
        &&& time_ok(self.start_time as int)
        &&& time_ok(self.curr_time as int)
        &&& self.difficulty_mult <= MAX_DIFFICULTY
        &&& self.players.len() < u32::MAX
    }

    /// The state after `restart_game(now)`: a new round with score zero, every
    /// shot and rock dead, timers and inputs cleared.
    pub open spec fn restarted(&self, old: &MainState, now: i64) -> bool {
        &&& self.restarted_keeping_sounds(old, now)
        &&& self.play_sounds == old.play_sounds
    }

    /// A world with one ship (index 0) and nothing else, a round started at `now`.
    pub fn new(local_player_index: Option<usize>, screen_width: u32, screen_height: u32, difficulty_mult: u64, now: i64)
        -> (r: MainState)
        requires
            screen_width > 0,
            screen_height > 0,
            difficulty_mult <= MAX_DIFFICULTY,
            time_ok(now as int),
        ensures
            r.wf(),
            r.local_player_index == local_player_index,
            r.local_input == no_input(),
            r.players@ == seq![Player {
                actor: Actor::fresh(ActorType::Player, 0),
                input: no_input(),
                index: 0,
                last_shot_at: 0,
            }],
            r.shots@.len() == 0,
            r.rocks@.len() == 0,
            r.local_shots_made@.len() == 0,
            r.score == 0,
            r.screen_width == screen_width,
            r.screen_height == screen_height,
            r.start_time == now,
            r.curr_time == 0,
            r.difficulty_mult == difficulty_mult,
            r.play_sounds == no_sounds(),
    {
        let mut players: Vec<Player> = Vec::new();
        players.push(Player::create());
        let r = MainState {
            local_player_index,
            local_input: InputState::default(),
            players,
            shots: Vec::new(),
            rocks: Vec::new(),
            local_shots_made: Vec::new(),
            score: 0,
            screen_width,
            screen_height,
            start_time: now,
            curr_time: 0,
            difficulty_mult,
            play_sounds: PlaySounds::default(),
        };
        assert(r.players@ =~= seq![Player {
            actor: Actor::fresh(ActorType::Player, 0),
            input: no_input(),
            index: 0,
            last_shot_at: 0,
        }]);
        r
    }

    /// Whether this process runs the authoritative simulation.
    pub fn is_server(&self) -> (r: bool)
        ensures
            r == (self.local_player_index == Some(0usize)),
    {
        match self.local_player_index {
            Some(i) => i == 0,
            None => false,
        }
    }

    /// The ship that this process steers, if it has one and it is known yet.
    pub fn get_local_player(&self) -> (r: Option<&Player>)
        ensures
            r == (match self.local_player_index {
                Some(i) => if i < self.players@.len() { Some(&self.players@[i as int]) } else { None },
                None => None,
            }),
    {
        match self.local_player_index {
            Some(i) => {
                if i < self.players.len() {
                    Some(&self.players[i])
                } else {
                    None
                }
            },
            None => None,
        }
    }

    /// Adds a ship for a new participant; its index is the number of ships
    /// before it, and is returned.
    pub fn add_player(&mut self) -> (r: usize)
        requires
            old(self).wf(),
            old(self).players.len() + 1 < u32::MAX,
        ensures
            final(self).wf(),
            r == old(self).players@.len(),
            final(self).players@ == old(self).players@.push(Player {
                actor: Actor::fresh(ActorType::Player, 0),
                input: no_input(),
                index: r as u32,
                last_shot_at: 0,
            }),
            final(self).same_except_players(old(self)),
    {
        let index = self.players.len();
        let mut p = Player::create();
        p.index = index as u32;
        self.players.push(p);
        proof {
            assert(players_ok(self.players@)) by {
                assert forall|i: int| 0 <= i < self.players@.len() implies (#[trigger] self.players@[i]).wf() by {
                    if i < index {
                        assert(self.players@[i] == old(self).players@[i]);
                    }
                }
            }
        }
        index
    }

    /// Registers a client that connected: adds its ship (returning the index)
    /// and doubles the difficulty, up to `MAX_DIFFICULTY`.
    pub fn add_connected_player(&mut self) -> (r: usize)
        requires
            old(self).wf(),
            old(self).players.len() + 1 < u32::MAX,
        ensures
            final(self).wf(),
            r == old(self).players@.len(),
            final(self).players@ == old(self).players@.push(Player {
                actor: Actor::fresh(ActorType::Player, 0),
                input: no_input(),
                index: r as u32,
                last_shot_at: 0,
            }),
            final(self).difficulty_mult == if 2 * old(self).difficulty_mult > MAX_DIFFICULTY {
                MAX_DIFFICULTY as int
            } else {
                2 * old(self).difficulty_mult
            },
            final(self).shots@ == old(self).shots@,
            final(self).rocks@ == old(self).rocks@,
            final(self).score == old(self).score,
            final(self).local_player_index == old(self).local_player_index,
            final(self).curr_time == old(self).curr_time,
    {
        let index = self.add_player();
        self.difficulty_mult = if self.difficulty_mult > MAX_DIFFICULTY / 2 { MAX_DIFFICULTY } else { 2 * self.difficulty_mult };
        index
    }

    /// Starts a new round at clock reading `now`: score zero, every shot and
    /// rock marked dead, firing timers and inputs cleared.
    pub fn restart_game(&mut self, now: i64)
        requires
            old(self).wf(),
            time_ok(now as int),
        ensures
            final(self).restarted(old(self), now),
            final(self).wf(),
    {
        self.local_input = InputState::default();
        reset_players_exec(&mut self.players);
        self.score = 0;
        self.start_time = now;
        kill_all(&mut self.shots);
        kill_all(&mut self.rocks);
    }

    /// Settles this tick's contacts. A rock touching a ship ends the round
    /// (`restart_game(now)`). Otherwise every rock and shot that touch are
    /// both marked dead, whichever of them is looked at first, and each
    /// touching pair scores one point. Any contact asks for the hit sound.
    pub fn handle_collisions(&mut self, now: i64)
        requires
            old(self).wf(),
            time_ok(now as int),
        ensures
            final(self).wf(),
            crashes(old(self).rocks@, old(self).players@) ==> {
                &&& final(self).restarted_keeping_sounds(old(self), now)
                &&& final(self).play_sounds == (PlaySounds { play_hit: true, ..old(self).play_sounds })
            },
            !crashes(old(self).rocks@, old(self).players@) ==> {
                &&& struck(final(self).rocks@, old(self).rocks@, old(self).shots@)
                &&& struck(final(self).shots@, old(self).shots@, old(self).rocks@)
                &&& final(self).score == saturating_score(old(self).score as int, count_pairs(old(self).rocks@, old(self).shots@) as int)
                &&& final(self).play_sounds == (PlaySounds {
                    play_hit: old(self).play_sounds.play_hit || count_pairs(old(self).rocks@, old(self).shots@) > 0,
                    ..old(self).play_sounds
                })
                &&& final(self).same_except_actors(old(self))
            },
            forall|i: int, j: int|
                0 <= i < old(self).rocks@.len() && 0 <= j < old(self).shots@.len() && #[trigger] hits(old(self).rocks@[i], old(self).shots@[j])
                    ==> final(self).rocks@[i].kill && final(self).shots@[j].kill,
    {
        let ghost pre = *self;
        let (crash, any) = collide(&mut self.rocks, &mut self.shots, &self.players, &mut self.score);
        if any {
            self.play_sounds.play_hit = true;
        }
        proof {
            assert forall|i: int| 0 <= i < self.rocks@.len() implies (#[trigger] self.rocks@[i]).wf() && self.rocks@[i].tag == ActorType::Rock by {
                assert(pre.rocks@[i].wf());
            }
            assert forall|i: int| 0 <= i < self.shots@.len() implies (#[trigger] self.shots@[i]).wf() && self.shots@[i].tag == ActorType::Shot by {
                assert(pre.shots@[i].wf());
            }
            assert forall|i: int, j: int|
                0 <= i < pre.rocks@.len() && 0 <= j < pre.shots@.len() && #[trigger] hits(pre.rocks@[i], pre.shots@[j])
                    implies self.rocks@[i].kill && self.shots@[j].kill by {
                lemma_hits_symmetric(pre.rocks@[i], pre.shots@[j]);
                assert(touched_by(pre.rocks@[i], pre.shots@));
                assert(touched_by(pre.shots@[j], pre.rocks@));
            }
        }
        if crash {
            self.restart_game(now);
            self.play_sounds.play_hit = true;
        }
    }

    /// `restarted`, but for the sounds.
    pub open spec fn restarted_keeping_sounds(&self, old: &MainState, now: i64) -> bool {
        &&& self.local_player_index == old.local_player_index
        &&& self.local_input == no_input()
        &&& reset_players(self.players@, old.players@)
        &&& all_killed(self.shots@, old.shots@)
        &&& all_killed(self.rocks@, old.rocks@)
        &&& self.local_shots_made@ == old.local_shots_made@
        &&& self.score == 0
        &&& self.screen_width == old.screen_width
        &&& self.screen_height == old.screen_height
        &&& self.start_time == now
        &&& self.curr_time == old.curr_time
        &&& self.difficulty_mult == old.difficulty_mult
    }

    /// Equal to `old` in everything but the ships.
    pub open spec fn same_except_players(&self, old: &MainState) -> bool {
        &&& self.local_player_index == old.local_player_index
        &&& self.local_input == old.local_input
        &&& self.shots@ == old.shots@
        &&& self.rocks@ == old.rocks@
        &&& self.local_shots_made@ == old.local_shots_made@
        &&& self.score == old.score
        &&& self.screen_width == old.screen_width
        &&& self.screen_height == old.screen_height
        &&& self.start_time == old.start_time
        &&& self.curr_time == old.curr_time
        &&& self.difficulty_mult == old.difficulty_mult
        &&& self.play_sounds == old.play_sounds
    }

    /// Replacing one well-formed ship keeps the ships well-formed.
    pub proof fn lemma_players_set_ok(&self, i: int)
        requires
            0 <= i < self.players@.len(),
            self.players@[i].wf(),
            forall|k: int| 0 <= k < self.players@.len() && k != i ==> (#[trigger] self.players@[k]).wf(),
        ensures
            players_ok(self.players@),
    {
    }

    /// Equal to `old` in everything but the shots, rocks, score and sounds.
    pub open spec fn same_except_actors(&self, old: &MainState) -> bool {
        &&& self.local_player_index == old.local_player_index
        &&& self.local_input == old.local_input
        &&& self.players@ == old.players@
        &&& self.local_shots_made@ == old.local_shots_made@
        &&& self.screen_width == old.screen_width
        &&& self.screen_height == old.screen_height
        &&& self.start_time == old.start_time
        &&& self.curr_time == old.curr_time
        &&& self.difficulty_mult == old.difficulty_mult
    }

    /// Drops the shots and rocks that are marked dead.
    pub fn clear_dead_stuff(&mut self)
        requires
            old(self).wf(),
        ensures
            final(self).wf(),
            final(self).shots@ == live(old(self).shots@),
            final(self).rocks@ == live(old(self).rocks@),
            final(self).players@ == old(self).players@,
            final(self).score == old(self).score,
            final(self).local_player_index == old(self).local_player_index,
            final(self).curr_time == old(self).curr_time,
            final(self).start_time == old(self).start_time,
            final(self).screen_width == old(self).screen_width,
            final(self).screen_height == old(self).screen_height,
            final(self).difficulty_mult == old(self).difficulty_mult,
            final(self).play_sounds == old(self).play_sounds,
            final(self).local_input == old(self).local_input,
            final(self).local_shots_made@ == old(self).local_shots_made@,
    {
        let shots = retain_live(&self.shots);
        let rocks = retain_live(&self.rocks);
        self.shots = shots;
        self.rocks = rocks;
    }
}

proof fn lemma_saturating_step(s0: int, n: int)
    requires
        i32::MIN <= s0 <= i32::MAX,
        n >= 0,
    ensures
        saturating_score(s0, n + 1) == if saturating_score(s0, n) < i32::MAX { saturating_score(s0, n) + 1 } else { i32::MAX as int },
{
}

pub proof fn lemma_hits_symmetric(a: Actor, b: Actor)
    ensures
        hits(a, b) == hits(b, a),
{
    assert(dist_sq(a.pos, b.pos) == dist_sq(b.pos, a.pos)) by (nonlinear_arith);
    assert((a.bbox_size + b.bbox_size) * (a.bbox_size + b.bbox_size) == (b.bbox_size + a.bbox_size) * (b.bbox_size + a.bbox_size));
}

pub(crate) fn hits_exec(a: &Actor, b: &Actor) -> (r: bool)
    requires
        a.wf(),
        b.wf(),
    ensures
        r == hits(*a, *b),
{
    let dx = a.pos.x as i128 - b.pos.x as i128;
    let dy = a.pos.y as i128 - b.pos.y as i128;
    assert(dx * dx <= 0x40_0000_0000_0000_0000_0000_0000) by (nonlinear_arith)
        requires -0x8_0000_0000_0000 <= dx <= 0x8_0000_0000_0000;
    assert(dy * dy <= 0x40_0000_0000_0000_0000_0000_0000) by (nonlinear_arith)
        requires -0x8_0000_0000_0000 <= dy <= 0x8_0000_0000_0000;
    assert(dx * dx >= 0 && dy * dy >= 0) by (nonlinear_arith);
    assert(0 <= a.bbox_size <= 12_000 && 0 <= b.bbox_size <= 12_000);
    let r = a.bbox_size as i128 + b.bbox_size as i128;
    let dx2 = dx * dx;
    let dy2 = dy * dy;
    let d2 = dx2 + dy2;
    assert(0 <= r * r <= 576_000_000) by (nonlinear_arith) requires 0 <= r <= 24_000;
    let r2 = r * r;
    d2 < r2
}

/// One collision pass over every rock: against each ship, then each shot.
/// Returns whether a rock touched a ship, and whether any pair touched.
fn collide(rocks: &mut Vec<Actor>, shots: &mut Vec<Actor>, players: &Vec<Player>, score: &mut i32) -> (r: (bool, bool))
    requires
        actors_ok(old(rocks)@, ActorType::Rock),
        actors_ok(old(shots)@, ActorType::Shot),
        players_ok(players@),
    ensures
        r.0 == crashes(old(rocks)@, players@),
        r.1 == (count_pairs(old(rocks)@, old(shots)@) > 0),
        struck(final(rocks)@, old(rocks)@, old(shots)@),
        struck(final(shots)@, old(shots)@, old(rocks)@),
        *final(score) == saturating_score(*old(score) as int, count_pairs(old(rocks)@, old(shots)@) as int),
{
    let ghost rocks0 = rocks@;
    let ghost shots0 = shots@;
    let ghost score0 = *score as int;
    let nr = rocks.len();
    let ns = shots.len();
    let mut crash = false;
    let mut any = false;
    let mut i: usize = 0;
    while i < nr
        invariant
            nr == rocks.len() == rocks0.len(),
            ns == shots.len() == shots0.len(),
            0 <= i <= nr,
            actors_ok(rocks0, ActorType::Rock),
            actors_ok(shots0, ActorType::Shot),
            players_ok(players@),
            forall|k: int| 0 <= k < i ==> #[trigger] rocks@[k] == (Actor { kill: rocks0[k].kill || touched_by(rocks0[k], shots0), ..rocks0[k] }),
            forall|k: int| i <= k < nr ==> #[trigger] rocks@[k] == rocks0[k],
            forall|j: int| 0 <= j < ns ==> #[trigger] shots@[j] == (Actor { kill: shots0[j].kill || touched_by(shots0[j], rocks0.take(i as int)), ..shots0[j] }),
            *score == saturating_score(score0, count_pairs(rocks0.take(i as int), shots0) as int),
            any == (count_pairs(rocks0.take(i as int), shots0) > 0),
            crash == crashes(rocks0.take(i as int), players@),
            i32::MIN <= score0 <= i32::MAX,
        decreases nr - i,
    {
        let mut rock = rocks[i];
        assert(rock == rocks0[i as int]);
        assert(rocks0[i as int].wf());
        let mut p: usize = 0;
        let mut crash_here = false;
        while p < players.len()
            invariant
                0 <= p <= players.len(),
                players_ok(players@),
                0 <= i < nr == rocks0.len(),
                rock == rocks0[i as int],
                rock.wf(),
                crash_here == exists|q: int| 0 <= q < p && #[trigger] hits(rock, players@[q].actor),
            decreases players.len() - p,
        {
            assert(players@[p as int].wf());
            if hits_exec(&rock, &players[p].actor) {
                crash_here = true;
            }
            p = p + 1;
        }
        proof {
            let t = rocks0.take(i as int + 1);
            assert(t.drop_last() =~= rocks0.take(i as int));
            assert(t.last() == rocks0[i as int]);
            if crash_here {
                let q = choose|q: int| 0 <= q < players.len() && #[trigger] hits(rock, players@[q].actor);
                assert(hits(t[i as int], players@[q].actor));
            }
            if crash {
                let (a, b) = choose|a: int, b: int| 0 <= a < i && 0 <= b < players@.len() && #[trigger] hits(rocks0.take(i as int)[a], #[trigger] players@[b].actor);
                assert(t[a] == rocks0.take(i as int)[a]);
                assert(hits(t[a], players@[b].actor));
            }
            if crashes(t, players@) {
                let (a, b) = choose|a: int, b: int| 0 <= a < t.len() && 0 <= b < players@.len() && #[trigger] hits(t[a], #[trigger] players@[b].actor);
                if a < i {
                    assert(rocks0.take(i as int)[a] == t[a]);
                } else {
                    assert(hits(rock, players@[b].actor));
                }
            }
        }
        crash = crash || crash_here;
        let mut j: usize = 0;
        while j < ns
            invariant
                nr == rocks.len() == rocks0.len(),
                ns == shots.len() == shots0.len(),
                0 <= i < nr,
                0 <= j <= ns,
                actors_ok(rocks0, ActorType::Rock),
                actors_ok(shots0, ActorType::Shot),
                rock == (Actor { kill: rocks0[i as int].kill || touched_by(rocks0[i as int], shots0.take(j as int)), ..rocks0[i as int] }),
                i32::MIN <= score0 <= i32::MAX,
                forall|k: int| 0 <= k < i ==> #[trigger] rocks@[k] == (Actor { kill: rocks0[k].kill || touched_by(rocks0[k], shots0), ..rocks0[k] }),
                forall|k: int| i <= k < nr ==> #[trigger] rocks@[k] == rocks0[k],
                forall|q: int| 0 <= q < j ==> #[trigger] shots@[q] == (Actor { kill: shots0[q].kill || touched_by(shots0[q], rocks0.take(i as int + 1)), ..shots0[q] }),
                forall|q: int| j <= q < ns ==> #[trigger] shots@[q] == (Actor { kill: shots0[q].kill || touched_by(shots0[q], rocks0.take(i as int)), ..shots0[q] }),
                *score == saturating_score(score0, (count_pairs(rocks0.take(i as int), shots0) + count_hits(rocks0[i as int], shots0.take(j as int))) as int),
                any == (count_pairs(rocks0.take(i as int), shots0) + count_hits(rocks0[i as int], shots0.take(j as int)) > 0),
            decreases ns - j,
        {
            let mut shot = shots[j];
            assert(shots0[j as int].wf());
            assert(rocks0[i as int].wf());
            let touch = hits_exec(&shot, &rock);
            proof {
                lemma_hits_symmetric(shot, rock);
                let tj = shots0.take(j as int + 1);
                assert(tj.drop_last() =~= shots0.take(j as int));
                assert(tj.last() == shots0[j as int]);
                assert(touch == hits(rocks0[i as int], shots0[j as int]));
                assert(count_hits(rocks0[i as int], tj)
                    == count_hits(rocks0[i as int], shots0.take(j as int)) + if touch { 1nat } else { 0nat });
                lemma_saturating_step(score0, (count_pairs(rocks0.take(i as int), shots0) + count_hits(rocks0[i as int], shots0.take(j as int))) as int);
                let ri = rocks0.take(i as int + 1);
                // The shot's standing against the rocks up to and including this one.
                if touched_by(shots0[j as int], rocks0.take(i as int)) {
                    let k = choose|k: int| 0 <= k < i && #[trigger] hits(rocks0.take(i as int)[k], shots0[j as int]);
                    assert(ri[k] == rocks0.take(i as int)[k]);
                }
                if touch {
                    assert(hits(ri[i as int], shots0[j as int]));
                }
                if touched_by(shots0[j as int], ri) {
                    let k = choose|k: int| 0 <= k < ri.len() && #[trigger] hits(ri[k], shots0[j as int]);
                    if k < i {
                        assert(rocks0.take(i as int)[k] == ri[k]);
                    }
                }
                // The rock's standing against the shots up to and including this one.
                if touched_by(rocks0[i as int], shots0.take(j as int)) {
                    let k = choose|k: int| 0 <= k < j && #[trigger] hits(shots0.take(j as int)[k], rocks0[i as int]);
                    assert(tj[k] == shots0.take(j as int)[k]);
                }
                if touch {
                    assert(hits(tj[j as int], rocks0[i as int]));
                }
                if touched_by(rocks0[i as int], tj) {
                    let k = choose|k: int| 0 <= k < tj.len() && #[trigger] hits(tj[k], rocks0[i as int]);
                    if k < j {
                        assert(shots0.take(j as int)[k] == tj[k]);
                    } else {
                        lemma_hits_symmetric(shots0[j as int], rocks0[i as int]);
                    }
                }
            }
            if touch {
                shot.kill = true;
                rock.kill = true;
                if *score < i32::MAX {
                    *score = *score + 1;
                }
                any = true;
            }
            shots.set(j, shot);
            j = j + 1;
        }
        rocks.set(i, rock);
        proof {
            let t = rocks0.take(i as int + 1);
            assert(t.drop_last() =~= rocks0.take(i as int));
            assert(t.last() == rocks0[i as int]);
            assert(shots0.take(ns as int) =~= shots0);
        }
        i = i + 1;
    }
    proof {
        assert(rocks0.take(nr as int) =~= rocks0);
    }
    (crash, any)
}

fn reset_players_exec(v: &mut Vec<Player>)
    ensures
        reset_players(final(v)@, old(v)@),
        players_ok(old(v)@) ==> players_ok(final(v)@),
{
    let n = v.len();
    let mut i: usize = 0;
    while i < n
        invariant
            n == v.len(),
            0 <= i <= n,
            v.len() == old(v).len(),
            forall|k: int| 0 <= k < i ==> #[trigger] v@[k] == (Player { last_shot_at: 0, input: no_input(), ..old(v)@[k] }),
            forall|k: int| i <= k < n ==> #[trigger] v@[k] == old(v)@[k],
        decreases n - i,
    {
        let mut p = v[i];
        p.last_shot_at = 0;
        p.input = InputState::default();
        v.set(i, p);
        i = i + 1;
    }
    proof {
        if players_ok(old(v)@) {
            assert forall|k: int| 0 <= k < final(v)@.len() implies (#[trigger] final(v)@[k]).wf() by {
                assert(old(v)@[k].wf());
            }
        }
    }
}

fn kill_all(v: &mut Vec<Actor>)
    ensures
        all_killed(final(v)@, old(v)@),
        forall|tag: ActorType| actors_ok(old(v)@, tag) ==> actors_ok(final(v)@, tag),
{
    let n = v.len();
    let mut i: usize = 0;
    while i < n
        invariant
            n == v.len(),
            0 <= i <= n,
            v.len() == old(v).len(),
            forall|k: int| 0 <= k < i ==> #[trigger] v@[k] == (Actor { kill: true, ..old(v)@[k] }),
            forall|k: int| i <= k < n ==> #[trigger] v@[k] == old(v)@[k],
        decreases n - i,
    {
        let mut a = v[i];
        a.kill = true;
        v.set(i, a);
        i = i + 1;
    }
    proof {
        assert forall|tag: ActorType| actors_ok(old(v)@, tag) implies actors_ok(final(v)@, tag) by {
            assert forall|k: int| 0 <= k < final(v)@.len() implies (#[trigger] final(v)@[k]).wf() && final(v)@[k].tag == tag by {
                assert(old(v)@[k].wf());
            }
        }
    }
}

/// The live actors of `v`, in order.
fn retain_live(v: &Vec<Actor>) -> (r: Vec<Actor>)
    ensures
        r@ == live(v@),
        forall|tag: ActorType| actors_ok(v@, tag) ==> actors_ok(r@, tag),
{
    let mut r: Vec<Actor> = Vec::new();
    let mut i: usize = 0;
    while i < v.len()
        invariant
            0 <= i <= v.len(),
            r@ == live(v@.subrange(0, i as int)),
            forall|k: int| 0 <= k < r@.len() ==> exists|j: int| 0 <= j < i && #[trigger] r@[k] == v@[j],
        decreases v.len() - i,
    {
        assert(v@.subrange(0, i as int + 1).drop_last() =~= v@.subrange(0, i as int));
        if !v[i].kill {
            r.push(v[i]);
            proof {
                assert forall|k: int| 0 <= k < r@.len() implies exists|j: int| 0 <= j < i + 1 && #[trigger] r@[k] == v@[j] by {
                    if k == r@.len() - 1 {
                        assert(r@[k] == v@[i as int]);
                    }
                }
            }
        }
        i = i + 1;
    }
    assert(v@.subrange(0, i as int) =~= v@);
    proof {
        assert forall|tag: ActorType| actors_ok(v@, tag) implies actors_ok(r@, tag) by {
            assert forall|k: int| 0 <= k < r@.len() implies (#[trigger] r@[k]).wf() && r@[k].tag == tag by {
                let j = choose|j: int| 0 <= j < v@.len() && #[trigger] r@[k] == v@[j];
                assert(v@[j].wf());
            }
        }
    }
    r
}

fn steer_exec(p: i64, dir: i64, delta: i64) -> (r: i64)
    requires
        abs(p as int) <= POS_LIMIT,
        -1 <= dir <= 1,
        0 <= delta <= MAX_DELTA,
    ensures
        r == steer(p, dir as int, delta as int),
        abs(r as int) <= POS_LIMIT,
{
    let d = dir * PLAYER_SPEED;
    assert(-PLAYER_SPEED * MAX_DELTA <= d * delta <= PLAYER_SPEED * MAX_DELTA) by (nonlinear_arith)
        requires -PLAYER_SPEED <= d <= PLAYER_SPEED, 0 <= delta <= MAX_DELTA;
    let m = d * delta;
    let shift = if m >= 0 { m / MICROS_PER_SEC } else { -((-m) / MICROS_PER_SEC) };
    let moved = p + shift;
    if moved > POS_LIMIT {
        POS_LIMIT
    } else if moved < -POS_LIMIT {
        -POS_LIMIT
    } else {
        moved
    }
}

} // verus!
