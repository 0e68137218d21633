//! The messages exchanged between server and clients, and how each one is
//! made from, and applied to, the world state.

use crate::actor::{pos_ok, Actor, ActorType, Vector2};
use crate::structs::{actors_ok, clamp_time, no_input, players_ok, time_ok, InputState, MainState, Player, TIME_LIMIT};
use vstd::prelude::*;

verus! {

/// Sent once by the server to a client that connects: the index of the ship
/// that it steers.
#[derive(Debug, Clone, Copy, PartialEq, Eq, Structural)]
pub struct NetPlayerConnected {
    pub player_index: usize,
}

impl NetPlayerConnected {
    pub fn make(player_index: usize) -> (r: NetPlayerConnected)
        ensures
            r.player_index == player_index,
    {
        NetPlayerConnected { player_index }
    }
}

/// Sent periodically by a client: its keys, where its ship is, and the shots
/// that it fired since the last message. The server trusts all three.
pub struct NetClientInput {
    pub input_state: InputState,
    pub final_position: Vector2,
    pub shots_made: Vec<Actor>,
}

/// Sent periodically by the server: the full state of every ship, rock and
/// shot, the score and the server's round time.
pub struct NetFromServer {
    pub players: Vec<Player>,
    pub actors: Vec<Actor>,
    pub score: i32,
    pub server_time: i64,
}

/// The actors of `s` with role `tag`, in order.
pub open spec fn of_tag(s: Seq<Actor>, tag: ActorType) -> Seq<Actor>
    decreases s.len(),
{
    if s.len() == 0 {
        s
    } else {
        let rest = of_tag(s.drop_last(), tag);
        if s.last().tag == tag { rest.push(s.last()) } else { rest }
    }
}

/// The ship that `add_player` creates for index `k`.
pub open spec fn new_player(k: int) -> Player {
    Player { actor: Actor::fresh(ActorType::Player, 0), input: no_input(), index: k as u32, last_shot_at: 0 }
}

/// The local ships, with ships added for the indices up to `n`.
pub open spec fn grown(ps: Seq<Player>, n: int) -> Seq<Player> {
    Seq::new(if n > ps.len() { n as nat } else { ps.len() }, |k: int| if k < ps.len() { ps[k] } else { new_player(k) })
}

/// A ship whose firing time is moved from one clock to another.
pub open spec fn shifted(p: Player, diff: int) -> Player {
    Player { last_shot_at: clamp_time(p.last_shot_at - diff) as i64, ..p }
}

/// Ship `k` after a snapshot with ships `theirs` is merged into ships `mine`
/// (already grown): the snapshot's ship replaces the local one, except the
/// one that this process steers; both have their firing time moved by `diff`.
pub open spec fn merged(local: Option<usize>, mine: Seq<Player>, theirs: Seq<Player>, diff: int, k: int) -> Player {
    if k < theirs.len() {
        if local == Some(k as usize) { shifted(mine[k], diff) } else { shifted(theirs[k], diff) }
    } else {
        mine[k]
    }
}

impl NetClientInput {
    pub open spec fn wf(&self) -> bool {
        &&& pos_ok(self.final_position)
        &&& actors_ok(self.shots_made@, ActorType::Shot)
    }

    /// Applies this message, from the client that steers ship `player_id`:
    /// its shots join the world (asking for the shot sound when there are
    /// any), and the ship takes its keys and its position.
    pub fn update_main_state(self, player_id: usize, state: &mut MainState)
        requires
            old(state).wf(),
            self.wf(),
            player_id < old(state).players@.len(),
        ensures
            final(state).wf(),
            final(state).shots@ == old(state).shots@ + self.shots_made@,
            final(state).play_sounds == (crate::structs::PlaySounds {
                play_shot: old(state).play_sounds.play_shot || self.shots_made@.len() > 0,
                ..old(state).play_sounds
            }),
            final(state).players@ == old(state).players@.update(player_id as int, Player {
                input: self.input_state,
                actor: Actor { pos: self.final_position, ..old(state).players@[player_id as int].actor },
                ..old(state).players@[player_id as int]
            }),
            final(state).rocks@ == old(state).rocks@,
            final(state).score == old(state).score,
            final(state).local_player_index == old(state).local_player_index,
            final(state).local_input == old(state).local_input,
            final(state).local_shots_made@ == old(state).local_shots_made@,
            final(state).screen_width == old(state).screen_width,
            final(state).screen_height == old(state).screen_height,
            final(state).start_time == old(state).start_time,
            final(state).curr_time == old(state).curr_time,
            final(state).difficulty_mult == old(state).difficulty_mult,
    {
        let mut msg = self;
        if msg.shots_made.len() > 0 {
            state.play_sounds.play_shot = true;
        }
        let ghost shots0 = state.shots@;
        let ghost made = msg.shots_made@;
        state.shots.append(&mut msg.shots_made);
        proof {
            assert forall|i: int| 0 <= i < state.shots@.len() implies (#[trigger] state.shots@[i]).wf() && state.shots@[i].tag == ActorType::Shot by {
                if i < shots0.len() {
                    assert(shots0[i] == state.shots@[i]);
                } else {
                    assert(made[i - shots0.len()] == state.shots@[i]);
                }
            }
        }
        let mut p = state.players[player_id];
        assert(state.players@[player_id as int].wf());
        p.input = msg.input_state;
        p.actor.pos = msg.final_position;
        state.players.set(player_id, p);
        proof { state.lemma_players_set_ok(player_id as int); }
    }

    /// The message that this client sends now: its keys, its ship's position
    /// (ship 0 when it steers none yet), and the shots that it fired since the
    /// last message, which are then forgotten here.
    pub fn make_from_state(state: &mut MainState) -> (r: NetClientInput)
        requires
            old(state).wf(),
        ensures
            final(state).wf(),
            r.wf(),
            r.input_state == old(state).local_input,
            r.final_position == (match old(state).local_player_index {
                Some(i) => if i < old(state).players@.len() { old(state).players@[i as int].actor.pos } else { old(state).players@[0].actor.pos },
                None => old(state).players@[0].actor.pos,
            }),
            r.shots_made@ == old(state).local_shots_made@,
            final(state).local_shots_made@.len() == 0,
            final(state).players@ == old(state).players@,
            final(state).shots@ == old(state).shots@,
            final(state).rocks@ == old(state).rocks@,
            final(state).score == old(state).score,
            final(state).local_player_index == old(state).local_player_index,
            final(state).local_input == old(state).local_input,
            final(state).curr_time == old(state).curr_time,
            final(state).play_sounds == old(state).play_sounds,
            final(state).screen_width == old(state).screen_width,
            final(state).screen_height == old(state).screen_height,
            final(state).start_time == old(state).start_time,
            final(state).difficulty_mult == old(state).difficulty_mult,
    {
        let pos = match state.get_local_player() {
            Some(p) => p.actor.pos,
            None => state.players[0].actor.pos,
        };
        proof {
            assert(state.players@[0].wf());
            match state.local_player_index {
                Some(i) => if i < state.players@.len() { assert(state.players@[i as int].wf()); },
                None => {},
            }
        }
        let mut shots_made: Vec<Actor> = Vec::new();
        shots_made.append(&mut state.local_shots_made);
        NetClientInput { input_state: state.local_input, final_position: pos, shots_made }
    }
}

impl NetFromServer {
    pub open spec fn wf(&self) -> bool {
        &&& players_ok(self.players@)
        &&& forall|i: int| 0 <= i < self.actors@.len() ==> (#[trigger] self.actors@[i]).wf()
        &&& time_ok(self.server_time as int)
        &&& self.players@.len() < u32::MAX
    }

    /// `new` is `old` after this snapshot is applied.
    pub open spec fn reconciled(&self, new: &MainState, old: &MainState) -> bool {
        let mine = grown(old.players@, self.players@.len() as int);
        let diff = old.curr_time - self.server_time;
        &&& new.score == self.score
        &&& new.curr_time == self.server_time
        &&& new.players@.len() == mine.len()
        &&& forall|k: int| 0 <= k < mine.len() ==> #[trigger] new.players@[k] == merged(old.local_player_index, mine, self.players@, diff, k)
        &&& new.rocks@ == of_tag(self.actors@, ActorType::Rock)
        &&& new.shots@ == of_tag(self.actors@, ActorType::Shot)
        &&& new.local_player_index == old.local_player_index
        &&& new.local_input == old.local_input
        &&& new.local_shots_made@ == old.local_shots_made@
        &&& new.screen_width == old.screen_width
        &&& new.screen_height == old.screen_height
        &&& new.start_time == old.start_time
        &&& new.difficulty_mult == old.difficulty_mult
        &&& new.play_sounds == old.play_sounds
    }

    /// The snapshot of `state`: every ship, then the rocks and the shots,
    /// the score and the round time.
    pub fn make_from_state(state: &MainState) -> (r: NetFromServer)
        requires
            state.wf(),
        ensures
            r.players@ == state.players@,
            r.actors@ == state.rocks@ + state.shots@,
            r.score == state.score,
            r.server_time == state.curr_time,
            r.wf(),
    {
        let players = state.players.clone();
        let mut actors: Vec<Actor> = state.rocks.clone();
        let mut shots = state.shots.clone();
        assert(players@ =~= state.players@);
        assert(actors@ =~= state.rocks@);
        assert(shots@ =~= state.shots@);
        actors.append(&mut shots);
        let r = NetFromServer { players, actors, score: state.score, server_time: state.curr_time };
        proof {
            assert forall|i: int| 0 <= i < r.actors@.len() implies (#[trigger] r.actors@[i]).wf() by {
                if i < state.rocks@.len() {
                    assert(state.rocks@[i].wf());
                } else {
                    assert(state.shots@[i - state.rocks@.len()].wf());
                }
            }
        }
        r
    }
}

impl NetFromServer {
    /// Merges this snapshot into `state`: the score, the rocks and the shots
    /// are replaced; ships missing here are added; every ship takes the
    /// snapshot's state except the one that this process steers, which keeps
    /// its predicted state; every firing time moves to the local clock; the
    /// round time becomes the server's.
    pub fn update_main_state(self, state: &mut MainState)
        requires
            old(state).wf(),
            self.wf(),
        ensures
            final(state).wf(),
            self.reconciled(final(state), old(state)),
    {
        let ghost pre = *state;
        let diff = state.curr_time - self.server_time;
        state.score = self.score;
        state.curr_time = self.server_time;
        let n = self.players.len();
        while state.players.len() < n
            invariant
                state.wf(),
                n == self.players@.len() < u32::MAX,
                pre.players@.len() <= state.players@.len(),
                state.players@.len() <= if n > pre.players@.len() { n } else { pre.players@.len() as usize },
                forall|k: int| 0 <= k < state.players@.len() ==> #[trigger] state.players@[k] == grown(pre.players@, n as int)[k],
                state.score == self.score,
                state.curr_time == self.server_time,
                state.rocks@ == pre.rocks@,
                state.shots@ == pre.shots@,
                state.local_player_index == pre.local_player_index,
                state.local_input == pre.local_input,
                state.local_shots_made@ == pre.local_shots_made@,
                state.screen_width == pre.screen_width,
                state.screen_height == pre.screen_height,
                state.start_time == pre.start_time,
                state.difficulty_mult == pre.difficulty_mult,
                state.play_sounds == pre.play_sounds,
            decreases n - state.players.len(),
        {
            state.add_player();
        }
        let ghost mine = grown(pre.players@, n as int);
        assert(state.players@ =~= mine);
        let mut i: usize = 0;
        while i < n
            invariant
                0 <= i <= n == self.players@.len(),
                self.wf(),
                state.wf(),
                state.players@.len() == mine.len(),
                mine == grown(pre.players@, n as int),
                diff == pre.curr_time - self.server_time,
                -2 * TIME_LIMIT <= diff <= 2 * TIME_LIMIT,
                forall|k: int| 0 <= k < i ==> #[trigger] state.players@[k] == merged(pre.local_player_index, mine, self.players@, diff as int, k),
                forall|k: int| i <= k < mine.len() ==> #[trigger] state.players@[k] == mine[k],
                state.score == self.score,
                state.curr_time == self.server_time,
                state.rocks@ == pre.rocks@,
                state.shots@ == pre.shots@,
                state.local_player_index == pre.local_player_index,
                state.local_input == pre.local_input,
                state.local_shots_made@ == pre.local_shots_made@,
                state.screen_width == pre.screen_width,
                state.screen_height == pre.screen_height,
                state.start_time == pre.start_time,
                state.difficulty_mult == pre.difficulty_mult,
                state.play_sounds == pre.play_sounds,
            decreases n - i,
        {
            let mut p = if state.local_player_index == Some(i) { state.players[i] } else { self.players[i] };
            assert(p.wf()) by {
                assert(state.players@[i as int].wf());
                assert(self.players@[i as int].wf());
            }
            let t = p.last_shot_at - diff;
            p.last_shot_at = if t > TIME_LIMIT { TIME_LIMIT } else if t < -TIME_LIMIT { -TIME_LIMIT } else { t };
            state.players.set(i, p);
            proof { state.lemma_players_set_ok(i as int); }
            i = i + 1;
        }
        state.rocks = actors_of_tag(&self.actors, ActorType::Rock);
        state.shots = actors_of_tag(&self.actors, ActorType::Shot);
    }
}

/// Applying one snapshot twice in a row leaves the same rocks, shots and
/// score as applying it once, and neither application moves the ship that
/// this process steers.
pub proof fn lemma_reconcile_twice(snap: NetFromServer, s0: MainState, s1: MainState, s2: MainState)
    requires
        snap.reconciled(&s1, &s0),
        snap.reconciled(&s2, &s1),
    ensures
        s2.rocks@ == s1.rocks@,
        s2.shots@ == s1.shots@,
        s2.score == s1.score,
        forall|li: usize| s0.local_player_index == Some(li) && li < s1.players@.len()
            ==> #[trigger] s2.players@[li as int].actor == s1.players@[li as int].actor,
        forall|li: usize| s0.local_player_index == Some(li) && li < s0.players@.len()
            ==> #[trigger] s1.players@[li as int].actor == s0.players@[li as int].actor,
{
    let n = snap.players@.len() as int;
    assert forall|li: usize| s0.local_player_index == Some(li) && li < s1.players@.len()
        implies #[trigger] s2.players@[li as int].actor == s1.players@[li as int].actor by {
        let mine = grown(s1.players@, n);
        assert(mine[li as int] == s1.players@[li as int]);
    }
    assert forall|li: usize| s0.local_player_index == Some(li) && li < s0.players@.len()
        implies #[trigger] s1.players@[li as int].actor == s0.players@[li as int].actor by {
        let mine = grown(s0.players@, n);
        assert(mine[li as int] == s0.players@[li as int]);
    }
}

/// The actors of `v` with role `tag`, in order.
fn actors_of_tag(v: &Vec<Actor>, tag: ActorType) -> (r: Vec<Actor>)
    requires
        forall|i: int| 0 <= i < v@.len() ==> (#[trigger] v@[i]).wf(),
    ensures
        r@ == of_tag(v@, tag),
        actors_ok(r@, tag),
{
    let mut r: Vec<Actor> = Vec::new();
    let mut i: usize = 0;
    while i < v.len()
        invariant
            0 <= i <= v.len(),
            forall|k: int| 0 <= k < v@.len() ==> (#[trigger] v@[k]).wf(),
            r@ == of_tag(v@.take(i as int), tag),
            actors_ok(r@, tag),
        decreases v.len() - i,
    {
        assert(v@.take(i as int + 1).drop_last() =~= v@.take(i as int));
        if v[i].tag == tag {
            assert(v@[i as int].wf());
            r.push(v[i]);
        }
        i = i + 1;
    }
    assert(v@.take(i as int) =~= v@);
    r
}

} // verus!
