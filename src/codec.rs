//! The wire format. A message is first laid out as a sequence of 64-bit
//! words (signed values in two's complement, flags as 0 or 1, each sequence
//! preceded by its length); the words then travel as bincode encodes a
//! `Vec<u64>`: a little-endian length, then each word little-endian.

use crate::actor::{Actor, ActorType, Vector2};
use crate::net_structs::{NetClientInput, NetFromServer, NetPlayerConnected};
use crate::structs::{actors_ok, players_ok, time_ok, InputState, Player};
use vstd::prelude::*;

verus! {

pub const ACTOR_WORDS: usize = 9;
pub const PLAYER_WORDS: usize = 15;

pub open spec fn pow256(k: nat) -> int
    decreases k,
{
    if k == 0 { 1 } else { 256 * pow256((k - 1) as nat) }
}

/// A word as eight little-endian bytes.
pub open spec fn u64_le(w: u64) -> Seq<u8> {
    Seq::new(8, |k: int| ((w as int / pow256(k as nat)) % 256) as u8)
}

pub open spec fn le_words(ws: Seq<u64>) -> Seq<u8>
    decreases ws.len(),
{
    if ws.len() == 0 { Seq::empty() } else { le_words(ws.drop_last()) + u64_le(ws.last()) }
}

/// The bytes of a sequence of words: its length, then each word.
pub open spec fn framed_bytes(ws: Seq<u64>) -> Seq<u8> {
    u64_le(ws.len() as u64) + le_words(ws)
}

/// `b` starts with the bytes of `ws`.
pub open spec fn framed(ws: Seq<u64>, b: Seq<u8>) -> bool {
    framed_bytes(ws).len() <= b.len() && b.take(framed_bytes(ws).len() as int) == framed_bytes(ws)
}

/// A signed value as a word (two's complement).
pub open spec fn enc(x: int) -> u64 {
    if x >= 0 { x as u64 } else { (x + 0x1_0000_0000_0000_0000) as u64 }
}

/// A word read back as a signed value.
pub open spec fn dec(w: u64) -> int {
    if w < 0x8000_0000_0000_0000 { w as int } else { w - 0x1_0000_0000_0000_0000 }
}

pub open spec fn flag(b: bool) -> u64 {
    if b { 1 } else { 0 }
}

pub open spec fn tag_word(t: ActorType) -> u64 {
    match t {
        ActorType::Player => 0,
        ActorType::Rock => 1,
        ActorType::Shot => 2,
    }
}

pub open spec fn tag_of(w: u64) -> ActorType {
    if w == 0 { ActorType::Player } else if w == 1 { ActorType::Rock } else { ActorType::Shot }
}

pub open spec fn actor_words(a: Actor) -> Seq<u64> {
    seq![tag_word(a.tag), enc(a.pos.x as int), enc(a.pos.y as int), enc(a.facing as int), enc(a.velocity.x as int),
        enc(a.velocity.y as int), enc(a.ang_vel as int), enc(a.bbox_size as int), flag(a.kill)]
}

pub open spec fn input_words(i: InputState) -> Seq<u64> {
    seq![flag(i.fire), flag(i.up), flag(i.down), flag(i.right), flag(i.left)]
}

/// A ship: its actor, its keys and its index. The firing time stays local.
pub open spec fn player_words(p: Player) -> Seq<u64> {
    actor_words(p.actor) + input_words(p.input) + seq![p.index as u64]
}

pub open spec fn actors_words(s: Seq<Actor>) -> Seq<u64>
    decreases s.len(),
{
    if s.len() == 0 { Seq::empty() } else { actors_words(s.drop_last()) + actor_words(s.last()) }
}

pub open spec fn players_words(s: Seq<Player>) -> Seq<u64>
    decreases s.len(),
{
    if s.len() == 0 { Seq::empty() } else { players_words(s.drop_last()) + player_words(s.last()) }
}

pub open spec fn snapshot_words(players: Seq<Player>, actors: Seq<Actor>, score: i32, time: i64) -> Seq<u64> {
    seq![players.len() as u64] + players_words(players) + seq![actors.len() as u64] + actors_words(actors)
        + seq![enc(score as int), enc(time as int)]
}

pub open spec fn client_words(input: InputState, pos: Vector2, shots: Seq<Actor>) -> Seq<u64> {
    input_words(input) + seq![enc(pos.x as int), enc(pos.y as int), shots.len() as u64] + actors_words(shots)
}

/// The actor in the words at `at`, if they hold a well-formed one.
pub open spec fn parse_actor(ws: Seq<u64>, at: int) -> Option<Actor> {
    if 0 <= at && at + 9 <= ws.len() && ws[at] < 3 && ws[at + 8] < 2 {
        let a = Actor {
            tag: tag_of(ws[at]),
            pos: Vector2 { x: dec(ws[at + 1]) as i64, y: dec(ws[at + 2]) as i64 },
            facing: dec(ws[at + 3]) as i64,
            velocity: Vector2 { x: dec(ws[at + 4]) as i64, y: dec(ws[at + 5]) as i64 },
            ang_vel: dec(ws[at + 6]) as i64,
            bbox_size: dec(ws[at + 7]) as i64,
            kill: ws[at + 8] == 1,
        };
        if a.wf() { Some(a) } else { None }
    } else {
        None
    }
}

pub open spec fn parse_input(ws: Seq<u64>, at: int) -> Option<InputState> {
    if 0 <= at && at + 5 <= ws.len() && ws[at] < 2 && ws[at + 1] < 2 && ws[at + 2] < 2 && ws[at + 3] < 2 && ws[at + 4] < 2 {
        Some(InputState { fire: ws[at] == 1, up: ws[at + 1] == 1, down: ws[at + 2] == 1, right: ws[at + 3] == 1, left: ws[at + 4] == 1 })
    } else {
        None
    }
}

/// The ship in the words at `at`, if they hold a well-formed one; its firing
/// time is zero.
pub open spec fn parse_player(ws: Seq<u64>, at: int) -> Option<Player> {
    match (parse_actor(ws, at), parse_input(ws, at + 9)) {
        (Some(a), Some(i)) => if a.tag == ActorType::Player && at + 15 <= ws.len() && ws[at + 14] < 0x1_0000_0000 {
            Some(Player { actor: a, input: i, index: ws[at + 14] as u32, last_shot_at: 0 })
        } else {
            None
        },
        _ => None,
    }
}

pub open spec fn parse_actors(ws: Seq<u64>, at: int, n: nat) -> Option<Seq<Actor>>
    decreases n,
{
    if n == 0 {
        Some(Seq::empty())
    } else {
        match (parse_actors(ws, at, (n - 1) as nat), parse_actor(ws, at + 9 * (n - 1))) {
            (Some(s), Some(a)) => Some(s.push(a)),
            _ => None,
        }
    }
}

pub open spec fn parse_players(ws: Seq<u64>, at: int, n: nat) -> Option<Seq<Player>>
    decreases n,
{
    if n == 0 {
        Some(Seq::empty())
    } else {
        match (parse_players(ws, at, (n - 1) as nat), parse_player(ws, at + 15 * (n - 1))) {
            (Some(s), Some(p)) => Some(s.push(p)),
            _ => None,
        }
    }
}

/// The snapshot that the words hold: ships, actors, score and time, with
/// nothing after them.
pub open spec fn parse_snapshot(ws: Seq<u64>) -> Option<(Seq<Player>, Seq<Actor>, i32, i64)> {
    if ws.len() < 1 {
        None
    } else {
        let np = ws[0] as int;
        let at_a = 1 + 15 * np;
        if np >= u32::MAX || at_a + 1 > ws.len() {
            None
        } else {
            let na = ws[at_a] as int;
            let end = at_a + 1 + 9 * na;
            if end + 2 != ws.len() {
                None
            } else {
                match (parse_players(ws, 1, np as nat), parse_actors(ws, at_a + 1, na as nat)) {
                    (Some(ps), Some(acts)) => {
                        let score = dec(ws[end]);
                        let time = dec(ws[end + 1]);
                        if i32::MIN <= score <= i32::MAX && time_ok(time) {
                            Some((ps, acts, score as i32, time as i64))
                        } else {
                            None
                        }
                    },
                    _ => None,
                }
            }
        }
    }
}

fn enc_exec(x: i64) -> (r: u64)
    ensures
        r == enc(x as int),
{
    if x >= 0 {
        x as u64
    } else {
        u64::MAX - ((-(x + 1)) as u64)
    }
}

fn dec_exec(w: u64) -> (r: i64)
    ensures
        r == dec(w),
{
    if w < 0x8000_0000_0000_0000 {
        w as i64
    } else {
        -((u64::MAX - w) as i64) - 1
    }
}

fn flag_exec(b: bool) -> (r: u64)
    ensures
        r == flag(b),
{
    if b { 1 } else { 0 }
}

fn push_actor(ws: &mut Vec<u64>, a: &Actor)
    ensures
        final(ws)@ == old(ws)@ + actor_words(*a),
{
    let t: u64 = match a.tag {
        ActorType::Player => 0,
        ActorType::Rock => 1,
        ActorType::Shot => 2,
    };
    ws.push(t);
    ws.push(enc_exec(a.pos.x));
    ws.push(enc_exec(a.pos.y));
    ws.push(enc_exec(a.facing));
    ws.push(enc_exec(a.velocity.x));
    ws.push(enc_exec(a.velocity.y));
    ws.push(enc_exec(a.ang_vel));
    ws.push(enc_exec(a.bbox_size));
    ws.push(flag_exec(a.kill));
    assert(final(ws)@ =~= old(ws)@ + actor_words(*a));
}

fn push_input(ws: &mut Vec<u64>, i: &InputState)
    ensures
        final(ws)@ == old(ws)@ + input_words(*i),
{
    ws.push(flag_exec(i.fire));
    ws.push(flag_exec(i.up));
    ws.push(flag_exec(i.down));
    ws.push(flag_exec(i.right));
    ws.push(flag_exec(i.left));
    assert(final(ws)@ =~= old(ws)@ + input_words(*i));
}

fn push_actors(ws: &mut Vec<u64>, s: &Vec<Actor>)
    ensures
        final(ws)@ == old(ws)@ + actors_words(s@),
{
    let mut i: usize = 0;
    while i < s.len()
        invariant
            0 <= i <= s.len(),
            ws@ == old(ws)@ + actors_words(s@.take(i as int)),
        decreases s.len() - i,
    {
        assert(s@.take(i as int + 1).drop_last() =~= s@.take(i as int));
        push_actor(ws, &s[i]);
        assert(ws@ =~= old(ws)@ + actors_words(s@.take(i as int + 1)));
        i = i + 1;
    }
    assert(s@.take(i as int) =~= s@);
}

fn push_players(ws: &mut Vec<u64>, s: &Vec<Player>)
    ensures
        final(ws)@ == old(ws)@ + players_words(s@),
{
    let mut i: usize = 0;
    while i < s.len()
        invariant
            0 <= i <= s.len(),
            ws@ == old(ws)@ + players_words(s@.take(i as int)),
        decreases s.len() - i,
    {
        assert(s@.take(i as int + 1).drop_last() =~= s@.take(i as int));
        let p = &s[i];
        push_actor(ws, &p.actor);
        push_input(ws, &p.input);
        ws.push(p.index as u64);
        assert(ws@ =~= old(ws)@ + players_words(s@.take(i as int + 1)));
        i = i + 1;
    }
    assert(s@.take(i as int) =~= s@);
}

/// The words of a snapshot.
pub fn snapshot_to_words(m: &NetFromServer) -> (r: Vec<u64>)
    ensures
        r@ == snapshot_words(m.players@, m.actors@, m.score, m.server_time),
{
    let mut ws: Vec<u64> = Vec::new();
    ws.push(m.players.len() as u64);
    push_players(&mut ws, &m.players);
    ws.push(m.actors.len() as u64);
    push_actors(&mut ws, &m.actors);
    ws.push(enc_exec(m.score as i64));
    ws.push(enc_exec(m.server_time));
    assert(ws@ =~= snapshot_words(m.players@, m.actors@, m.score, m.server_time));
    ws
}

/// The words of a client's message.
pub fn client_input_to_words(m: &NetClientInput) -> (r: Vec<u64>)
    ensures
        r@ == client_words(m.input_state, m.final_position, m.shots_made@),
{
    let mut ws: Vec<u64> = Vec::new();
    push_input(&mut ws, &m.input_state);
    ws.push(enc_exec(m.final_position.x));
    ws.push(enc_exec(m.final_position.y));
    ws.push(m.shots_made.len() as u64);
    push_actors(&mut ws, &m.shots_made);
    assert(ws@ =~= client_words(m.input_state, m.final_position, m.shots_made@));
    ws
}

/// The client message that the words hold: keys, position and shots, with
/// nothing after them.
pub open spec fn parse_client(ws: Seq<u64>) -> Option<(InputState, Vector2, Seq<Actor>)> {
    if ws.len() < 8 {
        None
    } else {
        let n = ws[7] as int;
        let x = dec(ws[5]);
        let y = dec(ws[6]);
        if 8 + 9 * n != ws.len() || !crate::actor::pos_ok(Vector2 { x: x as i64, y: y as i64 }) {
            None
        } else {
            match (parse_input(ws, 0), parse_actors(ws, 8, n as nat)) {
                (Some(i), Some(shots)) => if actors_ok(shots, ActorType::Shot) {
                    Some((i, Vector2 { x: x as i64, y: y as i64 }, shots))
                } else {
                    None
                },
                _ => None,
            }
        }
    }
}

/// Reads a snapshot from its words; `None` unless they hold exactly one.
pub fn snapshot_from_words(ws: &Vec<u64>) -> (r: Option<NetFromServer>)
    ensures
        match r {
            Some(m) => parse_snapshot(ws@) == Some((m.players@, m.actors@, m.score, m.server_time)),
            None => parse_snapshot(ws@) is None,
        },
{
    if ws.len() < 1 {
        return None;
    }
    let np = ws[0];
    if np >= 0xFFFF_FFFF || np > (ws.len() as u64 - 1) / 15 {
        proof {
            if np < 0xFFFF_FFFF {
                assert(1 + 15 * np + 1 > ws@.len()) by (nonlinear_arith)
                    requires np > (ws@.len() - 1) / 15, ws@.len() >= 1;
            }
        }
        return None;
    }
    let np = np as usize;
    assert(15 * np <= ws.len() - 1) by (nonlinear_arith) requires np <= (ws@.len() - 1) / 15, ws@.len() >= 1;
    let at_a = 1 + 15 * np;
    if at_a + 1 > ws.len() {
        return None;
    }
    let na = ws[at_a];
    if na > (ws.len() - at_a - 1) as u64 / 9 {
        proof {
            assert(at_a + 1 + 9 * na > ws@.len()) by (nonlinear_arith)
                requires na > (ws@.len() - at_a - 1) / 9, ws@.len() >= at_a + 1;
        }
        return None;
    }
    let na = na as usize;
    assert(9 * na <= ws.len() - at_a - 1) by (nonlinear_arith) requires na <= (ws@.len() - at_a - 1) / 9, ws@.len() >= at_a + 1;
    let end = at_a + 1 + 9 * na;
    if ws.len() - end != 2 {
        return None;
    }
    let players = match read_players(ws, 1, np) {
        Some(v) => v,
        None => { return None; },
    };
    let actors = match read_actors(ws, at_a + 1, na) {
        Some(v) => v,
        None => { return None; },
    };
    let score = dec_exec(ws[end]);
    let time = dec_exec(ws[end + 1]);
    if score < -2147483648 || score > 2147483647 || time < -crate::structs::TIME_LIMIT || time > crate::structs::TIME_LIMIT {
        return None;
    }
    Some(NetFromServer { players, actors, score: score as i32, server_time: time })
}

/// Reads a client's message from its words; `None` unless they hold exactly one.
pub fn client_input_from_words(ws: &Vec<u64>) -> (r: Option<NetClientInput>)
    ensures
        match r {
            Some(m) => parse_client(ws@) == Some((m.input_state, m.final_position, m.shots_made@)),
            None => parse_client(ws@) is None,
        },
{
    if ws.len() < 8 {
        return None;
    }
    let n = ws[7];
    if n > (ws.len() as u64 - 8) / 9 {
        proof {
            assert(8 + 9 * n > ws@.len()) by (nonlinear_arith) requires n > (ws@.len() - 8) / 9, ws@.len() >= 8;
        }
        return None;
    }
    let n = n as usize;
    assert(9 * n <= ws.len() - 8) by (nonlinear_arith) requires n <= (ws@.len() - 8) / 9, ws@.len() >= 8;
    if 8 + 9 * n != ws.len() {
        return None;
    }
    let x = dec_exec(ws[5]);
    let y = dec_exec(ws[6]);
    let lim = crate::actor::POS_LIMIT;
    if x < -lim || x > lim || y < -lim || y > lim {
        return None;
    }
    let input = match read_input(ws, 0) {
        Some(i) => i,
        None => { return None; },
    };
    let shots = match read_actors(ws, 8, n) {
        Some(v) => v,
        None => { return None; },
    };
    proof { lemma_parse_actors_wf(ws@, 8, n as nat); }
    let mut k: usize = 0;
    while k < shots.len()
        invariant
            0 <= k <= shots.len(),
            forall|j: int| 0 <= j < shots@.len() ==> (#[trigger] shots@[j]).wf(),
            forall|j: int| 0 <= j < k ==> (#[trigger] shots@[j]).tag == ActorType::Shot,
            parse_input(ws@, 0) == Some(input),
            parse_actors(ws@, 8, n as nat) == Some(shots@),
            n == ws@[7],
            8 + 9 * n == ws@.len(),
            x == dec(ws@[5]),
            y == dec(ws@[6]),
            -crate::actor::POS_LIMIT <= x <= crate::actor::POS_LIMIT,
            -crate::actor::POS_LIMIT <= y <= crate::actor::POS_LIMIT,
        decreases shots.len() - k,
    {
        if !matches!(shots[k].tag, ActorType::Shot) {
            assert(shots@[k as int].tag != ActorType::Shot);
            assert(!actors_ok(shots@, ActorType::Shot));
            assert(parse_input(ws@, 0) == Some(input));
            assert(parse_actors(ws@, 8, n as nat) == Some(shots@));
            assert(8 + 9 * (ws@[7] as int) == ws@.len());
            assert(crate::actor::pos_ok(Vector2 { x: dec(ws@[5]) as i64, y: dec(ws@[6]) as i64 }));
            return None;
        }
        k = k + 1;
    }
    Some(NetClientInput { input_state: input, final_position: Vector2 { x, y }, shots_made: shots })
}

pub open spec fn snapshot_view(m: NetFromServer) -> (Seq<Player>, Seq<Actor>, i32, i64) {
    (m.players@, m.actors@, m.score, m.server_time)
}

/// The bytes of a snapshot.
pub fn encode_snapshot(m: &NetFromServer) -> (r: Vec<u8>)
    ensures
        r@ == framed_bytes(snapshot_words(m.players@, m.actors@, m.score, m.server_time)),
{
    crate::outside::bincode_encode(&snapshot_to_words(m))
}

/// Reads a snapshot from the front of `b`: the words that start `b`, read as
/// a snapshot. `None` when `b` starts with no words or they hold no snapshot.
pub fn decode_snapshot(b: &Vec<u8>) -> (r: Option<NetFromServer>)
    ensures
        forall|ws: Seq<u64>| #[trigger] framed(ws, b@) ==> match r {
            Some(m) => parse_snapshot(ws) == Some(snapshot_view(m)),
            None => parse_snapshot(ws) is None,
        },
        r matches Some(m) ==> exists|ws: Seq<u64>| #[trigger] framed(ws, b@) && parse_snapshot(ws) == Some(snapshot_view(m)),
{
    match crate::outside::bincode_decode(b.as_slice()) {
        Some(ws) => snapshot_from_words(&ws),
        None => None,
    }
}

/// The bytes of a client's message.
pub fn encode_client_input(m: &NetClientInput) -> (r: Vec<u8>)
    ensures
        r@ == framed_bytes(client_words(m.input_state, m.final_position, m.shots_made@)),
{
    crate::outside::bincode_encode(&client_input_to_words(m))
}

/// Reads a client's message from the front of `b`.
pub fn decode_client_input(b: &Vec<u8>) -> (r: Option<NetClientInput>)
    ensures
        forall|ws: Seq<u64>| #[trigger] framed(ws, b@) ==> match r {
            Some(m) => parse_client(ws) == Some((m.input_state, m.final_position, m.shots_made@)),
            None => parse_client(ws) is None,
        },
        r matches Some(m) ==> exists|ws: Seq<u64>| #[trigger] framed(ws, b@) && parse_client(ws) == Some((m.input_state, m.final_position, m.shots_made@)),
{
    match crate::outside::bincode_decode(b.as_slice()) {
        Some(ws) => client_input_from_words(&ws),
        None => None,
    }
}

/// The bytes of the handshake: one word, the ship's index.
pub fn encode_handshake(m: &NetPlayerConnected) -> (r: Vec<u8>)
    ensures
        r@ == framed_bytes(seq![m.player_index as u64]),
{
    let mut ws: Vec<u64> = Vec::new();
    ws.push(m.player_index as u64);
    assert(ws@ =~= seq![m.player_index as u64]);
    crate::outside::bincode_encode(&ws)
}

/// Reads the handshake from the front of `b`.
pub fn decode_handshake(b: &Vec<u8>) -> (r: Option<NetPlayerConnected>)
    ensures
        forall|ws: Seq<u64>| #[trigger] framed(ws, b@) ==> match r {
            Some(m) => ws == seq![m.player_index as u64],
            None => !(ws.len() == 1 && ws[0] <= usize::MAX),
        },
        r matches Some(m) ==> framed(seq![m.player_index as u64], b@),
{
    match crate::outside::bincode_decode(b.as_slice()) {
        Some(ws) => {
            if ws.len() == 1 && ws[0] <= usize::MAX as u64 {
                let r = NetPlayerConnected::make(ws[0] as usize);
                assert(ws@ =~= seq![r.player_index as u64]);
                Some(r)
            } else {
                None
            }
        },
        None => None,
    }
}

/// The ships as the other side reads them: firing times stay local, so they
/// arrive as zero.
pub open spec fn as_received(ps: Seq<Player>) -> Seq<Player> {
    Seq::new(ps.len(), |k: int| Player { last_shot_at: 0, ..ps[k] })
}

/// A snapshot made from a world reads back as the same ships (their firing
/// times zero), actors, score and time; and the words of what was read are
/// the words that were sent, so encoding it again gives the same bytes.
#[verifier::rlimit(40)]
pub proof fn lemma_snapshot_round_trip(ps: Seq<Player>, acts: Seq<Actor>, score: i32, time: i64)
    requires
        players_ok(ps),
        forall|i: int| 0 <= i < acts.len() ==> (#[trigger] acts[i]).wf(),
        ps.len() < u32::MAX,
        acts.len() <= u64::MAX,
        time_ok(time as int),
    ensures
        parse_snapshot(snapshot_words(ps, acts, score, time)) == Some((as_received(ps), acts, score, time)),
        snapshot_words(as_received(ps), acts, score, time) == snapshot_words(ps, acts, score, time),
        framed(snapshot_words(ps, acts, score, time), framed_bytes(snapshot_words(ps, acts, score, time))),
{
    let ws = snapshot_words(ps, acts, score, time);
    let np = ps.len() as int;
    let na = acts.len() as int;
    lemma_players_words_len(ps);
    lemma_actors_words_len(acts);
    let pw = players_words(ps);
    let aw = actors_words(acts);
    let tail = seq![enc(score as int), enc(time as int)];
    assert((na as u64) as int == na);
    assert((np as u64) as int == np);
    let a1 = seq![np as u64] + pw;
    let a2 = a1 + seq![na as u64];
    assert(a2[a1.len() as int] == na as u64);
    let a3 = a2 + aw;
    assert(ws == a3 + tail);
    assert(a1.len() == 1 + 15 * np);
    assert(a2.len() == 2 + 15 * np);
    assert(a3.len() == 2 + 15 * np + 9 * na);
    assert(ws.len() == 1 + 15 * np + 1 + 9 * na + 2);
    assert(ws[0] == a1[0]);
    assert(ws[0] == np as u64);
    assert(ws.subrange(1, 1 + 15 * np) =~= pw) by {
        assert forall|k: int| 0 <= k < 15 * np implies #[trigger] ws.subrange(1, 1 + 15 * np)[k] == pw[k] by {
            assert(ws[1 + k] == a3[1 + k]);
            assert(a3[1 + k] == a2[1 + k]);
            assert(a2[1 + k] == a1[1 + k]);
        }
    }
    assert(ws[1 + 15 * np] == a3[1 + 15 * np]);
    assert(a3[1 + 15 * np] == a2[1 + 15 * np]);
    assert(ws[1 + 15 * np] == na as u64);
    assert(ws.subrange(2 + 15 * np, 2 + 15 * np + 9 * na) =~= aw) by {
        assert forall|k: int| 0 <= k < 9 * na implies #[trigger] ws.subrange(2 + 15 * np, 2 + 15 * np + 9 * na)[k] == aw[k] by {
            assert(ws[2 + 15 * np + k] == a3[2 + 15 * np + k]);
        }
    }
    lemma_parse_players_of(ws, 1, ps);
    lemma_parse_actors_of(ws, 2 + 15 * np, acts);
    lemma_dec_enc(score as int);
    lemma_dec_enc(time as int);
    assert(ws[2 + 15 * np + 9 * na] == enc(score as int));
    assert(ws[3 + 15 * np + 9 * na] == enc(time as int));
    lemma_players_words_received(ps);
    let fb = framed_bytes(ws);
    assert(fb.take(fb.len() as int) =~= fb);
}

proof fn lemma_dec_enc(x: int)
    requires
        i64::MIN <= x <= i64::MAX,
    ensures
        dec(enc(x)) == x,
{
}

proof fn lemma_actors_words_len(s: Seq<Actor>)
    ensures
        actors_words(s).len() == 9 * s.len(),
    decreases s.len(),
{
    if s.len() > 0 {
        lemma_actors_words_len(s.drop_last());
    }
}

proof fn lemma_players_words_len(s: Seq<Player>)
    ensures
        players_words(s).len() == 15 * s.len(),
    decreases s.len(),
{
    if s.len() > 0 {
        lemma_players_words_len(s.drop_last());
    }
}

proof fn lemma_players_words_received(s: Seq<Player>)
    ensures
        players_words(as_received(s)) == players_words(s),
    decreases s.len(),
{
    if s.len() > 0 {
        lemma_players_words_received(s.drop_last());
        assert(as_received(s).drop_last() =~= as_received(s.drop_last()));
    }
}

proof fn lemma_parse_actor_of(ws: Seq<u64>, at: int, a: Actor)
    requires
        0 <= at,
        at + 9 <= ws.len(),
        ws.subrange(at, at + 9) == actor_words(a),
        a.wf(),
    ensures
        parse_actor(ws, at) == Some(a),
{
    let w = actor_words(a);
    assert forall|k: int| 0 <= k < 9 implies ws[at + k] == #[trigger] w[k] by {
        assert(ws.subrange(at, at + 9)[k] == ws[at + k]);
    }
    assert(ws[at] == w[0]);
    assert(ws[at + 8] == w[8]);
    lemma_dec_enc(a.pos.x as int);
    lemma_dec_enc(a.pos.y as int);
    lemma_dec_enc(a.facing as int);
    lemma_dec_enc(a.velocity.x as int);
    lemma_dec_enc(a.velocity.y as int);
    lemma_dec_enc(a.ang_vel as int);
    lemma_dec_enc(a.bbox_size as int);
    assert(ws[at + 1] == w[1] && ws[at + 2] == w[2] && ws[at + 3] == w[3] && ws[at + 4] == w[4]);
    assert(ws[at + 5] == w[5] && ws[at + 6] == w[6] && ws[at + 7] == w[7]);
}

proof fn lemma_parse_actors_of(ws: Seq<u64>, at: int, s: Seq<Actor>)
    requires
        0 <= at,
        at + 9 * s.len() <= ws.len(),
        ws.subrange(at, at + 9 * s.len()) == actors_words(s),
        forall|i: int| 0 <= i < s.len() ==> (#[trigger] s[i]).wf(),
    ensures
        parse_actors(ws, at, s.len()) == Some(s),
    decreases s.len(),
{
    if s.len() > 0 {
        let n = s.len() as int;
        let t = s.drop_last();
        lemma_actors_words_len(t);
        assert(ws.subrange(at, at + 9 * (n - 1)) =~= ws.subrange(at, at + 9 * n).subrange(0, 9 * (n - 1)));
        assert(actors_words(s).subrange(0, 9 * (n - 1)) =~= actors_words(t));
        assert(ws.subrange(at + 9 * (n - 1), at + 9 * n) =~= ws.subrange(at, at + 9 * n).subrange(9 * (n - 1), 9 * n));
        assert(actors_words(s).subrange(9 * (n - 1), 9 * n) =~= actor_words(s.last()));
        lemma_parse_actors_of(ws, at, t);
        lemma_parse_actor_of(ws, at + 9 * (n - 1), s.last());
        assert(t.push(s.last()) =~= s);
    }
}

proof fn lemma_parse_player_of(ws: Seq<u64>, at: int, p: Player)
    requires
        0 <= at,
        at + 15 <= ws.len(),
        ws.subrange(at, at + 15) == player_words(p),
        p.wf(),
    ensures
        parse_player(ws, at) == Some(Player { last_shot_at: 0, ..p }),
{
    let w = player_words(p);
    assert forall|k: int| 0 <= k < 15 implies ws[at + k] == #[trigger] w[k] by {
        assert(ws.subrange(at, at + 15)[k] == ws[at + k]);
    }
    assert(ws.subrange(at, at + 9) =~= actor_words(p.actor));
    lemma_parse_actor_of(ws, at, p.actor);
    assert(ws[at + 9] == w[9] && ws[at + 10] == w[10] && ws[at + 11] == w[11] && ws[at + 12] == w[12] && ws[at + 13] == w[13]);
    assert(ws[at + 14] == w[14]);
}

proof fn lemma_parse_players_of(ws: Seq<u64>, at: int, s: Seq<Player>)
    requires
        0 <= at,
        at + 15 * s.len() <= ws.len(),
        ws.subrange(at, at + 15 * s.len()) == players_words(s),
        players_ok(s),
    ensures
        parse_players(ws, at, s.len()) == Some(as_received(s)),
    decreases s.len(),
{
    if s.len() > 0 {
        let n = s.len() as int;
        let t = s.drop_last();
        lemma_players_words_len(t);
        assert(ws.subrange(at, at + 15 * (n - 1)) =~= ws.subrange(at, at + 15 * n).subrange(0, 15 * (n - 1)));
        assert(players_words(s).subrange(0, 15 * (n - 1)) =~= players_words(t));
        assert(ws.subrange(at + 15 * (n - 1), at + 15 * n) =~= ws.subrange(at, at + 15 * n).subrange(15 * (n - 1), 15 * n));
        assert(players_words(s).subrange(15 * (n - 1), 15 * n) =~= player_words(s.last()));
        assert(players_ok(t)) by {
            assert forall|i: int| 0 <= i < t.len() implies (#[trigger] t[i]).wf() by {
                assert(s[i].wf());
            }
        }
        lemma_parse_players_of(ws, at, t);
        assert(s.last().wf());
        lemma_parse_player_of(ws, at + 15 * (n - 1), s.last());
        assert(as_received(t).push(Player { last_shot_at: 0, ..s.last() }) =~= as_received(s));
    }
}

fn read_actor(ws: &Vec<u64>, at: usize) -> (r: Option<Actor>)
    ensures
        r == parse_actor(ws@, at as int),
{
    if at > ws.len() || ws.len() - at < 9 {
        return None;
    }
    if ws[at] >= 3 || ws[at + 8] >= 2 {
        return None;
    }
    let tag = if ws[at] == 0 { ActorType::Player } else if ws[at] == 1 { ActorType::Rock } else { ActorType::Shot };
    let a = Actor {
        tag,
        pos: Vector2 { x: dec_exec(ws[at + 1]), y: dec_exec(ws[at + 2]) },
        facing: dec_exec(ws[at + 3]),
        velocity: Vector2 { x: dec_exec(ws[at + 4]), y: dec_exec(ws[at + 5]) },
        ang_vel: dec_exec(ws[at + 6]),
        bbox_size: dec_exec(ws[at + 7]),
        kill: ws[at + 8] == 1,
    };
    if actor_wf_exec(&a) { Some(a) } else { None }
}

fn actor_wf_exec(a: &Actor) -> (r: bool)
    ensures
        r == a.wf(),
{
    let lim = crate::actor::POS_LIMIT;
    let vlim = crate::actor::VEL_LIMIT;
    let bbox = match a.tag {
        ActorType::Player => crate::actor::PLAYER_BBOX,
        ActorType::Rock => crate::actor::ROCK_BBOX,
        ActorType::Shot => crate::actor::SHOT_BBOX,
    };
    -lim <= a.pos.x && a.pos.x <= lim && -lim <= a.pos.y && a.pos.y <= lim
        && -vlim <= a.velocity.x && a.velocity.x <= vlim && -vlim <= a.velocity.y && a.velocity.y <= vlim
        && 0 <= a.facing && a.facing < crate::actor::TURN
        && -crate::actor::TURN <= a.ang_vel && a.ang_vel <= crate::actor::TURN
        && a.bbox_size == bbox
}

fn read_input(ws: &Vec<u64>, at: usize) -> (r: Option<InputState>)
    ensures
        r == parse_input(ws@, at as int),
{
    if at > ws.len() || ws.len() - at < 5 {
        return None;
    }
    if ws[at] >= 2 || ws[at + 1] >= 2 || ws[at + 2] >= 2 || ws[at + 3] >= 2 || ws[at + 4] >= 2 {
        return None;
    }
    Some(InputState { fire: ws[at] == 1, up: ws[at + 1] == 1, down: ws[at + 2] == 1, right: ws[at + 3] == 1, left: ws[at + 4] == 1 })
}

fn read_player(ws: &Vec<u64>, at: usize) -> (r: Option<Player>)
    ensures
        r == parse_player(ws@, at as int),
{
    if at > ws.len() || ws.len() - at < 15 {
        return None;
    }
    match (read_actor(ws, at), read_input(ws, at + 9)) {
        (Some(a), Some(i)) => {
            if a.tag == ActorType::Player && ws[at + 14] < 0x1_0000_0000 {
                Some(Player { actor: a, input: i, index: ws[at + 14] as u32, last_shot_at: 0 })
            } else {
                None
            }
        },
        _ => None,
    }
}

/// Reads `n` actors from `at`; the caller has checked that they fit.
fn read_actors(ws: &Vec<u64>, at: usize, n: usize) -> (r: Option<Vec<Actor>>)
    requires
        at + 9 * n <= ws.len(),
    ensures
        match r {
            Some(v) => parse_actors(ws@, at as int, n as nat) == Some(v@),
            None => parse_actors(ws@, at as int, n as nat) is None,
        },
{
    let mut v: Vec<Actor> = Vec::new();
    let mut k: usize = 0;
    while k < n
        invariant
            0 <= k <= n,
            at + 9 * n <= ws.len(),
            parse_actors(ws@, at as int, k as nat) == Some(v@),
        decreases n - k,
    {
        match read_actor(ws, at + 9 * k) {
            Some(a) => {
                v.push(a);
            },
            None => {
                proof { lemma_parse_actors_fails(ws@, at as int, k as nat, n as nat); }
                return None;
            },
        }
        k = k + 1;
    }
    Some(v)
}

proof fn lemma_parse_actors_wf(ws: Seq<u64>, at: int, n: nat)
    ensures
        parse_actors(ws, at, n) matches Some(s) ==> s.len() == n && forall|j: int| 0 <= j < s.len() ==> (#[trigger] s[j]).wf(),
    decreases n,
{
    if n > 0 {
        lemma_parse_actors_wf(ws, at, (n - 1) as nat);
    }
}

proof fn lemma_parse_actors_fails(ws: Seq<u64>, at: int, k: nat, n: nat)
    requires
        k < n,
        parse_actor(ws, at + 9 * k) is None,
    ensures
        parse_actors(ws, at, n) is None,
    decreases n,
{
    if n - 1 > k {
        lemma_parse_actors_fails(ws, at, k, (n - 1) as nat);
    }
}

fn read_players(ws: &Vec<u64>, at: usize, n: usize) -> (r: Option<Vec<Player>>)
    requires
        at + 15 * n <= ws.len(),
    ensures
        match r {
            Some(v) => parse_players(ws@, at as int, n as nat) == Some(v@),
            None => parse_players(ws@, at as int, n as nat) is None,
        },
{
    let mut v: Vec<Player> = Vec::new();
    let mut k: usize = 0;
    while k < n
        invariant
            0 <= k <= n,
            at + 15 * n <= ws.len(),
            parse_players(ws@, at as int, k as nat) == Some(v@),
        decreases n - k,
    {
        match read_player(ws, at + 15 * k) {
            Some(p) => {
                v.push(p);
            },
            None => {
                proof { lemma_parse_players_fails(ws@, at as int, k as nat, n as nat); }
                return None;
            },
        }
        k = k + 1;
    }
    Some(v)
}

proof fn lemma_parse_players_fails(ws: Seq<u64>, at: int, k: nat, n: nat)
    requires
        k < n,
        parse_player(ws, at + 15 * k) is None,
    ensures
        parse_players(ws, at, n) is None,
    decreases n,
{
    if n - 1 > k {
        lemma_parse_players_fails(ws, at, k, (n - 1) as nat);
    }
}

} // verus!
