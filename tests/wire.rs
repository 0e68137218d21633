use rust_blaster::actor::{Actor, Vector2};
use rust_blaster::codec::{
    decode_client_input, decode_handshake, decode_snapshot, encode_client_input, encode_handshake, encode_snapshot,
    snapshot_to_words,
};
use rust_blaster::net_structs::{NetClientInput, NetFromServer, NetPlayerConnected};
use rust_blaster::structs::{InputState, MainState};

fn sample_world() -> MainState {
    let mut w = MainState::new(Some(0), 1080, 1080, 1000, 0);
    w.add_player();
    w.players[1].actor.pos = Vector2 { x: -123_456, y: 654_321 };
    w.players[1].actor.velocity = Vector2 { x: -900_000, y: 12 };
    w.players[1].input.left = true;
    w.players[1].last_shot_at = 77;
    let mut r = Actor::create_rock_with_spin(19_999);
    r.pos = Vector2 { x: 5, y: -6 };
    r.velocity = Vector2 { x: -7, y: 8 };
    r.facing = 1_000_000;
    w.rocks = vec![r];
    let mut s = Actor::create_shot();
    s.kill = true;
    w.shots = vec![s];
    w.score = -3;
    w.curr_time = -42;
    w
}

#[test]
fn snapshot_survives_the_wire() {
    let w = sample_world();
    let m = NetFromServer::make_from_state(&w);
    let bytes = encode_snapshot(&m);
    let back = decode_snapshot(&bytes).expect("a snapshot");
    assert_eq!(back.score, -3);
    assert_eq!(back.server_time, -42);
    assert_eq!(back.actors, m.actors);
    assert_eq!(back.players.len(), 2);
    assert_eq!(back.players[1].actor, m.players[1].actor);
    assert_eq!(back.players[1].input, m.players[1].input);
    assert_eq!(back.players[1].index, 1);
    assert_eq!(back.players[1].last_shot_at, 0);
    assert_eq!(encode_snapshot(&back), bytes);
}

#[test]
fn snapshot_bytes_are_length_then_little_endian_words() {
    let m = NetFromServer::make_from_state(&sample_world());
    let words = snapshot_to_words(&m);
    let bytes = encode_snapshot(&m);
    assert_eq!(bytes.len(), 8 + 8 * words.len());
    assert_eq!(u64::from_le_bytes(bytes[0..8].try_into().unwrap()), words.len() as u64);
    assert_eq!(u64::from_le_bytes(bytes[8..16].try_into().unwrap()), 2);
    // 2 ships of 15 words, 2 actors of 9 words, counts, score and time.
    assert_eq!(words.len(), 1 + 30 + 1 + 18 + 2);
    assert_eq!(words[words.len() - 2], (-3i64) as u64);
}

#[test]
fn trailing_bytes_after_a_snapshot_are_ignored() {
    let m = NetFromServer::make_from_state(&sample_world());
    let mut bytes = encode_snapshot(&m);
    bytes.extend_from_slice(&[1, 2, 3]);
    assert!(decode_snapshot(&bytes).is_some());
}

#[test]
fn truncated_or_corrupt_snapshots_are_rejected() {
    let m = NetFromServer::make_from_state(&sample_world());
    let bytes = encode_snapshot(&m);
    assert!(decode_snapshot(&bytes[..bytes.len() - 1].to_vec()).is_none());
    assert!(decode_snapshot(&Vec::new()).is_none());
    let mut bad = bytes.clone();
    // The first ship's role word: 7 is no role.
    bad[16] = 7;
    assert!(decode_snapshot(&bad).is_none());
}

#[test]
fn client_message_survives_the_wire() {
    let mut s = Actor::create_shot();
    s.velocity = Vector2 { x: 1, y: -1 };
    let m = NetClientInput {
        input_state: InputState { fire: true, up: true, down: false, right: false, left: true },
        final_position: Vector2 { x: -9, y: 10 },
        shots_made: vec![s],
    };
    let back = decode_client_input(&encode_client_input(&m)).expect("a message");
    assert_eq!(back.input_state, m.input_state);
    assert_eq!(back.final_position, m.final_position);
    assert_eq!(back.shots_made, m.shots_made);
}

#[test]
fn client_message_with_a_rock_is_rejected() {
    let m = NetClientInput {
        input_state: InputState::default(),
        final_position: Vector2 { x: 0, y: 0 },
        shots_made: vec![Actor::create_rock_with_spin(0)],
    };
    assert!(decode_client_input(&encode_client_input(&m)).is_none());
}

#[test]
fn handshake_survives_the_wire() {
    let bytes = encode_handshake(&NetPlayerConnected::make(5));
    assert_eq!(bytes, vec![1, 0, 0, 0, 0, 0, 0, 0, 5, 0, 0, 0, 0, 0, 0, 0]);
    assert_eq!(decode_handshake(&bytes).map(|h| h.player_index), Some(5));
    assert!(decode_handshake(&bytes[..12].to_vec()).is_none());
}
