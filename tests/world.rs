use rust_blaster::actor::{Actor, Vector2};
use rust_blaster::net_structs::{NetClientInput, NetFromServer, NetPlayerConnected};
use rust_blaster::spawner::{SpawnDraw, MAX_SPEED_MOD};
use rust_blaster::structs::{InputState, Key, MainState, Player};
use rust_blaster::tick::PLAYER_SHOT_TIME;

fn world(local: Option<usize>) -> MainState {
    MainState::new(local, 1080, 1080, 1000, 0)
}

fn rock_at(x: i64, y: i64) -> Actor {
    let mut r = Actor::create_rock_with_spin(0);
    r.pos = Vector2 { x, y };
    r
}

fn shot_at(x: i64, y: i64) -> Actor {
    let mut s = Actor::create_shot();
    s.pos = Vector2 { x, y };
    s
}

fn far_ship(w: &mut MainState) {
    w.players[0].actor.pos = Vector2 { x: 0, y: -500_000 };
}

#[test]
fn touching_rock_and_shot_both_die_in_either_order() {
    for swap in [false, true] {
        let mut w = world(Some(0));
        far_ship(&mut w);
        let mut rocks = vec![rock_at(100_000, 0), rock_at(-200_000, 0)];
        let mut shots = vec![shot_at(110_000, 0), shot_at(300_000, 300_000)];
        if swap {
            rocks.reverse();
            shots.reverse();
        }
        w.rocks = rocks;
        w.shots = shots;
        w.handle_collisions(0);
        assert_eq!(w.score, 1);
        assert!(w.play_sounds.play_hit);
        let dead_rocks: Vec<bool> = w.rocks.iter().map(|r| r.kill).collect();
        let dead_shots: Vec<bool> = w.shots.iter().map(|s| s.kill).collect();
        if swap {
            assert_eq!(dead_rocks, vec![false, true]);
            assert_eq!(dead_shots, vec![false, true]);
        } else {
            assert_eq!(dead_rocks, vec![true, false]);
            assert_eq!(dead_shots, vec![true, false]);
        }
    }
}

#[test]
fn shot_near_one_rock_of_a_distant_pair_scores_once() {
    let mut w = world(Some(0));
    far_ship(&mut w);
    // Rock radius 12 and shot radius 6: contact below 18 pixels.
    w.rocks = vec![rock_at(0, 0), rock_at(100_000, 0)];
    w.shots = vec![shot_at(4_000, 0)];
    w.handle_collisions(0);
    assert_eq!(w.score, 1);
    assert!(w.rocks[0].kill);
    assert!(!w.rocks[1].kill);
    assert!(w.shots[0].kill);
}

#[test]
fn shot_between_two_close_rocks_hits_both() {
    let mut w = world(Some(0));
    far_ship(&mut w);
    // Rocks 5 pixels apart, the shot 4 pixels from one of them: it is then
    // within 18 pixels of both, so each pair scores.
    w.rocks = vec![rock_at(0, 0), rock_at(5_000, 0)];
    w.shots = vec![shot_at(4_000, 0)];
    w.handle_collisions(0);
    assert_eq!(w.score, 2);
    assert!(w.rocks[0].kill && w.rocks[1].kill && w.shots[0].kill);
}

#[test]
fn touching_at_exactly_the_radius_sum_is_no_contact() {
    let mut w = world(Some(0));
    far_ship(&mut w);
    w.rocks = vec![rock_at(0, 0)];
    w.shots = vec![shot_at(18_000, 0)];
    w.handle_collisions(0);
    assert_eq!(w.score, 0);
    assert!(!w.rocks[0].kill);
}

#[test]
fn rock_hitting_a_ship_restarts_the_round() {
    let mut w = world(Some(0));
    w.score = 7;
    w.players[0].last_shot_at = 123;
    w.local_input.up = true;
    w.rocks = vec![rock_at(10_000, 0), rock_at(300_000, 0)];
    w.shots = vec![shot_at(-300_000, 0)];
    w.handle_collisions(42);
    assert_eq!(w.score, 0);
    assert_eq!(w.start_time, 42);
    assert!(w.rocks.iter().all(|r| r.kill));
    assert!(w.shots.iter().all(|s| s.kill));
    assert_eq!(w.players[0].last_shot_at, 0);
    assert!(!w.local_input.up);
    assert!(w.play_sounds.play_hit);
    w.clear_dead_stuff();
    assert!(w.rocks.is_empty() && w.shots.is_empty());
}

#[test]
fn sweep_keeps_live_actors_in_order() {
    let mut w = world(Some(0));
    let mut dead = rock_at(1, 1);
    dead.kill = true;
    w.rocks = vec![rock_at(1, 0), dead, rock_at(2, 0)];
    w.clear_dead_stuff();
    assert_eq!(w.rocks.len(), 2);
    assert_eq!(w.rocks[0].pos.x, 1);
    assert_eq!(w.rocks[1].pos.x, 2);
}

#[test]
fn players_get_monotonic_indices() {
    let mut w = world(Some(0));
    assert_eq!(w.add_player(), 1);
    assert_eq!(w.add_player(), 2);
    assert_eq!(w.players[2].index, 2);
    assert_eq!(w.players.len(), 3);
}

#[test]
fn volley_has_three_spread_shots() {
    let p = Player::create();
    let mut shots = Vec::new();
    MainState::fire_player_shot(&mut shots, &p);
    assert_eq!(shots.len(), 3);
    assert_eq!(shots[0].velocity, Vector2 { x: -366_666, y: 1_100_000 });
    assert_eq!(shots[1].velocity, Vector2 { x: 0, y: 1_100_000 });
    assert_eq!(shots[2].velocity, Vector2 { x: 366_666, y: 1_100_000 });
}

#[test]
fn firing_respects_the_cooldown() {
    let mut w = world(Some(0));
    w.curr_time = PLAYER_SHOT_TIME - 1;
    w.players[0].input.fire = true;
    w.fire_ready_players();
    assert!(w.shots.is_empty());
    w.curr_time = PLAYER_SHOT_TIME;
    w.fire_ready_players();
    assert_eq!(w.shots.len(), 3);
    assert_eq!(w.players[0].last_shot_at, PLAYER_SHOT_TIME);
    assert!(w.play_sounds.play_shot);
}

#[test]
fn steering_moves_the_ship_at_player_speed() {
    let mut w = world(Some(0));
    w.players[0].input.right = true;
    w.players[0].input.up = true;
    w.players[0].input.down = true;
    w.steer_players(100_000);
    assert_eq!(w.players[0].actor.pos, Vector2 { x: 50_000, y: 0 });
}

#[test]
fn spawning_follows_the_draws() {
    let mut w = world(Some(0));
    let yes = SpawnDraw { roll: 0, angle: 0, negate: false, x: 0, speed: 0, spin: 0 };
    let no = SpawnDraw { roll: u32::MAX, ..yes };
    // A tick of 6944 microseconds has two opportunities.
    w.spawn_rocks_from(6_944, 100_000, &vec![yes, no]);
    assert_eq!(w.rocks.len(), 1);
    assert_eq!(w.rocks[0].velocity, Vector2 { x: 0, y: -50_000 });
    w.spawn_rocks(1_000_000, MAX_SPEED_MOD);
    assert!(w.rocks.len() <= 251);
}

#[test]
fn server_tick_advances_round_time() {
    let mut w = world(Some(0));
    w.update(6_944, 100_000, 1_000_000);
    assert_eq!(w.curr_time, 1_000_000);
    let mut c = world(Some(1));
    c.update(6_944, 100_000, 1_000_000);
    assert_eq!(c.curr_time, 6_944);
}

#[test]
fn keys_set_and_clear_intents() {
    let mut i = InputState::default();
    assert!(!i.apply_key(Key::Left, true));
    assert!(i.left);
    assert!(!i.apply_key(Key::Left, false));
    assert!(!i.left);
    assert!(!i.apply_key(Key::Space, true));
    assert!(i.fire);
    assert!(i.apply_key(Key::Escape, true));
}

fn snapshot_of_two() -> NetFromServer {
    let mut server = world(Some(0));
    server.add_player();
    server.players[0].actor.pos = Vector2 { x: 7, y: 8 };
    server.players[1].actor.pos = Vector2 { x: 100, y: 200 };
    server.rocks = vec![rock_at(1, 2)];
    server.shots = vec![shot_at(3, 4)];
    server.score = 9;
    server.curr_time = 5_000_000;
    NetFromServer::make_from_state(&server)
}

#[test]
fn client_keeps_its_own_ship_and_takes_the_others() {
    let mut client = world(Some(0));
    client.players[0].actor.pos = Vector2 { x: -1, y: -2 };
    client.curr_time = 4_000_000;
    client.players[0].last_shot_at = 3_900_000;
    snapshot_of_two().update_main_state(&mut client);
    assert_eq!(client.players.len(), 2);
    assert_eq!(client.players[0].actor.pos, Vector2 { x: -1, y: -2 });
    assert_eq!(client.players[1].actor.pos, Vector2 { x: 100, y: 200 });
    assert_eq!(client.players[0].last_shot_at, 4_900_000);
    assert_eq!(client.curr_time, 5_000_000);
    assert_eq!(client.score, 9);
    assert_eq!(client.rocks.len(), 1);
    assert_eq!(client.shots.len(), 1);
}

#[test]
fn applying_a_snapshot_twice_changes_nothing_more() {
    let mut client = world(Some(1));
    client.add_player();
    client.players[1].actor.pos = Vector2 { x: 55, y: 66 };
    snapshot_of_two().update_main_state(&mut client);
    let rocks1 = client.rocks.clone();
    let shots1 = client.shots.clone();
    let score1 = client.score;
    let own1 = client.players[1].actor;
    snapshot_of_two().update_main_state(&mut client);
    assert_eq!(client.rocks, rocks1);
    assert_eq!(client.shots, shots1);
    assert_eq!(client.score, score1);
    assert_eq!(client.players[1].actor, own1);
    assert_eq!(own1.pos, Vector2 { x: 55, y: 66 });
}

#[test]
fn spectator_takes_every_ship() {
    let mut watcher = world(None);
    snapshot_of_two().update_main_state(&mut watcher);
    assert_eq!(watcher.players[0].actor.pos, Vector2 { x: 7, y: 8 });
}

#[test]
fn client_input_moves_the_senders_ship() {
    let mut server = world(Some(0));
    let idx = server.add_player();
    let msg = NetClientInput {
        input_state: InputState { fire: true, up: false, down: false, right: true, left: false },
        final_position: Vector2 { x: 11, y: 12 },
        shots_made: vec![shot_at(1, 1)],
    };
    msg.update_main_state(idx, &mut server);
    assert_eq!(server.players[1].actor.pos, Vector2 { x: 11, y: 12 });
    assert!(server.players[1].input.right);
    assert_eq!(server.shots.len(), 1);
    assert!(server.play_sounds.play_shot);
}

#[test]
fn client_message_reports_and_forgets_local_shots() {
    let mut client = world(Some(0));
    client.players[0].input.fire = true;
    client.local_input.fire = true;
    client.curr_time = 1_000_000;
    client.real_update_client(6_944);
    assert_eq!(client.local_shots_made.len(), 3);
    assert!(client.shots.is_empty());
    let msg = NetClientInput::make_from_state(&mut client);
    assert_eq!(msg.shots_made.len(), 3);
    assert!(msg.input_state.fire);
    assert!(client.local_shots_made.is_empty());
}

#[test]
fn handshake_carries_the_index() {
    assert_eq!(NetPlayerConnected::make(3).player_index, 3);
}

#[test]
fn each_connection_doubles_the_difficulty() {
    let mut w = world(Some(0));
    assert_eq!(w.add_connected_player(), 1);
    assert_eq!(w.difficulty_mult, 2000);
    w.difficulty_mult = 999_999_999;
    assert_eq!(w.add_connected_player(), 2);
    assert_eq!(w.difficulty_mult, 1_000_000_000);
}

#[test]
fn pressure_grows_with_time_and_difficulty() {
    let mut w = world(Some(0));
    assert_eq!(w.time_mult(), 0);
    w.curr_time = 2_000_000;
    assert_eq!(w.time_mult(), 2_000);
    w.difficulty_mult = 3_000;
    assert_eq!(w.time_mult(), 6_000);
}
