use rust_blaster::actor::{world_to_screen_coords, Actor, ActorType, Vector2, MAX_PHYSICS_VEL, TURN};
use rust_blaster::angle::{vec_from_angle, ONE};
use rust_blaster::spawner::{rock_from_draws, SpawnDraw};

fn moving(vx: i64, vy: i64) -> Actor {
    let mut a = Actor::create_player_actor();
    a.velocity = Vector2 { x: vx, y: vy };
    a
}

#[test]
fn speed_above_limit_is_rescaled_to_the_limit() {
    let mut a = moving(2_000_000, 0);
    a.tick_physics(0);
    assert_eq!(a.velocity, Vector2 { x: MAX_PHYSICS_VEL, y: 0 });

    let mut b = moving(-3_000_000, 4_000_000);
    b.tick_physics(0);
    assert_eq!(b.velocity, Vector2 { x: -570_000, y: 760_000 });
    let sq = (b.velocity.x as i128).pow(2) + (b.velocity.y as i128).pow(2);
    assert!(sq <= (MAX_PHYSICS_VEL as i128).pow(2));
    assert!(sq > ((MAX_PHYSICS_VEL - 4) as i128).pow(2));
}

#[test]
fn speed_below_limit_is_kept_and_position_integrates() {
    let mut a = moving(100_000, -50_000);
    a.tick_physics(500_000);
    assert_eq!(a.velocity, Vector2 { x: 100_000, y: -50_000 });
    assert_eq!(a.pos, Vector2 { x: 50_000, y: -25_000 });
}

#[test]
fn spin_turns_the_heading_once_per_tick() {
    let mut s = Actor::create_shot();
    s.tick_physics(1_000_000);
    assert_eq!(s.facing, 100_000);
    s.facing = TURN - 50_000;
    s.tick_physics(0);
    assert_eq!(s.facing, 50_000);
}

#[test]
fn wrapping_just_past_the_edge_moves_one_extent() {
    let sx = 1_080_000;
    let mut a = Actor::create_player_actor();
    a.pos = Vector2 { x: 540_001, y: -540_001 };
    a.wrap_position(sx, sx);
    assert_eq!(a.pos, Vector2 { x: -539_999, y: 539_999 });
    let once = a.pos;
    a.wrap_position(sx, sx);
    assert_eq!(a.pos, once);
}

#[test]
fn wrapping_more_than_one_extent_past_moves_again() {
    let sx = 1_080_000;
    let mut a = Actor::create_player_actor();
    a.pos = Vector2 { x: 540_000 + 1_080_001, y: 0 };
    a.wrap_position(sx, sx);
    assert_eq!(a.pos.x, 540_001);
    a.wrap_position(sx, sx);
    assert_eq!(a.pos.x, -539_999);
}

#[test]
fn bounds_check_uses_half_extents() {
    let mut a = Actor::create_shot();
    a.pos = Vector2 { x: 540_000, y: 0 };
    assert!(!a.is_out_of_bounds(1_080_000, 1_080_000));
    a.pos = Vector2 { x: 0, y: -540_001 };
    assert!(a.is_out_of_bounds(1_080_000, 1_080_000));
}

#[test]
fn factories_fix_radius_and_role() {
    assert_eq!(Actor::create_player_actor().bbox_size, 12_000);
    assert_eq!(Actor::create_shot().bbox_size, 6_000);
    let r = Actor::create_rock();
    assert_eq!(r.tag, ActorType::Rock);
    assert_eq!(r.bbox_size, 12_000);
    assert!(r.ang_vel >= 0 && r.ang_vel < 20_000);
    assert!(!r.kill);
}

#[test]
fn headings_give_unit_directions() {
    assert_eq!(vec_from_angle(0), Vector2 { x: 0, y: ONE });
    let quarter = vec_from_angle(1_570_796);
    assert!((quarter.x - ONE).abs() <= 10);
    assert!(quarter.y.abs() <= 10);
    let half = vec_from_angle(3_141_593);
    assert!(half.x.abs() <= 10);
    assert!((half.y + ONE).abs() <= 10);
    let three_quarters = vec_from_angle(4_712_389);
    assert!((three_quarters.x + ONE).abs() <= 10);
    let d = vec_from_angle(500_000);
    assert!((d.x - 479_426).abs() <= 10);
    assert!((d.y - 877_583).abs() <= 10);
}

#[test]
fn spawner_at_zero_pressure_heads_straight_down() {
    for speed in [0u32, 1 << 31, u32::MAX] {
        let d = SpawnDraw { roll: 0, angle: u32::MAX, negate: true, x: 1 << 31, speed, spin: 0 };
        let rock = rock_from_draws(d, 1_080_000, 1_080_000, 0, 100_000);
        assert_eq!(rock.velocity.x, 0);
        assert!(rock.velocity.y <= -50_000 && rock.velocity.y > -150_000);
        assert_eq!(rock.pos, Vector2 { x: 0, y: 525_000 });
        assert_eq!(rock.tag, ActorType::Rock);
    }
    let slow = rock_from_draws(SpawnDraw { roll: 0, angle: 0, negate: false, x: 0, speed: 0, spin: 0 }, 1_080_000, 1_080_000, 0, 100_000);
    assert_eq!(slow.velocity, Vector2 { x: 0, y: -50_000 });
    assert_eq!(slow.pos.x, -540_000);
}

#[test]
fn spawner_angle_deviates_within_bound() {
    let d = SpawnDraw { roll: 0, angle: u32::MAX, negate: false, x: 0, speed: 0, spin: 0 };
    let rock = rock_from_draws(d, 1_080_000, 1_080_000, 500_000, 1_000_000);
    // Speed 500_000 at nearly half a radian off straight down.
    assert!((rock.velocity.x + 239_713).abs() <= 20);
    assert!((rock.velocity.y + 438_791).abs() <= 20);
}

#[test]
fn world_points_map_to_screen_points() {
    assert_eq!(world_to_screen_coords(1_080_000, 720_000, Vector2 { x: 0, y: 0 }), Vector2 { x: 540_000, y: 360_000 });
    assert_eq!(world_to_screen_coords(1_080_000, 720_000, Vector2 { x: -540_000, y: 360_000 }), Vector2 { x: 0, y: 0 });
}

#[test]
fn headings_have_unit_length_all_round() {
    let one = ONE as i128;
    for a in (0..TURN).step_by(997) {
        let d = vec_from_angle(a);
        let len_sq = (d.x as i128).pow(2) + (d.y as i128).pow(2);
        assert!(len_sq <= one * one && len_sq > one * one - 2 * one - 1, "angle {}", a);
    }
}
