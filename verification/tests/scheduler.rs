//! Tests of the component store, the player systems and the frame
//! scheduler.

use platformer_core::math::{PosNum, Vec2};
use platformer_core::collision::{
    Acc, CollideTileType, CollideTilemap, CollisionLayer, OnGround, Pos, Size, Vel,
};
use platformer_core::collision::system::physics_process;
use platformer_core::ecs::ComponentTable;
use platformer_core::player::{
    gramble, glyde, jump_impulse, pipe_propose_movement, player_movement, CurrentPlayer,
    InputState, PlayerType, Tri,
};
use platformer_core::world::{run_frames, World};

fn open_grid(width: usize, height: usize) -> CollideTilemap {
    CollideTilemap {
        data: vec![CollideTileType::Pass; width * height],
        width,
        height,
    }
}

fn raw_vec(x: i32, y: i32) -> Vec2 {
    Vec2::new(PosNum::from_raw(x), PosNum::from_raw(y))
}

#[test]
fn entity_ids_are_monotonic() {
    let mut w = World::new();
    let a = w.build_entity();
    let b = w.build_entity();
    let c = w.build_entity();
    assert_eq!(a.id, 0);
    assert_eq!(b.id, 1);
    assert_eq!(c.id, 2);
}

#[test]
fn table_set_get_remove() {
    let mut t: ComponentTable<i32> = ComponentTable::new();
    t.set(5, 50);
    t.set(3, 30);
    t.set(9, 90);
    assert_eq!(t.len(), 3);
    assert_eq!(t.get(3), Some(30));
    assert_eq!(t.get(7), None);
    // Replacing keeps the insertion order.
    t.set(3, 31);
    assert_eq!(t.len(), 3);
    assert_eq!(t.id_at(0), 5);
    assert_eq!(t.id_at(1), 3);
    assert_eq!(t.id_at(2), 9);
    assert_eq!(t.get(3), Some(31));
    // Removal closes the gap in insertion order.
    assert_eq!(t.remove(5), Some(50));
    assert_eq!(t.remove(5), None);
    assert_eq!(t.len(), 2);
    assert_eq!(t.id_at(0), 3);
    assert_eq!(t.id_at(1), 9);
    assert!(!t.contains(5));
}

#[test]
fn acceleration_applies_before_integration() {
    // An entity with velocity (0,0) and acceleration (0,1): after one
    // tick velocity is (0,1) and the position has already moved by it.
    let mut w = World::new();
    let en = w.build_entity();
    w.set_pos(en, Pos(raw_vec(0, 0)));
    w.set_vel(en, Vel(raw_vec(0, 0)));
    w.set_acc(en, Acc(Vec2::new(PosNum::zero(), PosNum::new(1))));
    let g = open_grid(4, 4);
    w.frame(&InputState::neutral(), &g);
    assert_eq!(w.vel.get(en.id).unwrap().0.y.raw, 256);
    assert_eq!(w.pos.get(en.id).unwrap().0.y.raw, 256);
    assert_eq!(w.pos.get(en.id).unwrap().0.x.raw, 0);
}

#[test]
fn deadzone_snaps_small_speed_to_zero() {
    // A player-controlled entity with horizontal speed 0.3 (below the 0.5
    // deadzone) and no directional input stops exactly, not gradually.
    let mut w = World::new();
    let en = w.build_entity();
    w.set_pos(en, Pos(raw_vec(0, 0)));
    w.set_vel(en, Vel(raw_vec(76, 0)));  // 0.3 in raw units
    w.set_on_ground(en, OnGround(true));
    w.set_player_type(en, PlayerType::Gramble);
    let g = open_grid(4, 4);
    w.frame(&InputState::neutral(), &g);
    assert_eq!(w.vel.get(en.id).unwrap().0.x.raw, 0);
}

#[test]
fn deadzone_snaps_to_minimum_speed_with_input() {
    let mut vel = Vel(raw_vec(0, 0));
    let input = InputState { x_tri: Tri::Positive, ..InputState::neutral() };
    player_movement(&PlayerType::Gramble, Some(&CurrentPlayer), &mut vel, &OnGround(false), &input);
    // 0 + 0.2 = 0.2 is inside the deadzone: snap to exactly 0.5.
    assert_eq!(vel.0.x.raw, 128);
}

#[test]
fn uncontrolled_entities_decelerate_to_rest() {
    let mut vel = Vel(raw_vec(768, 0));
    let input = InputState { x_tri: Tri::Positive, ..InputState::neutral() };
    player_movement(&PlayerType::Gramble, None, &mut vel, &OnGround(false), &input);
    // Without control the target is zero: 3.0 - 0.2 = 2.8.
    assert_eq!(vel.0.x.raw, 768 - 51);
}

#[test]
fn grounded_jump_sets_the_impulse() {
    let mut vel = Vel(raw_vec(0, 100));
    let input = InputState { jump_pressed: true, ..InputState::neutral() };
    player_movement(&PlayerType::Gramble, Some(&CurrentPlayer), &mut vel, &OnGround(true), &input);
    assert_eq!(vel.0.y.raw, -669);

    let mut vel2 = Vel(raw_vec(0, 100));
    player_movement(&PlayerType::Glyde, Some(&CurrentPlayer), &mut vel2, &OnGround(true), &input);
    assert_eq!(vel2.0.y.raw, -499);
}

#[test]
fn airborne_jump_press_does_nothing() {
    let mut vel = Vel(raw_vec(0, 100));
    let input = InputState { jump_pressed: true, ..InputState::neutral() };
    player_movement(&PlayerType::Gramble, Some(&CurrentPlayer), &mut vel, &OnGround(false), &input);
    assert_eq!(vel.0.y.raw, 100);
}

#[test]
fn released_jump_pulls_down_harder() {
    let mut vel = Vel(raw_vec(0, 0));
    let input = InputState { jump_released: true, ..InputState::neutral() };
    player_movement(&PlayerType::Gramble, Some(&CurrentPlayer), &mut vel, &OnGround(false), &input);
    // gravity * 0.75 = 25 * 192 / 256 = 18 raw units.
    assert_eq!(vel.0.y.raw, 18);
}

#[test]
fn velocity_is_clamped_to_one_tile() {
    let mut vel = Vel(Vec2::new(PosNum::new(40), PosNum::new(-40)));
    player_movement(
        &PlayerType::Gramble,
        Some(&CurrentPlayer),
        &mut vel,
        &OnGround(false),
        &InputState::neutral(),
    );
    assert_eq!(vel.0.y.raw, -4096);
}

#[test]
fn jump_impulse_matches_height_formula() {
    // sqrt(2 * gravity * height) on the fixed-point grid.
    assert_eq!(jump_impulse(PosNum::from_raw(8960)).raw, 669);
    assert_eq!(jump_impulse(PosNum::from_raw(4992)).raw, 499);
}

#[test]
fn pipe_movement_follows_both_axes() {
    let input = InputState { x_tri: Tri::Negative, y_tri: Tri::Positive, ..InputState::neutral() };
    let m = pipe_propose_movement(&input);
    assert_eq!(m.x.raw, -896);
    assert_eq!(m.y.raw, 896);
}

#[test]
fn zero_velocity_frames_leave_position_unchanged() {
    // Integration stability: a world at rest stays exactly where it is
    // for any number of frames.
    let mut w = World::new();
    let en = w.build_entity();
    w.set_pos(en, Pos(raw_vec(17 * 256, 16 * 256)));
    w.set_vel(en, Vel(raw_vec(0, 0)));
    w.set_size(en, Size(raw_vec(14 * 256, 14 * 256)));
    w.set_col_layer(en, CollisionLayer::Normal);
    let g = open_grid(6, 6);
    run_frames(&mut w, &InputState::neutral(), &g, 5);
    assert_eq!(w.pos.get(en.id).unwrap().0.x.raw, 17 * 256);
    assert_eq!(w.pos.get(en.id).unwrap().0.y.raw, 16 * 256);
    assert_eq!(w.vel.get(en.id).unwrap().0.x.raw, 0);
    run_frames(&mut w, &InputState::neutral(), &g, 0);
    assert_eq!(w.pos.get(en.id).unwrap().0.y.raw, 16 * 256);
}

#[test]
fn frame_resolves_collisions_and_grounds() {
    // A falling entity stops on the solid below and is marked grounded.
    let mut w = World::new();
    let en = w.build_entity();
    w.set_pos(en, Pos(raw_vec(17 * 256, 13 * 256)));
    w.set_vel(en, Vel(raw_vec(0, 16 * 256)));
    w.set_size(en, Size(raw_vec(14 * 256, 14 * 256)));
    w.set_col_layer(en, CollisionLayer::Normal);
    w.set_on_ground(en, OnGround(false));
    let mut g = open_grid(4, 4);
    g.data[2 * 4 + 1] = CollideTileType::Solid;
    w.frame(&InputState::neutral(), &g);
    assert_eq!(w.vel.get(en.id).unwrap().0.y.raw, 5 * 256);
    assert_eq!(w.pos.get(en.id).unwrap().0.y.raw, 18 * 256);
    assert!(w.on_ground.get(en.id).unwrap().0);
}

#[test]
fn slope_snap_grounds_horizontal_motion() {
    // Running into a steep slope grounds the entity even though the
    // vertical request was not blocked.
    let mut w = World::new();
    let en = w.build_entity();
    w.set_pos(en, Pos(raw_vec(17 * 256, 16 * 256)));
    w.set_vel(en, Vel(raw_vec(16 * 256, 0)));
    w.set_size(en, Size(raw_vec(14 * 256, 14 * 256)));
    w.set_col_layer(en, CollisionLayer::Normal);
    w.set_on_ground(en, OnGround(false));
    let mut g = open_grid(4, 3);
    g.data[1 * 4 + 2] = CollideTileType::RSteepSlope;
    w.frame(&InputState::neutral(), &g);
    assert!(w.on_ground.get(en.id).unwrap().0);
    // Horizontal motion is unaffected by this collision.
    assert_eq!(w.vel.get(en.id).unwrap().0.x.raw, 16 * 256);
}

#[test]
fn physics_process_without_ground_state_resolves_only() {
    // An entity without an OnGround component still gets its velocity
    // resolved; the absent ground state stays absent.
    let mut g = open_grid(4, 4);
    g.data[2 * 4 + 1] = CollideTileType::Solid;
    let pos = Pos(raw_vec(17 * 256, 13 * 256));
    let size = Size(raw_vec(14 * 256, 14 * 256));
    let mut vel = Vel(raw_vec(0, 16 * 256));
    let mut ground: Option<OnGround> = None;
    physics_process(&pos, &mut vel, &size, &CollisionLayer::Normal, &mut ground, &g);
    assert_eq!(vel.0.y.raw, 5 * 256);
    assert!(ground.is_none());
}

#[test]
fn builders_attach_the_player_components() {
    let mut w = World::new();
    let a = gramble(&mut w, raw_vec(48 * 256, 96 * 256));
    let b = glyde(&mut w, raw_vec(80 * 256, 80 * 256));
    assert_eq!(a.id, 0);
    assert_eq!(b.id, 1);
    assert_eq!(w.size.get(a.id).unwrap().0.x.raw, 14 * 256);
    assert_eq!(w.size.get(b.id).unwrap().0.x.raw, 24 * 256);
    assert_eq!(w.acc.get(a.id).unwrap().0.y.raw, 25);
    assert!(matches!(w.player_type.get(a.id), Some(PlayerType::Gramble)));
    assert!(matches!(w.player_type.get(b.id), Some(PlayerType::Glyde)));
    assert!(!w.on_ground.get(a.id).unwrap().0);
}
