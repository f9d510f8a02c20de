//! Player-controlled velocity shaping.
//!
//! Horizontal velocity accelerates toward a tri-state directional target
//! and snaps to rest (or to the minimum speed) inside a small deadzone,
//! for crisp starts and stops. Vertical velocity takes a jump impulse on
//! the rising edge of the jump button when grounded, an extra
//! fractional-gravity pull while the button is released, and both
//! components are clamped to one tile per frame so the seam resolver's
//! single-tile-step assumption holds.

use vstd::prelude::*;
use crate::math::{PosNum, Vec2};
use crate::collision::{Pos, Vel, Acc, Size, OnGround, CollisionLayer, vec_ok};
use crate::ecs::Entity;
use crate::world::World;

verus! {

/// Gravity per frame, in raw units: 0.1 rounded to the fixed-point grid.
pub const GRAVITY_RAW: i32 = 25;

/// Horizontal acceleration step per frame: 0.2 rounded.
pub const ACCELERATION_RAW: i32 = 51;

/// The deadzone threshold and minimum nonzero speed: exactly 0.5.
pub const DEADZONE_RAW: i32 = 128;

/// Maximum horizontal speed of the heavier player character: 3.0.
pub const GRAMBLE_MAX_VEL_RAW: i32 = 768;

/// Maximum horizontal speed of the lighter player character: 2.5.
pub const GLYDE_MAX_VEL_RAW: i32 = 640;

/// Target maximum jump height of the heavier character: 35 pixels.
pub const GRAMBLE_MAX_HEIGHT_RAW: i32 = 8960;

/// Target maximum jump height of the lighter character: 19.5 pixels.
pub const GLYDE_MAX_HEIGHT_RAW: i32 = 4992;

/// One tile, the per-frame speed limit on each axis: 16 pixels.
pub const TILE_SIZE_RAW: i32 = 4096;

/// The movement speed of the pipe-riding form: 3.5.
pub const PIPE_MOVE_SPEED_RAW: i32 = 896;

/// A tri-state directional signal.
#[derive(Clone, Copy, PartialEq, Eq, Structural, Debug)]
pub enum Tri {
    Negative,
    Zero,
    Positive,
}

/// The input signals one frame consumes: two directional tri-states, the
/// rising edge of the jump button, and whether the jump button is
/// currently up.
#[derive(Clone, Copy, PartialEq, Eq, Structural, Debug)]
pub struct InputState {
    pub x_tri: Tri,
    pub y_tri: Tri,
    pub jump_pressed: bool,
    pub jump_released: bool,
}

impl InputState {
    /// No directional input, jump untouched and released.
    pub fn neutral() -> (r: InputState)
        ensures
            r.x_tri is Zero,
            r.y_tri is Zero,
            !r.jump_pressed,
            !r.jump_released,
    {
        InputState { x_tri: Tri::Zero, y_tri: Tri::Zero, jump_pressed: false, jump_released: false }
    }
}

/// Which player character an entity is.
#[derive(Clone, Copy, PartialEq, Eq, Structural, Debug)]
pub enum PlayerType {
    Gramble,
    Glyde,
}

/// Marker for the character the player currently controls.
pub struct CurrentPlayer;

/// The numeric value of a tri-state.
pub open spec fn tri_val(t: Tri) -> int {
    match t {
        Tri::Negative => -1,
        Tri::Zero => 0,
        Tri::Positive => 1,
    }
}

/// The directional input that takes effect: the real input for the
/// controlled character, neutral for everyone else.
pub open spec fn effective_tri(current: bool, t: Tri) -> Tri {
    if current {
        t
    } else {
        Tri::Zero
    }
}

/// `v` clamped into `[lo, hi]`.
pub open spec fn clamp_val(v: int, lo: int, hi: int) -> int {
    if v < lo {
        lo
    } else if v > hi {
        hi
    } else {
        v
    }
}

/// The absolute value.
pub open spec fn abs_val(v: int) -> int {
    if v >= 0 {
        v
    } else {
        -v
    }
}

/// The maximum horizontal speed of a player character, raw.
pub open spec fn max_vel_raw(p: PlayerType) -> int {
    if p is Gramble {
        768
    } else {
        640
    }
}

/// The jump impulse of a player character, raw:
/// `sqrt(2 * gravity * max_height)` on the fixed-point grid.
pub open spec fn jump_impulse_raw(p: PlayerType) -> int {
    if p is Gramble {
        669
    } else {
        499
    }
}

/// One step of horizontal velocity shaping: accelerate toward the target
/// `tri * max` by the fixed step, clamped to not overshoot, then snap to
/// the minimum speed (or to zero without input) inside the deadzone.
pub open spec fn shaped_x_raw(p: PlayerType, tri: Tri, vx: int) -> int {
    let maxv = max_vel_raw(p);
    let desired = tri_val(tri) * maxv;
    let stepped = if vx > desired {
        clamp_val(vx - 51, desired, maxv)
    } else {
        clamp_val(vx + 51, -maxv, desired)
    };
    if abs_val(stepped) < 128 {
        match tri {
            Tri::Zero => 0,
            Tri::Positive => 128,
            Tri::Negative => -128,
        }
    } else {
        stepped
    }
}

/// The new horizontal velocity of a player entity: shaped, then clamped
/// to one tile per frame.
pub open spec fn player_new_vx(p: PlayerType, current: bool, input: InputState, vx: int) -> int {
    clamp_val(shaped_x_raw(p, effective_tri(current, input.x_tri), vx), -4096, 4096)
}

/// The new vertical velocity of a player entity: the negative jump
/// impulse on a grounded jump press, an extra `gravity * 0.75` pull while
/// the jump button is up, otherwise unchanged; clamped to one tile per
/// frame.
pub open spec fn player_new_vy(
    p: PlayerType,
    current: bool,
    input: InputState,
    on_ground: bool,
    vy: int,
) -> int {
    let pulled = if current && input.jump_pressed && on_ground {
        -jump_impulse_raw(p)
    } else if current && input.jump_released {
        vy + 18
    } else {
        vy
    };
    clamp_val(pulled, -4096, 4096)
}

/// The jump impulse for a target maximum jump height:
/// `sqrt(2 * gravity * max_height)` in fixed point.
pub fn jump_impulse(max_height: PosNum) -> (r: PosNum)
    requires
        0 <= max_height.raw <= 0x0100_0000,
    ensures
        r.raw >= 0,
        r.raw * r.raw <= ((50 * max_height.raw) / 256) * 256,
        ((50 * max_height.raw) / 256) * 256 < (r.raw + 1) * (r.raw + 1),
{
    let two_gravity = PosNum::new(2).mul(PosNum::from_raw(GRAVITY_RAW));
    proof {
        assert(two_gravity.raw == 50);
        assert(0 <= 50 * max_height.raw <= 0x3200_0000) by (nonlinear_arith)
            requires
                0 <= max_height.raw <= 0x0100_0000,
        ;
        vstd::arithmetic::div_mod::lemma_div_is_ordered(0, 50 * max_height.raw, 256);
        vstd::arithmetic::div_mod::lemma_div_is_ordered(50 * max_height.raw, 0x3200_0000, 256);
    }
    let square = two_gravity.mul(max_height);
    square.sqrt()
}

/// Shapes a player entity's velocity from directional input, as the
/// input-driven phase of the frame pipeline: only the controlled
/// character reacts to input; everyone else decelerates to rest.
pub fn player_movement(
    player_type: &PlayerType,
    current_player: Option<&CurrentPlayer>,
    vel: &mut Vel,
    on_ground: &OnGround,
    input: &InputState,
)
    requires
        vec_ok(old(vel).0),
    ensures
        final(vel).0.x.raw == player_new_vx(
            *player_type,
            current_player is Some,
            *input,
            old(vel).0.x.raw as int,
        ),
        final(vel).0.y.raw == player_new_vy(
            *player_type,
            current_player is Some,
            *input,
            on_ground.0,
            old(vel).0.y.raw as int,
        ),
{
    let max_velocity = match player_type {
        PlayerType::Gramble => PosNum::from_raw(GRAMBLE_MAX_VEL_RAW),
        PlayerType::Glyde => PosNum::from_raw(GLYDE_MAX_VEL_RAW),
    };
    let tri = if current_player.is_some() {
        *input
    } else {
        InputState::neutral()
    }.x_tri;
    let desired_x_vel = match tri {
        Tri::Negative => max_velocity.neg(),
        Tri::Zero => PosNum::zero(),
        Tri::Positive => max_velocity,
    };

    let mut v = vel.0;
    let accel = PosNum::from_raw(ACCELERATION_RAW);
    if v.x.gt(desired_x_vel) {
        v.x = v.x.sub(accel);
        v.x = v.x.clamp(desired_x_vel, max_velocity);
    } else {
        v.x = v.x.add(accel);
        v.x = v.x.clamp(max_velocity.neg(), desired_x_vel);
    }
    if v.x.abs().lt(PosNum::from_raw(DEADZONE_RAW)) {
        v.x = match tri {
            Tri::Zero => PosNum::zero(),
            Tri::Positive => PosNum::from_raw(DEADZONE_RAW),
            Tri::Negative => PosNum::from_raw(-DEADZONE_RAW),
        };
    }

    if current_player.is_some() {
        if input.jump_pressed && on_ground.0 {
            let impulse = match player_type {
                PlayerType::Gramble => jump_impulse(PosNum::from_raw(GRAMBLE_MAX_HEIGHT_RAW)),
                PlayerType::Glyde => jump_impulse(PosNum::from_raw(GLYDE_MAX_HEIGHT_RAW)),
            };
            proof {
                assert(impulse.raw == jump_impulse_raw(*player_type)) by (nonlinear_arith)
                    requires
                        impulse.raw >= 0,
                        impulse.raw * impulse.raw <= (if *player_type is Gramble {
                            448000int
                        } else {
                            249600int
                        }),
                        (impulse.raw + 1) * (impulse.raw + 1) > (if *player_type is Gramble {
                            448000int
                        } else {
                            249600int
                        }),
                        jump_impulse_raw(*player_type) == (if *player_type is Gramble {
                            669int
                        } else {
                            499int
                        }),
                ;
            }
            v.y = impulse.neg();
        } else if input.jump_released {
            let pull = PosNum::from_raw(GRAVITY_RAW).mul(PosNum::from_raw(192));
            v.y = v.y.add(pull);
        }
    }

    let tile_size = PosNum::from_raw(TILE_SIZE_RAW);
    v.x = v.x.clamp(tile_size.neg(), tile_size);
    v.y = v.y.clamp(tile_size.neg(), tile_size);
    vel.0 = v;
}

/// The movement the pipe-riding form proposes from directional input:
/// the pipe speed on each axis, signed by the tri-state.
pub fn pipe_propose_movement(input: &InputState) -> (r: Vec2)
    ensures
        r.x.raw == tri_val(input.x_tri) * 896,
        r.y.raw == tri_val(input.y_tri) * 896,
{
    let speed = PosNum::from_raw(PIPE_MOVE_SPEED_RAW);
    let x = match input.x_tri {
        Tri::Negative => speed.neg(),
        Tri::Zero => PosNum::zero(),
        Tri::Positive => speed,
    };
    let y = match input.y_tri {
        Tri::Negative => speed.neg(),
        Tri::Zero => PosNum::zero(),
        Tri::Positive => speed,
    };
    Vec2::new(x, y)
}
/// Builds the heavier player character: at the given position, at rest,
/// under gravity, with a 14 x 28 hitbox on the normal collision layer.
pub fn gramble(world: &mut World, position: Vec2) -> (en: Entity)
    requires
        old(world).wf(),
        old(world).next_entity_id < i32::MAX,
    ensures
        final(world).wf(),
        final(world).next_entity_id == old(world).next_entity_id + 1,
        en.id == old(world).next_entity_id,
        final(world).pos.contains_id(en.id) && final(world).pos.value_of(en.id) == Pos(position),
        final(world).vel.contains_id(en.id) && final(world).vel.value_of(en.id).0.x.raw == 0
            && final(world).vel.value_of(en.id).0.y.raw == 0,
        final(world).acc.contains_id(en.id) && final(world).acc.value_of(en.id).0.x.raw == 0
            && final(world).acc.value_of(en.id).0.y.raw == GRAVITY_RAW,
        final(world).size.contains_id(en.id) && final(world).size.value_of(en.id).0.x.raw == 14
            * 256 && final(world).size.value_of(en.id).0.y.raw == 28 * 256,
        final(world).on_ground.contains_id(en.id) && final(world).on_ground.value_of(en.id)
            == OnGround(false),
        final(world).col_layer.contains_id(en.id) && final(world).col_layer.value_of(en.id)
            is Normal,
        final(world).player_type.contains_id(en.id) && final(world).player_type.value_of(en.id)
            is Gramble,
{
    let en = world.build_entity();
    world.set_pos(en, Pos(position));
    world.set_vel(en, Vel(Vec2::zero()));
    world.set_acc(en, Acc(Vec2::new(PosNum::zero(), PosNum::from_raw(GRAVITY_RAW))));
    world.set_size(en, Size(Vec2::new(PosNum::new(14), PosNum::new(28))));
    world.set_on_ground(en, OnGround(false));
    world.set_col_layer(en, CollisionLayer::Normal);
    world.set_player_type(en, PlayerType::Gramble);
    en
}

/// Builds the lighter player character: as `gramble`, but with a 24 x 28
/// hitbox and the lighter kind.
pub fn glyde(world: &mut World, position: Vec2) -> (en: Entity)
    requires
        old(world).wf(),
        old(world).next_entity_id < i32::MAX,
    ensures
        final(world).wf(),
        final(world).next_entity_id == old(world).next_entity_id + 1,
        en.id == old(world).next_entity_id,
        final(world).pos.contains_id(en.id) && final(world).pos.value_of(en.id) == Pos(position),
        final(world).vel.contains_id(en.id) && final(world).vel.value_of(en.id).0.x.raw == 0
            && final(world).vel.value_of(en.id).0.y.raw == 0,
        final(world).acc.contains_id(en.id) && final(world).acc.value_of(en.id).0.x.raw == 0
            && final(world).acc.value_of(en.id).0.y.raw == GRAVITY_RAW,
        final(world).size.contains_id(en.id) && final(world).size.value_of(en.id).0.x.raw == 24
            * 256 && final(world).size.value_of(en.id).0.y.raw == 28 * 256,
        final(world).on_ground.contains_id(en.id) && final(world).on_ground.value_of(en.id)
            == OnGround(false),
        final(world).col_layer.contains_id(en.id) && final(world).col_layer.value_of(en.id)
            is Normal,
        final(world).player_type.contains_id(en.id) && final(world).player_type.value_of(en.id)
            is Glyde,
{
    let en = world.build_entity();
    world.set_pos(en, Pos(position));
    world.set_vel(en, Vel(Vec2::zero()));
    world.set_acc(en, Acc(Vec2::new(PosNum::zero(), PosNum::from_raw(GRAVITY_RAW))));
    world.set_size(en, Size(Vec2::new(PosNum::new(24), PosNum::new(28))));
    world.set_on_ground(en, OnGround(false));
    world.set_col_layer(en, CollisionLayer::Normal);
    world.set_player_type(en, PlayerType::Glyde);
    en
}

} // verus!
