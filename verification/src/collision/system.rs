//! Per-frame systems over collision components: velocity and position
//! integration, and collision resolution of an entity's velocity against
//! the tile grid.

use vstd::prelude::*;
use crate::math::{Rect, Vec2};
use crate::collision::{
    Pos, Vel, Acc, Size, OnGround, CollisionLayer, CollideTilemap, Collision, move_and_collide,
    resolved_x_raw, resolved_y_raw, is_resolution, resolution_of, query_of, vec_ok, hitbox_ok,
    collision_ok, lemma_resolution_unique,
};

verus! {

/// The hitbox of an entity at `pos` with `size`.
pub open spec fn hitbox_of(pos: Pos, size: Size) -> Rect {
    Rect { position: pos.0, size: size.0 }
}

/// Whether the collision step signals grounding: the resolved vertical
/// delta shrank a still-downward requested delta, or the resolver asked
/// for a ground snap.
pub open spec fn grounded_signal(old_vy: int, new_vy: int, snap: bool) -> bool {
    (old_vy > new_vy && old_vy > 0) || snap
}

/// Position integration: `pos += vel`.
pub fn apply_vel(pos: &mut Pos, vel: &Vel)
    requires
        i32::MIN <= old(pos).0.x.raw + vel.0.x.raw <= i32::MAX,
        i32::MIN <= old(pos).0.y.raw + vel.0.y.raw <= i32::MAX,
    ensures
        final(pos).0.x.raw == old(pos).0.x.raw + vel.0.x.raw,
        final(pos).0.y.raw == old(pos).0.y.raw + vel.0.y.raw,
{
    pos.0 = pos.0.add(vel.0);
}

/// Acceleration integration: `vel += acc`.
pub fn apply_acc(vel: &mut Vel, acc: &Acc)
    requires
        i32::MIN <= old(vel).0.x.raw + acc.0.x.raw <= i32::MAX,
        i32::MIN <= old(vel).0.y.raw + acc.0.y.raw <= i32::MAX,
    ensures
        final(vel).0.x.raw == old(vel).0.x.raw + acc.0.x.raw,
        final(vel).0.y.raw == old(vel).0.y.raw + acc.0.y.raw,
{
    vel.0 = vel.0.add(acc.0);
}

/// Collision resolution: bounds the entity's velocity against the grid and
/// overwrites it with the resolved delta. When the resolved vertical delta
/// is smaller than a still-downward requested one, or the resolver signals
/// a ground snap, the entity's `OnGround` component (if it has one) is set.
pub fn physics_process(
    pos: &Pos,
    vel: &mut Vel,
    size: &Size,
    col_layer: &CollisionLayer,
    on_ground: &mut Option<OnGround>,
    tilemap: &CollideTilemap,
)
    requires
        tilemap.wf(),
        vec_ok(old(vel).0),
        hitbox_ok(hitbox_of(*pos, *size)),
    ensures
        ({
            let hb = hitbox_of(*pos, *size);
            let col = resolution_of(*tilemap, query_of(old(vel).0, hb), *col_layer);
            &&& is_resolution(*tilemap, query_of(old(vel).0, hb), *col_layer, col)
            &&& collision_ok(col)
            &&& final(vel).0.x.raw == resolved_x_raw(old(vel).0, hb, col)
            &&& final(vel).0.y.raw == resolved_y_raw(old(vel).0, hb, col)
            &&& *final(on_ground) == match *old(on_ground) {
                Some(g) => Some(
                    OnGround(
                        g.0 || grounded_signal(
                            old(vel).0.y.raw as int,
                            final(vel).0.y.raw as int,
                            col.snap_to_ground,
                        ),
                    ),
                ),
                None => None::<OnGround>,
            }
        }),
{
    let hitbox = Rect::new(pos.0, size.0);
    let col = tilemap.get_collision_seams(vel.0, hitbox, *col_layer);
    let new_vel = move_and_collide(vel.0, hitbox, &col);

    if (vel.0.y.raw > new_vel.y.raw && vel.0.y.raw > 0) || col.snap_to_ground {
        match on_ground {
            Some(g) => {
                g.0 = true;
            },
            None => {},
        }
    }

    vel.0 = new_vel;
    proof {
        let q = query_of(old(vel).0, hitbox_of(*pos, *size));
        assert(is_resolution(*tilemap, q, *col_layer, col));
        assert(exists|cc: Collision| is_resolution(*tilemap, q, *col_layer, cc));
        lemma_resolution_unique(*tilemap, q, *col_layer, col, resolution_of(*tilemap, q, *col_layer));
    }
}

} // verus!
