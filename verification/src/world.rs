//! The world: per-component tables keyed by entity id, and the
//! fixed-order frame scheduler.
//!
//! Each simulated frame runs, in order: acceleration integration,
//! input-driven velocity shaping, collision resolution, and position
//! integration. The ordering is load-bearing: resolution must see the
//! final intended displacement, and integration the resolved one.

use vstd::prelude::*;
use crate::math::{PosNum, Vec2};
use crate::collision::{
    Pos, Vel, Acc, Size, OnGround, CollisionLayer, CollideTilemap, is_resolution,
    resolution_of, query_of, resolved_x_raw, resolved_y_raw, collision_ok,
    scan_colliding, tile_is_nonstandard, lemma_zero_delta,
};
use crate::collision::system::{
    apply_vel, apply_acc, physics_process, hitbox_of, grounded_signal,
};
use crate::ecs::{Entity, ComponentTable};
use crate::player::{PlayerType, CurrentPlayer, InputState, player_movement, player_new_vx, player_new_vy};
use crate::object::ForegroundHide;

verus! {

/// All ids in a table lie below `n`.
pub open spec fn ids_below<T>(t: ComponentTable<T>, n: int) -> bool {
    forall|i: int| 0 <= i < t.ids@.len() ==> t.ids@[i] < n
}

/// The world: one table per component type, and the next entity id.
pub struct World {
    pub pos: ComponentTable<Pos>,
    pub vel: ComponentTable<Vel>,
    pub acc: ComponentTable<Acc>,
    pub size: ComponentTable<Size>,
    pub on_ground: ComponentTable<OnGround>,
    pub col_layer: ComponentTable<CollisionLayer>,
    pub player_type: ComponentTable<PlayerType>,
    pub foreground_hide: ComponentTable<ForegroundHide>,
    pub entities: ComponentTable<()>,
    pub next_entity_id: i32,
}

/// A component vector within the range one frame's arithmetic supports.
pub open spec fn bounded_vec(v: Vec2) -> bool {
    &&& -0x0400_0000 <= v.x.raw <= 0x0400_0000
    &&& -0x0400_0000 <= v.y.raw <= 0x0400_0000
}

/// A positive, in-range hitbox size.
pub open spec fn bounded_size(v: Vec2) -> bool {
    &&& 0 < v.x.raw <= 0x0400_0000
    &&& 0 < v.y.raw <= 0x0400_0000
}

impl World {
    /// Well-formedness: every table is well formed, and every id it holds
    /// was issued by `build_entity`.
    pub open spec fn wf(self) -> bool {
        &&& self.pos.wf() && ids_below(self.pos, self.next_entity_id as int)
        &&& self.vel.wf() && ids_below(self.vel, self.next_entity_id as int)
        &&& self.acc.wf() && ids_below(self.acc, self.next_entity_id as int)
        &&& self.size.wf() && ids_below(self.size, self.next_entity_id as int)
        &&& self.on_ground.wf() && ids_below(self.on_ground, self.next_entity_id as int)
        &&& self.col_layer.wf() && ids_below(self.col_layer, self.next_entity_id as int)
        &&& self.player_type.wf() && ids_below(self.player_type, self.next_entity_id as int)
        &&& self.foreground_hide.wf() && ids_below(
            self.foreground_hide,
            self.next_entity_id as int,
        )
        &&& self.entities.wf() && ids_below(self.entities, self.next_entity_id as int)
        &&& self.next_entity_id >= 0
    }

    /// All stored positions, velocities and accelerations in range, and
    /// all sizes positive and in range.
    pub open spec fn world_bounded(self) -> bool {
        &&& forall|i: int|
            0 <= i < self.pos.vals@.len() ==> bounded_vec((#[trigger] self.pos.vals@[i]).0)
        &&& forall|i: int|
            0 <= i < self.vel.vals@.len() ==> bounded_vec((#[trigger] self.vel.vals@[i]).0)
        &&& forall|i: int|
            0 <= i < self.acc.vals@.len() ==> bounded_vec((#[trigger] self.acc.vals@[i]).0)
        &&& forall|i: int|
            0 <= i < self.size.vals@.len() ==> bounded_size((#[trigger] self.size.vals@[i]).0)
    }

    /// An empty world.
    pub fn new() -> (r: World)
        ensures
            r.wf(),
            r.next_entity_id == 0,
            r.pos.ids@.len() == 0,
            r.vel.ids@.len() == 0,
            r.acc.ids@.len() == 0,
            r.size.ids@.len() == 0,
            r.on_ground.ids@.len() == 0,
            r.col_layer.ids@.len() == 0,
            r.player_type.ids@.len() == 0,
            r.foreground_hide.ids@.len() == 0,
            r.entities.ids@.len() == 0,
            r.world_bounded(),
    {
        World {
            pos: ComponentTable::new(),
            vel: ComponentTable::new(),
            acc: ComponentTable::new(),
            size: ComponentTable::new(),
            on_ground: ComponentTable::new(),
            col_layer: ComponentTable::new(),
            player_type: ComponentTable::new(),
            foreground_hide: ComponentTable::new(),
            entities: ComponentTable::new(),
            next_entity_id: 0,
        }
    }

    /// Creates a fresh entity: ids are assigned monotonically and never
    /// reused, so the returned id is distinct from every id any table
    /// holds.
    pub fn build_entity(&mut self) -> (en: Entity)
        requires
            old(self).wf(),
            old(self).next_entity_id < i32::MAX,
        ensures
            final(self).wf(),
            en.id == old(self).next_entity_id,
            final(self).next_entity_id == old(self).next_entity_id + 1,
            final(self).entities.ids@ == old(self).entities.ids@.push(en.id),
            final(self).pos == old(self).pos,
            final(self).vel == old(self).vel,
            final(self).acc == old(self).acc,
            final(self).size == old(self).size,
            final(self).on_ground == old(self).on_ground,
            final(self).col_layer == old(self).col_layer,
            final(self).player_type == old(self).player_type,
            final(self).foreground_hide == old(self).foreground_hide,
    {
        let en = Entity { id: self.next_entity_id };
        self.next_entity_id = self.next_entity_id + 1;
        proof {
            if self.entities.contains_id(en.id) {
                let k = choose|k: int|
                    0 <= k < self.entities.ids@.len() && self.entities.ids@[k] == en.id;
                assert(false);
            }
        }
        self.entities.set(en.id, ());
        en
    }

    /// Attaches a position component to `en`.
    pub fn set_pos(&mut self, en: Entity, p: Pos)
        requires
            old(self).wf(),
            en.id < old(self).next_entity_id,
        ensures
            final(self).wf(),
            final(self).pos.contains_id(en.id),
            final(self).pos.value_of(en.id) == p,
            final(self).pos.ids@ == if old(self).pos.contains_id(en.id) {
                old(self).pos.ids@
            } else {
                old(self).pos.ids@.push(en.id)
            },
            forall|o: i32|
                o != en.id ==> #[trigger] final(self).pos.contains_id(o) == old(self).pos.contains_id(o),
            forall|o: i32|
                o != en.id && old(self).pos.contains_id(o) ==> #[trigger] final(self).pos.value_of(o) == old(self).pos.value_of(o),
            final(self).vel == old(self).vel,
            final(self).acc == old(self).acc,
            final(self).size == old(self).size,
            final(self).on_ground == old(self).on_ground,
            final(self).col_layer == old(self).col_layer,
            final(self).player_type == old(self).player_type,
            final(self).foreground_hide == old(self).foreground_hide,
            final(self).entities == old(self).entities,
            final(self).next_entity_id == old(self).next_entity_id,
    {
        self.pos.set(en.id, p);
    }

    /// Attaches a velocity component to `en`.
    pub fn set_vel(&mut self, en: Entity, v: Vel)
        requires
            old(self).wf(),
            en.id < old(self).next_entity_id,
        ensures
            final(self).wf(),
            final(self).vel.contains_id(en.id),
            final(self).vel.value_of(en.id) == v,
            final(self).vel.ids@ == if old(self).vel.contains_id(en.id) {
                old(self).vel.ids@
            } else {
                old(self).vel.ids@.push(en.id)
            },
            forall|o: i32|
                o != en.id ==> #[trigger] final(self).vel.contains_id(o) == old(self).vel.contains_id(o),
            forall|o: i32|
                o != en.id && old(self).vel.contains_id(o) ==> #[trigger] final(self).vel.value_of(o) == old(self).vel.value_of(o),
            final(self).pos == old(self).pos,
            final(self).acc == old(self).acc,
            final(self).size == old(self).size,
            final(self).on_ground == old(self).on_ground,
            final(self).col_layer == old(self).col_layer,
            final(self).player_type == old(self).player_type,
            final(self).foreground_hide == old(self).foreground_hide,
            final(self).entities == old(self).entities,
            final(self).next_entity_id == old(self).next_entity_id,
    {
        self.vel.set(en.id, v);
    }

    /// Attaches an acceleration component to `en`.
    pub fn set_acc(&mut self, en: Entity, a: Acc)
        requires
            old(self).wf(),
            en.id < old(self).next_entity_id,
        ensures
            final(self).wf(),
            final(self).acc.contains_id(en.id),
            final(self).acc.value_of(en.id) == a,
            forall|o: i32|
                o != en.id ==> #[trigger] final(self).acc.contains_id(o) == old(self).acc.contains_id(o),
            forall|o: i32|
                o != en.id && old(self).acc.contains_id(o) ==> #[trigger] final(self).acc.value_of(o) == old(self).acc.value_of(o),
            final(self).pos == old(self).pos,
            final(self).vel == old(self).vel,
            final(self).size == old(self).size,
            final(self).on_ground == old(self).on_ground,
            final(self).col_layer == old(self).col_layer,
            final(self).player_type == old(self).player_type,
            final(self).foreground_hide == old(self).foreground_hide,
            final(self).entities == old(self).entities,
            final(self).next_entity_id == old(self).next_entity_id,
    {
        self.acc.set(en.id, a);
    }

    /// Attaches a hitbox size component to `en`.
    pub fn set_size(&mut self, en: Entity, s: Size)
        requires
            old(self).wf(),
            en.id < old(self).next_entity_id,
        ensures
            final(self).wf(),
            final(self).size.contains_id(en.id),
            final(self).size.value_of(en.id) == s,
            forall|o: i32|
                o != en.id ==> #[trigger] final(self).size.contains_id(o) == old(self).size.contains_id(o),
            forall|o: i32|
                o != en.id && old(self).size.contains_id(o) ==> #[trigger] final(self).size.value_of(o) == old(self).size.value_of(o),
            final(self).pos == old(self).pos,
            final(self).vel == old(self).vel,
            final(self).acc == old(self).acc,
            final(self).on_ground == old(self).on_ground,
            final(self).col_layer == old(self).col_layer,
            final(self).player_type == old(self).player_type,
            final(self).foreground_hide == old(self).foreground_hide,
            final(self).entities == old(self).entities,
            final(self).next_entity_id == old(self).next_entity_id,
    {
        self.size.set(en.id, s);
    }

    /// Attaches a ground-state component to `en`.
    pub fn set_on_ground(&mut self, en: Entity, g: OnGround)
        requires
            old(self).wf(),
            en.id < old(self).next_entity_id,
        ensures
            final(self).wf(),
            final(self).on_ground.contains_id(en.id),
            final(self).on_ground.value_of(en.id) == g,
            forall|o: i32|
                o != en.id ==> #[trigger] final(self).on_ground.contains_id(o) == old(self).on_ground.contains_id(o),
            forall|o: i32|
                o != en.id && old(self).on_ground.contains_id(o) ==> #[trigger] final(self).on_ground.value_of(o) == old(self).on_ground.value_of(o),
            final(self).pos == old(self).pos,
            final(self).vel == old(self).vel,
            final(self).acc == old(self).acc,
            final(self).size == old(self).size,
            final(self).col_layer == old(self).col_layer,
            final(self).player_type == old(self).player_type,
            final(self).foreground_hide == old(self).foreground_hide,
            final(self).entities == old(self).entities,
            final(self).next_entity_id == old(self).next_entity_id,
    {
        self.on_ground.set(en.id, g);
    }

    /// Attaches a collision-layer component to `en`.
    pub fn set_col_layer(&mut self, en: Entity, l: CollisionLayer)
        requires
            old(self).wf(),
            en.id < old(self).next_entity_id,
        ensures
            final(self).wf(),
            final(self).col_layer.contains_id(en.id),
            final(self).col_layer.value_of(en.id) == l,
            forall|o: i32|
                o != en.id ==> #[trigger] final(self).col_layer.contains_id(o) == old(self).col_layer.contains_id(o),
            forall|o: i32|
                o != en.id && old(self).col_layer.contains_id(o) ==> #[trigger] final(self).col_layer.value_of(o) == old(self).col_layer.value_of(o),
            final(self).pos == old(self).pos,
            final(self).vel == old(self).vel,
            final(self).acc == old(self).acc,
            final(self).size == old(self).size,
            final(self).on_ground == old(self).on_ground,
            final(self).player_type == old(self).player_type,
            final(self).foreground_hide == old(self).foreground_hide,
            final(self).entities == old(self).entities,
            final(self).next_entity_id == old(self).next_entity_id,
    {
        self.col_layer.set(en.id, l);
    }

    /// Attaches a player-kind component to `en`.
    pub fn set_player_type(&mut self, en: Entity, p: PlayerType)
        requires
            old(self).wf(),
            en.id < old(self).next_entity_id,
        ensures
            final(self).wf(),
            final(self).player_type.contains_id(en.id),
            final(self).player_type.value_of(en.id) == p,
            forall|o: i32|
                o != en.id ==> #[trigger] final(self).player_type.contains_id(o) == old(self).player_type.contains_id(o),
            forall|o: i32|
                o != en.id && old(self).player_type.contains_id(o) ==> #[trigger] final(self).player_type.value_of(o) == old(self).player_type.value_of(o),
            final(self).pos == old(self).pos,
            final(self).vel == old(self).vel,
            final(self).acc == old(self).acc,
            final(self).size == old(self).size,
            final(self).on_ground == old(self).on_ground,
            final(self).col_layer == old(self).col_layer,
            final(self).foreground_hide == old(self).foreground_hide,
            final(self).entities == old(self).entities,
            final(self).next_entity_id == old(self).next_entity_id,
    {
        self.player_type.set(en.id, p);
    }

    /// Attaches a foreground-hide marker to `en`.
    pub fn set_foreground_hide(&mut self, en: Entity, f: ForegroundHide)
        requires
            old(self).wf(),
            en.id < old(self).next_entity_id,
        ensures
            final(self).wf(),
            final(self).foreground_hide.contains_id(en.id),
            forall|o: i32|
                o != en.id ==> #[trigger] final(self).foreground_hide.contains_id(o) == old(self).foreground_hide.contains_id(o),
            final(self).pos == old(self).pos,
            final(self).vel == old(self).vel,
            final(self).acc == old(self).acc,
            final(self).size == old(self).size,
            final(self).on_ground == old(self).on_ground,
            final(self).col_layer == old(self).col_layer,
            final(self).player_type == old(self).player_type,
            final(self).entities == old(self).entities,
            final(self).next_entity_id == old(self).next_entity_id,
    {
        self.foreground_hide.set(en.id, f);
    }
}

// ---------------------------------------------------------------------------
// The frame pipeline, phase by phase, as functions of component values.
// ---------------------------------------------------------------------------

/// Phase 1, acceleration integration: `vel + acc` for entities with an
/// acceleration component.
pub open spec fn accel_vel(v: Vec2, acc: Option<Acc>) -> Vec2 {
    match acc {
        Some(a) => Vec2 {
            x: PosNum { raw: (v.x.raw + a.0.x.raw) as i32 },
            y: PosNum { raw: (v.y.raw + a.0.y.raw) as i32 },
        },
        None => v,
    }
}

/// Phase 2, input shaping: player-controlled entities with a ground state
/// take the shaped velocity; everyone else is unchanged.
pub open spec fn shaped_vel(
    v: Vec2,
    player: Option<PlayerType>,
    ground: Option<OnGround>,
    input: InputState,
) -> Vec2 {
    match (player, ground) {
        (Some(p), Some(g)) => Vec2 {
            x: PosNum { raw: player_new_vx(p, true, input, v.x.raw as int) as i32 },
            y: PosNum { raw: player_new_vy(p, true, input, g.0, v.y.raw as int) as i32 },
        },
        _ => v,
    }
}

/// Phase 3, collision resolution: for collidable entities the velocity is
/// overwritten with the resolved delta.
pub open spec fn resolved_vel(
    v: Vec2,
    phys: Option<(Pos, Size, CollisionLayer)>,
    tm: CollideTilemap,
) -> Vec2 {
    match phys {
        Some(psl) => {
            let hb = hitbox_of(psl.0, psl.1);
            let col = resolution_of(tm, query_of(v, hb), psl.2);
            Vec2 {
                x: PosNum { raw: resolved_x_raw(v, hb, col) as i32 },
                y: PosNum { raw: resolved_y_raw(v, hb, col) as i32 },
            }
        },
        None => v,
    }
}

/// The ground state after phase 3: set when the resolved vertical delta
/// shrank a still-downward request or the resolver signalled a snap.
pub open spec fn stepped_ground(
    v: Vec2,
    ground: Option<OnGround>,
    phys: Option<(Pos, Size, CollisionLayer)>,
    tm: CollideTilemap,
) -> Option<OnGround> {
    match (phys, ground) {
        (Some(psl), Some(g)) => {
            let hb = hitbox_of(psl.0, psl.1);
            let col = resolution_of(tm, query_of(v, hb), psl.2);
            Some(
                OnGround(
                    g.0 || grounded_signal(
                        v.y.raw as int,
                        resolved_y_raw(v, hb, col),
                        col.snap_to_ground,
                    ),
                ),
            )
        },
        _ => ground,
    }
}

/// The acceleration component of `id`, if any.
pub open spec fn acc_opt(w: World, id: i32) -> Option<Acc> {
    if w.acc.contains_id(id) {
        Some(w.acc.value_of(id))
    } else {
        None
    }
}

/// The player-kind component of `id`, if any.
pub open spec fn player_opt(w: World, id: i32) -> Option<PlayerType> {
    if w.player_type.contains_id(id) {
        Some(w.player_type.value_of(id))
    } else {
        None
    }
}

/// The ground-state component of `id`, if any.
pub open spec fn ground_opt(w: World, id: i32) -> Option<OnGround> {
    if w.on_ground.contains_id(id) {
        Some(w.on_ground.value_of(id))
    } else {
        None
    }
}

/// Whether the collision phase runs for `id`, and its inputs.
pub open spec fn phys_opt(w: World, id: i32) -> Option<(Pos, Size, CollisionLayer)> {
    if w.pos.contains_id(id) && w.size.contains_id(id) && w.col_layer.contains_id(id) {
        Some((w.pos.value_of(id), w.size.value_of(id), w.col_layer.value_of(id)))
    } else {
        None
    }
}

/// The velocity of `id` after phases 1-3 of a frame on world `w`.
pub open spec fn frame_vel(w: World, tm: CollideTilemap, input: InputState, id: i32) -> Vec2 {
    resolved_vel(
        shaped_vel(
            accel_vel(w.vel.value_of(id).0, acc_opt(w, id)),
            player_opt(w, id),
            ground_opt(w, id),
            input,
        ),
        phys_opt(w, id),
        tm,
    )
}

/// The ground state of `id` after a frame on world `w`.
pub open spec fn frame_ground(w: World, tm: CollideTilemap, input: InputState, id: i32) -> Option<
    OnGround,
> {
    stepped_ground(
        shaped_vel(
            accel_vel(w.vel.value_of(id).0, acc_opt(w, id)),
            player_opt(w, id),
            ground_opt(w, id),
            input,
        ),
        ground_opt(w, id),
        phys_opt(w, id),
        tm,
    )
}

/// The ground state of `id` after a frame, defaulting to the old value.
pub open spec fn ground_result(w: World, tm: CollideTilemap, input: InputState, id: i32) -> OnGround {
    match frame_ground(w, tm, input, id) {
        Some(g) => g,
        None => w.on_ground.value_of(id),
    }
}

/// The position of `id` after a frame: the integrated position for
/// entities with a velocity, the old one for the rest.
pub open spec fn pos_result(w: World, tm: CollideTilemap, input: InputState, id: i32) -> Pos {
    if w.vel.contains_id(id) {
        let p = w.pos.value_of(id).0;
        let v = frame_vel(w, tm, input, id);
        Pos(
            Vec2 {
                x: PosNum { raw: (p.x.raw + v.x.raw) as i32 },
                y: PosNum { raw: (p.y.raw + v.y.raw) as i32 },
            },
        )
    } else {
        w.pos.value_of(id)
    }
}

/// The collision phase's resolution for `id` is well defined and its
/// seams are in range.
pub open spec fn frame_witness(w: World, tm: CollideTilemap, input: InputState, id: i32) -> bool {
    match phys_opt(w, id) {
        Some(psl) => {
            let v2 = shaped_vel(
                accel_vel(w.vel.value_of(id).0, acc_opt(w, id)),
                player_opt(w, id),
                ground_opt(w, id),
                input,
            );
            let hb = hitbox_of(psl.0, psl.1);
            let col = resolution_of(tm, query_of(v2, hb), psl.2);
            is_resolution(tm, query_of(v2, hb), psl.2, col) && collision_ok(col)
        },
        None => true,
    }
}

/// Whether `id` has been handled by the velocity loop after `k` steps.
pub open spec fn vel_processed(w: World, id: i32, k: int) -> bool {
    exists|j: int| 0 <= j < k && w.vel.ids@[j] == id
}

/// Phases 1-3 for one entity, from its component values: integrate
/// acceleration, shape from input, resolve against the grid.
fn step_velocity(
    vel0: Vel,
    acc: Option<Acc>,
    player: Option<PlayerType>,
    ground: Option<OnGround>,
    phys: Option<(Pos, Size, CollisionLayer)>,
    input: &InputState,
    tilemap: &CollideTilemap,
) -> (r: (Vel, Option<OnGround>))
    requires
        tilemap.wf(),
        bounded_vec(vel0.0),
        match acc {
            Some(a) => bounded_vec(a.0),
            None => true,
        },
        match phys {
            Some(psl) => bounded_vec(psl.0.0) && bounded_size(psl.1.0),
            None => true,
        },
    ensures
        r.0.0 == resolved_vel(
            shaped_vel(accel_vel(vel0.0, acc), player, ground, *input),
            phys,
            *tilemap,
        ),
        r.1 == stepped_ground(
            shaped_vel(accel_vel(vel0.0, acc), player, ground, *input),
            ground,
            phys,
            *tilemap,
        ),
        match phys {
            Some(psl) => {
                let v2 = shaped_vel(accel_vel(vel0.0, acc), player, ground, *input);
                let hb = hitbox_of(psl.0, psl.1);
                let col = resolution_of(*tilemap, query_of(v2, hb), psl.2);
                is_resolution(*tilemap, query_of(v2, hb), psl.2, col) && collision_ok(col)
            },
            None => true,
        },
{
    let mut v = vel0;
    if let Some(a) = acc {
        apply_acc(&mut v, &a);
    }
    match (player, ground) {
        (Some(pt), Some(g)) => {
            player_movement(&pt, Some(&CurrentPlayer), &mut v, &g, input);
        },
        _ => {},
    }
    let mut og = ground;
    match phys {
        Some((p, s, l)) => {
            physics_process(&p, &mut v, &s, &l, &mut og, tilemap);
        },
        None => {},
    }
    (v, og)
}
/// In a well-formed table, the entry for a contained id sits at its
/// chosen index, and every other position is untouched by an update that
/// preserves all other values.
proof fn lemma_table_positions<T>(t1: ComponentTable<T>, t2: ComponentTable<T>, id: i32)
    requires
        t1.wf(),
        t2.wf(),
        t2.ids@ == t1.ids@,
        t1.contains_id(id),
        forall|o: i32|
            o != id && t1.contains_id(o) ==> #[trigger] t2.value_of(o) == t1.value_of(o),
    ensures
        forall|j: int|
            0 <= j < t1.ids@.len() && j != t1.idx_of(id) ==> t2.vals@[j] == t1.vals@[j],
{
    assert forall|j: int|
        0 <= j < t1.ids@.len() && j != t1.idx_of(id) implies t2.vals@[j] == t1.vals@[j] by {
        let o = t1.ids@[j];
        crate::ecs::lemma_unique_index(t1.ids@, o, j);
        crate::ecs::lemma_unique_index(t2.ids@, o, j);
        if o == id {
            assert(t1.idx_of(id) == j);
        }
        assert(t2.value_of(o) == t1.value_of(o));
    }
}

/// The index of a contained id is a valid position holding that id.
proof fn lemma_idx_valid<T>(t: ComponentTable<T>, id: i32)
    requires
        t.wf(),
        t.contains_id(id),
    ensures
        0 <= t.idx_of(id) < t.ids@.len(),
        t.ids@[t.idx_of(id)] == id,
        t.value_of(id) == t.vals@[t.idx_of(id)],
{
    let k = choose|k: int| 0 <= k < t.ids@.len() && t.ids@[k] == id;
    crate::ecs::lemma_unique_index(t.ids@, id, k);
}

/// After a frame's velocity phases, integrating the entity's position
/// cannot overflow: either no seam applied and both summands are small,
/// or the new position lands on a seam, which is itself in range.
proof fn lemma_frame_vel_fits(w: World, tm: CollideTilemap, input: InputState, id: i32)
    requires
        w.wf(),
        w.world_bounded(),
        tm.wf(),
        w.vel.contains_id(id),
        w.pos.contains_id(id),
        frame_witness(w, tm, input, id),
    ensures
        i32::MIN <= w.pos.value_of(id).0.x.raw + frame_vel(w, tm, input, id).x.raw <= i32::MAX,
        i32::MIN <= w.pos.value_of(id).0.y.raw + frame_vel(w, tm, input, id).y.raw <= i32::MAX,
{
    lemma_idx_valid(w.vel, id);
    lemma_idx_valid(w.pos, id);
    assert(bounded_vec(w.vel.value_of(id).0));
    assert(bounded_vec(w.pos.value_of(id).0));
    if w.acc.contains_id(id) {
        lemma_idx_valid(w.acc, id);
        assert(bounded_vec(w.acc.value_of(id).0));
    }
    let v1 = accel_vel(w.vel.value_of(id).0, acc_opt(w, id));
    assert(-0x0800_0000 <= v1.x.raw <= 0x0800_0000);
    assert(-0x0800_0000 <= v1.y.raw <= 0x0800_0000);
    let v2 = shaped_vel(v1, player_opt(w, id), ground_opt(w, id), input);
    assert(-0x0800_0000 <= v2.x.raw <= 0x0800_0000);
    assert(-0x0800_0000 <= v2.y.raw <= 0x0800_0000);
    match phys_opt(w, id) {
        Some(psl) => {
            let hb = hitbox_of(psl.0, psl.1);
            let col = resolution_of(tm, query_of(v2, hb), psl.2);
            assert(collision_ok(col));
            match col.x_seam {
                Some(s) => {
                    assert(-0x0040_0000 <= s as int <= 0x0040_0000);
                },
                None => {},
            }
            match col.y_seam {
                Some(s) => {
                    assert(-0x0040_0000 <= s as int <= 0x0040_0000);
                },
                None => {},
            }
        },
        None => {},
    }
}

impl World {
    /// Runs one simulated frame: for every entity with a velocity,
    /// integrate acceleration, shape velocity from input (for the
    /// player-controlled entity), resolve the velocity against the grid
    /// and update the ground state; then, for every entity with a
    /// position and velocity, integrate the resolved velocity into the
    /// position. No table gains or loses entries, and every other
    /// component is untouched.
    #[verifier::loop_isolation(false)]
    #[verifier::rlimit(100)]
    #[verifier::spinoff_prover]
    pub fn frame(&mut self, input: &InputState, tilemap: &CollideTilemap)
        requires
            old(self).wf(),
            old(self).world_bounded(),
            tilemap.wf(),
        ensures
            final(self).wf(),
            final(self).vel.ids@ == old(self).vel.ids@,
            final(self).pos.ids@ == old(self).pos.ids@,
            final(self).on_ground.ids@ == old(self).on_ground.ids@,
            final(self).acc == old(self).acc,
            final(self).size == old(self).size,
            final(self).col_layer == old(self).col_layer,
            final(self).player_type == old(self).player_type,
            final(self).foreground_hide == old(self).foreground_hide,
            final(self).entities == old(self).entities,
            final(self).next_entity_id == old(self).next_entity_id,
            forall|o: i32|
                #[trigger] old(self).vel.contains_id(o) ==> final(self).vel.value_of(o).0
                    == frame_vel(*old(self), *tilemap, *input, o),
            forall|o: i32|
                old(self).vel.contains_id(o) ==> #[trigger] frame_witness(
                    *old(self),
                    *tilemap,
                    *input,
                    o,
                ),
            forall|o: i32|
                #[trigger] old(self).on_ground.contains_id(o) ==> final(self).on_ground.value_of(o)
                    == (if old(self).vel.contains_id(o) {
                    ground_result(*old(self), *tilemap, *input, o)
                } else {
                    old(self).on_ground.value_of(o)
                }),
            forall|o: i32|
                #[trigger] old(self).pos.contains_id(o) ==> final(self).pos.value_of(o)
                    == pos_result(*old(self), *tilemap, *input, o),
    {
        let ghost w0 = *self;
        let n = self.vel.len();
        let mut k: usize = 0;
        while k < n
            invariant
                k <= n,
                self.wf(),
                self.vel.ids@ == w0.vel.ids@,
                self.on_ground.ids@ == w0.on_ground.ids@,
                self.pos == w0.pos,
                self.acc == w0.acc,
                self.size == w0.size,
                self.col_layer == w0.col_layer,
                self.player_type == w0.player_type,
                self.foreground_hide == w0.foreground_hide,
                self.entities == w0.entities,
                self.next_entity_id == w0.next_entity_id,
                forall|j: int| k <= j < n ==> #[trigger] self.vel.vals@[j] == w0.vel.vals@[j],
                forall|j: int|
                    0 <= j < k ==> (#[trigger] self.vel.vals@[j]).0 == frame_vel(
                        w0,
                        *tilemap,
                        *input,
                        w0.vel.ids@[j],
                    ),
                forall|j: int|
                    0 <= j < k ==> frame_witness(w0, *tilemap, *input, #[trigger] w0.vel.ids@[j]),
                forall|o: i32|
                    #[trigger] w0.on_ground.contains_id(o) ==> self.on_ground.value_of(o) == (
                    if vel_processed(w0, o, k as int) {
                        ground_result(w0, *tilemap, *input, o)
                    } else {
                        w0.on_ground.value_of(o)
                    }),
            decreases n - k,
        {
            let id = self.vel.id_at(k);
            proof {
                crate::ecs::lemma_unique_index(w0.vel.ids@, id, k as int);
                assert(self.vel.vals@[k as int] == w0.vel.vals@[k as int]);
                assert(w0.vel.value_of(id) == w0.vel.vals@[k as int]);
                assert(bounded_vec(w0.vel.value_of(id).0));
                if w0.acc.contains_id(id) {
                    lemma_idx_valid(w0.acc, id);
                }
                if w0.pos.contains_id(id) {
                    lemma_idx_valid(w0.pos, id);
                }
                if w0.size.contains_id(id) {
                    lemma_idx_valid(w0.size, id);
                }
                if vel_processed(w0, id, k as int) {
                    let j = choose|j: int| 0 <= j < k && w0.vel.ids@[j] == id;
                    assert(false);
                }
            }
            let v0 = self.vel.value_at(k);
            let a = self.acc.get(id);
            let pt = self.player_type.get(id);
            let g0 = self.on_ground.get(id);
            let ph: Option<(Pos, Size, CollisionLayer)> = match (self.pos.get(id), self.size.get(
                id,
            ), self.col_layer.get(id)) {
                (Some(p), Some(s), Some(l)) => Some((p, s, l)),
                _ => None,
            };
            proof {
                assert(v0 == w0.vel.value_of(id));
                assert(a == acc_opt(w0, id));
                assert(pt == player_opt(w0, id));
                assert(g0 == ground_opt(w0, id));
                assert(ph == phys_opt(w0, id));
            }
            let r = step_velocity(v0, a, pt, g0, ph, input, tilemap);
            let ghost vel_before = self.vel;
            self.vel.set(id, r.0);
            proof {
                lemma_table_positions(vel_before, self.vel, id);
                assert(vel_before.idx_of(id) == k as int);
                assert(self.vel.value_of(id) == r.0);
                lemma_idx_valid(self.vel, id);
                assert(self.vel.vals@[k as int] == r.0);
                assert(r.0.0 == frame_vel(w0, *tilemap, *input, id));
            }
            let ghost ground_before = self.on_ground;
            match r.1 {
                Some(g) => {
                    self.on_ground.set(id, g);
                    proof {
                        assert(w0.on_ground.contains_id(id));
                    }
                },
                None => {},
            }
            proof {
                assert forall|o: i32| #[trigger] w0.on_ground.contains_id(o) implies
                    self.on_ground.value_of(o) == (if vel_processed(w0, o, k as int + 1) {
                    ground_result(w0, *tilemap, *input, o)
                } else {
                    w0.on_ground.value_of(o)
                }) by {
                    if o == id {
                        assert(vel_processed(w0, id, k as int + 1));
                        assert(ground_opt(w0, id) is Some);
                        assert(r.1 == frame_ground(w0, *tilemap, *input, id));
                    } else {
                        if vel_processed(w0, o, k as int + 1) {
                            let j = choose|j: int| 0 <= j < k as int + 1 && w0.vel.ids@[j] == o;
                            assert(j != k as int);
                            assert(vel_processed(w0, o, k as int));
                        }
                        if vel_processed(w0, o, k as int) {
                            assert(vel_processed(w0, o, k as int + 1));
                        }
                        assert(ground_before.value_of(o) == self.on_ground.value_of(o));
                    }
                }
            }
            k = k + 1;
        }
        proof {
            assert forall|o: i32| #[trigger] w0.vel.contains_id(o) implies self.vel.value_of(o).0
                == frame_vel(w0, *tilemap, *input, o) && frame_witness(
                w0,
                *tilemap,
                *input,
                o,
            ) by {
                lemma_idx_valid(w0.vel, o);
                let j = w0.vel.idx_of(o);
                lemma_idx_valid(self.vel, o);
                crate::ecs::lemma_unique_index(self.vel.ids@, o, j);
            }
        }

        let ghost w1 = *self;
        let m = self.pos.len();
        let mut k: usize = 0;
        while k < m
            invariant
                k <= m,
                self.wf(),
                self.pos.ids@ == w0.pos.ids@,
                self.vel == w1.vel,
                self.on_ground == w1.on_ground,
                self.acc == w0.acc,
                self.size == w0.size,
                self.col_layer == w0.col_layer,
                self.player_type == w0.player_type,
                self.foreground_hide == w0.foreground_hide,
                self.entities == w0.entities,
                self.next_entity_id == w0.next_entity_id,
                forall|j: int| k <= j < m ==> #[trigger] self.pos.vals@[j] == w0.pos.vals@[j],
                forall|j: int|
                    0 <= j < k ==> #[trigger] self.pos.vals@[j] == pos_result(
                        w0,
                        *tilemap,
                        *input,
                        w0.pos.ids@[j],
                    ),
            decreases m - k,
        {
            let id = self.pos.id_at(k);
            proof {
                crate::ecs::lemma_unique_index(w0.pos.ids@, id, k as int);
                assert(self.pos.vals@[k as int] == w0.pos.vals@[k as int]);
                assert(w0.pos.value_of(id) == w0.pos.vals@[k as int]);
            }
            let v = self.vel.get(id);
            match v {
                Some(v) => {
                    proof {
                        assert(w1.vel.value_of(id).0 == frame_vel(w0, *tilemap, *input, id));
                        lemma_frame_vel_fits(w0, *tilemap, *input, id);
                    }
                    let mut p = self.pos.value_at(k);
                    apply_vel(&mut p, &v);
                    let ghost pos_before = self.pos;
                    self.pos.set(id, p);
                    proof {
                        lemma_table_positions(pos_before, self.pos, id);
                        assert(pos_before.idx_of(id) == k as int);
                        lemma_idx_valid(self.pos, id);
                        assert(self.pos.vals@[k as int] == p);
                        assert(p == pos_result(w0, *tilemap, *input, id));
                    }
                },
                None => {
                    proof {
                        assert(self.pos.vals@[k as int] == pos_result(
                            w0,
                            *tilemap,
                            *input,
                            id,
                        ));
                    }
                },
            }
            k = k + 1;
        }
        proof {
            assert forall|o: i32| #[trigger] w0.pos.contains_id(o) implies self.pos.value_of(o)
                == pos_result(w0, *tilemap, *input, o) by {
                lemma_idx_valid(w0.pos, o);
                let j = w0.pos.idx_of(o);
                lemma_idx_valid(self.pos, o);
                crate::ecs::lemma_unique_index(self.pos.ids@, o, j);
            }
            assert forall|o: i32| #[trigger] w0.on_ground.contains_id(o) implies
                self.on_ground.value_of(o) == (if w0.vel.contains_id(o) {
                ground_result(w0, *tilemap, *input, o)
            } else {
                w0.on_ground.value_of(o)
            }) by {
                if vel_processed(w0, o, w0.vel.ids@.len() as int) {
                    let j = choose|j: int|
                        0 <= j < w0.vel.ids@.len() && w0.vel.ids@[j] == o;
                    assert(w0.vel.contains_id(o));
                }
                if w0.vel.contains_id(o) {
                    lemma_idx_valid(w0.vel, o);
                    assert(vel_processed(w0, o, w0.vel.ids@.len() as int));
                }
            }
        }
    }
}
/// A stored position in an all-bounded table is itself bounded.
pub proof fn lemma_value_bounded(t: ComponentTable<Pos>, id: i32)
    requires
        t.wf(),
        t.contains_id(id),
        forall|i: int| 0 <= i < t.vals@.len() ==> bounded_vec((#[trigger] t.vals@[i]).0),
    ensures
        bounded_vec(t.value_of(id).0),
{
    lemma_idx_valid(t, id);
}

/// A stored size in an all-bounded table is itself bounded.
pub proof fn lemma_value_bounded_size(t: ComponentTable<Size>, id: i32)
    requires
        t.wf(),
        t.contains_id(id),
        forall|i: int| 0 <= i < t.vals@.len() ==> bounded_vec((#[trigger] t.vals@[i]).0),
    ensures
        bounded_vec(t.value_of(id).0),
{
    lemma_idx_valid(t, id);
}

/// Whether entity `id` is at rest in world `w` against grid `tm`: zero
/// velocity, zero or no acceleration, not player-controlled, and — if it
/// is collidable — a hitbox that overlaps no colliding partial-shape
/// tile. (An entity embedded in a slope is not at rest: the slope would
/// push it to the ramp surface even with zero velocity.)
pub open spec fn entity_at_rest(w: World, tm: CollideTilemap, id: i32) -> bool {
    &&& w.vel.value_of(id).0.x.raw == 0
    &&& w.vel.value_of(id).0.y.raw == 0
    &&& w.acc.contains_id(id) ==> (w.acc.value_of(id).0.x.raw == 0 && w.acc.value_of(id).0.y.raw
        == 0)
    &&& !w.player_type.contains_id(id)
    &&& match phys_opt(w, id) {
        Some(psl) => forall|xi: int, yi: int|
            #[trigger] scan_colliding(
                tm,
                query_of(w.vel.value_of(id).0, hitbox_of(psl.0, psl.1)),
                psl.2,
                xi,
                yi,
            ) ==> !tile_is_nonstandard(tm.tile_at(xi, yi)),
        None => true,
    }
}

/// Whether every entity with a velocity component is at rest.
pub open spec fn world_at_rest(w: World, tm: CollideTilemap) -> bool {
    forall|j: int| 0 <= j < w.vel.ids@.len() ==> entity_at_rest(w, tm, #[trigger] w.vel.ids@[j])
}

/// One frame leaves a world at rest exactly as it was: every table keeps
/// its entries and values, and the world is still at rest.
proof fn lemma_frame_at_rest(w0: World, w1: World, tm: CollideTilemap, input: InputState)
    requires
        w0.wf(),
        tm.wf(),
        world_at_rest(w0, tm),
        w1.vel.ids@ == w0.vel.ids@,
        w1.pos.ids@ == w0.pos.ids@,
        w1.on_ground.ids@ == w0.on_ground.ids@,
        w1.vel.wf(),
        w1.pos.wf(),
        w1.on_ground.wf(),
        forall|o: i32|
            #[trigger] w0.vel.contains_id(o) ==> w1.vel.value_of(o).0 == frame_vel(
                w0,
                tm,
                input,
                o,
            ),
        forall|o: i32|
            w0.vel.contains_id(o) ==> #[trigger] frame_witness(w0, tm, input, o),
        forall|o: i32|
            #[trigger] w0.on_ground.contains_id(o) ==> w1.on_ground.value_of(o) == (
            if w0.vel.contains_id(o) {
                ground_result(w0, tm, input, o)
            } else {
                w0.on_ground.value_of(o)
            }),
        forall|o: i32|
            #[trigger] w0.pos.contains_id(o) ==> w1.pos.value_of(o) == pos_result(
                w0,
                tm,
                input,
                o,
            ),
    ensures
        w1.vel.vals@ == w0.vel.vals@,
        w1.pos.vals@ == w0.pos.vals@,
        w1.on_ground.vals@ == w0.on_ground.vals@,
{
    assert forall|o: i32| #[trigger] w0.vel.contains_id(o) implies frame_vel(w0, tm, input, o)
        == w0.vel.value_of(o).0 && ground_result(w0, tm, input, o) == (if w0.on_ground.contains_id(
        o,
    ) {
        w0.on_ground.value_of(o)
    } else {
        ground_result(w0, tm, input, o)
    }) by {
        lemma_idx_valid(w0.vel, o);
        assert(entity_at_rest(w0, tm, o));
        assert(frame_witness(w0, tm, input, o));
        let v0 = w0.vel.value_of(o).0;
        let v1 = accel_vel(v0, acc_opt(w0, o));
        assert(v1.x.raw == 0 && v1.y.raw == 0);
        assert(v1 == v0);
        let v2 = shaped_vel(v1, player_opt(w0, o), ground_opt(w0, o), input);
        assert(v2 == v0);
        match phys_opt(w0, o) {
            Some(psl) => {
                let hb = hitbox_of(psl.0, psl.1);
                let col = resolution_of(tm, query_of(v2, hb), psl.2);
                assert(is_resolution(tm, query_of(v2, hb), psl.2, col));
                lemma_zero_delta(tm, v2, hb, psl.2, col);
                assert(resolved_x_raw(v2, hb, col) == 0);
                assert(resolved_y_raw(v2, hb, col) == 0);
                assert(frame_vel(w0, tm, input, o) == v0);
                if w0.on_ground.contains_id(o) {
                    let g = w0.on_ground.value_of(o);
                    assert(grounded_signal(0, 0, false) == false);
                    assert(frame_ground(w0, tm, input, o) == Some(OnGround(g.0)));
                    assert(OnGround(g.0) == g);
                }
            },
            None => {
                assert(frame_vel(w0, tm, input, o) == v0);
            },
        }
    }
    assert forall|j: int| 0 <= j < w0.vel.vals@.len() implies w1.vel.vals@[j]
        == w0.vel.vals@[j] by {
        let o = w0.vel.ids@[j];
        crate::ecs::lemma_unique_index(w0.vel.ids@, o, j);
        crate::ecs::lemma_unique_index(w1.vel.ids@, o, j);
        assert(w0.vel.contains_id(o));
        assert(w1.vel.value_of(o).0 == w0.vel.value_of(o).0);
        assert(w1.vel.vals@[j].0 == w0.vel.vals@[j].0);
    }
    assert(w1.vel.vals@ =~= w0.vel.vals@);
    assert forall|j: int| 0 <= j < w0.on_ground.vals@.len() implies w1.on_ground.vals@[j]
        == w0.on_ground.vals@[j] by {
        let o = w0.on_ground.ids@[j];
        crate::ecs::lemma_unique_index(w0.on_ground.ids@, o, j);
        crate::ecs::lemma_unique_index(w1.on_ground.ids@, o, j);
        assert(w0.on_ground.contains_id(o));
        if w0.vel.contains_id(o) {
            assert(ground_result(w0, tm, input, o) == w0.on_ground.value_of(o));
        }
    }
    assert(w1.on_ground.vals@ =~= w0.on_ground.vals@);
    assert forall|j: int| 0 <= j < w0.pos.vals@.len() implies w1.pos.vals@[j]
        == w0.pos.vals@[j] by {
        let o = w0.pos.ids@[j];
        crate::ecs::lemma_unique_index(w0.pos.ids@, o, j);
        crate::ecs::lemma_unique_index(w1.pos.ids@, o, j);
        assert(w0.pos.contains_id(o));
        if w0.vel.contains_id(o) {
            let p = w0.pos.value_of(o).0;
            let v = frame_vel(w0, tm, input, o);
            assert(v == w0.vel.value_of(o).0);
            assert(v.x.raw == 0 && v.y.raw == 0);
            assert(pos_result(w0, tm, input, o) == Pos(p));
            assert(Pos(p) == w0.pos.value_of(o));
        }
    }
    assert(w1.pos.vals@ =~= w0.pos.vals@);
}

/// Integration stability: simulating any number of frames of a world at
/// rest leaves it exactly where it was — positions, velocities and ground
/// states unchanged, for every frame count `n`, zero included.
#[verifier::loop_isolation(false)]
pub fn run_frames(world: &mut World, input: &InputState, tilemap: &CollideTilemap, n: u32)
    requires
        old(world).wf(),
        old(world).world_bounded(),
        tilemap.wf(),
        world_at_rest(*old(world), *tilemap),
    ensures
        final(world).wf(),
        final(world).pos.ids@ == old(world).pos.ids@,
        final(world).pos.vals@ == old(world).pos.vals@,
        final(world).vel.ids@ == old(world).vel.ids@,
        final(world).vel.vals@ == old(world).vel.vals@,
        final(world).on_ground.ids@ == old(world).on_ground.ids@,
        final(world).on_ground.vals@ == old(world).on_ground.vals@,
        final(world).acc == old(world).acc,
        final(world).size == old(world).size,
        final(world).col_layer == old(world).col_layer,
        final(world).player_type == old(world).player_type,
        final(world).foreground_hide == old(world).foreground_hide,
        final(world).entities == old(world).entities,
        final(world).next_entity_id == old(world).next_entity_id,
{
    let mut i: u32 = 0;
    while i < n
        invariant
            i <= n,
            world.wf(),
            world.world_bounded(),
            world_at_rest(*world, *tilemap),
            world.pos.ids@ == old(world).pos.ids@,
            world.pos.vals@ == old(world).pos.vals@,
            world.vel.ids@ == old(world).vel.ids@,
            world.vel.vals@ == old(world).vel.vals@,
            world.on_ground.ids@ == old(world).on_ground.ids@,
            world.on_ground.vals@ == old(world).on_ground.vals@,
            world.acc == old(world).acc,
            world.size == old(world).size,
            world.col_layer == old(world).col_layer,
            world.player_type == old(world).player_type,
            world.foreground_hide == old(world).foreground_hide,
            world.entities == old(world).entities,
            world.next_entity_id == old(world).next_entity_id,
        decreases n - i,
    {
        let ghost wprev = *world;
        world.frame(input, tilemap);
        proof {
            lemma_frame_at_rest(wprev, *world, *tilemap, *input);
            assert forall|j: int| 0 <= j < world.vel.ids@.len() implies entity_at_rest(
                *world,
                *tilemap,
                #[trigger] world.vel.ids@[j],
            ) by {
                let o = world.vel.ids@[j];
                assert(entity_at_rest(wprev, *tilemap, o));
                assert(world.vel.value_of(o) == wprev.vel.value_of(o));
                if wprev.acc.contains_id(o) {
                    assert(world.acc.value_of(o) == wprev.acc.value_of(o));
                }
                assert(phys_opt(*world, o) == phys_opt(wprev, o));
            }
        }
        i = i + 1;
    }
}

} // verus!
