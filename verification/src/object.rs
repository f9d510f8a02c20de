//! Level objects: trigger regions attached to entities, and the test for
//! whether the player overlaps one.

use vstd::prelude::*;
use crate::math::{PosNum, Vec2, Rect, rects_touch};
use crate::collision::{Pos, Size};
use crate::ecs::{Entity, ComponentTable};
use crate::world::{World, bounded_vec};

verus! {

/// Marker component for a region that hides the foreground layer while
/// the player overlaps it.
#[derive(Clone, Copy, PartialEq, Eq, Structural, Debug)]
pub struct ForegroundHide;

/// A declarative description of a level object to build.
#[derive(Clone, Copy, PartialEq, Eq, Structural, Debug)]
pub enum ObjectInit {
    /// A foreground-hide region: position `x, y` and size `w, h`, in
    /// pixels.
    ForegroundHide(i32, i32, i32, i32),
}

impl ObjectInit {
    /// Builds the described object as a fresh entity in `world`.
    pub fn build(self, world: &mut World) -> (en: Entity)
        requires
            old(world).wf(),
            old(world).next_entity_id < i32::MAX,
            match self {
                ObjectInit::ForegroundHide(x, y, w, h) => {
                    &&& -0x0040_0000 <= x <= 0x0040_0000
                    &&& -0x0040_0000 <= y <= 0x0040_0000
                    &&& -0x0040_0000 <= w <= 0x0040_0000
                    &&& -0x0040_0000 <= h <= 0x0040_0000
                },
            },
        ensures
            final(world).wf(),
            final(world).next_entity_id == old(world).next_entity_id + 1,
            en.id == old(world).next_entity_id,
            match self {
                ObjectInit::ForegroundHide(x, y, w, h) => {
                    &&& final(world).pos.contains_id(en.id)
                    &&& final(world).pos.value_of(en.id).0.x.raw == x * 256
                    &&& final(world).pos.value_of(en.id).0.y.raw == y * 256
                    &&& final(world).size.contains_id(en.id)
                    &&& final(world).size.value_of(en.id).0.x.raw == w * 256
                    &&& final(world).size.value_of(en.id).0.y.raw == h * 256
                    &&& final(world).foreground_hide.contains_id(en.id)
                },
            },
    {
        match self {
            ObjectInit::ForegroundHide(x, y, w, h) => {
                let en = world.build_entity();
                world.set_pos(en, Pos(Vec2::new(PosNum::new(x), PosNum::new(y))));
                world.set_size(en, Size(Vec2::new(PosNum::new(w), PosNum::new(h))));
                world.set_foreground_hide(en, ForegroundHide);
                en
            },
        }
    }
}

/// Whether object `id` has a box and that box overlaps `player_rect`.
pub open spec fn obj_touching(
    pos_map: ComponentTable<Pos>,
    size_map: ComponentTable<Size>,
    player_rect: Rect,
    id: i32,
) -> bool {
    &&& pos_map.contains_id(id)
    &&& size_map.contains_id(id)
    &&& rects_touch(
        player_rect,
        Rect { position: pos_map.value_of(id).0, size: size_map.value_of(id).0 },
    )
}

/// The player's box, from its components.
pub open spec fn player_rect_of(
    pos_map: ComponentTable<Pos>,
    size_map: ComponentTable<Size>,
    id: i32,
) -> Rect {
    Rect { position: pos_map.value_of(id).0, size: size_map.value_of(id).0 }
}

/// The first region (in insertion order) of `objs` whose box the player
/// overlaps, or `None` when the player has no box or overlaps none.
pub fn player_colliding(
    current_player_en: &Entity,
    pos_map: &ComponentTable<Pos>,
    size_map: &ComponentTable<Size>,
    objs: &ComponentTable<ForegroundHide>,
) -> (r: Option<Entity>)
    requires
        pos_map.wf(),
        size_map.wf(),
        objs.wf(),
        forall|i: int| 0 <= i < pos_map.vals@.len() ==> bounded_vec((#[trigger] pos_map.vals@[i]).0),
        forall|i: int|
            0 <= i < size_map.vals@.len() ==> bounded_vec((#[trigger] size_map.vals@[i]).0),
    ensures
        ({
            let pr = player_rect_of(*pos_map, *size_map, current_player_en.id);
            match r {
                Some(e) => {
                    &&& pos_map.contains_id(current_player_en.id)
                    &&& size_map.contains_id(current_player_en.id)
                    &&& exists|i: int|
                        #![auto]
                        0 <= i < objs.ids@.len() && objs.ids@[i] == e.id && obj_touching(
                            *pos_map,
                            *size_map,
                            pr,
                            e.id,
                        ) && (forall|j: int|
                            0 <= j < i ==> !obj_touching(*pos_map, *size_map, pr, objs.ids@[j]))
                },
                None => !(pos_map.contains_id(current_player_en.id) && size_map.contains_id(
                    current_player_en.id,
                )) || (forall|i: int|
                    #![auto]
                    0 <= i < objs.ids@.len() ==> !obj_touching(
                        *pos_map,
                        *size_map,
                        pr,
                        objs.ids@[i],
                    )),
            }
        }),
{
    let player_pos = pos_map.get(current_player_en.id);
    let player_size = size_map.get(current_player_en.id);
    match (player_pos, player_size) {
        (Some(ppos), Some(psize)) => {
            let player_rect = Rect::new(ppos.0, psize.0);
            proof {
                crate::world::lemma_value_bounded(*pos_map, current_player_en.id);
                crate::world::lemma_value_bounded_size(*size_map, current_player_en.id);
            }
            let n = objs.len();
            let mut i: usize = 0;
            while i < n
                invariant
                    pos_map.wf(),
                    size_map.wf(),
                    objs.wf(),
                    forall|k: int|
                        0 <= k < pos_map.vals@.len() ==> bounded_vec(
                            (#[trigger] pos_map.vals@[k]).0,
                        ),
                    forall|k: int|
                        0 <= k < size_map.vals@.len() ==> bounded_vec(
                            (#[trigger] size_map.vals@[k]).0,
                        ),
                    n == objs.ids@.len(),
                    i <= n,
                    pos_map.contains_id(current_player_en.id),
                    size_map.contains_id(current_player_en.id),
                    player_rect == player_rect_of(*pos_map, *size_map, current_player_en.id),
                    bounded_vec(player_rect.position),
                    bounded_vec(player_rect.size),
                    forall|j: int|
                        #![auto]
                        0 <= j < i ==> !obj_touching(
                            *pos_map,
                            *size_map,
                            player_rect,
                            objs.ids@[j],
                        ),
                decreases n - i,
            {
                let obj_id = objs.id_at(i);
                let obj_pos = pos_map.get(obj_id);
                let obj_size = size_map.get(obj_id);
                match (obj_pos, obj_size) {
                    (Some(opos), Some(osize)) => {
                        proof {
                            crate::world::lemma_value_bounded(*pos_map, obj_id);
                            crate::world::lemma_value_bounded_size(*size_map, obj_id);
                        }
                        let obj_rect = Rect::new(opos.0, osize.0);
                        if player_rect.touches(obj_rect) {
                            proof {
                                let pr = player_rect_of(
                                    *pos_map,
                                    *size_map,
                                    current_player_en.id,
                                );
                                assert(pr == player_rect);
                                assert(obj_touching(*pos_map, *size_map, pr, obj_id));
                                assert(exists|ii: int|
                                    #![auto]
                                    0 <= ii < objs.ids@.len() && objs.ids@[ii] == obj_id
                                        && obj_touching(*pos_map, *size_map, pr, obj_id) && (
                                    forall|j: int|
                                        0 <= j < ii ==> !obj_touching(
                                            *pos_map,
                                            *size_map,
                                            pr,
                                            objs.ids@[j],
                                        ))) by {
                                    assert(objs.ids@[i as int] == obj_id);
                                    assert(forall|j: int|
                                        #![auto]
                                        0 <= j < i as int ==> !obj_touching(
                                            *pos_map,
                                            *size_map,
                                            pr,
                                            objs.ids@[j],
                                        ));
                                }
                            }
                            return Some(Entity { id: obj_id });
                        }
                    },
                    _ => {},
                }
                i = i + 1;
            }
            None
        },
        _ => None,
    }
}

/// Whether the foreground should fade out this frame: the controlled
/// player's box overlaps some foreground-hide region. The caller applies
/// the verdict to the display's blend weights.
pub fn foreground_hide(
    current_player_en: &Entity,
    pos_map: &ComponentTable<Pos>,
    size_map: &ComponentTable<Size>,
    objs: &ComponentTable<ForegroundHide>,
) -> (dim: bool)
    requires
        pos_map.wf(),
        size_map.wf(),
        objs.wf(),
        forall|i: int| 0 <= i < pos_map.vals@.len() ==> bounded_vec((#[trigger] pos_map.vals@[i]).0),
        forall|i: int|
            0 <= i < size_map.vals@.len() ==> bounded_vec((#[trigger] size_map.vals@[i]).0),
    ensures
        dim == (pos_map.contains_id(current_player_en.id) && size_map.contains_id(
            current_player_en.id,
        ) && exists|i: int|
            #![auto]
            0 <= i < objs.ids@.len() && obj_touching(
                *pos_map,
                *size_map,
                player_rect_of(*pos_map, *size_map, current_player_en.id),
                objs.ids@[i],
            )),
{
    let r = player_colliding(current_player_en, pos_map, size_map, objs);
    r.is_some()
}

} // verus!
