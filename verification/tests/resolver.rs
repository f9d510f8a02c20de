//! Tests of the tile grid seam resolver.

use platformer_core::math::{PosNum, Vec2, Rect};
use platformer_core::collision::{
    CollideTileType, CollideTilemap, CollisionLayer, move_and_collide,
};
use platformer_core::collision::CollideTileType::{
    LLowSlope1, LLowSlope2, LSteepSlope, LWall, Pass, Pipe, PipeSolid, RLowSlope1, RLowSlope2,
    RSteepSlope, RWall, Solid,
};

fn open_grid(width: usize, height: usize) -> CollideTilemap {
    CollideTilemap {
        data: vec![CollideTileType::Pass; width * height],
        width,
        height,
    }
}

fn grid_with(width: usize, height: usize, tiles: &[(usize, usize, CollideTileType)]) -> CollideTilemap {
    let mut g = open_grid(width, height);
    for &(x, y, t) in tiles {
        g.data[y * width + x] = t;
    }
    g
}

fn px(v: i32) -> PosNum {
    PosNum::new(v)
}

fn vec_px(x: i32, y: i32) -> Vec2 {
    Vec2::new(px(x), px(y))
}

fn hitbox(x: i32, y: i32, w: i32, h: i32) -> Rect {
    Rect::new(vec_px(x, y), vec_px(w, h))
}

#[test]
fn scenario_solid_blocks_right_motion() {
    // 4x3 grid, all open except a solid at (2, 1); entity 14x14 at
    // (17, 16) wants to move 16 px right.
    let g = grid_with(4, 3, &[(2, 1, CollideTileType::Solid)]);
    let col = g.get_collision_seams(vec_px(16, 0), hitbox(17, 16, 14, 14), CollisionLayer::Normal);
    assert_eq!(col.x_seam, Some(32));
    assert_eq!(col.y_seam, None);
    assert!(!col.snap_to_ground);

    // The resolved delta lands the right edge flush on the tile face:
    // 32 - 14 - 17 = 1 pixel.
    let resolved = move_and_collide(vec_px(16, 0), hitbox(17, 16, 14, 14), &col);
    assert_eq!(resolved.x.raw, 256);
    assert_eq!(resolved.y.raw, 0);
    // 17 + 1 + 14 == 32: flush against the solid tile.
    assert_eq!(17 * 256 + resolved.x.raw + 14 * 256, 32 * 256);
}

#[test]
fn scenario_steep_slope_gives_ground_seam() {
    // Same grid, but the blocking tile is a right-rising steep slope:
    // entering its column horizontally yields a ground seam with
    // snap-to-ground, and horizontal motion is unaffected.
    let g = grid_with(4, 3, &[(2, 1, CollideTileType::RSteepSlope)]);
    let col = g.get_collision_seams(vec_px(16, 0), hitbox(17, 16, 14, 14), CollisionLayer::Normal);
    assert_eq!(col.x_seam, None);
    assert_eq!(col.y_seam, Some(17));
    assert!(col.snap_to_ground);

    let resolved = move_and_collide(vec_px(16, 0), hitbox(17, 16, 14, 14), &col);
    assert_eq!(resolved.x.raw, 16 * 256);
    // The ramp pulls the hitbox down onto its surface: 17 - 16 = 1 px.
    assert_eq!(resolved.y.raw, 256);
}

#[test]
fn no_obstruction_returns_delta_unchanged() {
    let g = open_grid(6, 6);
    let movement = Vec2::new(PosNum::from_raw(1234), PosNum::from_raw(-777));
    let col = g.get_collision_seams(movement, hitbox(33, 33, 10, 10), CollisionLayer::Normal);
    assert_eq!(col.x_seam, None);
    assert_eq!(col.y_seam, None);
    assert!(!col.snap_to_ground);
    let resolved = move_and_collide(movement, hitbox(33, 33, 10, 10), &col);
    assert_eq!(resolved.x.raw, 1234);
    assert_eq!(resolved.y.raw, -777);
}

#[test]
fn zero_delta_gives_zero_even_when_embedded_in_solid() {
    // An entity already overlapping a solid is not pushed out by a
    // zero-movement query.
    let g = grid_with(4, 3, &[(1, 1, CollideTileType::Solid)]);
    let col = g.get_collision_seams(vec_px(0, 0), hitbox(20, 20, 14, 14), CollisionLayer::Normal);
    assert_eq!(col.x_seam, None);
    assert_eq!(col.y_seam, None);
    assert!(!col.snap_to_ground);
    let resolved = move_and_collide(vec_px(0, 0), hitbox(20, 20, 14, 14), &col);
    assert_eq!(resolved.x.raw, 0);
    assert_eq!(resolved.y.raw, 0);
}

#[test]
fn zero_delta_on_embedded_slope_pushes_to_ramp() {
    // The one exception to zero-delta idempotence: an entity embedded in
    // a slope is still pushed to the ramp surface, with snap-to-ground.
    let g = grid_with(4, 4, &[(1, 1, CollideTileType::RSteepSlope)]);
    let col = g.get_collision_seams(vec_px(0, 0), hitbox(20, 20, 14, 14), CollisionLayer::Normal);
    assert_eq!(col.x_seam, None);
    assert_eq!(col.y_seam, Some(14));
    assert!(col.snap_to_ground);
    let resolved = move_and_collide(vec_px(0, 0), hitbox(20, 20, 14, 14), &col);
    // Pushed 6 px up onto the ramp.
    assert_eq!(resolved.y.raw, -6 * 256);
}

#[test]
fn nearest_candidate_wins() {
    // A wall strip in an already-overlapped cell beats a farther solid in
    // the newly entered column: the seam nearest the entity is kept.
    let g = grid_with(
        5,
        3,
        &[(2, 1, CollideTileType::LWall), (3, 1, CollideTileType::Solid)],
    );
    let col = g.get_collision_seams(vec_px(16, 0), hitbox(17, 16, 20, 14), CollisionLayer::Normal);
    assert_eq!(col.x_seam, Some(32));
    assert_eq!(col.y_seam, None);
    assert!(!col.snap_to_ground);
}

#[test]
fn moving_left_lands_on_far_face() {
    let g = grid_with(4, 3, &[(1, 1, CollideTileType::Solid)]);
    let col = g.get_collision_seams(vec_px(-16, 0), hitbox(40, 16, 14, 14), CollisionLayer::Normal);
    assert_eq!(col.x_seam, Some(32));
    let resolved = move_and_collide(vec_px(-16, 0), hitbox(40, 16, 14, 14), &col);
    // The left edge lands exactly on the seam: 32 - 40 = -8 px.
    assert_eq!(resolved.x.raw, -8 * 256);
}

#[test]
fn falling_lands_on_tile_top() {
    let g = grid_with(4, 4, &[(1, 2, CollideTileType::Solid)]);
    let col = g.get_collision_seams(vec_px(0, 16), hitbox(17, 13, 14, 14), CollisionLayer::Normal);
    assert_eq!(col.y_seam, Some(32));
    assert_eq!(col.x_seam, None);
    let resolved = move_and_collide(vec_px(0, 16), hitbox(17, 13, 14, 14), &col);
    // 32 - 14 - 13 = 5 px of fall before resting on the tile.
    assert_eq!(resolved.y.raw, 5 * 256);
}

#[test]
fn border_cells_never_collide() {
    // A solid in column 0 is outside the interior and is ignored, by the
    // inherited convention: moving left into it yields no seam.
    let g = grid_with(4, 4, &[(0, 1, CollideTileType::Solid), (0, 2, CollideTileType::Solid)]);
    let col = g.get_collision_seams(
        vec_px(-16, 0),
        hitbox(17, 20, 14, 14),
        CollisionLayer::Normal,
    );
    assert_eq!(col.x_seam, None);
    assert_eq!(col.y_seam, None);
}

#[test]
fn single_column_grid_has_no_interior() {
    // With a single column every cell sits on the border, so nothing in
    // the grid ever collides.
    let g = grid_with(1, 3, &[(0, 0, Solid), (0, 1, Solid), (0, 2, Solid)]);
    let col = g.get_collision_seams(vec_px(8, 8), hitbox(4, 4, 8, 8), CollisionLayer::Normal);
    assert_eq!(col.x_seam, None);
    assert_eq!(col.y_seam, None);
    assert!(!col.snap_to_ground);
}

#[test]
fn pipe_layer_inverts_pass_and_pipe_solid() {
    let pass = CollideTileType::Pass;
    let pipe_solid = CollideTileType::PipeSolid;
    let adj = hitbox(33, 16, 14, 14);
    assert!(!pass.is_tile_colliding(2, 1, adj, CollisionLayer::Normal));
    assert!(pass.is_tile_colliding(2, 1, adj, CollisionLayer::Pipe));
    assert!(pipe_solid.is_tile_colliding(2, 1, adj, CollisionLayer::Normal));
    assert!(!pipe_solid.is_tile_colliding(2, 1, adj, CollisionLayer::Pipe));
    assert!(!CollideTileType::Pipe.is_tile_colliding(2, 1, adj, CollisionLayer::Normal));
    assert!(!CollideTileType::Pipe.is_tile_colliding(2, 1, adj, CollisionLayer::Pipe));
}

#[test]
fn pipe_entity_blocked_by_pass_tile() {
    let g = grid_with(4, 3, &[(2, 1, CollideTileType::Pass)]);
    let blocked = g.get_collision_seams(vec_px(16, 0), hitbox(17, 16, 14, 14), CollisionLayer::Pipe);
    assert_eq!(blocked.x_seam, Some(32));
    let free = g.get_collision_seams(vec_px(16, 0), hitbox(17, 16, 14, 14), CollisionLayer::Normal);
    assert_eq!(free.x_seam, None);
}

#[test]
fn wall_strips_collide_only_near_their_edge() {
    let lwall = CollideTileType::LWall;
    // Strip occupies x in [32, 34) of tile (2, 1). A hitbox ending at 32
    // does not touch it; one reaching past does.
    assert!(!lwall.is_tile_colliding(2, 1, hitbox(18, 16, 14, 14), CollisionLayer::Normal));
    assert!(lwall.is_tile_colliding(2, 1, hitbox(19, 16, 14, 14), CollisionLayer::Normal));

    let rwall = CollideTileType::RWall;
    // Strip occupies x in [46, 48) of tile (2, 1).
    assert!(rwall.is_tile_colliding(2, 1, hitbox(40, 16, 14, 14), CollisionLayer::Normal));
    assert!(!rwall.is_tile_colliding(2, 1, hitbox(14, 16, 14, 14), CollisionLayer::Normal));
}

#[test]
fn specialized_wall_seams_sit_on_strip_faces() {
    let adj = hitbox(33, 16, 14, 14);
    let l = CollideTileType::LWall.specialized_collide(2, 1, adj, false);
    assert_eq!(l.x_seam, Some(32));
    assert!(!l.snap_to_ground);
    let l_left = CollideTileType::LWall.specialized_collide(2, 1, adj, true);
    assert_eq!(l_left.x_seam, Some(34));
    let r = CollideTileType::RWall.specialized_collide(2, 1, adj, false);
    assert_eq!(r.x_seam, Some(46));
    let r_left = CollideTileType::RWall.specialized_collide(2, 1, adj, true);
    assert_eq!(r_left.x_seam, Some(48));
}

#[test]
fn specialized_slope_seams_follow_the_ramp() {
    let adj = hitbox(33, 16, 14, 14);
    // Right steep ramp at (2,1): penetration is 33+14-32 = 15 px, so the
    // seam is 16*1 + (16 - 15) = 17.
    let r = CollideTileType::RSteepSlope.specialized_collide(2, 1, adj, false);
    assert_eq!(r.y_seam, Some(17));
    assert!(r.snap_to_ground);
    // Left steep ramp: relative left edge is 33-32 = 1, seam 16 + 1 = 17.
    let l = CollideTileType::LSteepSlope.specialized_collide(2, 1, adj, false);
    assert_eq!(l.y_seam, Some(17));
    // Half-height ramps halve the penetration, from a base of 16 or 8 px.
    let low1 = CollideTileType::RLowSlope1.specialized_collide(2, 1, adj, false);
    assert_eq!(low1.y_seam, Some(16 + 16 - 15 / 2));
    let low2 = CollideTileType::RLowSlope2.specialized_collide(2, 1, adj, false);
    assert_eq!(low2.y_seam, Some(16 + 8 - 15 / 2));
}

#[test]
fn left_low_slopes_follow_the_mirrored_ramp() {
    // The leftward-rising half-height ramps at tile (2, 1): the lower
    // segment's surface is 8 + x/2 below the tile top, the upper
    // segment's x/2, tested at the hitbox's bottom-left corner.
    let deep = hitbox(33, 16, 14, 14);  // corner (1, 14) inside both ramps
    assert!(CollideTileType::LLowSlope1.is_tile_colliding(2, 1, deep, CollisionLayer::Normal));
    assert!(CollideTileType::LLowSlope2.is_tile_colliding(2, 1, deep, CollisionLayer::Normal));

    // Corner (1, 6): below the upper segment only.
    let shallow = hitbox(33, 8, 14, 14);
    assert!(!CollideTileType::LLowSlope1.is_tile_colliding(2, 1, shallow, CollisionLayer::Normal));
    assert!(CollideTileType::LLowSlope2.is_tile_colliding(2, 1, shallow, CollisionLayer::Normal));

    // A hitbox above the tile touches neither ramp.
    let above = hitbox(33, 0, 14, 14);
    assert!(!CollideTileType::LLowSlope1.is_tile_colliding(2, 1, above, CollisionLayer::Normal));
    assert!(!CollideTileType::LLowSlope2.is_tile_colliding(2, 1, above, CollisionLayer::Normal));
}

#[test]
fn left_low_slopes_yield_mirrored_ramp_seams() {
    // Relative left edge 1 px: 1 / 2 = 0 of ramp height.
    let adj = hitbox(33, 16, 14, 14);
    let low1 = CollideTileType::LLowSlope1.specialized_collide(2, 1, adj, false);
    assert_eq!(low1.x_seam, None);
    assert_eq!(low1.y_seam, Some(16 + 8));
    assert!(low1.snap_to_ground);
    let low2 = CollideTileType::LLowSlope2.specialized_collide(2, 1, adj, false);
    assert_eq!(low2.y_seam, Some(16));
    assert!(low2.snap_to_ground);

    // Relative left edge 8 px: 8 / 2 = 4 of ramp height.
    let deeper = hitbox(40, 16, 14, 14);
    let low1 = CollideTileType::LLowSlope1.specialized_collide(2, 1, deeper, false);
    assert_eq!(low1.y_seam, Some(16 + 8 + 4));
    let low2 = CollideTileType::LLowSlope2.specialized_collide(2, 1, deeper, false);
    assert_eq!(low2.y_seam, Some(16 + 4));
}

#[test]
fn entering_a_left_low_slope_snaps_to_its_ramp() {
    let g = grid_with(4, 3, &[(2, 1, CollideTileType::LLowSlope1)]);
    let col = g.get_collision_seams(vec_px(16, 0), hitbox(17, 16, 14, 14), CollisionLayer::Normal);
    assert_eq!(col.x_seam, None);
    assert_eq!(col.y_seam, Some(24));
    assert!(col.snap_to_ground);
}

#[test]
fn tile_classification() {
    for t in [RSteepSlope, RLowSlope1, RLowSlope2, LSteepSlope, LLowSlope1, LLowSlope2] {
        assert!(t.is_slope());
        assert!(t.is_nonstandard_hitbox());
    }
    for t in [LWall, RWall] {
        assert!(!t.is_slope());
        assert!(t.is_nonstandard_hitbox());
    }
    for t in [Pass, Solid, Pipe, PipeSolid] {
        assert!(!t.is_slope());
        assert!(!t.is_nonstandard_hitbox());
    }
}

#[test]
fn stricter_seam_keeps_the_nearest() {
    assert_eq!(CollideTilemap::stricter_seam(None, 32, false), 32);
    assert_eq!(CollideTilemap::stricter_seam(Some(48), 32, false), 32);
    assert_eq!(CollideTilemap::stricter_seam(Some(16), 32, false), 16);
    assert_eq!(CollideTilemap::stricter_seam(Some(16), 32, true), 32);
    assert_eq!(CollideTilemap::stricter_seam(Some(48), 32, true), 48);
}

#[test]
fn corner_seam_is_lowest_priority_fallback() {
    // Moving diagonally into a solid entered on both axes at once: the
    // corner's vertical seam applies only because no other seam exists.
    let g = grid_with(4, 4, &[(2, 2, CollideTileType::Solid)]);
    let col = g.get_collision_seams(vec_px(16, 16), hitbox(17, 17, 14, 14), CollisionLayer::Normal);
    assert_eq!(col.x_seam, None);
    assert_eq!(col.y_seam, Some(32));
    assert!(!col.snap_to_ground);
}
