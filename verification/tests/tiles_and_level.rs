//! Tests of flip tiles, metatiles, the metatile map lookup, the level
//! map's seam query, and the foreground-hide objects.

use platformer_core::math::{PosNum, Vec2, Rect};
use platformer_core::collision::{CollideTileType, Pos, Size};
use platformer_core::ecs::{ComponentTable, Entity};
use platformer_core::level;
use platformer_core::object::{foreground_hide, player_colliding, ForegroundHide, ObjectInit};
use platformer_core::tiles::{FlipTile, Metatile, Tilemap};
use platformer_core::world::World;

#[test]
fn flip_tile_accessors() {
    assert_eq!(FlipTile::X(7u8).idx(), 7);
    assert!(FlipTile::X(7u8).x_flipped());
    assert!(!FlipTile::X(7u8).y_flipped());
    assert!(FlipTile::XY(7u8).x_flipped());
    assert!(FlipTile::XY(7u8).y_flipped());
    assert!(!FlipTile::N(7u8).x_flipped());
    assert!(FlipTile::Y(7u8).y_flipped());
}

#[test]
fn flip_tile_flips_are_involutions() {
    let t = FlipTile::N(3u8);
    assert_eq!(t.flip_x(), FlipTile::X(3));
    assert_eq!(t.flip_x().flip_x(), t);
    assert_eq!(t.flip_y(), FlipTile::Y(3));
    assert_eq!(t.flip_y().flip_y(), t);
    assert_eq!(FlipTile::Y(3u8).flip_x(), FlipTile::XY(3));
    assert_eq!(FlipTile::XY(3u8).flip_y(), FlipTile::X(3));
}

#[test]
fn metatile_flip_swaps_columns_and_toggles() {
    let m = Metatile::new(
        FlipTile::N(1usize),
        FlipTile::N(2usize),
        FlipTile::N(3usize),
        FlipTile::N(4usize),
    );
    let fx = m.flip_x();
    assert_eq!(fx.ul, FlipTile::X(2));
    assert_eq!(fx.ur, FlipTile::X(1));
    assert_eq!(fx.ll, FlipTile::X(4));
    assert_eq!(fx.lr, FlipTile::X(3));
    assert_eq!(fx.flip_x(), m);
    let fy = m.flip_y();
    assert_eq!(fy.ul, FlipTile::Y(3));
    assert_eq!(fy.ur, FlipTile::Y(4));
    assert_eq!(fy.flip_y(), m);
}

fn one_cell_map(cell: FlipTile<u8>) -> Tilemap {
    Tilemap::new(
        vec![cell],
        None,
        None,
        vec![CollideTileType::Pass],
        1,
        vec![Metatile::new(
            FlipTile::N(1usize),
            FlipTile::N(2usize),
            FlipTile::N(3usize),
            FlipTile::N(4usize),
        )],
    )
}

#[test]
fn tile_lookup_selects_quadrants() {
    let m = one_cell_map(FlipTile::N(1));
    assert_eq!(m.primary_tile(0, 0), FlipTile::N(1));
    assert_eq!(m.primary_tile(1, 0), FlipTile::N(2));
    assert_eq!(m.primary_tile(0, 1), FlipTile::N(3));
    assert_eq!(m.primary_tile(1, 1), FlipTile::N(4));
}

#[test]
fn tile_lookup_applies_cell_flips() {
    let m = one_cell_map(FlipTile::X(1));
    // The metatile mirrors horizontally: the upper-left quadrant shows
    // the flipped upper-right tile.
    assert_eq!(m.primary_tile(0, 0), FlipTile::X(2));
    assert_eq!(m.primary_tile(1, 0), FlipTile::X(1));
}

#[test]
fn tile_lookup_blank_cases() {
    let m = one_cell_map(FlipTile::N(0));
    // A zero cell is blank, as is anything out of range, and a missing
    // background layer.
    assert_eq!(m.primary_tile(0, 0), FlipTile::N(0));
    assert_eq!(m.primary_tile(5, 5), FlipTile::N(0));
    assert_eq!(m.primary_tile(-3, 0), FlipTile::N(0));
    assert_eq!(m.background_tile(0, 0), FlipTile::N(0));
    assert_eq!(m.foreground_tile(0, 0), FlipTile::N(0));
}

#[test]
fn collide_tilemap_conversion_keeps_the_grid() {
    let m = one_cell_map(FlipTile::N(1));
    let c = m.to_collide_tilemap();
    assert_eq!(c.width, 1);
    assert_eq!(c.height, 1);
    assert_eq!(c.data.len(), 1);
}

#[test]
fn level_map_finds_entered_row_seam() {
    // 4 columns by 3 rows; the cell at column 1 of row 2 is solid.
    let mut data = vec![0u8; 12];
    data[2 * 4 + 1] = 1;
    let m = level::Tilemap::new(data, 4);
    assert_eq!(m.height, 3);

    let movement = Vec2::new(PosNum::zero(), PosNum::new(16));
    let hitbox = Rect::new(
        Vec2::new(PosNum::new(17), PosNum::new(16)),
        Vec2::new(PosNum::new(14), PosNum::new(14)),
    );
    let col = m.get_collision_seams(movement, hitbox);
    assert_eq!(col.y_seam, Some(32));
    assert_eq!(col.x_seam, None);
}

#[test]
fn level_map_moving_up_takes_far_boundary() {
    let mut data = vec![0u8; 12];
    data[1 * 4 + 1] = 1;
    let m = level::Tilemap::new(data, 4);
    let movement = Vec2::new(PosNum::zero(), PosNum::new(-16));
    let hitbox = Rect::new(
        Vec2::new(PosNum::new(17), PosNum::new(40)),
        Vec2::new(PosNum::new(14), PosNum::new(14)),
    );
    let col = m.get_collision_seams(movement, hitbox);
    assert_eq!(col.y_seam, Some(32));
}

#[test]
fn level_map_open_row_gives_no_seam() {
    let data = vec![0u8; 12];
    let m = level::Tilemap::new(data, 4);
    let movement = Vec2::new(PosNum::new(16), PosNum::new(16));
    let hitbox = Rect::new(
        Vec2::new(PosNum::new(17), PosNum::new(16)),
        Vec2::new(PosNum::new(14), PosNum::new(14)),
    );
    let col = m.get_collision_seams(movement, hitbox);
    assert_eq!(col.x_seam, None);
    assert_eq!(col.y_seam, None);
}

#[test]
fn object_init_builds_a_region() {
    let mut w = World::new();
    let en = ObjectInit::ForegroundHide(32, 48, 64, 16).build(&mut w);
    assert_eq!(w.pos.get(en.id).unwrap().0.x.raw, 32 * 256);
    assert_eq!(w.pos.get(en.id).unwrap().0.y.raw, 48 * 256);
    assert_eq!(w.size.get(en.id).unwrap().0.x.raw, 64 * 256);
    assert!(w.foreground_hide.contains(en.id));
}

#[test]
fn player_overlap_dims_the_foreground() {
    let mut pos: ComponentTable<Pos> = ComponentTable::new();
    let mut size: ComponentTable<Size> = ComponentTable::new();
    let mut fg: ComponentTable<ForegroundHide> = ComponentTable::new();
    // Player at (0,0), 16x16.
    pos.set(0, Pos(Vec2::new(PosNum::new(0), PosNum::new(0))));
    size.set(0, Size(Vec2::new(PosNum::new(16), PosNum::new(16))));
    // A region overlapping the player, and one far away.
    pos.set(1, Pos(Vec2::new(PosNum::new(8), PosNum::new(8))));
    size.set(1, Size(Vec2::new(PosNum::new(16), PosNum::new(16))));
    pos.set(2, Pos(Vec2::new(PosNum::new(100), PosNum::new(100))));
    size.set(2, Size(Vec2::new(PosNum::new(4), PosNum::new(4))));
    fg.set(1, ForegroundHide);
    fg.set(2, ForegroundHide);

    let player = Entity { id: 0 };
    assert_eq!(player_colliding(&player, &pos, &size, &fg).map(|e| e.id), Some(1));
    assert!(foreground_hide(&player, &pos, &size, &fg));

    // Move the first region away: nothing overlaps any more.
    pos.set(1, Pos(Vec2::new(PosNum::new(50), PosNum::new(50))));
    assert_eq!(player_colliding(&player, &pos, &size, &fg), None);
    assert!(!foreground_hide(&player, &pos, &size, &fg));
}
