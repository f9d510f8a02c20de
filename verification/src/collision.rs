//! Tile grid and seam resolver.
//!
//! A seam is a single-axis pixel coordinate beyond which a hitbox may not
//! move this frame. Given a desired displacement, the current hitbox and a
//! collision layer, the resolver scans the tiles the moved hitbox would
//! overlap, classifies each one, and keeps the nearest seam per axis; the
//! resolved displacement then lands the hitbox's leading edge exactly on
//! that seam.
//!
//! Units: hitbox coordinates are fixed-point raw values (256 per pixel);
//! tiles are 16 pixels, so 4096 raw units, on a side; seams are plain pixel
//! coordinates.

use vstd::prelude::*;
pub mod system;
use crate::math::{PosNum, Vec2, Rect, trunc_div};

verus! {

/// The collision classification of one grid cell.
#[derive(Clone, Copy, PartialEq, Eq, Structural, Debug)]
pub enum CollideTileType {
    /// Open for `Normal`-layer entities; blocks `Pipe`-layer entities.
    Pass,
    /// Blocks everyone.
    Solid,
    /// A 2-pixel-wide wall strip at the tile's left edge.
    LWall,
    /// A 2-pixel-wide wall strip at the tile's right edge.
    RWall,
    /// Blocks no one.
    Pipe,
    /// A 1:1 ramp rising toward the tile's right edge.
    RSteepSlope,
    /// The lower half of a half-height ramp rising toward the right.
    RLowSlope1,
    /// The upper half of a half-height ramp rising toward the right.
    RLowSlope2,
    /// Open for `Pipe`-layer entities; blocks `Normal`-layer entities.
    PipeSolid,
    /// A 1:1 ramp rising toward the tile's left edge.
    LSteepSlope,
    /// The lower half of a half-height ramp rising toward the left.
    LLowSlope1,
    /// The upper half of a half-height ramp rising toward the left.
    LLowSlope2,
}

/// The collision layer of an entity: the two layers invert which of
/// `Pass` and `PipeSolid` count as solid, implementing one-way pipes.
#[derive(Clone, Copy, PartialEq, Eq, Structural, Debug)]
pub enum CollisionLayer {
    Normal,
    Pipe,
}

/// An entity's position component.
#[derive(Clone, Copy, PartialEq, Eq, Structural, Debug)]
pub struct Pos(pub Vec2);

/// An entity's velocity component.
#[derive(Clone, Copy, PartialEq, Eq, Structural, Debug)]
pub struct Vel(pub Vec2);

/// An entity's acceleration component.
#[derive(Clone, Copy, PartialEq, Eq, Structural, Debug)]
pub struct Acc(pub Vec2);

/// An entity's hitbox size component.
#[derive(Clone, Copy, PartialEq, Eq, Structural, Debug)]
pub struct Size(pub Vec2);

/// Whether an entity currently rests on the ground.
#[derive(Clone, Copy, PartialEq, Eq, Structural, Debug)]
pub struct OnGround(pub bool);

/// The result of one resolution query: at most one seam per axis, in pixel
/// coordinates, and whether the entity should be treated as grounded
/// because it rests on a sloped surface.
#[derive(Clone, Copy, PartialEq, Eq, Structural, Debug)]
pub struct Collision {
    pub x_seam: Option<i32>,
    pub y_seam: Option<i32>,
    pub snap_to_ground: bool,
}

/// A static grid of collision tiles, row-major.
pub struct CollideTilemap {
    pub data: Vec<CollideTileType>,
    pub width: usize,
    pub height: usize,
}

// ---------------------------------------------------------------------------
// Tile classification.
// ---------------------------------------------------------------------------

/// Whether `t` is one of the six slope tiles.
pub open spec fn tile_is_slope(t: CollideTileType) -> bool {
    ||| t is RSteepSlope
    ||| t is RLowSlope1
    ||| t is RLowSlope2
    ||| t is LSteepSlope
    ||| t is LLowSlope1
    ||| t is LLowSlope2
}

/// Whether `t` occupies only part of its tile: a wall strip or a slope.
pub open spec fn tile_is_nonstandard(t: CollideTileType) -> bool {
    t is LWall || t is RWall || tile_is_slope(t)
}

/// Whether `t` is a wall strip.
pub open spec fn tile_is_wall(t: CollideTileType) -> bool {
    t is LWall || t is RWall
}

impl CollideTileType {
    /// Whether this tile occupies only part of its cell (a wall strip or a
    /// slope), so that even an already-overlapped cell can yield a seam.
    pub fn is_nonstandard_hitbox(self) -> (r: bool)
        ensures
            r == tile_is_nonstandard(self),
    {
        match self {
            CollideTileType::LWall => true,
            CollideTileType::RWall => true,
            x => x.is_slope(),
        }
    }

    /// Whether this tile is one of the six slope tiles.
    pub fn is_slope(self) -> (r: bool)
        ensures
            r == tile_is_slope(self),
    {
        match self {
            CollideTileType::RSteepSlope => true,
            CollideTileType::RLowSlope1 => true,
            CollideTileType::RLowSlope2 => true,
            CollideTileType::LSteepSlope => true,
            CollideTileType::LLowSlope1 => true,
            CollideTileType::LLowSlope2 => true,
            _ => false,
        }
    }
}

// ---------------------------------------------------------------------------
// Per-tile collision test, as a mathematical predicate over raw values.
// ---------------------------------------------------------------------------

/// Whether tile `t` at grid cell `(xi, yi)` collides with a hitbox placed
/// at raw position `(ax, ay)` with raw size `(sx, sy)`, for an entity on
/// `layer`.
pub open spec fn tile_colliding(
    t: CollideTileType,
    xi: int,
    yi: int,
    ax: int,
    ay: int,
    sx: int,
    sy: int,
    layer: CollisionLayer,
) -> bool {
    match t {
        CollideTileType::Pass => layer is Pipe,
        CollideTileType::Solid => true,
        CollideTileType::Pipe => false,
        CollideTileType::PipeSolid => layer is Normal,
        // Wall strips: a 2-pixel-wide, tile-high box at the tile's left or
        // right edge, overlapping the hitbox strictly.
        CollideTileType::LWall => strip_touching(xi * 4096, yi * 4096, ax, ay, sx, sy),
        CollideTileType::RWall => strip_touching(xi * 4096 + 3584, yi * 4096, ax, ay, sx, sy),
        // Slopes: a linear inequality between a hitbox corner, relative to
        // the tile origin, and the ramp line.
        CollideTileType::RSteepSlope => (ay + sy - yi * 4096) > 4096 - (ax + sx - xi * 4096),
        CollideTileType::LSteepSlope => (ay + sy - yi * 4096) > (ax - xi * 4096),
        CollideTileType::RLowSlope1 => (ay + sy - yi * 4096) > 4096 - (ax + sx - xi * 4096) / 2,
        CollideTileType::RLowSlope2 => (ay + sy - yi * 4096) > 2048 - (ax + sx - xi * 4096) / 2,
        CollideTileType::LLowSlope1 => (ay + sy - yi * 4096) > 2048 + (ax - xi * 4096) / 2,
        CollideTileType::LLowSlope2 => (ay + sy - yi * 4096) > (ax - xi * 4096) / 2,
    }
}

/// Whether a 2-pixel-wide, 16-pixel-high strip whose upper-left corner has
/// raw coordinates `(wx, wy)` strictly overlaps a hitbox at `(ax, ay)` of
/// size `(sx, sy)`.
pub open spec fn strip_touching(wx: int, wy: int, ax: int, ay: int, sx: int, sy: int) -> bool {
    &&& ax < wx + 512
    &&& wx < ax + sx
    &&& ay < wy + 4096
    &&& wy < ay + sy
}

// ---------------------------------------------------------------------------
// Bounds under which the resolver's arithmetic cannot overflow.
// ---------------------------------------------------------------------------

/// Whether a raw coordinate is within the range the resolver supports.
pub open spec fn coord_ok(n: PosNum) -> bool {
    -0x0800_0000 <= n.raw <= 0x0800_0000
}

/// Whether both components of a vector are in range.
pub open spec fn vec_ok(v: Vec2) -> bool {
    coord_ok(v.x) && coord_ok(v.y)
}

/// Whether a hitbox has in-range coordinates and positive size.
pub open spec fn hitbox_ok(h: Rect) -> bool {
    &&& vec_ok(h.position)
    &&& vec_ok(h.size)
    &&& h.size.x.raw > 0
    &&& h.size.y.raw > 0
}

impl CollideTilemap {
    /// A well-formed grid: positive dimensions within the supported range,
    /// and exactly one tile per cell.
    pub open spec fn wf(self) -> bool {
        &&& 0 < self.width <= 0x8000
        &&& 0 < self.height <= 0x8000
        &&& self.data.len() == self.width * self.height
    }

    /// The tile stored at cell `(xi, yi)`, row-major.
    pub open spec fn tile_at(self, xi: int, yi: int) -> CollideTileType {
        self.data[xi + yi * self.width]
    }

    /// Whether `(xi, yi)` is a cell that participates in collision: border
    /// cells at index 0 are excluded, exactly as the inherited convention
    /// has it.
    pub open spec fn interior(self, xi: int, yi: int) -> bool {
        0 < xi < self.width && 0 < yi < self.height
    }
}

// ---------------------------------------------------------------------------
// One resolution query, as mathematical integers.
// ---------------------------------------------------------------------------

/// The floor of raw coordinate `r` divided into 16-pixel tiles: the index
/// of the tile containing it.
pub open spec fn tile_of(r: int) -> int {
    r / 4096
}

/// The tile index a leading edge at raw coordinate `edge` newly crosses
/// into when moved by `m` raw units, if it changes tiles.
pub open spec fn entered_axis(m: int, edge: int) -> Option<int> {
    if tile_of(edge) != tile_of(edge + m) {
        Some(tile_of(edge + m))
    } else {
        None
    }
}

/// The inputs of one resolution query, in raw units: the desired movement
/// `(mx, my)`, and the hitbox position `(px, py)` and size `(sx, sy)`.
pub struct SeamQuery {
    pub mx: int,
    pub my: int,
    pub px: int,
    pub py: int,
    pub sx: int,
    pub sy: int,
}

/// The query corresponding to exec-level movement and hitbox values.
pub open spec fn query_of(movement: Vec2, hitbox: Rect) -> SeamQuery {
    SeamQuery {
        mx: movement.x.raw as int,
        my: movement.y.raw as int,
        px: hitbox.position.x.raw as int,
        py: hitbox.position.y.raw as int,
        sx: hitbox.size.x.raw as int,
        sy: hitbox.size.y.raw as int,
    }
}

impl SeamQuery {
    /// Whether the desired movement points in the negative x direction.
    pub open spec fn moving_left(self) -> bool {
        self.mx < 0
    }

    /// Whether the desired movement points in the negative y direction.
    pub open spec fn moving_up(self) -> bool {
        self.my < 0
    }

    /// The hitbox's x position after the full desired movement.
    pub open spec fn ax(self) -> int {
        self.px + self.mx
    }

    /// The hitbox's y position after the full desired movement.
    pub open spec fn ay(self) -> int {
        self.py + self.my
    }

    /// The leading x edge of the current hitbox: the last raw coordinate
    /// inside the box on the side the movement points to.
    pub open spec fn lead_edge_x(self) -> int {
        if self.moving_left() {
            self.px
        } else {
            self.px + self.sx - 1
        }
    }

    /// The leading y edge of the current hitbox.
    pub open spec fn lead_edge_y(self) -> int {
        if self.moving_up() {
            self.py
        } else {
            self.py + self.sy - 1
        }
    }

    /// The tile column the leading edge newly crosses into, if the desired
    /// movement makes it change columns.
    pub open spec fn entered_x(self) -> Option<int> {
        entered_axis(self.mx, self.lead_edge_x())
    }

    /// The tile row the leading edge newly crosses into, if the desired
    /// movement makes it change rows.
    pub open spec fn entered_y(self) -> Option<int> {
        entered_axis(self.my, self.lead_edge_y())
    }

    /// First tile column overlapped by the moved hitbox.
    pub open spec fn tile_left(self) -> int {
        tile_of(self.ax())
    }

    /// Last tile column overlapped by the moved hitbox.
    pub open spec fn tile_right(self) -> int {
        tile_of(self.ax() + self.sx - 1)
    }

    /// First tile row overlapped by the moved hitbox.
    pub open spec fn tile_up(self) -> int {
        tile_of(self.ay())
    }

    /// Last tile row overlapped by the moved hitbox.
    pub open spec fn tile_down(self) -> int {
        tile_of(self.ay() + self.sy - 1)
    }

    /// Whether `(xi, yi)` lies in the scanned range of the moved hitbox.
    pub open spec fn in_scan(self, xi: int, yi: int) -> bool {
        &&& self.tile_left() <= xi <= self.tile_right()
        &&& self.tile_up() <= yi <= self.tile_down()
    }

    /// Whether the movement newly enters column `xi`.
    pub open spec fn is_entered_x(self, xi: int) -> bool {
        self.entered_x() == Some(xi)
    }

    /// Whether the movement newly enters row `yi`.
    pub open spec fn is_entered_y(self, yi: int) -> bool {
        self.entered_y() == Some(yi)
    }

    /// Whether all query values are within the supported coordinate range,
    /// with a positive hitbox size.
    pub open spec fn ok(self) -> bool {
        &&& -0x0800_0000 <= self.mx <= 0x0800_0000
        &&& -0x0800_0000 <= self.my <= 0x0800_0000
        &&& -0x0800_0000 <= self.px <= 0x0800_0000
        &&& -0x0800_0000 <= self.py <= 0x0800_0000
        &&& 0 < self.sx <= 0x0800_0000
        &&& 0 < self.sy <= 0x0800_0000
    }
}

// ---------------------------------------------------------------------------
// Seam candidates: which scanned tiles contribute a seam, and its value.
// ---------------------------------------------------------------------------

/// Whether cell `(xi, yi)` is scanned by query `q`, participates in
/// collision, and collides with the moved hitbox.
pub open spec fn scan_colliding(
    tm: CollideTilemap,
    q: SeamQuery,
    layer: CollisionLayer,
    xi: int,
    yi: int,
) -> bool {
    &&& q.in_scan(xi, yi)
    &&& tm.interior(xi, yi)
    &&& tile_colliding(tm.tile_at(xi, yi), xi, yi, q.ax(), q.ay(), q.sx, q.sy, layer)
}

/// The x seam a wall strip contributes when the hitbox was already
/// overlapping its cell: the strip face away from the approach direction.
pub open spec fn wall_x_val(t: CollideTileType, xi: int, moving_left: bool) -> int {
    if t is LWall {
        if moving_left {
            xi * 16 + 2
        } else {
            xi * 16
        }
    } else {
        if moving_left {
            (xi + 1) * 16
        } else {
            (xi + 1) * 16 - 2
        }
    }
}

/// The ground seam a slope contributes: the tile's row boundary offset by
/// the ramp height at the hitbox's horizontal penetration. `ax` and `sx`
/// are the moved hitbox's raw position and size on the x axis.
pub open spec fn slope_y_val(t: CollideTileType, xi: int, yi: int, ax: int, sx: int) -> int {
    if t is RSteepSlope {
        16 * yi + (16 - trunc_div(ax + sx - xi * 4096, 256))
    } else if t is LSteepSlope {
        16 * yi + trunc_div(ax - xi * 4096, 256)
    } else if t is RLowSlope1 {
        16 * yi + (16 - trunc_div(trunc_div(ax + sx - xi * 4096, 256), 2))
    } else if t is RLowSlope2 {
        16 * yi + (8 - trunc_div(trunc_div(ax + sx - xi * 4096, 256), 2))
    } else if t is LLowSlope1 {
        16 * yi + (8 + trunc_div(trunc_div(ax - xi * 4096, 256), 2))
    } else {
        // LLowSlope2
        16 * yi + trunc_div(trunc_div(ax - xi * 4096, 256), 2)
    }
}

/// Whether cell `(xi, yi)` contributes an x-seam candidate for query `q`:
/// either a non-slope tile in the newly entered column, or a wall strip in
/// a cell the hitbox already overlapped.
pub open spec fn x_cand(
    tm: CollideTilemap,
    q: SeamQuery,
    layer: CollisionLayer,
    xi: int,
    yi: int,
) -> bool {
    &&& scan_colliding(tm, q, layer, xi, yi)
    &&& !q.is_entered_y(yi)
    &&& {
        ||| (q.is_entered_x(xi) && !tile_is_slope(tm.tile_at(xi, yi)))
        ||| (!q.is_entered_x(xi) && tile_is_wall(tm.tile_at(xi, yi)))
    }
}

/// The x-seam value cell `(xi, yi)` contributes, in pixels.
pub open spec fn x_cand_val(tm: CollideTilemap, q: SeamQuery, xi: int, yi: int) -> int {
    if q.is_entered_x(xi) {
        if q.moving_left() {
            (xi + 1) * 16
        } else {
            xi * 16
        }
    } else {
        wall_x_val(tm.tile_at(xi, yi), xi, q.moving_left())
    }
}

/// Whether cell `(xi, yi)` contributes a y-seam candidate for query `q`:
/// a slope anywhere but the corner cell, or a non-slope tile in the newly
/// entered row.
pub open spec fn y_cand(
    tm: CollideTilemap,
    q: SeamQuery,
    layer: CollisionLayer,
    xi: int,
    yi: int,
) -> bool {
    &&& scan_colliding(tm, q, layer, xi, yi)
    &&& !(q.is_entered_x(xi) && q.is_entered_y(yi))
    &&& {
        ||| tile_is_slope(tm.tile_at(xi, yi))
        ||| (q.is_entered_y(yi) && !q.is_entered_x(xi) && !tile_is_slope(tm.tile_at(xi, yi)))
    }
}

/// The y-seam value cell `(xi, yi)` contributes, in pixels.
pub open spec fn y_cand_val(tm: CollideTilemap, q: SeamQuery, xi: int, yi: int) -> int {
    if tile_is_slope(tm.tile_at(xi, yi)) {
        slope_y_val(tm.tile_at(xi, yi), xi, yi, q.ax(), q.sx)
    } else {
        if q.moving_up() {
            (yi + 1) * 16
        } else {
            yi * 16
        }
    }
}

/// The fallback y seam from the corner cell entered on both axes at once,
/// if that cell collides. It is applied only when no other seam was found.
pub open spec fn corner_cand(tm: CollideTilemap, q: SeamQuery, layer: CollisionLayer) -> Option<
    int,
> {
    match (q.entered_x(), q.entered_y()) {
        (Some(ex), Some(ey)) => if scan_colliding(tm, q, layer, ex, ey) {
            if q.moving_up() {
                Some((ey + 1) * 16)
            } else {
                Some(ey * 16)
            }
        } else {
            None
        },
        _ => None,
    }
}

/// Whether the scan runs the specialized (partial-shape) collision for
/// cell `(xi, yi)`: a wall or slope in an already-overlapped cell, or a
/// slope entered on exactly one axis.
pub open spec fn sp_run(
    tm: CollideTilemap,
    q: SeamQuery,
    layer: CollisionLayer,
    xi: int,
    yi: int,
) -> bool {
    &&& scan_colliding(tm, q, layer, xi, yi)
    &&& {
        ||| (!q.is_entered_x(xi) && !q.is_entered_y(yi) && tile_is_nonstandard(
            tm.tile_at(xi, yi),
        ))
        ||| (tile_is_slope(tm.tile_at(xi, yi)) && (q.is_entered_x(xi) != q.is_entered_y(yi)))
    }
}

/// Strict lexicographic order on grid cells, in the scan's column-major
/// visiting order: all of column `x1` is visited before column `x1 + 1`.
pub open spec fn lex_lt(x1: int, y1: int, x2: int, y2: int) -> bool {
    x1 < x2 || (x1 == x2 && y1 < y2)
}

// ---------------------------------------------------------------------------
// What a resolution result is.
// ---------------------------------------------------------------------------

/// Whether no cell contributes an x-seam candidate.
pub open spec fn no_x_cand(tm: CollideTilemap, q: SeamQuery, layer: CollisionLayer) -> bool {
    forall|xi: int, yi: int| !x_cand(tm, q, layer, xi, yi)
}

/// Whether no cell contributes a y-seam candidate.
pub open spec fn no_y_cand(tm: CollideTilemap, q: SeamQuery, layer: CollisionLayer) -> bool {
    forall|xi: int, yi: int| !y_cand(tm, q, layer, xi, yi)
}

/// Whether `v` is an x-seam candidate value and, per the strictness rule,
/// the nearest one: the largest when moving left, the smallest otherwise.
pub open spec fn x_seam_extremal(
    tm: CollideTilemap,
    q: SeamQuery,
    layer: CollisionLayer,
    v: int,
) -> bool {
    &&& exists|xi: int, yi: int|
        x_cand(tm, q, layer, xi, yi) && x_cand_val(tm, q, xi, yi) == v
    &&& forall|xi: int, yi: int|
        x_cand(tm, q, layer, xi, yi) ==> (if q.moving_left() {
            x_cand_val(tm, q, xi, yi) <= v
        } else {
            x_cand_val(tm, q, xi, yi) >= v
        })
}

/// Whether `v` is a y-seam candidate value and the nearest one.
pub open spec fn y_seam_extremal(
    tm: CollideTilemap,
    q: SeamQuery,
    layer: CollisionLayer,
    v: int,
) -> bool {
    &&& exists|xi: int, yi: int|
        y_cand(tm, q, layer, xi, yi) && y_cand_val(tm, q, xi, yi) == v
    &&& forall|xi: int, yi: int|
        y_cand(tm, q, layer, xi, yi) ==> (if q.moving_up() {
            y_cand_val(tm, q, xi, yi) <= v
        } else {
            y_cand_val(tm, q, xi, yi) >= v
        })
}

/// Whether the last specialized-collision cell in scan order is a
/// slope; that cell's verdict is the snap-to-ground signal.
pub open spec fn snap_spec(tm: CollideTilemap, q: SeamQuery, layer: CollisionLayer) -> bool {
    exists|xi: int, yi: int|
        sp_run(tm, q, layer, xi, yi) && tile_is_slope(tm.tile_at(xi, yi)) && (forall|
            xj: int,
            yj: int,
        |
            sp_run(tm, q, layer, xj, yj) ==> !lex_lt(xi, yi, xj, yj))
}

/// The full characterization of a resolution result `c` for query `q` on
/// grid `tm` and layer `layer`:
///
/// - the x seam is present exactly when some cell contributes an x-seam
///   candidate, and is then the nearest candidate;
/// - the y seam likewise, except that when no cell contributes on either
///   axis, the corner fallback (if any) becomes the y seam;
/// - snap-to-ground reports whether the scan's last specialized collision
///   was with a slope.
///
/// The result satisfying this predicate is unique
/// (`lemma_resolution_unique`), so seam resolution is independent of the
/// order in which tiles are scanned.
pub open spec fn is_resolution(
    tm: CollideTilemap,
    q: SeamQuery,
    layer: CollisionLayer,
    c: Collision,
) -> bool {
    &&& match c.x_seam {
        Some(v) => x_seam_extremal(tm, q, layer, v as int),
        None => no_x_cand(tm, q, layer),
    }
    &&& match c.y_seam {
        Some(v) => y_seam_extremal(tm, q, layer, v as int) || (no_y_cand(tm, q, layer)
            && no_x_cand(tm, q, layer) && corner_cand(tm, q, layer) == Some(v as int)),
        None => no_y_cand(tm, q, layer) && (corner_cand(tm, q, layer) is None || c.x_seam is Some),
    }
    &&& c.snap_to_ground == snap_spec(tm, q, layer)
}

/// The seam contribution of one specialized (partial-shape) collision:
/// walls yield the x seam of their strip face, slopes the ramp seam with
/// snap-to-ground, and every other tile nothing.
pub open spec fn specialized_spec(
    t: CollideTileType,
    xi: int,
    yi: int,
    ax: int,
    sx: int,
    moving_left: bool,
) -> Collision {
    if tile_is_wall(t) {
        Collision {
            x_seam: Some(wall_x_val(t, xi, moving_left) as i32),
            y_seam: None,
            snap_to_ground: false,
        }
    } else if tile_is_slope(t) {
        Collision {
            x_seam: None,
            y_seam: Some(slope_y_val(t, xi, yi, ax, sx) as i32),
            snap_to_ground: true,
        }
    } else {
        Collision { x_seam: None, y_seam: None, snap_to_ground: false }
    }
}

impl CollideTileType {
    /// Whether this tile at cell `(xi, yi)` collides with the moved hitbox
    /// for an entity on `layer`.
    pub fn is_tile_colliding(
        self,
        xi: i32,
        yi: i32,
        adjusted_hitbox: Rect,
        layer: CollisionLayer,
    ) -> (r: bool)
        requires
            -0x8000 <= xi <= 0x8000,
            -0x8000 <= yi <= 0x8000,
            -0x1000_0000 <= adjusted_hitbox.position.x.raw <= 0x1000_0000,
            -0x1000_0000 <= adjusted_hitbox.position.y.raw <= 0x1000_0000,
            0 < adjusted_hitbox.size.x.raw <= 0x0800_0000,
            0 < adjusted_hitbox.size.y.raw <= 0x0800_0000,
        ensures
            r == tile_colliding(
                self,
                xi as int,
                yi as int,
                adjusted_hitbox.position.x.raw as int,
                adjusted_hitbox.position.y.raw as int,
                adjusted_hitbox.size.x.raw as int,
                adjusted_hitbox.size.y.raw as int,
                layer,
            ),
    {
        let ax: i32 = adjusted_hitbox.position.x.raw;
        let ay: i32 = adjusted_hitbox.position.y.raw;
        let sx: i32 = adjusted_hitbox.size.x.raw;
        let sy: i32 = adjusted_hitbox.size.y.raw;
        match self {
            CollideTileType::Pass => matches!(layer, CollisionLayer::Pipe),
            CollideTileType::Solid => true,
            CollideTileType::Pipe => false,
            CollideTileType::PipeSolid => matches!(layer, CollisionLayer::Normal),
            CollideTileType::LWall => {
                let strip = Rect::new(
                    Vec2::new(PosNum::new(xi * 16), PosNum::new(yi * 16)),
                    Vec2::new(PosNum::new(2), PosNum::new(16)),
                );
                adjusted_hitbox.touches(strip)
            },
            CollideTileType::RWall => {
                let strip = Rect::new(
                    Vec2::new(PosNum::from_raw(xi * 4096 + 3584), PosNum::new(yi * 16)),
                    Vec2::new(PosNum::new(2), PosNum::new(16)),
                );
                adjusted_hitbox.touches(strip)
            },
            CollideTileType::RSteepSlope => (ay + sy - yi * 4096) > 4096 - (ax + sx - xi * 4096),
            CollideTileType::LSteepSlope => (ay + sy - yi * 4096) > (ax - xi * 4096),
            CollideTileType::RLowSlope1 => {
                let half: i32 = match (ax + sx - xi * 4096).checked_div_euclid(2) {
                    Some(q) => q,
                    None => 0,  // unreachable: the divisor is positive
                };
                (ay + sy - yi * 4096) > 4096 - half
            },
            CollideTileType::RLowSlope2 => {
                let half: i32 = match (ax + sx - xi * 4096).checked_div_euclid(2) {
                    Some(q) => q,
                    None => 0,  // unreachable: the divisor is positive
                };
                (ay + sy - yi * 4096) > 2048 - half
            },
            CollideTileType::LLowSlope1 => {
                let half: i32 = match (ax - xi * 4096).checked_div_euclid(2) {
                    Some(q) => q,
                    None => 0,  // unreachable: the divisor is positive
                };
                (ay + sy - yi * 4096) > 2048 + half
            },
            CollideTileType::LLowSlope2 => {
                let half: i32 = match (ax - xi * 4096).checked_div_euclid(2) {
                    Some(q) => q,
                    None => 0,  // unreachable: the divisor is positive
                };
                (ay + sy - yi * 4096) > half
            },
        }
    }

    /// The specialized collision for a wall or slope at cell `(xi, yi)`:
    /// the seam of the strip face or of the ramp surface under the moved
    /// hitbox.
    pub fn specialized_collide(
        self,
        xi: i32,
        yi: i32,
        adjusted_hitbox: Rect,
        moving_left: bool,
    ) -> (r: Collision)
        requires
            -0x8000 <= xi <= 0x8000,
            -0x8000 <= yi <= 0x8000,
            -0x1000_0000 <= adjusted_hitbox.position.x.raw <= 0x1000_0000,
            0 < adjusted_hitbox.size.x.raw <= 0x0800_0000,
        ensures
            r == specialized_spec(
                self,
                xi as int,
                yi as int,
                adjusted_hitbox.position.x.raw as int,
                adjusted_hitbox.size.x.raw as int,
                moving_left,
            ),
    {
        match self {
            CollideTileType::LWall => Collision {
                x_seam: Some(if moving_left { xi * 16 + 2 } else { xi * 16 }),
                y_seam: None,
                snap_to_ground: false,
            },
            CollideTileType::RWall => Collision {
                x_seam: Some(if moving_left { (xi + 1) * 16 } else { (xi + 1) * 16 - 2 }),
                y_seam: None,
                snap_to_ground: false,
            },
            CollideTileType::RSteepSlope => {
                let cx: i32 = adjusted_hitbox.position.x.raw + adjusted_hitbox.size.x.raw - xi
                    * 4096;
                let px: i32 = match cx.checked_div(256) {
                    Some(q) => q,
                    None => 0,  // unreachable: the divisor is positive
                };
                Collision { x_seam: None, y_seam: Some(16 * yi + (16 - px)), snap_to_ground: true }
            },
            CollideTileType::LSteepSlope => {
                let rx: i32 = adjusted_hitbox.position.x.raw - xi * 4096;
                let px: i32 = match rx.checked_div(256) {
                    Some(q) => q,
                    None => 0,  // unreachable: the divisor is positive
                };
                Collision { x_seam: None, y_seam: Some(16 * yi + px), snap_to_ground: true }
            },
            CollideTileType::RLowSlope1 => {
                let cx: i32 = adjusted_hitbox.position.x.raw + adjusted_hitbox.size.x.raw - xi
                    * 4096;
                let px: i32 = match cx.checked_div(256) {
                    Some(q) => q,
                    None => 0,  // unreachable: the divisor is positive
                };
                let half: i32 = match px.checked_div(2) {
                    Some(q) => q,
                    None => 0,  // unreachable: the divisor is positive
                };
                Collision {
                    x_seam: None,
                    y_seam: Some(16 * yi + (16 - half)),
                    snap_to_ground: true,
                }
            },
            CollideTileType::RLowSlope2 => {
                let cx: i32 = adjusted_hitbox.position.x.raw + adjusted_hitbox.size.x.raw - xi
                    * 4096;
                let px: i32 = match cx.checked_div(256) {
                    Some(q) => q,
                    None => 0,  // unreachable: the divisor is positive
                };
                let half: i32 = match px.checked_div(2) {
                    Some(q) => q,
                    None => 0,  // unreachable: the divisor is positive
                };
                Collision { x_seam: None, y_seam: Some(16 * yi + (8 - half)), snap_to_ground: true }
            },
            CollideTileType::LLowSlope1 => {
                let rx: i32 = adjusted_hitbox.position.x.raw - xi * 4096;
                let px: i32 = match rx.checked_div(256) {
                    Some(q) => q,
                    None => 0,  // unreachable: the divisor is positive
                };
                let half: i32 = match px.checked_div(2) {
                    Some(q) => q,
                    None => 0,  // unreachable: the divisor is positive
                };
                Collision { x_seam: None, y_seam: Some(16 * yi + (8 + half)), snap_to_ground: true }
            },
            CollideTileType::LLowSlope2 => {
                let rx: i32 = adjusted_hitbox.position.x.raw - xi * 4096;
                let px: i32 = match rx.checked_div(256) {
                    Some(q) => q,
                    None => 0,  // unreachable: the divisor is positive
                };
                let half: i32 = match px.checked_div(2) {
                    Some(q) => q,
                    None => 0,  // unreachable: the divisor is positive
                };
                Collision { x_seam: None, y_seam: Some(16 * yi + half), snap_to_ground: true }
            },
            _ => Collision { x_seam: None, y_seam: None, snap_to_ground: false },
        }
    }
}

impl CollideTilemap {
    /// Of a current seam and a new candidate, the one nearest the entity:
    /// the larger when moving in the negative direction, else the smaller.
    pub fn stricter_seam(cur: Option<i32>, new: i32, moving_negative: bool) -> (r: i32)
        ensures
            r == match cur {
                Some(c) => if moving_negative {
                    if c >= new { c } else { new }
                } else {
                    if c <= new { c } else { new }
                },
                None => new,
            },
    {
        if let Some(cur) = cur {
            if moving_negative {
                if cur >= new {
                    cur
                } else {
                    new
                }
            } else {
                if cur <= new {
                    cur
                } else {
                    new
                }
            }
        } else {
            new
        }
    }

    /// Folds a specialized collision's seams into the running per-axis
    /// seams, keeping the nearest value on each axis.
    pub fn handle_specialized_collide(
        specialized_col: Collision,
        x_seam: Option<i32>,
        y_seam: Option<i32>,
        moving_left: bool,
        moving_up: bool,
    ) -> (r: (Option<i32>, Option<i32>))
        ensures
            r.0 == match specialized_col.x_seam {
                Some(nx) => Some(
                    match x_seam {
                        Some(c) => if moving_left {
                            if c >= nx { c } else { nx }
                        } else {
                            if c <= nx { c } else { nx }
                        },
                        None => nx,
                    },
                ),
                None => x_seam,
            },
            r.1 == match specialized_col.y_seam {
                Some(ny) => Some(
                    match y_seam {
                        Some(c) => if moving_up {
                            if c >= ny { c } else { ny }
                        } else {
                            if c <= ny { c } else { ny }
                        },
                        None => ny,
                    },
                ),
                None => y_seam,
            },
    {
        let x_seam = if let Some(new_x_seam) = specialized_col.x_seam {
            Some(Self::stricter_seam(x_seam, new_x_seam, moving_left))
        } else {
            x_seam
        };
        let y_seam = if let Some(new_y_seam) = specialized_col.y_seam {
            Some(Self::stricter_seam(y_seam, new_y_seam, moving_up))
        } else {
            y_seam
        };
        (x_seam, y_seam)
    }
}

// ---------------------------------------------------------------------------
// Applying a resolution: clamp the desired delta against the seams.
// ---------------------------------------------------------------------------

/// Whether a seam value is in the range resolution can produce.
pub open spec fn seam_ok(s: int) -> bool {
    -0x0010_0000 <= s <= 0x0010_0000
}

/// Whether both seams of `c` are in range.
pub open spec fn collision_ok(c: Collision) -> bool {
    &&& match c.x_seam {
        Some(s) => seam_ok(s as int),
        None => true,
    }
    &&& match c.y_seam {
        Some(s) => seam_ok(s as int),
        None => true,
    }
}

/// The x component, in raw units, of the delta that lands the hitbox's
/// leading edge exactly on the x seam, or the desired delta if there is
/// no seam.
pub open spec fn resolved_x_raw(movement: Vec2, hitbox: Rect, c: Collision) -> int {
    match c.x_seam {
        Some(s) => (if movement.x.raw > 0 {
            s * 256 - hitbox.size.x.raw
        } else {
            s * 256
        }) - hitbox.position.x.raw,
        None => movement.x.raw as int,
    }
}

/// The y component of the resolved delta, in raw units.
pub open spec fn resolved_y_raw(movement: Vec2, hitbox: Rect, c: Collision) -> int {
    match c.y_seam {
        Some(s) => (if movement.y.raw > 0 {
            s * 256 - hitbox.size.y.raw
        } else {
            s * 256
        }) - hitbox.position.y.raw,
        None => movement.y.raw as int,
    }
}

/// The displacement actually applied for a desired `movement` of `hitbox`
/// under the resolved seams `col`: on each axis with a seam, the delta
/// that lands the hitbox's leading edge exactly on the seam (the seam
/// minus the hitbox size when approaching from the negative side), and
/// the desired delta on an axis without one.
pub fn move_and_collide(movement: Vec2, hitbox: Rect, col: &Collision) -> (r: Vec2)
    requires
        vec_ok(movement),
        hitbox_ok(hitbox),
        collision_ok(*col),
    ensures
        r.x.raw == resolved_x_raw(movement, hitbox, *col),
        r.y.raw == resolved_y_raw(movement, hitbox, *col),
{
    let mut actual = movement;
    if let Some(x_collision) = col.x_seam {
        let mut value: i32 = x_collision * 256;
        if movement.x.raw > 0 {
            value = value - hitbox.size.x.raw;
        }
        actual.x = PosNum::from_raw(value - hitbox.position.x.raw);
    }
    if let Some(y_collision) = col.y_seam {
        let mut value: i32 = y_collision * 256;
        if movement.y.raw > 0 {
            value = value - hitbox.size.y.raw;
        }
        actual.y = PosNum::from_raw(value - hitbox.position.y.raw);
    }
    actual
}

// ---------------------------------------------------------------------------
// Scan-prefix invariants: what the running seams mean after the scan has
// processed every cell strictly before `(bx, by)` in scan order.
// ---------------------------------------------------------------------------

/// The running x seam is the nearest candidate among processed cells.
spec fn x_fold_inv(
    tm: CollideTilemap,
    q: SeamQuery,
    layer: CollisionLayer,
    bx: int,
    by: int,
    cur: Option<i32>,
) -> bool {
    match cur {
        None => forall|xi: int, yi: int|
            #[trigger] x_cand(tm, q, layer, xi, yi) ==> !lex_lt(xi, yi, bx, by),
        Some(v) => {
            &&& seam_ok(v as int)
            &&& exists|xi: int, yi: int|
                #[trigger] x_cand(tm, q, layer, xi, yi) && lex_lt(xi, yi, bx, by) && x_cand_val(
                    tm,
                    q,
                    xi,
                    yi,
                ) == v as int
            &&& forall|xi: int, yi: int|
                #[trigger] x_cand(tm, q, layer, xi, yi) && lex_lt(xi, yi, bx, by) ==> (
                if q.moving_left() {
                    x_cand_val(tm, q, xi, yi) <= v as int
                } else {
                    x_cand_val(tm, q, xi, yi) >= v as int
                })
        },
    }
}

/// The running y seam is the nearest candidate among processed cells.
spec fn y_fold_inv(
    tm: CollideTilemap,
    q: SeamQuery,
    layer: CollisionLayer,
    bx: int,
    by: int,
    cur: Option<i32>,
) -> bool {
    match cur {
        None => forall|xi: int, yi: int|
            #[trigger] y_cand(tm, q, layer, xi, yi) ==> !lex_lt(xi, yi, bx, by),
        Some(v) => {
            &&& seam_ok(v as int)
            &&& exists|xi: int, yi: int|
                #[trigger] y_cand(tm, q, layer, xi, yi) && lex_lt(xi, yi, bx, by) && y_cand_val(
                    tm,
                    q,
                    xi,
                    yi,
                ) == v as int
            &&& forall|xi: int, yi: int|
                #[trigger] y_cand(tm, q, layer, xi, yi) && lex_lt(xi, yi, bx, by) ==> (
                if q.moving_up() {
                    y_cand_val(tm, q, xi, yi) <= v as int
                } else {
                    y_cand_val(tm, q, xi, yi) >= v as int
                })
        },
    }
}

/// Whether the corner cell entered on both axes lies strictly before
/// `(bx, by)` in scan order.
spec fn corner_processed(q: SeamQuery, bx: int, by: int) -> bool {
    match (q.entered_x(), q.entered_y()) {
        (Some(ex), Some(ey)) => lex_lt(ex, ey, bx, by),
        _ => None::<int> is Some,
    }
}

/// The running corner fallback equals the corner candidate once the corner
/// cell has been processed, and is absent before.
spec fn corner_fold_inv(
    tm: CollideTilemap,
    q: SeamQuery,
    layer: CollisionLayer,
    bx: int,
    by: int,
    cur: Option<i32>,
) -> bool {
    if corner_processed(q, bx, by) {
        &&& cur == match corner_cand(tm, q, layer) {
            Some(v) => Some(v as i32),
            None => None::<i32>,
        }
        &&& match cur {
            Some(v) => seam_ok(v as int),
            None => true,
        }
    } else {
        cur is None
    }
}

/// `last` is the scan-order-last processed specialized collision, and the
/// running snap flag is that cell's verdict.
spec fn snap_fold_inv(
    tm: CollideTilemap,
    q: SeamQuery,
    layer: CollisionLayer,
    bx: int,
    by: int,
    last: Option<(int, int)>,
    snap: bool,
) -> bool {
    match last {
        None => {
            &&& snap == false
            &&& forall|xi: int, yi: int|
                #[trigger] sp_run(tm, q, layer, xi, yi) ==> !lex_lt(xi, yi, bx, by)
        },
        Some(p) => {
            &&& sp_run(tm, q, layer, p.0, p.1)
            &&& lex_lt(p.0, p.1, bx, by)
            &&& snap == tile_is_slope(tm.tile_at(p.0, p.1))
            &&& forall|xi: int, yi: int|
                #[trigger] sp_run(tm, q, layer, xi, yi) && lex_lt(xi, yi, bx, by) ==> (lex_lt(
                    xi,
                    yi,
                    p.0,
                    p.1,
                ) || (xi == p.0 && yi == p.1))
        },
    }
}

/// An entered tile index, when present, lies inside the scanned range: the
/// leading edge after the full movement is inside the moved hitbox.
proof fn lemma_entered_in_range(q: SeamQuery)
    requires
        q.ok(),
    ensures
        match q.entered_x() {
            Some(ex) => q.tile_left() <= ex <= q.tile_right(),
            None => true,
        },
        match q.entered_y() {
            Some(ey) => q.tile_up() <= ey <= q.tile_down(),
            None => true,
        },
{
    vstd::arithmetic::div_mod::lemma_div_is_ordered(q.ax(), q.ax() + q.sx - 1, 4096);
    vstd::arithmetic::div_mod::lemma_div_is_ordered(q.ay(), q.ay() + q.sy - 1, 4096);
    if q.moving_left() {
        assert(q.lead_edge_x() + q.mx == q.ax());
    } else {
        assert(q.lead_edge_x() + q.mx == q.ax() + q.sx - 1);
    }
    if q.moving_up() {
        assert(q.lead_edge_y() + q.my == q.ay());
    } else {
        assert(q.lead_edge_y() + q.my == q.ay() + q.sy - 1);
    }
}

/// The tile index of raw coordinate `n`, rounding toward negative
/// infinity.
pub(crate) fn div_tile(n: i32) -> (r: i32)
    ensures
        r == tile_of(n as int),
{
    match n.checked_div_euclid(4096) {
        Some(q) => q,
        None => 0,  // unreachable: the divisor is positive
    }
}


// ---------------------------------------------------------------------------
// Invariant-transition lemmas: how one processed cell advances the scan.
// ---------------------------------------------------------------------------

/// A cell that contributes no x candidate leaves the x invariant intact.
proof fn lemma_x_keep(
    tm: CollideTilemap,
    q: SeamQuery,
    layer: CollisionLayer,
    xi: int,
    yi: int,
    cur: Option<i32>,
)
    requires
        x_fold_inv(tm, q, layer, xi, yi, cur),
        !x_cand(tm, q, layer, xi, yi),
    ensures
        x_fold_inv(tm, q, layer, xi, yi + 1, cur),
{
    match cur {
        None => {
            assert forall|a: int, b: int| #[trigger] x_cand(tm, q, layer, a, b) implies !lex_lt(
                a,
                b,
                xi,
                yi + 1,
            ) by {
                assert(!lex_lt(a, b, xi, yi));
            }
        },
        Some(v) => {},
    }
}

/// Folding a new x candidate keeps the invariant: the stricter of the old
/// seam and the new value is the nearest candidate seen so far.
proof fn lemma_x_update(
    tm: CollideTilemap,
    q: SeamQuery,
    layer: CollisionLayer,
    xi: int,
    yi: int,
    cur: Option<i32>,
    v_new: i32,
    res: Option<i32>,
)
    requires
        x_fold_inv(tm, q, layer, xi, yi, cur),
        x_cand(tm, q, layer, xi, yi),
        x_cand_val(tm, q, xi, yi) == v_new as int,
        seam_ok(v_new as int),
        res == Some(
            match cur {
                Some(c) => if q.moving_left() {
                    if c >= v_new { c } else { v_new }
                } else {
                    if c <= v_new { c } else { v_new }
                },
                None => v_new,
            },
        ),
    ensures
        x_fold_inv(tm, q, layer, xi, yi + 1, res),
{
    let r = res->Some_0;
    assert(x_cand(tm, q, layer, xi, yi) && lex_lt(xi, yi, xi, yi + 1) && x_cand_val(tm, q, xi, yi)
        == v_new as int);
    match cur {
        None => {
            assert forall|a: int, b: int|
                #[trigger] x_cand(tm, q, layer, a, b) && lex_lt(a, b, xi, yi + 1) implies (
            if q.moving_left() {
                x_cand_val(tm, q, a, b) <= r as int
            } else {
                x_cand_val(tm, q, a, b) >= r as int
            }) by {
                if lex_lt(a, b, xi, yi) {
                    assert(!lex_lt(a, b, xi, yi));
                }
            }
        },
        Some(c) => {
            if q.moving_left() {
                assert forall|a: int, b: int|
                    #[trigger] x_cand(tm, q, layer, a, b) && lex_lt(a, b, xi, yi + 1) implies
                    x_cand_val(tm, q, a, b) <= r as int by {}
            } else {
                assert forall|a: int, b: int|
                    #[trigger] x_cand(tm, q, layer, a, b) && lex_lt(a, b, xi, yi + 1) implies
                    x_cand_val(tm, q, a, b) >= r as int by {}
            }
        },
    }
}

/// A cell that contributes no y candidate leaves the y invariant intact.
proof fn lemma_y_keep(
    tm: CollideTilemap,
    q: SeamQuery,
    layer: CollisionLayer,
    xi: int,
    yi: int,
    cur: Option<i32>,
)
    requires
        y_fold_inv(tm, q, layer, xi, yi, cur),
        !y_cand(tm, q, layer, xi, yi),
    ensures
        y_fold_inv(tm, q, layer, xi, yi + 1, cur),
{
    match cur {
        None => {
            assert forall|a: int, b: int| #[trigger] y_cand(tm, q, layer, a, b) implies !lex_lt(
                a,
                b,
                xi,
                yi + 1,
            ) by {
                assert(!lex_lt(a, b, xi, yi));
            }
        },
        Some(v) => {},
    }
}

/// Folding a new y candidate keeps the invariant.
proof fn lemma_y_update(
    tm: CollideTilemap,
    q: SeamQuery,
    layer: CollisionLayer,
    xi: int,
    yi: int,
    cur: Option<i32>,
    v_new: i32,
    res: Option<i32>,
)
    requires
        y_fold_inv(tm, q, layer, xi, yi, cur),
        y_cand(tm, q, layer, xi, yi),
        y_cand_val(tm, q, xi, yi) == v_new as int,
        seam_ok(v_new as int),
        res == Some(
            match cur {
                Some(c) => if q.moving_up() {
                    if c >= v_new { c } else { v_new }
                } else {
                    if c <= v_new { c } else { v_new }
                },
                None => v_new,
            },
        ),
    ensures
        y_fold_inv(tm, q, layer, xi, yi + 1, res),
{
    let r = res->Some_0;
    assert(y_cand(tm, q, layer, xi, yi) && lex_lt(xi, yi, xi, yi + 1) && y_cand_val(tm, q, xi, yi)
        == v_new as int);
    match cur {
        None => {
            assert forall|a: int, b: int|
                #[trigger] y_cand(tm, q, layer, a, b) && lex_lt(a, b, xi, yi + 1) implies (
            if q.moving_up() {
                y_cand_val(tm, q, a, b) <= r as int
            } else {
                y_cand_val(tm, q, a, b) >= r as int
            }) by {
                if lex_lt(a, b, xi, yi) {
                    assert(!lex_lt(a, b, xi, yi));
                }
            }
        },
        Some(c) => {
            if q.moving_up() {
                assert forall|a: int, b: int|
                    #[trigger] y_cand(tm, q, layer, a, b) && lex_lt(a, b, xi, yi + 1) implies
                    y_cand_val(tm, q, a, b) <= r as int by {}
            } else {
                assert forall|a: int, b: int|
                    #[trigger] y_cand(tm, q, layer, a, b) && lex_lt(a, b, xi, yi + 1) implies
                    y_cand_val(tm, q, a, b) >= r as int by {}
            }
        },
    }
}

/// A cell that runs no specialized collision leaves the snap invariant
/// intact.
proof fn lemma_snap_keep(
    tm: CollideTilemap,
    q: SeamQuery,
    layer: CollisionLayer,
    xi: int,
    yi: int,
    last: Option<(int, int)>,
    snap: bool,
)
    requires
        snap_fold_inv(tm, q, layer, xi, yi, last, snap),
        !sp_run(tm, q, layer, xi, yi),
    ensures
        snap_fold_inv(tm, q, layer, xi, yi + 1, last, snap),
{
    match last {
        None => {
            assert forall|a: int, b: int| #[trigger] sp_run(tm, q, layer, a, b) implies !lex_lt(
                a,
                b,
                xi,
                yi + 1,
            ) by {
                assert(!lex_lt(a, b, xi, yi));
            }
        },
        Some(p) => {
            assert forall|a: int, b: int|
                #[trigger] sp_run(tm, q, layer, a, b) && lex_lt(a, b, xi, yi + 1) implies (lex_lt(
                a,
                b,
                p.0,
                p.1,
            ) || (a == p.0 && b == p.1)) by {
                if lex_lt(a, b, xi, yi) {
                } else {
                    assert(a == xi && b == yi);
                }
            }
        },
    }
}

/// Running the specialized collision on this cell makes it the scan's new
/// last specialized cell, and the snap flag its verdict.
proof fn lemma_snap_update(
    tm: CollideTilemap,
    q: SeamQuery,
    layer: CollisionLayer,
    xi: int,
    yi: int,
    last: Option<(int, int)>,
    old_snap: bool,
)
    requires
        snap_fold_inv(tm, q, layer, xi, yi, last, old_snap),
        sp_run(tm, q, layer, xi, yi),
    ensures
        snap_fold_inv(
            tm,
            q,
            layer,
            xi,
            yi + 1,
            Some((xi, yi)),
            tile_is_slope(tm.tile_at(xi, yi)),
        ),
{
    assert forall|a: int, b: int|
        #[trigger] sp_run(tm, q, layer, a, b) && lex_lt(a, b, xi, yi + 1) implies (lex_lt(
        a,
        b,
        xi,
        yi,
    ) || (a == xi && b == yi)) by {}
}

/// A cell that records no corner fallback — any cell but a colliding
/// entered-both corner — leaves the corner invariant intact.
proof fn lemma_corner_keep(
    tm: CollideTilemap,
    q: SeamQuery,
    layer: CollisionLayer,
    xi: int,
    yi: int,
    cur: Option<i32>,
)
    requires
        corner_fold_inv(tm, q, layer, xi, yi, cur),
        !(q.is_entered_x(xi) && q.is_entered_y(yi)) || !scan_colliding(tm, q, layer, xi, yi),
    ensures
        corner_fold_inv(tm, q, layer, xi, yi + 1, cur),
{
    if q.is_entered_x(xi) && q.is_entered_y(yi) {
        assert(!corner_processed(q, xi, yi));
        assert(corner_cand(tm, q, layer) is None);
    } else {
        assert(corner_processed(q, xi, yi + 1) == corner_processed(q, xi, yi));
    }
}

/// Advancing from the end of one scanned column to the top of the next
/// preserves all four invariants: every candidate cell lies inside the
/// scanned row range, so the two prefix bounds describe the same set.
proof fn lemma_column_end(
    tm: CollideTilemap,
    q: SeamQuery,
    layer: CollisionLayer,
    xi: int,
    x_seam: Option<i32>,
    y_seam: Option<i32>,
    corner_y_seam: Option<i32>,
    last_sp: Option<(int, int)>,
    snap: bool,
)
    requires
        q.ok(),
        x_fold_inv(tm, q, layer, xi, q.tile_down() + 1, x_seam),
        y_fold_inv(tm, q, layer, xi, q.tile_down() + 1, y_seam),
        corner_fold_inv(tm, q, layer, xi, q.tile_down() + 1, corner_y_seam),
        snap_fold_inv(tm, q, layer, xi, q.tile_down() + 1, last_sp, snap),
    ensures
        x_fold_inv(tm, q, layer, xi + 1, q.tile_up(), x_seam),
        y_fold_inv(tm, q, layer, xi + 1, q.tile_up(), y_seam),
        corner_fold_inv(tm, q, layer, xi + 1, q.tile_up(), corner_y_seam),
        snap_fold_inv(tm, q, layer, xi + 1, q.tile_up(), last_sp, snap),
{
    assert forall|a: int, b: int|
        #[trigger] x_cand(tm, q, layer, a, b) || #[trigger] y_cand(tm, q, layer, a, b)
            || #[trigger] sp_run(tm, q, layer, a, b) implies (lex_lt(a, b, xi, q.tile_down() + 1)
        == lex_lt(a, b, xi + 1, q.tile_up())) by {
        assert(q.in_scan(a, b));
    }
    lemma_entered_in_range(q);
    match x_seam {
        None => {
            assert forall|a: int, b: int| #[trigger] x_cand(tm, q, layer, a, b) implies !lex_lt(
                a,
                b,
                xi + 1,
                q.tile_up(),
            ) by {
                assert(!lex_lt(a, b, xi, q.tile_down() + 1));
            }
        },
        Some(v) => {},
    }
    match y_seam {
        None => {
            assert forall|a: int, b: int| #[trigger] y_cand(tm, q, layer, a, b) implies !lex_lt(
                a,
                b,
                xi + 1,
                q.tile_up(),
            ) by {
                assert(!lex_lt(a, b, xi, q.tile_down() + 1));
            }
        },
        Some(v) => {},
    }
    match last_sp {
        None => {
            assert forall|a: int, b: int| #[trigger] sp_run(tm, q, layer, a, b) implies !lex_lt(
                a,
                b,
                xi + 1,
                q.tile_up(),
            ) by {
                assert(!lex_lt(a, b, xi, q.tile_down() + 1));
            }
        },
        Some(p) => {},
    }
}

/// When the scan has processed its whole rectangle, the prefix invariants
/// become the global characterization of the result.
proof fn lemma_scan_complete(
    tm: CollideTilemap,
    q: SeamQuery,
    layer: CollisionLayer,
    x_seam: Option<i32>,
    y_seam: Option<i32>,
    corner_y_seam: Option<i32>,
    last_sp: Option<(int, int)>,
    snap: bool,
)
    requires
        q.ok(),
        x_fold_inv(tm, q, layer, q.tile_right() + 1, q.tile_up(), x_seam),
        y_fold_inv(tm, q, layer, q.tile_right() + 1, q.tile_up(), y_seam),
        corner_fold_inv(tm, q, layer, q.tile_right() + 1, q.tile_up(), corner_y_seam),
        snap_fold_inv(tm, q, layer, q.tile_right() + 1, q.tile_up(), last_sp, snap),
    ensures
        match x_seam {
            Some(v) => x_seam_extremal(tm, q, layer, v as int) && seam_ok(v as int),
            None => no_x_cand(tm, q, layer),
        },
        match y_seam {
            Some(v) => y_seam_extremal(tm, q, layer, v as int) && seam_ok(v as int),
            None => no_y_cand(tm, q, layer),
        },
        corner_y_seam == match corner_cand(tm, q, layer) {
            Some(v) => Some(v as i32),
            None => None::<i32>,
        },
        match corner_y_seam {
            Some(v) => seam_ok(v as int),
            None => true,
        },
        snap == snap_spec(tm, q, layer),
{
    let endx = q.tile_right() + 1;
    let endy = q.tile_up();
    assert forall|a: int, b: int|
        #[trigger] x_cand(tm, q, layer, a, b) || #[trigger] y_cand(tm, q, layer, a, b)
            || #[trigger] sp_run(tm, q, layer, a, b) implies lex_lt(a, b, endx, endy) by {
        assert(q.in_scan(a, b));
    }
    lemma_entered_in_range(q);
    if q.entered_x() is Some && q.entered_y() is Some {
        assert(corner_processed(q, endx, endy));
    } else {
        assert(corner_cand(tm, q, layer) is None);
    }
    match last_sp {
        None => {
            assert(!snap_spec(tm, q, layer));
        },
        Some(p) => {
            if tile_is_slope(tm.tile_at(p.0, p.1)) {
                assert forall|xj: int, yj: int| #[trigger] sp_run(tm, q, layer, xj, yj) implies
                    !lex_lt(p.0, p.1, xj, yj) by {}
                assert(snap_spec(tm, q, layer));
            } else {
                assert(!snap_spec(tm, q, layer)) by {
                    if snap_spec(tm, q, layer) {
                        let (wx, wy): (int, int) = choose|wx: int, wy: int|
                            sp_run(tm, q, layer, wx, wy) && tile_is_slope(tm.tile_at(wx, wy))
                                && (forall|xj: int, yj: int|
                                sp_run(tm, q, layer, xj, yj) ==> !lex_lt(wx, wy, xj, yj));
                        assert(sp_run(tm, q, layer, p.0, p.1));
                        assert(!lex_lt(wx, wy, p.0, p.1));
                        assert(lex_lt(wx, wy, p.0, p.1) || (wx == p.0 && wy == p.1));
                    }
                }
            }
        },
    }
}
impl CollideTilemap {
    /// Processes one scanned cell: classifies it by which axes newly enter
    /// it, folds its seam contribution into the running seams, and records
    /// its specialized-collision verdict. The returned state satisfies the
    /// same invariants with the scan prefix advanced past this cell.
    #[verifier::rlimit(100)]
    #[verifier::spinoff_prover]
    fn scan_cell(
        &self,
        movement: Vec2,
        hitbox: Rect,
        adjusted_hitbox: Rect,
        layer: CollisionLayer,
        entered_x: Option<i32>,
        entered_y: Option<i32>,
        xi: i32,
        yi: i32,
        x_seam: Option<i32>,
        y_seam: Option<i32>,
        corner_y_seam: Option<i32>,
        snap_to_ground: bool,
        Ghost(last_sp): Ghost<Option<(int, int)>>,
    ) -> (r: (Option<i32>, Option<i32>, Option<i32>, bool, Ghost<Option<(int, int)>>))
        requires
            self.wf(),
            vec_ok(movement),
            hitbox_ok(hitbox),
            adjusted_hitbox.position.x.raw == query_of(movement, hitbox).ax(),
            adjusted_hitbox.position.y.raw == query_of(movement, hitbox).ay(),
            adjusted_hitbox.size == hitbox.size,
            match entered_x {
                Some(v) => query_of(movement, hitbox).entered_x() == Some(v as int),
                None => query_of(movement, hitbox).entered_x() is None,
            },
            match entered_y {
                Some(v) => query_of(movement, hitbox).entered_y() == Some(v as int),
                None => query_of(movement, hitbox).entered_y() is None,
            },
            query_of(movement, hitbox).tile_left() <= xi as int <= query_of(
                movement,
                hitbox,
            ).tile_right(),
            query_of(movement, hitbox).tile_up() <= yi as int <= query_of(
                movement,
                hitbox,
            ).tile_down(),
            -0x2_0000 <= xi as int <= 0x2_0000,
            -0x2_0000 <= yi as int <= 0x2_0000,
            x_fold_inv(*self, query_of(movement, hitbox), layer, xi as int, yi as int, x_seam),
            y_fold_inv(*self, query_of(movement, hitbox), layer, xi as int, yi as int, y_seam),
            corner_fold_inv(
                *self,
                query_of(movement, hitbox),
                layer,
                xi as int,
                yi as int,
                corner_y_seam,
            ),
            snap_fold_inv(
                *self,
                query_of(movement, hitbox),
                layer,
                xi as int,
                yi as int,
                last_sp,
                snap_to_ground,
            ),
        ensures
            x_fold_inv(*self, query_of(movement, hitbox), layer, xi as int, yi as int + 1, r.0),
            y_fold_inv(*self, query_of(movement, hitbox), layer, xi as int, yi as int + 1, r.1),
            corner_fold_inv(
                *self,
                query_of(movement, hitbox),
                layer,
                xi as int,
                yi as int + 1,
                r.2,
            ),
            snap_fold_inv(
                *self,
                query_of(movement, hitbox),
                layer,
                xi as int,
                yi as int + 1,
                r.4@,
                r.3,
            ),
    {
        let ghost q = query_of(movement, hitbox);
        let ghost tm = *self;
        let moving_left = movement.x.raw < 0;
        let moving_up = movement.y.raw < 0;
        let mut x_seam = x_seam;
        let mut y_seam = y_seam;
        let mut corner_y_seam = corner_y_seam;
        let mut snap_to_ground = snap_to_ground;
        let ghost mut last_sp = last_sp;

        if xi > 0 && xi < self.width as i32 && yi > 0 && yi < self.height as i32 {
            proof {
                assert(((yi as int) * (self.width as int) + xi as int) < (self.width as int) * (
                self.height as int)) by (nonlinear_arith)
                    requires
                        0 <= (xi as int) && (xi as int) < (self.width as int),
                        0 <= (yi as int) && (yi as int) < (self.height as int),
                ;
                assert((yi as int) * (self.width as int) >= 0) by (nonlinear_arith)
                    requires
                        0 <= (yi as int),
                        0 <= (self.width as int),
                ;
            }
            let tile_idx: usize = xi as usize + (yi as usize) * self.width;
            let tile: CollideTileType = self.data[tile_idx];
            proof {
                assert(tile == tm.tile_at(xi as int, yi as int));
            }
            if tile.is_tile_colliding(xi, yi, adjusted_hitbox, layer) {
                let ex_here = match entered_x {
                    Some(v) => v == xi,
                    None => false,
                };
                let ey_here = match entered_y {
                    Some(v) => v == yi,
                    None => false,
                };
                proof {
                    assert(ex_here == q.is_entered_x(xi as int));
                    assert(ey_here == q.is_entered_y(yi as int));
                    assert(scan_colliding(tm, q, layer, xi as int, yi as int));
                }
                if (!ex_here && !ey_here && tile.is_nonstandard_hitbox()) || ((ex_here != ey_here)
                    && tile.is_slope()) {
                    // The specialized (partial-shape) collision path.
                    let specialized_col = tile.specialized_collide(
                        xi,
                        yi,
                        adjusted_hitbox,
                        moving_left,
                    );
                    let ghost prev_snap = snap_to_ground;
                    snap_to_ground = specialized_col.snap_to_ground;
                    let seams = Self::handle_specialized_collide(
                        specialized_col,
                        x_seam,
                        y_seam,
                        moving_left,
                        moving_up,
                    );
                    let ghost prev_x = x_seam;
                    let ghost prev_y = y_seam;
                    x_seam = seams.0;
                    y_seam = seams.1;
                    proof {
                        assert(sp_run(tm, q, layer, xi as int, yi as int));
                        lemma_snap_update(tm, q, layer, xi as int, yi as int, last_sp, prev_snap);
                        last_sp = Some((xi as int, yi as int));
                        lemma_corner_keep(tm, q, layer, xi as int, yi as int, corner_y_seam);
                        if tile_is_wall(tile) {
                            assert(x_cand(tm, q, layer, xi as int, yi as int));
                            assert(x_cand_val(tm, q, xi as int, yi as int) == wall_x_val(
                                tile,
                                xi as int,
                                q.moving_left(),
                            ));
                            assert(seam_ok(wall_x_val(tile, xi as int, q.moving_left())));
                            lemma_x_update(
                                tm,
                                q,
                                layer,
                                xi as int,
                                yi as int,
                                prev_x,
                                specialized_col.x_seam->Some_0,
                                x_seam,
                            );
                            assert(!y_cand(tm, q, layer, xi as int, yi as int));
                            lemma_y_keep(tm, q, layer, xi as int, yi as int, y_seam);
                        } else {
                            assert(tile_is_slope(tile));
                            assert(y_cand(tm, q, layer, xi as int, yi as int));
                            assert(y_cand_val(tm, q, xi as int, yi as int) == slope_y_val(
                                tile,
                                xi as int,
                                yi as int,
                                q.ax(),
                                q.sx,
                            ));
                            assert(seam_ok(
                                slope_y_val(tile, xi as int, yi as int, q.ax(), q.sx),
                            ));
                            lemma_y_update(
                                tm,
                                q,
                                layer,
                                xi as int,
                                yi as int,
                                prev_y,
                                specialized_col.y_seam->Some_0,
                                y_seam,
                            );
                            assert(!x_cand(tm, q, layer, xi as int, yi as int));
                            lemma_x_keep(tm, q, layer, xi as int, yi as int, x_seam);
                        }
                    }
                } else if ex_here && !ey_here {
                    // Entered on x only, non-slope: the tile face nearest
                    // the approach becomes an x-seam candidate.
                    let new_seam = if moving_left {
                        (xi + 1) * 16
                    } else {
                        xi * 16
                    };
                    let ghost prev_x = x_seam;
                    x_seam = Some(Self::stricter_seam(x_seam, new_seam, moving_left));
                    proof {
                        assert(x_cand(tm, q, layer, xi as int, yi as int));
                        assert(x_cand_val(tm, q, xi as int, yi as int) == new_seam as int);
                        lemma_x_update(
                            tm,
                            q,
                            layer,
                            xi as int,
                            yi as int,
                            prev_x,
                            new_seam,
                            x_seam,
                        );
                        assert(!y_cand(tm, q, layer, xi as int, yi as int));
                        lemma_y_keep(tm, q, layer, xi as int, yi as int, y_seam);
                        assert(!sp_run(tm, q, layer, xi as int, yi as int));
                        lemma_snap_keep(
                            tm,
                            q,
                            layer,
                            xi as int,
                            yi as int,
                            last_sp,
                            snap_to_ground,
                        );
                        lemma_corner_keep(tm, q, layer, xi as int, yi as int, corner_y_seam);
                    }
                } else if !ex_here && ey_here {
                    // Entered on y only, non-slope: symmetric on the y axis.
                    let new_seam = if moving_up {
                        (yi + 1) * 16
                    } else {
                        yi * 16
                    };
                    let ghost prev_y = y_seam;
                    y_seam = Some(Self::stricter_seam(y_seam, new_seam, moving_up));
                    proof {
                        assert(y_cand(tm, q, layer, xi as int, yi as int));
                        assert(y_cand_val(tm, q, xi as int, yi as int) == new_seam as int);
                        lemma_y_update(
                            tm,
                            q,
                            layer,
                            xi as int,
                            yi as int,
                            prev_y,
                            new_seam,
                            y_seam,
                        );
                        assert(!x_cand(tm, q, layer, xi as int, yi as int));
                        lemma_x_keep(tm, q, layer, xi as int, yi as int, x_seam);
                        assert(!sp_run(tm, q, layer, xi as int, yi as int));
                        lemma_snap_keep(
                            tm,
                            q,
                            layer,
                            xi as int,
                            yi as int,
                            last_sp,
                            snap_to_ground,
                        );
                        lemma_corner_keep(tm, q, layer, xi as int, yi as int, corner_y_seam);
                    }
                } else if ex_here && ey_here {
                    // The corner cell entered on both axes: record the
                    // lowest-priority fallback seam.
                    corner_y_seam = Some(
                        if moving_up {
                            (yi + 1) * 16
                        } else {
                            yi * 16
                        },
                    );
                    proof {
                        assert(corner_cand(tm, q, layer) == Some(
                            if q.moving_up() {
                                (yi as int + 1) * 16
                            } else {
                                (yi as int) * 16
                            },
                        ));
                        assert(corner_processed(q, xi as int, yi as int + 1));
                        assert(!x_cand(tm, q, layer, xi as int, yi as int));
                        lemma_x_keep(tm, q, layer, xi as int, yi as int, x_seam);
                        assert(!y_cand(tm, q, layer, xi as int, yi as int));
                        lemma_y_keep(tm, q, layer, xi as int, yi as int, y_seam);
                        assert(!sp_run(tm, q, layer, xi as int, yi as int));
                        lemma_snap_keep(
                            tm,
                            q,
                            layer,
                            xi as int,
                            yi as int,
                            last_sp,
                            snap_to_ground,
                        );
                    }
                } else {
                    // Colliding, not entered, and a plain full tile: an
                    // already-overlapped solid contributes nothing.
                    proof {
                        assert(!x_cand(tm, q, layer, xi as int, yi as int));
                        assert(!y_cand(tm, q, layer, xi as int, yi as int));
                        assert(!sp_run(tm, q, layer, xi as int, yi as int));
                        lemma_x_keep(tm, q, layer, xi as int, yi as int, x_seam);
                        lemma_y_keep(tm, q, layer, xi as int, yi as int, y_seam);
                        lemma_snap_keep(
                            tm,
                            q,
                            layer,
                            xi as int,
                            yi as int,
                            last_sp,
                            snap_to_ground,
                        );
                        lemma_corner_keep(tm, q, layer, xi as int, yi as int, corner_y_seam);
                    }
                }
            } else {
                proof {
                    assert(!x_cand(tm, q, layer, xi as int, yi as int));
                    assert(!y_cand(tm, q, layer, xi as int, yi as int));
                    assert(!sp_run(tm, q, layer, xi as int, yi as int));
                    lemma_x_keep(tm, q, layer, xi as int, yi as int, x_seam);
                    lemma_y_keep(tm, q, layer, xi as int, yi as int, y_seam);
                    lemma_snap_keep(tm, q, layer, xi as int, yi as int, last_sp, snap_to_ground);
                    lemma_corner_keep(tm, q, layer, xi as int, yi as int, corner_y_seam);
                }
            }
        } else {
            proof {
                assert(!tm.interior(xi as int, yi as int));
                assert(!x_cand(tm, q, layer, xi as int, yi as int));
                assert(!y_cand(tm, q, layer, xi as int, yi as int));
                assert(!sp_run(tm, q, layer, xi as int, yi as int));
                lemma_x_keep(tm, q, layer, xi as int, yi as int, x_seam);
                lemma_y_keep(tm, q, layer, xi as int, yi as int, y_seam);
                lemma_snap_keep(tm, q, layer, xi as int, yi as int, last_sp, snap_to_ground);
                lemma_corner_keep(tm, q, layer, xi as int, yi as int, corner_y_seam);
            }
        }
        (x_seam, y_seam, corner_y_seam, snap_to_ground, Ghost(last_sp))
    }
}
impl CollideTilemap {
    /// Resolves a desired movement of `hitbox` on `layer` against the
    /// grid: scans every tile the moved hitbox would overlap, classifies
    /// each colliding tile by which axes newly enter its cell, and keeps
    /// the nearest seam per axis, with the entered-both corner cell as a
    /// lowest-priority fallback. The result is the unique value satisfying
    /// `is_resolution`, so it does not depend on the order in which tiles
    /// are visited.
    #[verifier::loop_isolation(false)]
    #[verifier::rlimit(100)]
    #[verifier::spinoff_prover]
    pub fn get_collision_seams(&self, movement: Vec2, hitbox: Rect, layer: CollisionLayer) -> (c:
        Collision)
        requires
            self.wf(),
            vec_ok(movement),
            hitbox_ok(hitbox),
        ensures
            is_resolution(*self, query_of(movement, hitbox), layer, c),
            collision_ok(c),
    {
        let ghost q = query_of(movement, hitbox);
        let moving_left = movement.x.raw < 0;
        let moving_up = movement.y.raw < 0;

        let entered_x: Option<i32> = {
            let cur_edge: i32 = if !moving_left {
                hitbox.position.x.raw + hitbox.size.x.raw - 1
            } else {
                hitbox.position.x.raw
            };
            let before = div_tile(cur_edge);
            let after = div_tile(cur_edge + movement.x.raw);
            if before != after {
                Some(after)
            } else {
                None
            }
        };
        let entered_y: Option<i32> = {
            let cur_edge: i32 = if !moving_up {
                hitbox.position.y.raw + hitbox.size.y.raw - 1
            } else {
                hitbox.position.y.raw
            };
            let before = div_tile(cur_edge);
            let after = div_tile(cur_edge + movement.y.raw);
            if before != after {
                Some(after)
            } else {
                None
            }
        };
        proof {
            assert(match entered_x {
                Some(v) => q.entered_x() == Some(v as int),
                None => q.entered_x() is None,
            });
            assert(match entered_y {
                Some(v) => q.entered_y() == Some(v as int),
                None => q.entered_y() is None,
            });
        }

        let adjusted_hitbox = Rect::new(hitbox.position.add(movement), hitbox.size);
        let tile_left_x = div_tile(adjusted_hitbox.position.x.raw);
        let tile_right_x = div_tile(adjusted_hitbox.position.x.raw + hitbox.size.x.raw - 1);
        let tile_up_y = div_tile(adjusted_hitbox.position.y.raw);
        let tile_down_y = div_tile(adjusted_hitbox.position.y.raw + hitbox.size.y.raw - 1);
        proof {
            vstd::arithmetic::div_mod::lemma_div_is_ordered(q.ax(), q.ax() + q.sx - 1, 4096);
            vstd::arithmetic::div_mod::lemma_div_is_ordered(q.ay(), q.ay() + q.sy - 1, 4096);
            vstd::arithmetic::div_mod::lemma_div_is_ordered(-0x0800_0000int * 2, q.ax(), 4096);
            vstd::arithmetic::div_mod::lemma_div_is_ordered(
                q.ax() + q.sx - 1,
                0x0800_0000int * 3,
                4096,
            );
            vstd::arithmetic::div_mod::lemma_div_is_ordered(-0x0800_0000int * 2, q.ay(), 4096);
            vstd::arithmetic::div_mod::lemma_div_is_ordered(
                q.ay() + q.sy - 1,
                0x0800_0000int * 3,
                4096,
            );
        }

        let mut corner_y_seam: Option<i32> = None;
        let mut x_seam: Option<i32> = None;
        let mut y_seam: Option<i32> = None;
        let mut snap_to_ground = false;
        let ghost mut last_sp: Option<(int, int)> = None;

        let mut xi = tile_left_x;
        while xi <= tile_right_x
            invariant
                tile_left_x <= xi <= tile_right_x + 1,
                x_fold_inv(*self, q, layer, xi as int, tile_up_y as int, x_seam),
                y_fold_inv(*self, q, layer, xi as int, tile_up_y as int, y_seam),
                corner_fold_inv(*self, q, layer, xi as int, tile_up_y as int, corner_y_seam),
                snap_fold_inv(
                    *self,
                    q,
                    layer,
                    xi as int,
                    tile_up_y as int,
                    last_sp,
                    snap_to_ground,
                ),
            decreases tile_right_x + 1 - xi,
        {
            let mut yi = tile_up_y;
            while yi <= tile_down_y
                invariant
                    xi <= tile_right_x,
                    tile_up_y <= yi <= tile_down_y + 1,
                    x_fold_inv(*self, q, layer, xi as int, yi as int, x_seam),
                    y_fold_inv(*self, q, layer, xi as int, yi as int, y_seam),
                    corner_fold_inv(*self, q, layer, xi as int, yi as int, corner_y_seam),
                    snap_fold_inv(*self, q, layer, xi as int, yi as int, last_sp, snap_to_ground),
                decreases tile_down_y + 1 - yi,
            {
                let r = self.scan_cell(
                    movement,
                    hitbox,
                    adjusted_hitbox,
                    layer,
                    entered_x,
                    entered_y,
                    xi,
                    yi,
                    x_seam,
                    y_seam,
                    corner_y_seam,
                    snap_to_ground,
                    Ghost(last_sp),
                );
                x_seam = r.0;
                y_seam = r.1;
                corner_y_seam = r.2;
                snap_to_ground = r.3;
                proof {
                    last_sp = r.4@;
                }
                yi = yi + 1;
            }
            proof {
                lemma_column_end(
                    *self,
                    q,
                    layer,
                    xi as int,
                    x_seam,
                    y_seam,
                    corner_y_seam,
                    last_sp,
                    snap_to_ground,
                );
            }
            xi = xi + 1;
        }
        proof {
            lemma_scan_complete(
                *self,
                q,
                layer,
                x_seam,
                y_seam,
                corner_y_seam,
                last_sp,
                snap_to_ground,
            );
        }

        if corner_y_seam.is_some() && x_seam.is_none() && y_seam.is_none() {
            y_seam = corner_y_seam;
        }

        Collision { x_seam, y_seam, snap_to_ground }
    }
}
// ---------------------------------------------------------------------------
// Laws of seam resolution.
// ---------------------------------------------------------------------------

/// Nearest-obstacle determinism: at most one value satisfies
/// `is_resolution` for a given grid, query and layer. Since the predicate
/// is stated over the set of candidate tiles and not over any visiting
/// order, the resolved seams are independent of tile iteration order:
/// however the tiles are scanned, the nearest candidate per the
/// strictness rule wins.
pub proof fn lemma_resolution_unique(
    tm: CollideTilemap,
    q: SeamQuery,
    layer: CollisionLayer,
    c1: Collision,
    c2: Collision,
)
    requires
        is_resolution(tm, q, layer, c1),
        is_resolution(tm, q, layer, c2),
    ensures
        c1 == c2,
{
    match (c1.x_seam, c2.x_seam) {
        (Some(v1), Some(v2)) => {
            let (a1, b1): (int, int) = choose|a: int, b: int|
                x_cand(tm, q, layer, a, b) && x_cand_val(tm, q, a, b) == v1 as int;
            let (a2, b2): (int, int) = choose|a: int, b: int|
                x_cand(tm, q, layer, a, b) && x_cand_val(tm, q, a, b) == v2 as int;
            assert(x_cand(tm, q, layer, a1, b1));
            assert(x_cand(tm, q, layer, a2, b2));
            assert(v1 == v2);
        },
        (Some(v1), None) => {
            let (a1, b1): (int, int) = choose|a: int, b: int|
                x_cand(tm, q, layer, a, b) && x_cand_val(tm, q, a, b) == v1 as int;
            assert(x_cand(tm, q, layer, a1, b1));
            assert(false);
        },
        (None, Some(v2)) => {
            let (a2, b2): (int, int) = choose|a: int, b: int|
                x_cand(tm, q, layer, a, b) && x_cand_val(tm, q, a, b) == v2 as int;
            assert(x_cand(tm, q, layer, a2, b2));
            assert(false);
        },
        (None, None) => {},
    }
    match (c1.y_seam, c2.y_seam) {
        (Some(v1), Some(v2)) => {
            if y_seam_extremal(tm, q, layer, v1 as int) && y_seam_extremal(
                tm,
                q,
                layer,
                v2 as int,
            ) {
                let (a1, b1): (int, int) = choose|a: int, b: int|
                    y_cand(tm, q, layer, a, b) && y_cand_val(tm, q, a, b) == v1 as int;
                let (a2, b2): (int, int) = choose|a: int, b: int|
                    y_cand(tm, q, layer, a, b) && y_cand_val(tm, q, a, b) == v2 as int;
                assert(y_cand(tm, q, layer, a1, b1));
                assert(y_cand(tm, q, layer, a2, b2));
                assert(v1 == v2);
            } else if y_seam_extremal(tm, q, layer, v1 as int) {
                let (a1, b1): (int, int) = choose|a: int, b: int|
                    y_cand(tm, q, layer, a, b) && y_cand_val(tm, q, a, b) == v1 as int;
                assert(y_cand(tm, q, layer, a1, b1));
                assert(false);
            } else if y_seam_extremal(tm, q, layer, v2 as int) {
                let (a2, b2): (int, int) = choose|a: int, b: int|
                    y_cand(tm, q, layer, a, b) && y_cand_val(tm, q, a, b) == v2 as int;
                assert(y_cand(tm, q, layer, a2, b2));
                assert(false);
            } else {
                assert(Some(v1 as int) == Some(v2 as int));
            }
        },
        (Some(v1), None) => {
            if y_seam_extremal(tm, q, layer, v1 as int) {
                let (a1, b1): (int, int) = choose|a: int, b: int|
                    y_cand(tm, q, layer, a, b) && y_cand_val(tm, q, a, b) == v1 as int;
                assert(y_cand(tm, q, layer, a1, b1));
                assert(false);
            } else {
                assert(c1.x_seam is None && no_x_cand(tm, q, layer));
                assert(c2.x_seam is None);
                assert(false);
            }
        },
        (None, Some(v2)) => {
            if y_seam_extremal(tm, q, layer, v2 as int) {
                let (a2, b2): (int, int) = choose|a: int, b: int|
                    y_cand(tm, q, layer, a, b) && y_cand_val(tm, q, a, b) == v2 as int;
                assert(y_cand(tm, q, layer, a2, b2));
                assert(false);
            } else {
                assert(c2.x_seam is None && no_x_cand(tm, q, layer));
                assert(c1.x_seam is None);
                assert(false);
            }
        },
        (None, None) => {},
    }
}

/// The resolution of a query: the unique value satisfying
/// `is_resolution`.
pub open spec fn resolution_of(tm: CollideTilemap, q: SeamQuery, layer: CollisionLayer) -> Collision {
    choose|c: Collision| is_resolution(tm, q, layer, c)
}

/// No-obstruction identity: if no interior tile in the swept range
/// collides, resolution yields no seams and no snap signal, and the
/// resolved delta is the desired delta unchanged.
pub proof fn lemma_no_obstruction(
    tm: CollideTilemap,
    movement: Vec2,
    hitbox: Rect,
    layer: CollisionLayer,
    c: Collision,
)
    requires
        is_resolution(tm, query_of(movement, hitbox), layer, c),
        forall|xi: int, yi: int| !scan_colliding(tm, query_of(movement, hitbox), layer, xi, yi),
    ensures
        c == (Collision { x_seam: None, y_seam: None, snap_to_ground: false }),
        resolved_x_raw(movement, hitbox, c) == movement.x.raw,
        resolved_y_raw(movement, hitbox, c) == movement.y.raw,
{
    let q = query_of(movement, hitbox);
    match c.x_seam {
        Some(v) => {
            let (a, b): (int, int) = choose|a: int, b: int|
                x_cand(tm, q, layer, a, b) && x_cand_val(tm, q, a, b) == v as int;
            assert(x_cand(tm, q, layer, a, b));
            assert(!scan_colliding(tm, q, layer, a, b));
            assert(false);
        },
        None => {},
    }
    match c.y_seam {
        Some(v) => {
            if y_seam_extremal(tm, q, layer, v as int) {
                let (a, b): (int, int) = choose|a: int, b: int|
                    y_cand(tm, q, layer, a, b) && y_cand_val(tm, q, a, b) == v as int;
                assert(y_cand(tm, q, layer, a, b));
                assert(!scan_colliding(tm, q, layer, a, b));
                assert(false);
            } else {
                match (q.entered_x(), q.entered_y()) {
                    (Some(ex), Some(ey)) => {
                        assert(!scan_colliding(tm, q, layer, ex, ey));
                        assert(false);
                    },
                    _ => {
                        assert(false);
                    },
                }
            }
        },
        None => {},
    }
    if c.snap_to_ground {
        let (a, b): (int, int) = choose|a: int, b: int|
            sp_run(tm, q, layer, a, b) && tile_is_slope(tm.tile_at(a, b)) && (forall|
                xj: int,
                yj: int,
            |
                sp_run(tm, q, layer, xj, yj) ==> !lex_lt(a, b, xj, yj));
        assert(sp_run(tm, q, layer, a, b));
        assert(!scan_colliding(tm, q, layer, a, b));
        assert(false);
    }
}

/// Zero-delta idempotence: a query with no desired movement, from a
/// position whose hitbox overlaps no colliding partial-shape tile (wall
/// strip or slope), resolves to no seams, no snap, and a zero delta. An
/// entity embedded in a slope is the exception: the slope still pushes it
/// to the ramp surface, which is why the premise excludes such overlaps.
pub proof fn lemma_zero_delta(
    tm: CollideTilemap,
    movement: Vec2,
    hitbox: Rect,
    layer: CollisionLayer,
    c: Collision,
)
    requires
        movement.x.raw == 0,
        movement.y.raw == 0,
        is_resolution(tm, query_of(movement, hitbox), layer, c),
        forall|xi: int, yi: int|
            #[trigger] scan_colliding(tm, query_of(movement, hitbox), layer, xi, yi)
                ==> !tile_is_nonstandard(tm.tile_at(xi, yi)),
    ensures
        c == (Collision { x_seam: None, y_seam: None, snap_to_ground: false }),
        resolved_x_raw(movement, hitbox, c) == 0,
        resolved_y_raw(movement, hitbox, c) == 0,
{
    let q = query_of(movement, hitbox);
    assert(q.entered_x() is None);
    assert(q.entered_y() is None);
    match c.x_seam {
        Some(v) => {
            let (a, b): (int, int) = choose|a: int, b: int|
                x_cand(tm, q, layer, a, b) && x_cand_val(tm, q, a, b) == v as int;
            assert(x_cand(tm, q, layer, a, b));
            assert(scan_colliding(tm, q, layer, a, b));
            assert(false);
        },
        None => {},
    }
    match c.y_seam {
        Some(v) => {
            if y_seam_extremal(tm, q, layer, v as int) {
                let (a, b): (int, int) = choose|a: int, b: int|
                    y_cand(tm, q, layer, a, b) && y_cand_val(tm, q, a, b) == v as int;
                assert(y_cand(tm, q, layer, a, b));
                assert(scan_colliding(tm, q, layer, a, b));
                assert(false);
            } else {
                assert(corner_cand(tm, q, layer) is None);
                assert(false);
            }
        },
        None => {},
    }
    if c.snap_to_ground {
        let (a, b): (int, int) = choose|a: int, b: int|
            sp_run(tm, q, layer, a, b) && tile_is_slope(tm.tile_at(a, b)) && (forall|
                xj: int,
                yj: int,
            |
                sp_run(tm, q, layer, xj, yj) ==> !lex_lt(a, b, xj, yj));
        assert(sp_run(tm, q, layer, a, b));
        assert(scan_colliding(tm, q, layer, a, b));
        assert(false);
    }
}

/// Non-penetration: when the movement newly enters the column of a
/// colliding `Solid` tile (and not its row), an x seam exists, the
/// resolved delta lands the hitbox's leading edge exactly on that seam,
/// and the seam never lies strictly beyond the face of the blocking tile:
/// the leading edge does not cross the boundary it was blocked by.
pub proof fn lemma_non_penetration_x(
    tm: CollideTilemap,
    movement: Vec2,
    hitbox: Rect,
    layer: CollisionLayer,
    c: Collision,
    xi: int,
    yi: int,
)
    requires
        is_resolution(tm, query_of(movement, hitbox), layer, c),
        scan_colliding(tm, query_of(movement, hitbox), layer, xi, yi),
        query_of(movement, hitbox).is_entered_x(xi),
        !query_of(movement, hitbox).is_entered_y(yi),
        tm.tile_at(xi, yi) is Solid,
    ensures
        c.x_seam is Some,
        movement.x.raw > 0 ==> hitbox.position.x.raw + resolved_x_raw(movement, hitbox, c)
            + hitbox.size.x.raw == (c.x_seam->Some_0) * 256 && c.x_seam->Some_0 <= xi * 16,
        movement.x.raw < 0 ==> hitbox.position.x.raw + resolved_x_raw(movement, hitbox, c) == (
        c.x_seam->Some_0) * 256 && c.x_seam->Some_0 >= (xi + 1) * 16,
{
    let q = query_of(movement, hitbox);
    assert(x_cand(tm, q, layer, xi, yi));
    match c.x_seam {
        Some(v) => {
            assert(x_cand_val(tm, q, xi, yi) == (if q.moving_left() {
                (xi + 1) * 16
            } else {
                xi * 16
            }));
            if movement.x.raw == 0 {
                assert(q.entered_x() is None);
                assert(false);
            }
        },
        None => {
            assert(false);
        },
    }
}

/// Non-penetration on the y axis: when the movement newly enters the row
/// of a colliding `Solid` tile (and not its column), a y seam exists, the
/// resolved delta lands the hitbox's leading edge exactly on that seam,
/// and the seam never lies strictly beyond the face of the blocking tile.
pub proof fn lemma_non_penetration_y(
    tm: CollideTilemap,
    movement: Vec2,
    hitbox: Rect,
    layer: CollisionLayer,
    c: Collision,
    xi: int,
    yi: int,
)
    requires
        is_resolution(tm, query_of(movement, hitbox), layer, c),
        scan_colliding(tm, query_of(movement, hitbox), layer, xi, yi),
        query_of(movement, hitbox).is_entered_y(yi),
        !query_of(movement, hitbox).is_entered_x(xi),
        tm.tile_at(xi, yi) is Solid,
    ensures
        c.y_seam is Some,
        movement.y.raw > 0 ==> hitbox.position.y.raw + resolved_y_raw(movement, hitbox, c)
            + hitbox.size.y.raw == (c.y_seam->Some_0) * 256 && c.y_seam->Some_0 <= yi * 16,
        movement.y.raw < 0 ==> hitbox.position.y.raw + resolved_y_raw(movement, hitbox, c) == (
        c.y_seam->Some_0) * 256 && c.y_seam->Some_0 >= (yi + 1) * 16,
{
    let q = query_of(movement, hitbox);
    assert(y_cand(tm, q, layer, xi, yi));
    match c.y_seam {
        Some(v) => {
            assert(y_cand_val(tm, q, xi, yi) == (if q.moving_up() {
                (yi + 1) * 16
            } else {
                yi * 16
            }));
            if !y_seam_extremal(tm, q, layer, v as int) {
                assert(no_y_cand(tm, q, layer));
                assert(false);
            }
            if movement.y.raw == 0 {
                assert(q.entered_y() is None);
                assert(false);
            }
        },
        None => {
            assert(false);
        },
    }
}

} // verus!
