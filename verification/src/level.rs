//! The level's own metatile map, with a simplified seam query.
//!
//! Cells hold a metatile index; any nonzero cell is solid. Unlike the
//! full resolver, this query checks only the newly entered row and
//! column, against the hitbox's current (not moved) extent, and clamps
//! nothing itself.

use vstd::prelude::*;
use crate::math::{Vec2, Rect};
use crate::collision::{tile_of, vec_ok, hitbox_ok};

verus! {

/// A seam per axis, in pixels; no snap signal.
#[derive(Clone, Copy, PartialEq, Eq, Structural, Debug)]
pub struct Collision {
    pub x_seam: Option<i32>,
    pub y_seam: Option<i32>,
}

/// A row-major grid of metatile indices; zero is open, anything else
/// solid.
pub struct Tilemap {
    pub data: Vec<u8>,
    pub width: usize,
    pub height: usize,
}

/// The leading edge for this query: the far edge only when moving
/// strictly in the positive direction.
pub open spec fn lead_edge_pos(m: int, p: int, s: int) -> int {
    if m > 0 {
        p + s - 1
    } else {
        p
    }
}

/// The tile index the leading edge newly crosses into, if it changes.
pub open spec fn entered_pos(m: int, p: int, s: int) -> Option<int> {
    let e = lead_edge_pos(m, p, s);
    if tile_of(e) != tile_of(e + m) {
        Some(tile_of(e + m))
    } else {
        None
    }
}

impl Tilemap {
    /// A well-formed map: positive dimensions in range, one cell per
    /// grid position.
    pub open spec fn wf(self) -> bool {
        &&& 0 < self.width <= 0x8000
        &&& self.height <= 0x8000
        &&& self.data.len() == self.width * self.height
    }

    /// The metatile stored at cell `(xi, yi)`.
    pub open spec fn cell(self, xi: int, yi: int) -> u8 {
        self.data[yi * self.width + xi]
    }

    /// Whether some solid cell of row `yi` lies under the hitbox's
    /// current horizontal extent.
    pub open spec fn row_blocked(self, yi: int, px: int, sx: int) -> bool {
        exists|i: int|
            #![auto]
            tile_of(px) <= i <= tile_of(px + sx - 1) && 0 <= i < self.width && self.cell(i, yi)
                != 0
    }

    /// Whether some solid cell of column `xi` lies under the hitbox's
    /// current vertical extent.
    pub open spec fn col_blocked(self, xi: int, py: int, sy: int) -> bool {
        exists|i: int|
            #![auto]
            tile_of(py) <= i <= tile_of(py + sy - 1) && 0 <= i < self.height && self.cell(xi, i)
                != 0
    }

    /// The y seam of a query: present exactly when the movement newly
    /// enters an in-range row with a solid cell under the hitbox, at
    /// that row's near boundary.
    pub open spec fn y_seam_spec(self, movement: Vec2, hitbox: Rect) -> Option<i32> {
        match entered_pos(
            movement.y.raw as int,
            hitbox.position.y.raw as int,
            hitbox.size.y.raw as int,
        ) {
            Some(ey) => if 0 <= ey < self.height && self.row_blocked(
                ey,
                hitbox.position.x.raw as int,
                hitbox.size.x.raw as int,
            ) {
                if movement.y.raw < 0 {
                    Some(((ey + 1) * 16) as i32)
                } else {
                    Some((ey * 16) as i32)
                }
            } else {
                None
            },
            None => None,
        }
    }

    /// The x seam of a query, symmetrically.
    pub open spec fn x_seam_spec(self, movement: Vec2, hitbox: Rect) -> Option<i32> {
        match entered_pos(
            movement.x.raw as int,
            hitbox.position.x.raw as int,
            hitbox.size.x.raw as int,
        ) {
            Some(ex) => if 0 <= ex < self.width && self.col_blocked(
                ex,
                hitbox.position.y.raw as int,
                hitbox.size.y.raw as int,
            ) {
                if movement.x.raw < 0 {
                    Some(((ex + 1) * 16) as i32)
                } else {
                    Some((ex * 16) as i32)
                }
            } else {
                None
            },
            None => None,
        }
    }

    /// Builds a map from its cells and width; the cell count must be a
    /// whole number of rows, a malformed grid being a configuration
    /// error.
    pub fn new(data: Vec<u8>, width: usize) -> (r: Tilemap)
        requires
            0 < width <= 0x8000,
            data.len() % width == 0,
            data.len() / width <= 0x8000,
        ensures
            r.wf(),
            r.data == data,
            r.width == width,
            r.height == data.len() / width,
    {
        let height = data.len() / width;
        proof {
            vstd::arithmetic::div_mod::lemma_fundamental_div_mod(
                data.len() as int,
                width as int,
            );
        }
        Tilemap { data, width, height }
    }
}
impl Tilemap {
    /// The seam query for this map: for each axis whose movement newly
    /// enters an in-range row or column, scans the hitbox's current
    /// extent on the other axis and, where a solid cell lies under it,
    /// returns that row's or column's boundary nearest the approach.
    #[verifier::loop_isolation(false)]
    #[verifier::rlimit(60)]
    pub fn get_collision_seams(&self, movement: Vec2, hitbox: Rect) -> (c: Collision)
        requires
            self.wf(),
            vec_ok(movement),
            hitbox_ok(hitbox),
        ensures
            c.x_seam == self.x_seam_spec(movement, hitbox),
            c.y_seam == self.y_seam_spec(movement, hitbox),
    {
        let entered_x: Option<i32> = {
            let cur_edge: i32 = if movement.x.raw > 0 {
                hitbox.position.x.raw + hitbox.size.x.raw - 1
            } else {
                hitbox.position.x.raw
            };
            let before = crate::collision::div_tile(cur_edge);
            let after = crate::collision::div_tile(cur_edge + movement.x.raw);
            if before != after {
                Some(after)
            } else {
                None
            }
        };
        let entered_y: Option<i32> = {
            let cur_edge: i32 = if movement.y.raw > 0 {
                hitbox.position.y.raw + hitbox.size.y.raw - 1
            } else {
                hitbox.position.y.raw
            };
            let before = crate::collision::div_tile(cur_edge);
            let after = crate::collision::div_tile(cur_edge + movement.y.raw);
            if before != after {
                Some(after)
            } else {
                None
            }
        };

        let y_seam: Option<i32> = match entered_y {
            Some(ey) => {
                if ey >= 0 && ey < self.height as i32 {
                    let tile_left = crate::collision::div_tile(hitbox.position.x.raw);
                    let tile_right = crate::collision::div_tile(
                        hitbox.position.x.raw + hitbox.size.x.raw - 1,
                    );
                    let mut result: Option<i32> = None;
                    let mut i = tile_left;
                    while i <= tile_right
                        invariant
                            tile_left <= i <= tile_right + 1,
                            0 <= ey < self.height,
                            match result {
                                Some(v) => {
                                    &&& v == (if movement.y.raw < 0 {
                                        (ey + 1) * 16
                                    } else {
                                        ey * 16
                                    })
                                    &&& exists|k: int|
                                        #![auto]
                                        tile_left <= k < i && 0 <= k < self.width && self.cell(
                                            k,
                                            ey as int,
                                        ) != 0
                                },
                                None => forall|k: int|
                                    #![auto]
                                    tile_left <= k < i ==> !(0 <= k < self.width && self.cell(
                                        k,
                                        ey as int,
                                    ) != 0),
                            },
                        decreases tile_right + 1 - i,
                    {
                        if i >= 0 && i < self.width as i32 {
                            proof {
                                assert(((ey as int) * (self.width as int) + i as int) < (
                                self.width as int) * (self.height as int)) by (nonlinear_arith)
                                    requires
                                        0 <= (i as int) && (i as int) < (self.width as int),
                                        0 <= (ey as int) && (ey as int) < (self.height as int),
                                ;
                                assert((ey as int) * (self.width as int) >= 0) by (nonlinear_arith)
                                    requires
                                        0 <= (ey as int),
                                        0 <= (self.width as int),
                                ;
                            }
                            let idx: usize = (ey as usize) * self.width + (i as usize);
                            if self.data[idx] != 0 {
                                let upper_y = if movement.y.raw < 0 {
                                    ey + 1
                                } else {
                                    ey
                                };
                                result = Some(upper_y * 16);
                                proof {
                                    assert(self.cell(i as int, ey as int) != 0);
                                    assert(exists|k: int|
                                        #![auto]
                                        tile_left <= k < (i as int) + 1 && 0 <= k < self.width
                                            && self.cell(k, ey as int) != 0) by {
                                        assert(tile_left <= (i as int) && (i as int) < (i as int) + 1 && 0 <= (
                                        i as int) < self.width && self.cell(i as int, ey as int)
                                            != 0);
                                    }
                                }
                            }
                        }
                        i = i + 1;
                    }
                    result
                } else {
                    None
                }
            },
            None => None,
        };

        let x_seam: Option<i32> = match entered_x {
            Some(ex) => {
                if ex >= 0 && ex < self.width as i32 {
                    let tile_up = crate::collision::div_tile(hitbox.position.y.raw);
                    let tile_down = crate::collision::div_tile(
                        hitbox.position.y.raw + hitbox.size.y.raw - 1,
                    );
                    let mut result: Option<i32> = None;
                    let mut i = tile_up;
                    while i <= tile_down
                        invariant
                            tile_up <= i <= tile_down + 1,
                            0 <= ex < self.width,
                            match result {
                                Some(v) => {
                                    &&& v == (if movement.x.raw < 0 {
                                        (ex + 1) * 16
                                    } else {
                                        ex * 16
                                    })
                                    &&& exists|k: int|
                                        #![auto]
                                        tile_up <= k < i && 0 <= k < self.height && self.cell(
                                            ex as int,
                                            k,
                                        ) != 0
                                },
                                None => forall|k: int|
                                    #![auto]
                                    tile_up <= k < i ==> !(0 <= k < self.height && self.cell(
                                        ex as int,
                                        k,
                                    ) != 0),
                            },
                        decreases tile_down + 1 - i,
                    {
                        if i >= 0 && i < self.height as i32 {
                            proof {
                                assert(((i as int) * (self.width as int) + ex as int) < (
                                self.width as int) * (self.height as int)) by (nonlinear_arith)
                                    requires
                                        0 <= (ex as int) && (ex as int) < (self.width as int),
                                        0 <= (i as int) && (i as int) < (self.height as int),
                                ;
                                assert((i as int) * (self.width as int) >= 0) by (nonlinear_arith)
                                    requires
                                        0 <= (i as int),
                                        0 <= (self.width as int),
                                ;
                            }
                            let idx: usize = (i as usize) * self.width + (ex as usize);
                            if self.data[idx] != 0 {
                                let left_x = if movement.x.raw < 0 {
                                    ex + 1
                                } else {
                                    ex
                                };
                                result = Some(left_x * 16);
                                proof {
                                    assert(self.cell(ex as int, i as int) != 0);
                                    assert(exists|k: int|
                                        #![auto]
                                        tile_up <= k < (i as int) + 1 && 0 <= k < self.height
                                            && self.cell(ex as int, k) != 0) by {
                                        assert(tile_up <= (i as int) && (i as int) < (i as int) + 1 && 0 <= (
                                        i as int) < self.height && self.cell(ex as int, i as int)
                                            != 0);
                                    }
                                }
                            }
                        }
                        i = i + 1;
                    }
                    result
                } else {
                    None
                }
            },
            None => None,
        };

        Collision { x_seam, y_seam }
    }
}

} // verus!
