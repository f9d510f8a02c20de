//! Metatile maps: tile indices with flip state, 2 x 2 metatiles, and the
//! lookup from a tile position to the flipped tile to draw there.

use vstd::prelude::*;
use crate::math::trunc_div;
use crate::collision::{CollideTileType, CollideTilemap};

verus! {

/// A tile index together with its flip state: not flipped, flipped on x,
/// on y, or on both.
#[derive(Clone, Copy, PartialEq, Eq, Structural, Debug)]
pub enum FlipTile<I> {
    N(I),
    X(I),
    Y(I),
    XY(I),
}

impl<I> FlipTile<I> {
    /// The carried tile index.
    pub open spec fn spec_idx(self) -> I {
        match self {
            FlipTile::N(i) => i,
            FlipTile::X(i) => i,
            FlipTile::Y(i) => i,
            FlipTile::XY(i) => i,
        }
    }

    /// Whether the tile is flipped horizontally.
    pub open spec fn spec_x_flipped(self) -> bool {
        self is X || self is XY
    }

    /// Whether the tile is flipped vertically.
    pub open spec fn spec_y_flipped(self) -> bool {
        self is Y || self is XY
    }

    /// This tile with its horizontal flip toggled.
    pub open spec fn spec_flip_x(self) -> FlipTile<I> {
        match self {
            FlipTile::N(i) => FlipTile::X(i),
            FlipTile::X(i) => FlipTile::N(i),
            FlipTile::Y(i) => FlipTile::XY(i),
            FlipTile::XY(i) => FlipTile::Y(i),
        }
    }

    /// This tile with its vertical flip toggled.
    pub open spec fn spec_flip_y(self) -> FlipTile<I> {
        match self {
            FlipTile::N(i) => FlipTile::Y(i),
            FlipTile::Y(i) => FlipTile::N(i),
            FlipTile::X(i) => FlipTile::XY(i),
            FlipTile::XY(i) => FlipTile::X(i),
        }
    }

    /// The carried tile index.
    pub fn idx(self) -> (r: I)
        ensures
            r == self.spec_idx(),
    {
        match self {
            FlipTile::N(idx) => idx,
            FlipTile::X(idx) => idx,
            FlipTile::Y(idx) => idx,
            FlipTile::XY(idx) => idx,
        }
    }

    /// Whether the tile is flipped horizontally.
    pub fn x_flipped(self) -> (r: bool)
        ensures
            r == self.spec_x_flipped(),
    {
        match self {
            FlipTile::X(_) => true,
            FlipTile::XY(_) => true,
            _ => false,
        }
    }

    /// Whether the tile is flipped vertically.
    pub fn y_flipped(self) -> (r: bool)
        ensures
            r == self.spec_y_flipped(),
    {
        match self {
            FlipTile::Y(_) => true,
            FlipTile::XY(_) => true,
            _ => false,
        }
    }

    /// Toggles the horizontal flip; applying it twice restores the tile.
    pub fn flip_x(self) -> (r: FlipTile<I>)
        ensures
            r == self.spec_flip_x(),
            r.spec_flip_x() == self,
    {
        match self {
            FlipTile::N(idx) => FlipTile::X(idx),
            FlipTile::X(idx) => FlipTile::N(idx),
            FlipTile::Y(idx) => FlipTile::XY(idx),
            FlipTile::XY(idx) => FlipTile::Y(idx),
        }
    }

    /// Toggles the vertical flip; applying it twice restores the tile.
    pub fn flip_y(self) -> (r: FlipTile<I>)
        ensures
            r == self.spec_flip_y(),
            r.spec_flip_y() == self,
    {
        match self {
            FlipTile::N(idx) => FlipTile::Y(idx),
            FlipTile::Y(idx) => FlipTile::N(idx),
            FlipTile::X(idx) => FlipTile::XY(idx),
            FlipTile::XY(idx) => FlipTile::X(idx),
        }
    }
}

/// A 2 x 2 group of flip tiles sharing one logical classification.
#[derive(Clone, Copy, PartialEq, Eq, Structural, Debug)]
pub struct Metatile {
    pub ul: FlipTile<usize>,
    pub ur: FlipTile<usize>,
    pub ll: FlipTile<usize>,
    pub lr: FlipTile<usize>,
}

impl Metatile {
    /// The metatile with the given quadrants.
    pub fn new(
        ul: FlipTile<usize>,
        ur: FlipTile<usize>,
        ll: FlipTile<usize>,
        lr: FlipTile<usize>,
    ) -> (r: Metatile)
        ensures
            r == (Metatile { ul, ur, ll, lr }),
    {
        Metatile { ul, ur, ll, lr }
    }

    /// This metatile mirrored horizontally.
    pub open spec fn spec_flip_x(self) -> Metatile {
        Metatile {
            ul: self.ur.spec_flip_x(),
            ur: self.ul.spec_flip_x(),
            ll: self.lr.spec_flip_x(),
            lr: self.ll.spec_flip_x(),
        }
    }

    /// This metatile mirrored vertically.
    pub open spec fn spec_flip_y(self) -> Metatile {
        Metatile {
            ul: self.ll.spec_flip_y(),
            ur: self.lr.spec_flip_y(),
            ll: self.ul.spec_flip_y(),
            lr: self.ur.spec_flip_y(),
        }
    }

    /// Mirrors the metatile horizontally: columns swap and every quadrant
    /// toggles its horizontal flip. Applying it twice restores the
    /// metatile.
    pub fn flip_x(self) -> (r: Metatile)
        ensures
            r == self.spec_flip_x(),
            r.spec_flip_x() == self,
    {
        Metatile {
            ul: self.ur.flip_x(),
            ur: self.ul.flip_x(),
            ll: self.lr.flip_x(),
            lr: self.ll.flip_x(),
        }
    }

    /// Mirrors the metatile vertically; applying it twice restores the
    /// metatile.
    pub fn flip_y(self) -> (r: Metatile)
        ensures
            r == self.spec_flip_y(),
            r.spec_flip_y() == self,
    {
        Metatile {
            ul: self.ll.flip_y(),
            ur: self.lr.flip_y(),
            ll: self.ul.flip_y(),
            lr: self.ur.flip_y(),
        }
    }
}

/// Rust-style remainder of `v` by 2: the difference from the truncated
/// quotient, so it carries the dividend's sign.
pub open spec fn rem2(v: int) -> int {
    v - 2 * trunc_div(v, 2)
}

/// A complete level map: a primary metatile layer, optional background
/// and foreground layers, the collision grid, and the metatile
/// definitions.
pub struct Tilemap {
    pub data: Vec<FlipTile<u8>>,
    pub background_data: Option<Vec<FlipTile<u8>>>,
    pub foreground_data: Option<Vec<FlipTile<u8>>>,
    pub collision_data: Vec<CollideTileType>,
    pub width: usize,
    pub height: usize,
    pub metatiles: Vec<Metatile>,
}

/// Every metatile reference in a layer points into the metatile list.
pub open spec fn layer_refs_ok(data: Seq<FlipTile<u8>>, n_metatiles: int) -> bool {
    forall|i: int| 0 <= i < data.len() ==> (#[trigger] data[i]).spec_idx() <= n_metatiles
}

impl Tilemap {
    /// A well-formed map: positive dimensions in range, one cell per
    /// position in every layer, and all metatile references valid.
    pub open spec fn wf(self) -> bool {
        &&& 0 < self.width <= 0x8000
        &&& 0 < self.height <= 0x8000
        &&& self.data.len() == self.width * self.height
        &&& self.collision_data.len() == self.width * self.height
        &&& match self.background_data {
            Some(bg) => bg.len() == self.width * self.height && layer_refs_ok(
                bg@,
                self.metatiles.len() as int,
            ),
            None => true,
        }
        &&& match self.foreground_data {
            Some(fg) => fg.len() == self.width * self.height && layer_refs_ok(
                fg@,
                self.metatiles.len() as int,
            ),
            None => true,
        }
        &&& layer_refs_ok(self.data@, self.metatiles.len() as int)
    }

    /// The flipped tile a layer shows at tile position `(x, y)`: the
    /// quadrant of the (possibly mirrored) metatile there, or an unflipped
    /// zero for blank and out-of-range positions.
    pub open spec fn tile_spec(self, data: Seq<FlipTile<u8>>, x: int, y: int) -> FlipTile<usize> {
        let mx = trunc_div(x, 2);
        let my = trunc_div(y, 2);
        if mx < 0 || mx >= self.width || my < 0 || my >= self.height {
            FlipTile::N(0)
        } else {
            let ft = data[my * self.width + mx];
            if ft.spec_idx() > 0 {
                let base = self.metatiles[ft.spec_idx() - 1];
                let m1 = if ft.spec_x_flipped() {
                    base.spec_flip_x()
                } else {
                    base
                };
                let m2 = if ft.spec_y_flipped() {
                    m1.spec_flip_y()
                } else {
                    m1
                };
                let quadrant = match (rem2(y) == 1, rem2(x) == 1) {
                    (false, false) => m2.ul,
                    (false, true) => m2.ur,
                    (true, false) => m2.ll,
                    (true, true) => m2.lr,
                };
                if quadrant.spec_idx() > 0 {
                    quadrant
                } else {
                    FlipTile::N(0)
                }
            } else {
                FlipTile::N(0)
            }
        }
    }

    /// Builds a map from its layers; a layer whose cell count does not
    /// match the grid is a configuration error.
    pub fn new(
        data: Vec<FlipTile<u8>>,
        bg: Option<Vec<FlipTile<u8>>>,
        fg: Option<Vec<FlipTile<u8>>>,
        col: Vec<CollideTileType>,
        width: usize,
        metatiles: Vec<Metatile>,
    ) -> (r: Tilemap)
        requires
            0 < width <= 0x8000,
            data@.len() as int % (width as int) == 0,
            data@.len() as int / (width as int) <= 0x8000,
            data.len() > 0,
            col.len() == data.len(),
            match bg {
                Some(b) => b.len() == data.len() && layer_refs_ok(b@, metatiles.len() as int),
                None => true,
            },
            match fg {
                Some(f) => f.len() == data.len() && layer_refs_ok(f@, metatiles.len() as int),
                None => true,
            },
            layer_refs_ok(data@, metatiles.len() as int),
        ensures
            r.wf(),
            r.data == data,
            r.background_data == bg,
            r.foreground_data == fg,
            r.collision_data == col,
            r.width == width,
            r.height == data.len() / width,
            r.metatiles == metatiles,
    {
        let height = data.len() / width;
        proof {
            vstd::arithmetic::div_mod::lemma_fundamental_div_mod(
                data.len() as int,
                width as int,
            );
            assert(height >= 1) by (nonlinear_arith)
                requires
                    data@.len() == width as int * height as int,
                    data@.len() > 0,
                    width >= 1,
            ;
        }
        Tilemap { data, background_data: bg, foreground_data: fg, collision_data: col, width, height, metatiles }
    }

    /// The collision grid of this map.
    pub fn to_collide_tilemap(&self) -> (r: CollideTilemap)
        requires
            self.wf(),
        ensures
            r.wf(),
            r.data@ == self.collision_data@,
            r.width == self.width,
            r.height == self.height,
    {
        CollideTilemap {
            data: self.collision_data.clone(),
            width: self.width,
            height: self.height,
        }
    }
}
/// The Rust-style remainder by 2 equals the sign-carrying piecewise form.
proof fn lemma_rem2(v: int)
    ensures
        rem2(v) == (if v >= 0 {
            v % 2
        } else {
            -((-v) % 2)
        }),
{
    if v >= 0 {
        vstd::arithmetic::div_mod::lemma_fundamental_div_mod(v, 2);
    } else {
        vstd::arithmetic::div_mod::lemma_fundamental_div_mod(-v, 2);
    }
}

impl Tilemap {
    /// The flipped tile `data` shows at tile position `(x, y)`.
    fn get_tile(&self, data: &Vec<FlipTile<u8>>, x: i32, y: i32) -> (r: FlipTile<usize>)
        requires
            self.wf(),
            data.len() == self.width * self.height,
            layer_refs_ok(data@, self.metatiles.len() as int),
        ensures
            r == self.tile_spec(data@, x as int, y as int),
    {
        let mx: i32 = match x.checked_div(2) {
            Some(q) => q,
            None => 0,  // unreachable: the divisor is positive
        };
        let my: i32 = match y.checked_div(2) {
            Some(q) => q,
            None => 0,  // unreachable: the divisor is positive
        };
        proof {
            assert(mx == trunc_div(x as int, 2));
            assert(my == trunc_div(y as int, 2));
        }
        if mx < 0 || mx >= self.width as i32 || my < 0 || my >= self.height as i32 {
            return FlipTile::N(0);
        }
        proof {
            assert(((my as int) * (self.width as int) + mx as int) < (self.width as int) * (
            self.height as int)) by (nonlinear_arith)
                requires
                    0 <= (mx as int) && (mx as int) < (self.width as int),
                    0 <= (my as int) && (my as int) < (self.height as int),
            ;
            assert((my as int) * (self.width as int) >= 0) by (nonlinear_arith)
                requires
                    0 <= (my as int),
                    0 <= (self.width as int),
            ;
        }
        let cell_idx: usize = (my as usize) * self.width + (mx as usize);
        let ft = data[cell_idx];
        if ft.idx() > 0 {
            proof {
                assert(data@[cell_idx as int].spec_idx() <= self.metatiles.len());
            }
            let metatile_idx: u8 = ft.idx() - 1;
            let mut metatile = self.metatiles[metatile_idx as usize];
            if ft.x_flipped() {
                metatile = metatile.flip_x();
            }
            if ft.y_flipped() {
                metatile = metatile.flip_y();
            }
            let lower = match y.checked_rem(2) {
                Some(r) => r == 1,
                None => false,  // unreachable: the divisor is positive
            };
            let right = match x.checked_rem(2) {
                Some(r) => r == 1,
                None => false,  // unreachable: the divisor is positive
            };
            proof {
                lemma_rem2(x as int);
                lemma_rem2(y as int);
                assert(lower == (rem2(y as int) == 1));
                assert(right == (rem2(x as int) == 1));
            }
            let tile_idx = if lower {
                if right {
                    metatile.lr
                } else {
                    metatile.ll
                }
            } else {
                if right {
                    metatile.ur
                } else {
                    metatile.ul
                }
            };
            if tile_idx.idx() > 0 {
                tile_idx
            } else {
                FlipTile::N(0)
            }
        } else {
            FlipTile::N(0)
        }
    }

    /// The flipped tile of the primary layer at `(x, y)`.
    pub fn primary_tile(&self, x: i32, y: i32) -> (r: FlipTile<usize>)
        requires
            self.wf(),
        ensures
            r == self.tile_spec(self.data@, x as int, y as int),
    {
        self.get_tile(&self.data, x, y)
    }

    /// The flipped tile of the background layer at `(x, y)`; blank when
    /// the map has no background layer.
    pub fn background_tile(&self, x: i32, y: i32) -> (r: FlipTile<usize>)
        requires
            self.wf(),
        ensures
            r == match self.background_data {
                Some(bg) => self.tile_spec(bg@, x as int, y as int),
                None => FlipTile::N(0usize),
            },
    {
        match &self.background_data {
            Some(bg) => self.get_tile(bg, x, y),
            None => FlipTile::N(0),
        }
    }

    /// The flipped tile of the foreground layer at `(x, y)`; blank when
    /// the map has no foreground layer.
    pub fn foreground_tile(&self, x: i32, y: i32) -> (r: FlipTile<usize>)
        requires
            self.wf(),
        ensures
            r == match self.foreground_data {
                Some(fg) => self.tile_spec(fg@, x as int, y as int),
                None => FlipTile::N(0usize),
            },
    {
        match &self.foreground_data {
            Some(fg) => self.get_tile(fg, x, y),
            None => FlipTile::N(0),
        }
    }
}

} // verus!
