//! The tile grid: tiles, their kinds, and bounds-checked access.
use vstd::prelude::*;

verus! {

/// Lengths are measured in milli-pixels: this many make one pixel.
pub const SUBPIXELS: i64 = 1000;

/// The side of a tile, in pixels.
pub const TILE_SIZE_PIXELS: i64 = 32;

/// The side of a tile, in milli-pixels.
pub const TILE_SIZE: i64 = TILE_SIZE_PIXELS * SUBPIXELS;

/// Water held by a full tile (fixed-point fluid quantity).
pub const MAX_WATER_AMOUNT: u16 = 1024;

/// The kind of material that occupies a tile.
#[derive(Clone, Copy, Debug, PartialEq, Eq, Structural)]
pub enum TileType {
    Air,
    Dirt,
    Stone,
    Water,
    Foliage,
}

/// One cell of the world grid.
///
/// `water_amount` is free water for `Water` tiles and stored moisture for
/// `Dirt` tiles; `light_energy` is the light deposited into the tile, which
/// decays over time.
#[derive(Clone, Copy, Debug, PartialEq, Eq, Structural)]
pub struct Tile {
    pub tile_type: TileType,
    pub water_amount: u16,
    pub light_energy: u32,
}

impl TileType {
    /// Solid tiles block entities and light; water never flows into them
    /// (Dirt may still soak some of it up as moisture).
    pub open spec fn spec_is_solid(self) -> bool {
        self == TileType::Dirt || self == TileType::Stone || self == TileType::Foliage
    }

    pub fn is_solid(self) -> (r: bool)
        ensures
            r == self.spec_is_solid(),
    {
        match self {
            TileType::Dirt | TileType::Stone | TileType::Foliage => true,
            TileType::Air | TileType::Water => false,
        }
    }
}

impl Tile {
    /// A tile whose fields are in range, and that holds water only as free
    /// water (Water) or as moisture (Dirt).
    pub open spec fn wf(self) -> bool {
        &&& self.water_amount <= MAX_WATER_AMOUNT
        &&& (self.water_amount > 0 ==> self.tile_type == TileType::Water || self.tile_type
            == TileType::Dirt)
    }

    /// A fresh tile of the given kind: full of water if it is `Water`, dry
    /// otherwise, with no light energy.
    pub open spec fn spec_of_kind(kind: TileType) -> Tile {
        Tile {
            tile_type: kind,
            water_amount: if kind == TileType::Water { MAX_WATER_AMOUNT } else { 0 },
            light_energy: 0,
        }
    }

    pub fn of_kind(kind: TileType) -> (t: Tile)
        ensures
            t == Tile::spec_of_kind(kind),
            t.wf(),
    {
        Tile {
            tile_type: kind,
            water_amount: if kind == TileType::Water { MAX_WATER_AMOUNT } else { 0 },
            light_energy: 0,
        }
    }
}

/// A dense, row-major grid of tiles; the tile at `(x, y)` is at index
/// `y * width + x`, and `y = 0` is the bottom row.
pub struct TileMap {
    pub width: usize,
    pub height: usize,
    pub tiles: Vec<Tile>,
}

/// The index of `(x, y)` in a row-major grid of the given width.
pub open spec fn grid_index(width: int, x: int, y: int) -> int {
    y * width + x
}

/// Every tile of a sequence is in range.
pub open spec fn tiles_wf(s: Seq<Tile>) -> bool {
    forall|i: int| 0 <= i < s.len() ==> (#[trigger] s[i]).wf()
}

pub proof fn lemma_index_in_grid(width: int, height: int, x: int, y: int)
    requires
        0 <= x < width,
        0 <= y < height,
    ensures
        0 <= grid_index(width, x, y) < width * height,
        0 <= y * width <= grid_index(width, x, y),
{
    assert(0 <= y * width) by (nonlinear_arith)
        requires
            0 <= y,
            0 <= width,
    ;
    assert(y * width + width <= height * width) by (nonlinear_arith)
        requires
            y + 1 <= height,
            0 <= width,
    ;
    assert(height * width == width * height) by (nonlinear_arith);
}

impl TileMap {
    /// The tiles vector matches the dimensions and every tile is in range.
    pub open spec fn wf(&self) -> bool {
        &&& self.tiles@.len() == self.width * self.height
        &&& tiles_wf(self.tiles@)
    }

    pub open spec fn in_bounds(&self, x: int, y: int) -> bool {
        0 <= x < self.width && 0 <= y < self.height
    }

    /// The tile at `(x, y)`, for coordinates in bounds.
    pub open spec fn at(&self, x: int, y: int) -> Tile {
        self.tiles@[grid_index(self.width as int, x, y)]
    }

    /// A map of the given size whose tiles are all dry Air.
    pub fn new(width: usize, height: usize) -> (m: TileMap)
        requires
            width * height <= usize::MAX,
        ensures
            m.wf(),
            m.width == width,
            m.height == height,
            forall|i: int| 0 <= i < m.tiles@.len() ==> m.tiles@[i] == Tile::spec_of_kind(TileType::Air),
    {
        let len: usize = width * height;
        let mut tiles: Vec<Tile> = Vec::with_capacity(len);
        let mut i: usize = 0;
        while i < len
            invariant
                i <= len,
                tiles@.len() == i,
                forall|k: int| 0 <= k < i ==> tiles@[k] == Tile::spec_of_kind(TileType::Air),
            decreases len - i,
        {
            tiles.push(Tile::of_kind(TileType::Air));
            i = i + 1;
        }
        TileMap { width, height, tiles }
    }

    /// The tile at `(x, y)`, or `None` outside the grid.
    pub fn get_tile(&self, x: usize, y: usize) -> (r: Option<&Tile>)
        requires
            self.wf(),
        ensures
            self.in_bounds(x as int, y as int) ==> r == Some(&self.at(x as int, y as int)),
            !self.in_bounds(x as int, y as int) ==> r.is_none(),
    {
        // The index below is bounded by the vector's length.
        let _len = self.tiles.len();
        if x < self.width && y < self.height {
            proof {
                lemma_index_in_grid(self.width as int, self.height as int, x as int, y as int);
            }
            Some(&self.tiles[y * self.width + x])
        } else {
            None
        }
    }

    /// The tile at `(x, y)` for changing in place, or `None` outside the
    /// grid.
    pub fn get_tile_mut(&mut self, x: usize, y: usize) -> (r: Option<&mut Tile>)
        requires
            old(self).wf(),
        ensures
            final(self).width == old(self).width,
            final(self).height == old(self).height,
            old(self).in_bounds(x as int, y as int) ==> r is Some && *r->0 == old(self).at(
                x as int,
                y as int,
            ) && final(self).tiles@ == old(self).tiles@.update(
                grid_index(old(self).width as int, x as int, y as int),
                *final(r->0),
            ),
            !old(self).in_bounds(x as int, y as int) ==> r is None && final(self).tiles@ == old(
                self,
            ).tiles@,
    {
        // The index below is bounded by the vector's length.
        let _len = self.tiles.len();
        if x < self.width && y < self.height {
            proof {
                lemma_index_in_grid(self.width as int, self.height as int, x as int, y as int);
            }
            let idx = y * self.width + x;
            Some(&mut self.tiles[idx])
        } else {
            None
        }
    }

    /// Replaces the tile at `(x, y)`; does nothing outside the grid.
    pub fn set_tile(&mut self, x: usize, y: usize, tile: Tile)
        requires
            old(self).wf(),
            tile.wf(),
        ensures
            final(self).wf(),
            final(self).width == old(self).width,
            final(self).height == old(self).height,
            old(self).in_bounds(x as int, y as int) ==> final(self).tiles@ == old(self).tiles@.update(
                grid_index(old(self).width as int, x as int, y as int),
                tile,
            ),
            !old(self).in_bounds(x as int, y as int) ==> final(self).tiles@ == old(self).tiles@,
    {
        // The index below is bounded by the vector's length.
        let _len = self.tiles.len();
        if x < self.width && y < self.height {
            proof {
                lemma_index_in_grid(self.width as int, self.height as int, x as int, y as int);
            }
            let idx = y * self.width + x;
            self.tiles.set(idx, tile);
        }
    }
}

} // verus!
