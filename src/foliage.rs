//! Foliage growth on moist Dirt, decided in one scan and then applied.
use vstd::prelude::*;
use crate::tile::{Tile, TileMap, TileType, tiles_wf};

verus! {

/// Dirt moisture from which foliage grows on the Air tile above.
pub const MIN_FOLIAGE_MOISTURE: u16 = 128;

/// Dirt moisture below which the foliage above it dies.
pub const FOLIAGE_DEATH_MOISTURE: u16 = 64;

/// Tile `j` is Air resting on Dirt moist enough to grow foliage.
pub open spec fn grows(t: Seq<Tile>, w: int, j: int) -> bool {
    &&& t[j].tile_type == TileType::Air
    &&& j >= w
    &&& t[j - w].tile_type == TileType::Dirt
    &&& t[j - w].water_amount >= MIN_FOLIAGE_MOISTURE
}

/// Tile `j` is foliage without Dirt support (on the bottom row, or on
/// anything but Dirt), or on Dirt too dry to feed it.
pub open spec fn withers(t: Seq<Tile>, w: int, j: int) -> bool {
    &&& t[j].tile_type == TileType::Foliage
    &&& (j < w || t[j - w].tile_type != TileType::Dirt || t[j - w].water_amount
        < FOLIAGE_DEATH_MOISTURE)
}

/// The grid after one foliage step, decided from the grid before it: foliage
/// grows on Air above moist Dirt and dies where its soil dries out or where
/// it stands on anything but Dirt. Every changed tile is fresh (dry, unlit).
pub open spec fn foliage_step(t: Seq<Tile>, w: int) -> Seq<Tile> {
    Seq::new(
        t.len(),
        |j: int|
            if grows(t, w, j) {
                Tile::spec_of_kind(TileType::Foliage)
            } else if withers(t, w, j) {
                Tile::spec_of_kind(TileType::Air)
            } else {
                t[j]
            },
    )
}

/// One foliage step; see `foliage_step`.
pub fn simulate_foliage_step(tile_map: &mut TileMap)
    requires
        old(tile_map).wf(),
    ensures
        final(tile_map).wf(),
        final(tile_map).width == old(tile_map).width,
        final(tile_map).height == old(tile_map).height,
        final(tile_map).tiles@ == foliage_step(old(tile_map).tiles@, old(tile_map).width as int),
{
    let w = tile_map.width;
    let len = tile_map.tiles.len();
    let ghost t = tile_map.tiles@;
    let mut next: Vec<Tile> = Vec::with_capacity(len);
    let mut j: usize = 0;
    while j < len
        invariant
            tile_map.tiles@ == t,
            tile_map.width == w,
            len == t.len(),
            tiles_wf(t),
            j <= len,
            next@.len() == j,
            forall|k: int| 0 <= k < j ==> next@[k] == foliage_step(t, w as int)[k],
            tiles_wf(next@),
        decreases len - j,
    {
        let tile = tile_map.tiles[j];
        let soil: Option<Tile> = if j >= w { Some(tile_map.tiles[j - w]) } else { None };
        let new_tile = match tile.tile_type {
            TileType::Air => match soil {
                Some(s) => if s.tile_type == TileType::Dirt && s.water_amount >= MIN_FOLIAGE_MOISTURE {
                    Tile::of_kind(TileType::Foliage)
                } else {
                    tile
                },
                None => tile,
            },
            TileType::Foliage => match soil {
                Some(s) => if s.tile_type != TileType::Dirt || s.water_amount < FOLIAGE_DEATH_MOISTURE {
                    Tile::of_kind(TileType::Air)
                } else {
                    tile
                },
                None => Tile::of_kind(TileType::Air),
            },
            _ => tile,
        };
        next.push(new_tile);
        j = j + 1;
    }
    tile_map.tiles = next;
    assert(tile_map.tiles@ =~= foliage_step(t, w as int));
}

} // verus!
