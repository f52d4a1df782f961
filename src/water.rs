//! The water automaton: one step gathers every flow from the grid as it is,
//! then applies the summed changes at once.
use vstd::prelude::*;
use crate::tile::{Tile, TileMap, TileType, MAX_WATER_AMOUNT, tiles_wf};

verus! {

/// Moisture at which a Dirt tile stops soaking up water.
pub const MAX_DIRT_MOISTURE: u16 = 256;

/// Water that seeps per step into the Dirt tile below a water tile.
pub const DOWN_SEEPAGE: u16 = 4;

/// Water that seeps per step into a Dirt tile beside a water tile.
pub const SIDE_SEEPAGE: u16 = 2;

pub open spec fn min_int(a: int, b: int) -> int {
    if a <= b { a } else { b }
}

/// Moisture that Dirt tile `j` can still take in this step, before any
/// neighbour seeps into it. With seepage off, Dirt takes none and acts as a
/// wall.
pub open spec fn dirt_room(t: Seq<Tile>, seep: bool, j: int) -> int {
    if seep && t[j].tile_type == TileType::Dirt && t[j].water_amount < MAX_DIRT_MOISTURE {
        MAX_DIRT_MOISTURE - t[j].water_amount
    } else {
        0
    }
}

/// Water that moves from a tile holding `remaining` into the tile below it:
/// as much as fits into Air or non-full Water, or a slow seepage into Dirt
/// within the `room` it has left. Stone and Foliage take none.
pub open spec fn down_flow(remaining: int, below: Tile, room: int) -> int {
    let space = MAX_WATER_AMOUNT - below.water_amount;
    if below.tile_type == TileType::Air || (below.tile_type == TileType::Water && space > 0) {
        min_int(remaining, space)
    } else if below.tile_type == TileType::Dirt && room > 0 {
        min_int(min_int(room, DOWN_SEEPAGE as int), remaining)
    } else {
        0
    }
}

/// Water that moves from a tile holding `remaining` into a side neighbour.
/// Toward Air or Water only the excess above the integer mean of the two
/// amounts moves, so that a difference is halved (an odd difference moves the
/// larger half); toward Dirt a slow seepage within the `room` it has left;
/// Stone and Foliage take none.
pub open spec fn side_flow(remaining: int, side: Tile, room: int) -> int {
    if side.tile_type == TileType::Air || side.tile_type == TileType::Water {
        let target = (remaining + side.water_amount) / 2;
        if remaining > target { remaining - target } else { 0 }
    } else if side.tile_type == TileType::Dirt && room > 0 {
        min_int(min_int(room, SIDE_SEEPAGE as int), remaining)
    } else {
        0
    }
}

/// A tile that gives water away during a step.
pub open spec fn is_donor(t: Tile) -> bool {
    t.tile_type == TileType::Water && t.water_amount > 0
}

/// Water that tile `i` sends down (gravity first).
pub open spec fn flow_down(t: Seq<Tile>, w: int, seep: bool, i: int) -> int {
    if is_donor(t[i]) && i >= w {
        down_flow(t[i].water_amount as int, t[i - w], dirt_room(t, seep, i - w))
    } else {
        0
    }
}

/// Seepage that tile `j` takes from the tile above it. A Dirt tile is served
/// in a fixed order: first the tile above, then its right neighbour, then
/// its left neighbour; each takes what room the earlier ones left.
pub open spec fn taken_from_above(t: Seq<Tile>, w: int, seep: bool, j: int) -> int {
    if j + w < t.len() { flow_down(t, w, seep, j + w) } else { 0 }
}

/// Water that tile `i` sends to its left neighbour, out of what stays after
/// the downward flow.
pub open spec fn flow_left(t: Seq<Tile>, w: int, seep: bool, i: int) -> int {
    if is_donor(t[i]) && i % w != 0 {
        side_flow(
            t[i].water_amount - flow_down(t, w, seep, i),
            t[i - 1],
            dirt_room(t, seep, i - 1) - taken_from_above(t, w, seep, i - 1),
        )
    } else {
        0
    }
}

/// Seepage that tile `j` takes from its right neighbour.
pub open spec fn taken_from_right(t: Seq<Tile>, w: int, seep: bool, j: int) -> int {
    if j + 1 < t.len() { flow_left(t, w, seep, j + 1) } else { 0 }
}

/// Water that tile `i` sends to its right neighbour, out of what stays after
/// the downward and leftward flows.
pub open spec fn flow_right(t: Seq<Tile>, w: int, seep: bool, i: int) -> int {
    if is_donor(t[i]) && i % w + 1 < w {
        side_flow(
            t[i].water_amount - flow_down(t, w, seep, i) - flow_left(t, w, seep, i),
            t[i + 1],
            dirt_room(t, seep, i + 1) - taken_from_above(t, w, seep, i + 1) - taken_from_right(
                t,
                w,
                seep,
                i + 1,
            ),
        )
    } else {
        0
    }
}

/// Everything that tile `i` gives away in a step.
pub open spec fn outflow(t: Seq<Tile>, w: int, seep: bool, i: int) -> int {
    flow_down(t, w, seep, i) + flow_left(t, w, seep, i) + flow_right(t, w, seep, i)
}

/// The change at tile `j` from the flows of the donors with index below `k`.
pub open spec fn partial_delta(t: Seq<Tile>, w: int, seep: bool, k: int, j: int) -> int {
    (if j < k { -outflow(t, w, seep, j) } else { 0 })
    + (if j + w < k { flow_down(t, w, seep, j + w) } else { 0 })
    + (if 0 <= j + 1 < k { flow_left(t, w, seep, j + 1) } else { 0 })
    + (if 0 <= j - 1 < k { flow_right(t, w, seep, j - 1) } else { 0 })
}

/// The net change of water at tile `j` in one step: what flows in from the
/// tile above and from the two side neighbours, less what flows out. Every
/// flow is computed from the grid as it was before the step.
pub open spec fn water_delta(t: Seq<Tile>, w: int, seep: bool, j: int) -> int {
    partial_delta(t, w, seep, t.len() as int, j)
}

/// A tile after a net change: the amount is clamped into range; Water that
/// runs dry becomes Air and Air that receives water becomes Water. Other
/// kinds keep their kind.
pub open spec fn apply_delta(tile: Tile, change: int) -> Tile {
    if change == 0 {
        tile
    } else {
        let sum = tile.water_amount + change;
        let amount: int = if sum < 0 { 0 } else if sum > MAX_WATER_AMOUNT { MAX_WATER_AMOUNT as int } else { sum };
        let kind = if amount == 0 && tile.tile_type == TileType::Water {
            TileType::Air
        } else if amount > 0 && tile.tile_type == TileType::Air {
            TileType::Water
        } else {
            tile.tile_type
        };
        Tile { tile_type: kind, water_amount: amount as u16, light_energy: tile.light_energy }
    }
}

/// The grid after one water step.
pub open spec fn water_step(t: Seq<Tile>, w: int, seep: bool) -> Seq<Tile> {
    Seq::new(t.len(), |j: int| apply_delta(t[j], water_delta(t, w, seep, j)))
}

pub proof fn lemma_coords(w: int, h: int, x: int, y: int)
    requires
        0 <= x < w,
        0 <= y < h,
    ensures
        (y * w + x) % w == x,
        (y * w + x) / w == y,
        0 <= y * w,
        y * w + x < w * h,
        y > 0 ==> y * w + x >= w,
        y == 0 ==> y * w + x < w,
        x + 1 < w ==> y * w + x + 1 < w * h,
        x + 1 == w ==> y * w + x + 1 == (y + 1) * w,
        y + 1 == h ==> (y + 1) * w == w * h,
        y + 1 < h ==> (y + 1) * w < w * h,
{
    vstd::arithmetic::div_mod::lemma_fundamental_div_mod_converse(y * w + x, w, y, x);
    crate::tile::lemma_index_in_grid(w, h, x, y);
    assert(w * h == h * w) by (nonlinear_arith);
    assert((y + 1) * w == y * w + w) by (nonlinear_arith);
    if y > 0 {
        assert(y * w >= w) by (nonlinear_arith)
            requires
                y >= 1,
                w > 0,
        ;
    }
    if y == 0 {
        assert(y * w == 0) by (nonlinear_arith)
            requires
                y == 0,
        ;
    }
    if y + 1 < h {
        assert((y + 1) * w < h * w) by (nonlinear_arith)
            requires
                y + 1 < h,
                w > 0,
        ;
    }
}

/// The coordinates of an index of a `w` by `h` grid.
pub proof fn lemma_index_coords(w: int, h: int, i: int)
    requires
        0 <= i < w * h,
        w > 0,
    ensures
        0 <= i % w < w,
        0 <= i / w < h,
        i == (i / w) * w + i % w,
{
    vstd::arithmetic::div_mod::lemma_fundamental_div_mod(i, w);
    assert(w * (i / w) == (i / w) * w) by (nonlinear_arith);
    assert(0 <= i % w < w) by {
        vstd::arithmetic::div_mod::lemma_mod_pos_bound(i, w);
    }
    assert(i / w >= 0) by {
        vstd::arithmetic::div_mod::lemma_div_pos_is_pos(i, w);
    }
    if i / w >= h {
        assert((i / w) * w >= h * w) by (nonlinear_arith)
            requires
                i / w >= h,
                w > 0,
        ;
        assert(h * w == w * h) by (nonlinear_arith);
        assert(i % w >= 0);
        assert(false);
    }
}

/// Every flow out of a tile is non-negative, and together they never exceed
/// the water the tile holds.
pub proof fn lemma_flow_bounds(t: Seq<Tile>, w: int, seep: bool, h: int, i: int)
    requires
        0 <= w,
        0 <= h,
        t.len() == w * h,
        tiles_wf(t),
        0 <= i < t.len(),
    ensures
        0 <= flow_down(t, w, seep, i),
        0 <= flow_left(t, w, seep, i),
        0 <= flow_right(t, w, seep, i),
        outflow(t, w, seep, i) <= t[i].water_amount,
        outflow(t, w, seep, i) <= MAX_WATER_AMOUNT,
{
    if w == 0 {
        assert(w * h == 0) by (nonlinear_arith)
            requires
                w == 0,
        ;
    } else {
        lemma_index_coords(w, h, i);
        lemma_coords(w, h, i % w, i / w);
        assert(t[i].wf());
        if i >= w {
            assert(t[i - w].wf());
        }
        if i % w != 0 {
            assert(t[i - 1].wf());
        }
        if i % w + 1 < w {
            assert(t[i + 1].wf());
        }
    }
}

/// The change recorded at any tile while gathering stays small.
proof fn lemma_partial_bounds(t: Seq<Tile>, w: int, seep: bool, h: int, k: int, j: int)
    requires
        0 <= w,
        0 <= h,
        t.len() == w * h,
        tiles_wf(t),
        0 <= k <= t.len(),
        0 <= j < t.len(),
    ensures
        -(MAX_WATER_AMOUNT as int) <= partial_delta(t, w, seep, k, j) <= 3 * MAX_WATER_AMOUNT,
{
    lemma_flow_bounds(t, w, seep, h, j);
    if j + w < k {
        lemma_flow_bounds(t, w, seep, h, j + w);
    }
    if 0 <= j + 1 < k {
        lemma_flow_bounds(t, w, seep, h, j + 1);
    }
    if 0 <= j - 1 < k {
        lemma_flow_bounds(t, w, seep, h, j - 1);
    }
}

/// The grid facts the flow functions below need.
pub open spec fn grid_ok(t: Seq<Tile>, w: int, h: int) -> bool {
    &&& 0 <= w
    &&& 0 <= h
    &&& t.len() == w * h
    &&& tiles_wf(t)
}

/// Water a tile holding `remaining` sends into the tile below.
fn down_flow_of(remaining: u16, below: &Tile, room: i32) -> (r: u16)
    requires
        remaining <= MAX_WATER_AMOUNT,
        below.wf(),
    ensures
        r == down_flow(remaining as int, *below, room as int),
        r <= remaining,
{
    if below.tile_type == TileType::Air || (below.tile_type == TileType::Water && below.water_amount
        < MAX_WATER_AMOUNT) {
        let space = MAX_WATER_AMOUNT - below.water_amount;
        if remaining <= space { remaining } else { space }
    } else if below.tile_type == TileType::Dirt && room > 0 {
        let cap: u16 = if room <= DOWN_SEEPAGE as i32 { room as u16 } else { DOWN_SEEPAGE };
        if cap <= remaining { cap } else { remaining }
    } else {
        0
    }
}

/// Water a tile holding `remaining` sends into a side neighbour.
fn side_flow_of(remaining: u16, side: &Tile, room: i32) -> (r: u16)
    requires
        remaining <= MAX_WATER_AMOUNT,
        side.wf(),
    ensures
        r == side_flow(remaining as int, *side, room as int),
        r <= remaining,
{
    if side.tile_type == TileType::Air || side.tile_type == TileType::Water {
        let target: u32 = (remaining as u32 + side.water_amount as u32) / 2;
        if remaining as u32 > target {
            (remaining as u32 - target) as u16
        } else {
            0
        }
    } else if side.tile_type == TileType::Dirt && room > 0 {
        let cap: u16 = if room <= SIDE_SEEPAGE as i32 { room as u16 } else { SIDE_SEEPAGE };
        if cap <= remaining { cap } else { remaining }
    } else {
        0
    }
}

/// The room Dirt tile `j` has for moisture; see `dirt_room`.
fn dirt_room_of(tiles: &Vec<Tile>, seep: bool, j: usize) -> (r: i32)
    requires
        j < tiles@.len(),
    ensures
        r == dirt_room(tiles@, seep, j as int),
        0 <= r <= MAX_DIRT_MOISTURE,
{
    let t = tiles[j];
    if seep && t.tile_type == TileType::Dirt && t.water_amount < MAX_DIRT_MOISTURE {
        (MAX_DIRT_MOISTURE - t.water_amount) as i32
    } else {
        0
    }
}

/// The downward flow of tile `(x, y)`; see `flow_down`.
fn flow_down_at(tiles: &Vec<Tile>, w: usize, h: usize, seep: bool, x: usize, y: usize) -> (r: u16)
    requires
        grid_ok(tiles@, w as int, h as int),
        x < w,
        y < h,
    ensures
        r == flow_down(tiles@, w as int, seep, y * w + x),
        r <= MAX_WATER_AMOUNT,
{
    proof {
        lemma_coords(w as int, h as int, x as int, y as int);
    }
    // The index below is bounded by the vector's length.
    let _len = tiles.len();
    let i = y * w + x;
    let tile = tiles[i];
    assert(tiles@[i as int].wf());
    if tile.tile_type == TileType::Water && tile.water_amount > 0 && y > 0 {
        assert(tiles@[i - w].wf());
        let room = dirt_room_of(tiles, seep, i - w);
        down_flow_of(tile.water_amount, &tiles[i - w], room)
    } else {
        0
    }
}

/// What the tile at `(x, y)` takes from the tile above it; see
/// `taken_from_above`.
fn taken_from_above_at(tiles: &Vec<Tile>, w: usize, h: usize, seep: bool, x: usize, y: usize) -> (r: u16)
    requires
        grid_ok(tiles@, w as int, h as int),
        x < w,
        y < h,
    ensures
        r == taken_from_above(tiles@, w as int, seep, y * w + x),
        r <= MAX_WATER_AMOUNT,
{
    proof {
        lemma_coords(w as int, h as int, x as int, y as int);
        if y + 1 < h {
            lemma_coords(w as int, h as int, x as int, (y + 1) as int);
        } else {
            assert((y + 1) * w == w * h);
        }
        assert((y + 1) * w + x == y * w + x + w) by (nonlinear_arith);
    }
    if y + 1 < h {
        flow_down_at(tiles, w, h, seep, x, y + 1)
    } else {
        0
    }
}

/// The leftward flow of tile `(x, y)`; see `flow_left`.
fn flow_left_at(tiles: &Vec<Tile>, w: usize, h: usize, seep: bool, x: usize, y: usize) -> (r: u16)
    requires
        grid_ok(tiles@, w as int, h as int),
        x < w,
        y < h,
    ensures
        r == flow_left(tiles@, w as int, seep, y * w + x),
{
    proof {
        lemma_coords(w as int, h as int, x as int, y as int);
        lemma_flow_bounds(tiles@, w as int, seep, h as int, y * w + x);
    }
    // The index below is bounded by the vector's length.
    let _len = tiles.len();
    let i = y * w + x;
    let tile = tiles[i];
    assert(tiles@[i as int].wf());
    if tile.tile_type == TileType::Water && tile.water_amount > 0 && x > 0 {
        let fd = flow_down_at(tiles, w, h, seep, x, y);
        let room = dirt_room_of(tiles, seep, i - 1);
        let above = taken_from_above_at(tiles, w, h, seep, x - 1, y);
        assert(tiles@[i - 1].wf());
        side_flow_of(tile.water_amount - fd, &tiles[i - 1], room - above as i32)
    } else {
        0
    }
}

/// What the tile at `(x, y)` takes from its right neighbour; see
/// `taken_from_right`.
fn taken_from_right_at(tiles: &Vec<Tile>, w: usize, h: usize, seep: bool, x: usize, y: usize) -> (r: u16)
    requires
        grid_ok(tiles@, w as int, h as int),
        x < w,
        y < h,
    ensures
        r == taken_from_right(tiles@, w as int, seep, y * w + x),
        r <= MAX_WATER_AMOUNT,
{
    proof {
        lemma_coords(w as int, h as int, x as int, y as int);
        if x + 1 == w && y + 1 < h {
            lemma_coords(w as int, h as int, 0, (y + 1) as int);
        }
        if x + 1 < w {
            lemma_coords(w as int, h as int, (x + 1) as int, y as int);
        }
    }
    if x + 1 < w {
        let r = flow_left_at(tiles, w, h, seep, x + 1, y);
        proof {
            let i = y * w + x + 1;
            assert(tiles@[i].wf());
            if r > 0 {
                lemma_flow_bounds(tiles@, w as int, seep, h as int, i);
            }
        }
        r
    } else {
        0
    }
}

/// The rightward flow of tile `(x, y)`; see `flow_right`.
fn flow_right_at(tiles: &Vec<Tile>, w: usize, h: usize, seep: bool, x: usize, y: usize) -> (r: u16)
    requires
        grid_ok(tiles@, w as int, h as int),
        x < w,
        y < h,
    ensures
        r == flow_right(tiles@, w as int, seep, y * w + x),
{
    proof {
        lemma_coords(w as int, h as int, x as int, y as int);
        lemma_flow_bounds(tiles@, w as int, seep, h as int, y * w + x);
    }
    // The index below is bounded by the vector's length.
    let _len = tiles.len();
    let i = y * w + x;
    let tile = tiles[i];
    if tile.tile_type == TileType::Water && tile.water_amount > 0 && x + 1 < w {
        proof {
            lemma_coords(w as int, h as int, (x + 1) as int, y as int);
        }
        let fd = flow_down_at(tiles, w, h, seep, x, y);
        let fl = flow_left_at(tiles, w, h, seep, x, y);
        let room = dirt_room_of(tiles, seep, i + 1);
        let above = taken_from_above_at(tiles, w, h, seep, x + 1, y);
        let right = taken_from_right_at(tiles, w, h, seep, x + 1, y);
        assert(tiles@[i + 1].wf());
        side_flow_of(tile.water_amount - fd - fl, &tiles[i + 1], room - above as i32 - right as i32)
    } else {
        0
    }
}

/// What donor `i` adds to the change at tile `j`.
pub open spec fn contribution(t: Seq<Tile>, w: int, seep: bool, i: int, j: int) -> int {
    (if j == i { -outflow(t, w, seep, i) } else { 0 })
    + (if j + w == i { flow_down(t, w, seep, i) } else { 0 })
    + (if j + 1 == i { flow_left(t, w, seep, i) } else { 0 })
    + (if j - 1 == i { flow_right(t, w, seep, i) } else { 0 })
}

pub proof fn lemma_partial_step(t: Seq<Tile>, w: int, seep: bool, i: int)
    requires
        0 <= i,
    ensures
        forall|j: int|
            #![trigger partial_delta(t, w, seep, i + 1, j)]
            partial_delta(t, w, seep, i + 1, j) == partial_delta(t, w, seep, i, j) + contribution(t, w, seep, i, j),
{
}

/// Adds the flows out of tile `(x, y)` to the gathered changes.
fn gather_tile(
    tiles: &Vec<Tile>,
    w: usize,
    h: usize,
    seep: bool,
    x: usize,
    y: usize,
    delta: &mut Vec<i32>,
)
    requires
        grid_ok(tiles@, w as int, h as int),
        x < w,
        y < h,
        old(delta)@.len() == tiles@.len(),
        forall|j: int| 0 <= j < tiles@.len() ==> -4096 <= #[trigger] old(delta)@[j] <= 4096,
    ensures
        final(delta)@.len() == tiles@.len(),
        forall|j: int|
            0 <= j < tiles@.len() ==> #[trigger] final(delta)@[j] == old(delta)@[j] + contribution(
                tiles@,
                w as int,
                seep,
                y * w + x,
                j,
            ),
{
    let ghost t = tiles@;
    let ghost d0 = delta@;
    proof {
        lemma_coords(w as int, h as int, x as int, y as int);
    }
    // The index below is bounded by the vector's length.
    let _len = tiles.len();
    let i = y * w + x;
    proof {
        lemma_flow_bounds(t, w as int, seep, h as int, i as int);
    }
    let fd = flow_down_at(tiles, w, h, seep, x, y);
    let fl = flow_left_at(tiles, w, h, seep, x, y);
    let fr = flow_right_at(tiles, w, h, seep, x, y);
    let out = delta[i] - (fd as i32 + fl as i32 + fr as i32);
    delta.set(i, out);
    if y > 0 {
        let v = delta[i - w] + fd as i32;
        delta.set(i - w, v);
    }
    if x > 0 {
        let v = delta[i - 1] + fl as i32;
        delta.set(i - 1, v);
    }
    if x + 1 < w {
        let v = delta[i + 1] + fr as i32;
        delta.set(i + 1, v);
    }
    assert forall|j: int| 0 <= j < t.len() implies #[trigger] delta@[j] == d0[j] + contribution(
        t,
        w as int,
        seep,
        i as int,
        j,
    ) by {}
}

/// A tile after the net change of a step.
fn apply_change(tile: Tile, change: i32) -> (r: Tile)
    requires
        tile.wf(),
        tile.tile_type == TileType::Stone || tile.tile_type == TileType::Foliage ==> change == 0,
    ensures
        r == apply_delta(tile, change as int),
        r.wf(),
{
    if change == 0 {
        return tile;
    }
    let sum: i64 = tile.water_amount as i64 + change as i64;
    let amount: u16 = if sum < 0 {
        0
    } else if sum > MAX_WATER_AMOUNT as i64 {
        MAX_WATER_AMOUNT
    } else {
        sum as u16
    };
    let kind = if amount == 0 && tile.tile_type == TileType::Water {
        TileType::Air
    } else if amount > 0 && tile.tile_type == TileType::Air {
        TileType::Water
    } else {
        tile.tile_type
    };
    Tile { tile_type: kind, water_amount: amount, light_energy: tile.light_energy }
}

/// Stone and Foliage never take part in a step, nor Dirt with seepage off:
/// their change is zero.
pub proof fn lemma_walls_unchanged(t: Seq<Tile>, w: int, seep: bool, j: int)
    requires
        0 <= j < t.len(),
        t[j].tile_type == TileType::Stone || t[j].tile_type == TileType::Foliage || (
        t[j].tile_type == TileType::Dirt && !seep),
    ensures
        water_delta(t, w, seep, j) == 0,
{
}

/// With seepage on, a Dirt tile never takes more than the room it had: the
/// tile above, then the right neighbour, then the left one share it out.
pub proof fn lemma_moisture_capped(t: Seq<Tile>, w: int, h: int, j: int)
    requires
        grid_ok(t, w, h),
        0 <= j < t.len(),
        t[j].tile_type == TileType::Dirt,
        t[j].water_amount <= MAX_DIRT_MOISTURE,
    ensures
        0 <= water_delta(t, w, true, j),
        t[j].water_amount + water_delta(t, w, true, j) <= MAX_DIRT_MOISTURE,
{
    if j + w < t.len() {
        lemma_flow_bounds(t, w, true, h, j + w);
    }
    if 0 <= j + 1 < t.len() {
        lemma_flow_bounds(t, w, true, h, j + 1);
    }
    if 0 <= j - 1 < t.len() {
        lemma_flow_bounds(t, w, true, h, j - 1);
    }
}

/// One step of the water automaton, in two phases. The gather phase computes
/// every flow from the grid as it stands and sums them per tile; the apply
/// phase then changes each tile by its sum at once. No flow sees another
/// flow of the same step, so the order in which tiles are scanned does not
/// matter.
fn run_water_step(tile_map: &mut TileMap, seep: bool)
    requires
        old(tile_map).wf(),
    ensures
        final(tile_map).wf(),
        final(tile_map).width == old(tile_map).width,
        final(tile_map).height == old(tile_map).height,
        final(tile_map).tiles@ == water_step(old(tile_map).tiles@, old(tile_map).width as int, seep),
{
    let w = tile_map.width;
    let h = tile_map.height;
    let len = tile_map.tiles.len();
    let ghost t = tile_map.tiles@;
    let mut delta: Vec<i32> = Vec::with_capacity(len);
    let mut k: usize = 0;
    while k < len
        invariant
            k <= len,
            delta@.len() == k,
            forall|j: int| 0 <= j < k ==> delta@[j] == 0,
        decreases len - k,
    {
        delta.push(0);
        k = k + 1;
    }
    // Gather phase: row by row, bottom up.
    let mut y: usize = 0;
    while y < h
        invariant
            tile_map.wf(),
            tile_map.tiles@ == t,
            tile_map.width == w,
            tile_map.height == h,
            len == t.len(),
            len == w * h,
            delta@.len() == len,
            y <= h,
            forall|j: int| 0 <= j < len ==> delta@[j] == partial_delta(t, w as int, seep, y * w, j),
        decreases h - y,
    {
        let mut x: usize = 0;
        while x < w
            invariant
                tile_map.wf(),
                tile_map.tiles@ == t,
                tile_map.width == w,
                tile_map.height == h,
                len == t.len(),
                len == w * h,
                delta@.len() == len,
                y < h,
                x <= w,
                forall|j: int| 0 <= j < len ==> delta@[j] == partial_delta(t, w as int, seep, y * w + x, j),
            decreases w - x,
        {
            proof {
                lemma_coords(w as int, h as int, x as int, y as int);
                assert forall|j: int| 0 <= j < len implies -4096 <= #[trigger] delta@[j] <= 4096 by {
                    lemma_partial_bounds(t, w as int, seep, h as int, y * w + x, j);
                }
                lemma_partial_step(t, w as int, seep, y * w + x);
            }
            gather_tile(&tile_map.tiles, w, h, seep, x, y, &mut delta);
            assert(y * w + (x + 1) == y * w + x + 1);
            x = x + 1;
        }
        assert((y + 1) * w == y * w + w) by (nonlinear_arith);
        y = y + 1;
    }
    assert(y * w == len) by (nonlinear_arith)
        requires
            y == h,
            len == w * h,
    ;
    // Apply phase.
    let mut idx: usize = 0;
    while idx < len
        invariant
            tile_map.wf(),
            tile_map.width == w,
            tile_map.height == h,
            len == t.len(),
            tile_map.tiles@.len() == len,
            idx <= len,
            delta@.len() == len,
            forall|j: int| 0 <= j < len ==> delta@[j] == water_delta(t, w as int, seep, j),
            forall|j: int| 0 <= j < idx ==> tile_map.tiles@[j] == water_step(t, w as int, seep)[j],
            forall|j: int| idx <= j < len ==> tile_map.tiles@[j] == t[j],
        decreases len - idx,
    {
        proof {
            let k = idx as int;
            if t[k].tile_type == TileType::Stone || t[k].tile_type == TileType::Foliage {
                lemma_walls_unchanged(t, w as int, seep, k);
            }
        }
        let tile = apply_change(tile_map.tiles[idx], delta[idx]);
        tile_map.tiles.set(idx, tile);
        assert(tiles_wf(tile_map.tiles@));
        idx = idx + 1;
    }
    assert(tile_map.tiles@ =~= water_step(t, w as int, seep));
}

/// One water step with Dirt as a wall: water flows only through Air and
/// Water, and every Dirt, Stone and Foliage tile stays as it was.
pub fn simulate_water_step(tile_map: &mut TileMap)
    requires
        old(tile_map).wf(),
    ensures
        final(tile_map).wf(),
        final(tile_map).width == old(tile_map).width,
        final(tile_map).height == old(tile_map).height,
        final(tile_map).tiles@ == water_step(old(tile_map).tiles@, old(tile_map).width as int, false),
        forall|j: int|
            0 <= j < old(tile_map).tiles@.len() && (#[trigger] old(tile_map).tiles@[j]).tile_type
                != TileType::Air && old(tile_map).tiles@[j].tile_type != TileType::Water
                ==> final(tile_map).tiles@[j] == old(tile_map).tiles@[j],
{
    let ghost t = tile_map.tiles@;
    let ghost w = tile_map.width as int;
    run_water_step(tile_map, false);
    assert forall|j: int|
        0 <= j < t.len() && (#[trigger] t[j]).tile_type != TileType::Air && t[j].tile_type
            != TileType::Water implies tile_map.tiles@[j] == t[j] by {
        lemma_walls_unchanged(t, w, false, j);
    }
}

/// One water step in which Dirt also soaks up water as moisture, slowly and
/// never beyond `MAX_DIRT_MOISTURE`.
pub fn simulate_water_with_seepage(tile_map: &mut TileMap)
    requires
        old(tile_map).wf(),
    ensures
        final(tile_map).wf(),
        final(tile_map).width == old(tile_map).width,
        final(tile_map).height == old(tile_map).height,
        final(tile_map).tiles@ == water_step(old(tile_map).tiles@, old(tile_map).width as int, true),
        forall|j: int|
            0 <= j < old(tile_map).tiles@.len() && (#[trigger] old(tile_map).tiles@[j]).tile_type
                == TileType::Dirt && old(tile_map).tiles@[j].water_amount <= MAX_DIRT_MOISTURE
                ==> final(tile_map).tiles@[j].tile_type == TileType::Dirt
                && old(tile_map).tiles@[j].water_amount <= final(tile_map).tiles@[j].water_amount
                <= MAX_DIRT_MOISTURE,
{
    let ghost t = tile_map.tiles@;
    let ghost w = tile_map.width as int;
    let ghost h = tile_map.height as int;
    run_water_step(tile_map, true);
    assert forall|j: int|
        0 <= j < t.len() && (#[trigger] t[j]).tile_type == TileType::Dirt && t[j].water_amount
            <= MAX_DIRT_MOISTURE implies tile_map.tiles@[j].tile_type == TileType::Dirt
        && t[j].water_amount <= tile_map.tiles@[j].water_amount <= MAX_DIRT_MOISTURE by {
        lemma_moisture_capped(t, w, h, j);
    }
}

} // verus!
