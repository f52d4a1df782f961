//! Properties of the water step: conservation, independence of the scan
//! order, and settled water as a fixed point.
use vstd::prelude::*;
use crate::tile::{Tile, TileMap, TileType, MAX_WATER_AMOUNT, tiles_wf};
use crate::water::{
    contribution, lemma_coords, lemma_flow_bounds, lemma_index_coords, lemma_partial_step, outflow,
    partial_delta, water_delta, water_step, flow_down, flow_left, flow_right, apply_delta, is_donor,
    MAX_DIRT_MOISTURE,
};

verus! {

/// The sum of `f(j)` for `0 <= j < n`.
pub open spec fn sum_of(n: int, f: spec_fn(int) -> int) -> int
    decreases n,
{
    if n <= 0 {
        0
    } else {
        sum_of(n - 1, f) + f(n - 1)
    }
}

/// All water held by the tiles, free water and Dirt moisture alike.
pub open spec fn total_water(t: Seq<Tile>) -> int {
    sum_of(t.len() as int, |j: int| t[j].water_amount as int)
}

/// Water held by tiles other than Dirt.
pub open spec fn free_water(t: Seq<Tile>) -> int {
    sum_of(
        t.len() as int,
        |j: int| if t[j].tile_type == TileType::Dirt { 0 } else { t[j].water_amount as int },
    )
}

/// Moisture held by Dirt tiles.
pub open spec fn moisture(t: Seq<Tile>) -> int {
    sum_of(
        t.len() as int,
        |j: int| if t[j].tile_type == TileType::Dirt { t[j].water_amount as int } else { 0 },
    )
}

/// No tile of the grid would receive more water in a step than it can hold.
pub open spec fn step_fits(t: Seq<Tile>, w: int, seep: bool) -> bool {
    forall|j: int| 0 <= j < t.len() ==> t[j].water_amount + #[trigger] water_delta(t, w, seep, j) <= MAX_WATER_AMOUNT
}

proof fn lemma_sum_ext(n: int, f: spec_fn(int) -> int, g: spec_fn(int) -> int)
    requires
        forall|j: int| 0 <= j < n ==> #[trigger] f(j) == g(j),
    ensures
        sum_of(n, f) == sum_of(n, g),
    decreases n,
{
    if n > 0 {
        lemma_sum_ext(n - 1, f, g);
    }
}

proof fn lemma_sum_add(n: int, f: spec_fn(int) -> int, g: spec_fn(int) -> int, h: spec_fn(int) -> int)
    requires
        forall|j: int| 0 <= j < n ==> #[trigger] h(j) == f(j) + g(j),
    ensures
        sum_of(n, h) == sum_of(n, f) + sum_of(n, g),
    decreases n,
{
    if n > 0 {
        lemma_sum_add(n - 1, f, g, h);
    }
}

proof fn lemma_sum_point(n: int, a: int, c: int, f: spec_fn(int) -> int)
    requires
        forall|j: int| 0 <= j < n ==> #[trigger] f(j) == if j == a { c } else { 0 },
    ensures
        sum_of(n, f) == if 0 <= a < n { c } else { 0 },
    decreases n,
{
    if n > 0 {
        lemma_sum_point(n - 1, a, c, f);
    }
}

/// The changes that one donor makes add up to nothing.
proof fn lemma_contribution_sum(t: Seq<Tile>, w: int, seep: bool, h: int, i: int)
    requires
        0 <= w,
        0 <= h,
        t.len() == w * h,
        tiles_wf(t),
        0 <= i < t.len(),
    ensures
        sum_of(t.len() as int, |j: int| contribution(t, w, seep, i, j)) == 0,
{
    let n = t.len() as int;
    let fo = |j: int| if j == i { -outflow(t, w, seep, i) } else { 0 };
    let fd = |j: int| if j == i - w { flow_down(t, w, seep, i) } else { 0 };
    let fl = |j: int| if j == i - 1 { flow_left(t, w, seep, i) } else { 0 };
    let fr = |j: int| if j == i + 1 { flow_right(t, w, seep, i) } else { 0 };
    let s1 = |j: int| fo(j) + fd(j);
    let s2 = |j: int| s1(j) + fl(j);
    let s3 = |j: int| s2(j) + fr(j);
    lemma_sum_point(n, i, -outflow(t, w, seep, i), fo);
    lemma_sum_point(n, i - w, flow_down(t, w, seep, i), fd);
    lemma_sum_point(n, i - 1, flow_left(t, w, seep, i), fl);
    lemma_sum_point(n, i + 1, flow_right(t, w, seep, i), fr);
    lemma_sum_add(n, fo, fd, s1);
    lemma_sum_add(n, s1, fl, s2);
    lemma_sum_add(n, s2, fr, s3);
    lemma_sum_ext(n, s3, |j: int| contribution(t, w, seep, i, j));
    assert(w > 0) by (nonlinear_arith)
        requires
            0 <= i < t.len(),
            t.len() == w * h,
            0 <= w,
    ;
    lemma_index_coords(w, h, i);
    lemma_coords(w, h, i % w, i / w);
    assert(0int % w == 0);
}

/// The changes gathered from the first `k` donors add up to nothing.
proof fn lemma_partial_sum(t: Seq<Tile>, w: int, seep: bool, h: int, k: int)
    requires
        0 <= w,
        0 <= h,
        t.len() == w * h,
        tiles_wf(t),
        0 <= k <= t.len(),
    ensures
        sum_of(t.len() as int, |j: int| partial_delta(t, w, seep, k, j)) == 0,
    decreases k,
{
    let n = t.len() as int;
    if k == 0 {
        lemma_sum_point(n, -1, 0, |j: int| partial_delta(t, w, seep, k, j));
    } else {
        lemma_partial_sum(t, w, seep, h, k - 1);
        lemma_contribution_sum(t, w, seep, h, k - 1);
        lemma_partial_step(t, w, seep, k - 1);
        lemma_sum_add(
            n,
            |j: int| partial_delta(t, w, seep, k - 1, j),
            |j: int| contribution(t, w, seep, k - 1, j),
            |j: int| partial_delta(t, w, seep, k, j),
        );
    }
}

/// What a tile receives in a step is at least what it gives away in
/// it, less what it held.
proof fn lemma_delta_lower(t: Seq<Tile>, w: int, seep: bool, h: int, j: int)
    requires
        0 <= w,
        0 <= h,
        t.len() == w * h,
        tiles_wf(t),
        0 <= j < t.len(),
    ensures
        t[j].water_amount + water_delta(t, w, seep, j) >= 0,
{
    lemma_flow_bounds(t, w, seep, h, j);
    if j + w < t.len() {
        lemma_flow_bounds(t, w, seep, h, j + w);
    }
    if 0 <= j + 1 < t.len() {
        lemma_flow_bounds(t, w, seep, h, j + 1);
    }
    if 0 <= j - 1 < t.len() {
        lemma_flow_bounds(t, w, seep, h, j - 1);
    }
}

proof fn lemma_split_total(t: Seq<Tile>)
    ensures
        total_water(t) == free_water(t) + moisture(t),
{
    lemma_sum_add(
        t.len() as int,
        |j: int| if t[j].tile_type == TileType::Dirt { 0 } else { t[j].water_amount as int },
        |j: int| if t[j].tile_type == TileType::Dirt { t[j].water_amount as int } else { 0 },
        |j: int| t[j].water_amount as int,
    );
}

/// Conservation: a water step neither creates nor destroys water, as long as
/// no tile is handed more than it can hold. Free water that leaves the
/// Water tiles is exactly the moisture that Dirt tiles soak up; on a grid
/// without Dirt the free water is unchanged.
pub proof fn lemma_water_conserved(m: TileMap, seep: bool)
    requires
        m.wf(),
        step_fits(m.tiles@, m.width as int, seep),
    ensures
        total_water(water_step(m.tiles@, m.width as int, seep)) == total_water(m.tiles@),
        free_water(water_step(m.tiles@, m.width as int, seep)) == free_water(m.tiles@) - (moisture(
            water_step(m.tiles@, m.width as int, seep),
        ) - moisture(m.tiles@)),
        (forall|j: int| 0 <= j < m.tiles@.len() ==> m.tiles@[j].tile_type != TileType::Dirt)
            ==> free_water(water_step(m.tiles@, m.width as int, seep)) == free_water(m.tiles@),
{
    let t = m.tiles@;
    let w = m.width as int;
    let h = m.height as int;
    let n = t.len() as int;
    let s = water_step(t, w, seep);
    assert forall|j: int| 0 <= j < n implies #[trigger] s[j].water_amount == t[j].water_amount
        + water_delta(t, w, seep, j) by {
        lemma_delta_lower(t, w, seep, h, j);
    }
    lemma_partial_sum(t, w, seep, h, n);
    lemma_sum_add(
        n,
        |j: int| t[j].water_amount as int,
        |j: int| water_delta(t, w, seep, j),
        |j: int| s[j].water_amount as int,
    );
    lemma_sum_ext(n, |j: int| water_delta(t, w, seep, j), |j: int| partial_delta(t, w, seep, n, j));
    lemma_split_total(t);
    lemma_split_total(s);
    if forall|j: int| 0 <= j < n ==> t[j].tile_type != TileType::Dirt {
        assert forall|j: int| 0 <= j < n implies s[j].tile_type != TileType::Dirt by {}
        lemma_sum_point(n, -1, 0, |j: int| if t[j].tile_type == TileType::Dirt { t[j].water_amount as int } else { 0 });
        lemma_sum_point(n, -1, 0, |j: int| if s[j].tile_type == TileType::Dirt { s[j].water_amount as int } else { 0 });
    }
}

/// The change at tile `j` gathered from the donors with index at least `k`,
/// taken from the top of the grid down.
pub open spec fn gather_top_down(t: Seq<Tile>, w: int, seep: bool, k: int, j: int) -> int
    decreases t.len() - k,
{
    if k >= t.len() || k < 0 {
        0
    } else {
        gather_top_down(t, w, seep, k + 1, j) + contribution(t, w, seep, k, j)
    }
}

proof fn lemma_top_down_split(t: Seq<Tile>, w: int, seep: bool, k: int, j: int)
    requires
        0 <= k <= t.len(),
    ensures
        gather_top_down(t, w, seep, k, j) + partial_delta(t, w, seep, k, j) == water_delta(t, w, seep, j),
    decreases t.len() - k,
{
    if k < t.len() {
        lemma_top_down_split(t, w, seep, k + 1, j);
        lemma_partial_step(t, w, seep, k);
    }
}

/// Scan order does not matter: gathering the flows from the top row down
/// gives the same change at every tile as the bottom-up scan of
/// `simulate_water_step`, so both scans produce the same grid.
pub proof fn lemma_gather_order_independent(m: TileMap, seep: bool)
    requires
        m.wf(),
    ensures
        forall|j: int|
            0 <= j < m.tiles@.len() ==> #[trigger] gather_top_down(m.tiles@, m.width as int, seep, 0, j)
                == water_delta(m.tiles@, m.width as int, seep, j),
        water_step(m.tiles@, m.width as int, seep) == Seq::new(
            m.tiles@.len(),
            |j: int| apply_delta(m.tiles@[j], gather_top_down(m.tiles@, m.width as int, seep, 0, j)),
        ),
{
    let t = m.tiles@;
    let w = m.width as int;
    assert forall|j: int| 0 <= j < t.len() implies #[trigger] gather_top_down(t, w, seep, 0, j)
        == water_delta(t, w, seep, j) by {
        lemma_top_down_split(t, w, seep, 0, j);
    }
    assert(water_step(t, w, seep) =~= Seq::new(
        t.len(),
        |j: int| apply_delta(t[j], gather_top_down(t, w, seep, 0, j)),
    ));
}

/// A neighbour that takes no water from a tile holding `amount`: Stone,
/// Foliage, Dirt that takes no moisture (seepage off, or saturated), or Air or Water that holds at least as much.
pub open spec fn side_at_rest(amount: int, side: Tile, seep: bool) -> bool {
    ||| side.tile_type == TileType::Stone
    ||| side.tile_type == TileType::Foliage
    ||| (side.tile_type == TileType::Dirt && (!seep || side.water_amount >= MAX_DIRT_MOISTURE))
    ||| ((side.tile_type == TileType::Air || side.tile_type == TileType::Water) && side.water_amount
        >= amount)
}

/// A tile that takes no water from the tile above it: Stone, Foliage,
/// Dirt that takes no moisture (seepage off, or saturated), or full Water.
pub open spec fn below_at_rest(below: Tile, seep: bool) -> bool {
    ||| below.tile_type == TileType::Stone
    ||| below.tile_type == TileType::Foliage
    ||| (below.tile_type == TileType::Dirt && (!seep || below.water_amount >= MAX_DIRT_MOISTURE))
    ||| (below.tile_type == TileType::Water && below.water_amount == MAX_WATER_AMOUNT)
}

/// Settled water: every water tile rests on the bottom row or on a tile
/// that takes nothing from it, and is level with (or lower than) the open
/// tiles beside it. A flat pool of even depth between solid walls is one.
pub open spec fn settled(t: Seq<Tile>, w: int, seep: bool) -> bool {
    forall|i: int|
        0 <= i < t.len() && is_donor(#[trigger] t[i]) ==> {
            &&& (i >= w ==> below_at_rest(t[i - w], seep))
            &&& (i % w != 0 ==> side_at_rest(t[i].water_amount as int, t[i - 1], seep))
            &&& (i % w + 1 < w ==> side_at_rest(t[i].water_amount as int, t[i + 1], seep))
        }
}

/// Settled water is at rest: one more step changes nothing.
pub proof fn lemma_settled_is_fixed_point(m: TileMap, seep: bool)
    requires
        m.wf(),
        settled(m.tiles@, m.width as int, seep),
    ensures
        water_step(m.tiles@, m.width as int, seep) == m.tiles@,
{
    let t = m.tiles@;
    let w = m.width as int;
    let h = m.height as int;
    assert forall|i: int| 0 <= i < t.len() implies flow_down(t, w, seep, i) == 0 && flow_left(t, w, seep, i)
        == 0 && flow_right(t, w, seep, i) == 0 by {
        lemma_index_coords(w, h, i);
        lemma_coords(w, h, i % w, i / w);
        assert(t[i].wf());
        if is_donor(t[i]) {
            assert(flow_down(t, w, seep, i) == 0);
            assert(flow_left(t, w, seep, i) == 0);
        }
    }
    assert forall|j: int| 0 <= j < t.len() implies water_delta(t, w, seep, j) == 0 by {
        if j + w < t.len() {
            assert(flow_down(t, w, seep, j + w) == 0);
        }
        if 0 <= j + 1 < t.len() {
            assert(flow_left(t, w, seep, j + 1) == 0);
        }
        if 0 <= j - 1 < t.len() {
            assert(flow_right(t, w, seep, j - 1) == 0);
        }
    }
    assert(water_step(t, w, seep) =~= t);
}

/// A tile that holds water in place from the side or from below: Stone,
/// Foliage, or Dirt that takes no moisture.
pub open spec fn holds_water(t: Tile, seep: bool) -> bool {
    ||| t.tile_type == TileType::Stone
    ||| t.tile_type == TileType::Foliage
    ||| (t.tile_type == TileType::Dirt && (!seep || t.water_amount >= MAX_DIRT_MOISTURE))
}

/// A flat pool: the only water of the grid is a run of tiles `a..=b` of row
/// `r`, all holding the same amount `d`, closed at both ends by tiles that
/// hold water (or by the grid's edge) and resting on such tiles (or on the
/// bottom row).
pub open spec fn flat_pool(m: TileMap, seep: bool, r: int, a: int, b: int, d: int) -> bool {
    &&& 0 <= a <= b < m.width
    &&& 0 <= r < m.height
    &&& d > 0
    &&& forall|x: int| a <= x <= b ==> (#[trigger] m.at(x, r)).tile_type == TileType::Water
        && m.at(x, r).water_amount == d
    &&& forall|x: int, y: int|
        m.in_bounds(x, y) && is_donor(#[trigger] m.at(x, y)) ==> y == r && a <= x <= b
    &&& a > 0 ==> holds_water(m.at(a - 1, r), seep)
    &&& b + 1 < m.width ==> holds_water(m.at(b + 1, r), seep)
    &&& r > 0 ==> forall|x: int| a <= x <= b ==> holds_water(#[trigger] m.at(x, r - 1), seep)
}

/// Idempotence at rest: a flat pool is settled, so one more water step
/// leaves the grid exactly as it was.
pub proof fn lemma_flat_pool_is_fixed_point(m: TileMap, seep: bool, r: int, a: int, b: int, d: int)
    requires
        m.wf(),
        flat_pool(m, seep, r, a, b, d),
    ensures
        water_step(m.tiles@, m.width as int, seep) == m.tiles@,
{
    let t = m.tiles@;
    let w = m.width as int;
    let h = m.height as int;
    assert forall|i: int| 0 <= i < t.len() && is_donor(#[trigger] t[i]) implies {
        &&& (i >= w ==> below_at_rest(t[i - w], seep))
        &&& (i % w != 0 ==> side_at_rest(t[i].water_amount as int, t[i - 1], seep))
        &&& (i % w + 1 < w ==> side_at_rest(t[i].water_amount as int, t[i + 1], seep))
    } by {
        lemma_index_coords(w, h, i);
        let x = i % w;
        let y = i / w;
        lemma_coords(w, h, x, y);
        assert(m.at(x, y) == t[i]);
        assert(y == r && a <= x <= b);
        if i >= w {
            assert(m.at(x, y - 1) == t[i - w]) by {
                assert((y - 1) * w + x == i - w) by (nonlinear_arith)
                    requires
                        i == y * w + x,
                ;
            }
        }
        if x > 0 {
            assert(m.at(x - 1, y) == t[i - 1]);
        }
        if x + 1 < w {
            assert(m.at(x + 1, y) == t[i + 1]);
        }
    }
    lemma_settled_is_fixed_point(m, seep);
}

} // verus!
