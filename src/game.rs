//! The world: the tile grid, the entities keyed by id, the light rays, and
//! the order in which a tick runs them.
use vstd::prelude::*;
use crate::draw::{DRAW_SCALE, PromiserDraw, RayDraw, SpawnDraw, TickDraw};
use crate::foliage::{foliage_step, simulate_foliage_step};
use crate::light::{
    LightRay, decay_light, faded, generate_light_rays, light_pass, spawn_count, spawned_rays,
    update_light_rays,
};
use crate::promiser::{MAX_WORLD, Promiser, spawned, tick_view};
use crate::tile::{Tile, TileMap, TileType, TILE_SIZE, MAX_WATER_AMOUNT, grid_index, tiles_wf};
use crate::water::{simulate_water_with_seepage, water_step};

verus! {

/// Length of a fixed tick, in microseconds (a sixtieth of a second).
pub const TICK_MICROS: u32 = 16_667;

/// Entities a new world starts with.
pub const INITIAL_PROMISERS: usize = 20;

/// Ticks between water steps (and between light spawns).
pub const WATER_PERIOD: u64 = 6;

/// Ticks between foliage steps.
pub const FOLIAGE_PERIOD: u64 = 60;

/// Rows of Dirt at the bottom of a new world.
pub const GROUND_ROWS: usize = 3;

/// Half the width of the block of water placed in a new world.
pub const POOL_HALF_WIDTH: usize = 3;

/// Height of the block of water placed in a new world.
pub const POOL_HEIGHT: usize = 6;

/// The tile at `(x, y)` of a new `w` by `h` world: a block of water in the
/// middle, starting at half height, over a floor of Dirt.
pub open spec fn initial_tile(w: int, h: int, x: int, y: int) -> Tile {
    let cx = w / 2;
    let cy = h / 2;
    let left = if cx >= POOL_HALF_WIDTH { cx - POOL_HALF_WIDTH } else { 0 };
    if left <= x <= cx + POOL_HALF_WIDTH && cy <= y < cy + POOL_HEIGHT {
        Tile::spec_of_kind(TileType::Water)
    } else if y < GROUND_ROWS {
        Tile::spec_of_kind(TileType::Dirt)
    } else {
        Tile::spec_of_kind(TileType::Air)
    }
}

/// The kind of tile a label names; an unknown label names Air.
pub open spec fn kind_of_label(label: Seq<char>) -> TileType {
    if label == "Dirt"@ {
        TileType::Dirt
    } else if label == "Stone"@ {
        TileType::Stone
    } else if label == "Water"@ {
        TileType::Water
    } else if label == "Foliage"@ {
        TileType::Foliage
    } else {
        TileType::Air
    }
}

/// The label of a kind of tile.
pub open spec fn label_of_kind(kind: TileType) -> Seq<char> {
    match kind {
        TileType::Air => "Air"@,
        TileType::Dirt => "Dirt"@,
        TileType::Stone => "Stone"@,
        TileType::Water => "Water"@,
        TileType::Foliage => "Foliage"@,
    }
}

/// Some entity of the sequence is the special "pixel" entity.
pub open spec fn has_pixel(s: Seq<Promiser>) -> bool {
    exists|i: int| 0 <= i < s.len() && (#[trigger] s[i]).is_pixel
}

/// An entity whose collision box fits in the world lies inside it.
pub open spec fn inside_world(p: Promiser, width: int, height: int) -> bool {
    &&& 2 * p.size <= width ==> p.size <= p.x <= width - p.size
    &&& 2 * p.size <= height ==> p.size <= p.y <= height - p.size
}

/// Two sequences hold entities with the same ids and pixel flags, in order.
pub open spec fn same_ids(a: Seq<Promiser>, b: Seq<Promiser>) -> bool {
    &&& a.len() == b.len()
    &&& forall|i: int| 0 <= i < a.len() ==> (#[trigger] a[i]).id == b[i].id && a[i].is_pixel == b[i].is_pixel
}

/// The world: a tile grid, the wandering entities (in increasing order of
/// id), and the light rays alive. Sizes of the world are in milli-pixels.
pub struct GameState {
    pub promisers: Vec<Promiser>,
    pub next_id: u32,
    pub world_width: i64,
    pub world_height: i64,
    pub last_update: u64,
    pub tick_count: u64,
    pub tile_map: TileMap,
    pub light_rays: Vec<LightRay>,
}

impl GameState {
    /// The world's invariant: the pixel size matches the grid; ids are
    /// unique, increasing, and below `next_id`; the entity with id 0, and
    /// only it, is the pixel entity; every part is in range.
    pub open spec fn wf(&self) -> bool {
        &&& self.tile_map.wf()
        &&& self.world_width == self.tile_map.width * TILE_SIZE
        &&& self.world_height == self.tile_map.height * TILE_SIZE
        &&& self.world_width <= MAX_WORLD
        &&& self.world_height <= MAX_WORLD
        &&& forall|i: int, j: int|
            0 <= i < j < self.promisers@.len() ==> (#[trigger] self.promisers@[i]).id
                < (#[trigger] self.promisers@[j]).id
        &&& forall|i: int|
            0 <= i < self.promisers@.len() ==> {
                &&& (#[trigger] self.promisers@[i]).id < self.next_id
                &&& self.promisers@[i].wf()
                &&& (self.promisers@[i].is_pixel <==> self.promisers@[i].id == 0)
            }
        &&& forall|i: int| 0 <= i < self.light_rays@.len() ==> (#[trigger] self.light_rays@[i]).wf()
    }

    /// A world of `width_tiles` by `height_tiles` tiles with the starting
    /// terrain of `initial_tile`, and its starting population of
    /// `INITIAL_PROMISERS` entities, one per draw, dropped from the top of the
    /// world.
    pub fn new(width_tiles: u32, height_tiles: u32, draws: &Vec<PromiserDraw>) -> (g: GameState)
        requires
            width_tiles * height_tiles <= usize::MAX,
            width_tiles * TILE_SIZE <= MAX_WORLD,
            height_tiles * TILE_SIZE <= MAX_WORLD,
            draws@.len() == INITIAL_PROMISERS,
            forall|i: int| 0 <= i < draws@.len() ==> (#[trigger] draws@[i]).wf(),
        ensures
            g.wf(),
            g.tile_map.width == width_tiles,
            g.tile_map.height == height_tiles,
            forall|x: int, y: int|
                0 <= x < width_tiles && 0 <= y < height_tiles ==> #[trigger] g.tile_map.at(x, y)
                    == initial_tile(width_tiles as int, height_tiles as int, x, y),
            g.promisers@.len() == draws@.len(),
            g.next_id == draws@.len(),
            forall|i: int|
                0 <= i < draws@.len() ==> (#[trigger] g.promisers@[i])@ == spawned(
                    i as u32,
                    draws@[i].x * g.world_width / DRAW_SCALE as int,
                    g.world_height as int,
                    draws@[i],
                ),
            g.light_rays@.len() == 0,
            g.tick_count == 0,
            g.last_update == 0,
    {
        let w = width_tiles as usize;
        let h = height_tiles as usize;
        let len = w * h;
        let mut tiles: Vec<Tile> = Vec::with_capacity(len);
        let cx = w / 2;
        let cy = h / 2;
        let left = if cx >= POOL_HALF_WIDTH { cx - POOL_HALF_WIDTH } else { 0 };
        let mut y: usize = 0;
        while y < h
            invariant
                y <= h,
                len == w * h,
                tiles@.len() == y * w,
                cx == w / 2,
                cy == h / 2,
                left == (if cx >= POOL_HALF_WIDTH { cx - POOL_HALF_WIDTH } else { 0 }),
                forall|i: int, j: int|
                    0 <= i < w && 0 <= j < y ==> #[trigger] tiles@[grid_index(w as int, i, j)]
                        == initial_tile(w as int, h as int, i, j),
            decreases h - y,
        {
            let mut x: usize = 0;
            while x < w
                invariant
                    x <= w,
                    y < h,
                    len == w * h,
                    tiles@.len() == y * w + x,
                    cx == w / 2,
                    cy == h / 2,
                    left == (if cx >= POOL_HALF_WIDTH { cx - POOL_HALF_WIDTH } else { 0 }),
                    forall|i: int, j: int|
                        0 <= i < w && 0 <= j < y ==> #[trigger] tiles@[grid_index(w as int, i, j)]
                            == initial_tile(w as int, h as int, i, j),
                    forall|i: int|
                        0 <= i < x ==> #[trigger] tiles@[grid_index(w as int, i, y as int)]
                            == initial_tile(w as int, h as int, i, y as int),
                decreases w - x,
            {
                let kind = if left <= x && x <= cx + POOL_HALF_WIDTH && cy <= y && y < cy + POOL_HEIGHT {
                    TileType::Water
                } else if y < GROUND_ROWS {
                    TileType::Dirt
                } else {
                    TileType::Air
                };
                proof {
                    crate::tile::lemma_index_in_grid(w as int, h as int, x as int, y as int);
                }
                let ghost before = tiles@;
                tiles.push(Tile::of_kind(kind));
                proof {
                    assert forall|i: int, j: int|
                        0 <= i < w && 0 <= j < y implies #[trigger] tiles@[grid_index(w as int, i, j)]
                            == initial_tile(w as int, h as int, i, j) by {
                        crate::tile::lemma_index_in_grid(w as int, y as int, i, j);
                        assert(w * y == y * w) by (nonlinear_arith);
                        assert(tiles@[grid_index(w as int, i, j)] == before[grid_index(w as int, i, j)]);
                    }
                }
                x = x + 1;
            }
            assert((y + 1) * w == y * w + w) by (nonlinear_arith);
            y = y + 1;
        }
        let ghost t = tiles@;
        let mut state = GameState {
            promisers: Vec::new(),
            next_id: 0,
            world_width: width_tiles as i64 * TILE_SIZE,
            world_height: height_tiles as i64 * TILE_SIZE,
            last_update: 0,
            tick_count: 0,
            tile_map: TileMap { width: w, height: h, tiles },
            light_rays: Vec::new(),
        };
        assert(y * w == len) by (nonlinear_arith)
            requires
                y == h,
                len == w * h,
        ;
        assert(tiles_wf(state.tile_map.tiles@)) by {
            assert forall|i: int| 0 <= i < len implies (#[trigger] state.tile_map.tiles@[i]).wf() by {
                assert(w > 0) by (nonlinear_arith)
                    requires
                        0 <= i < len,
                        len == w * h,
                        w >= 0,
                ;
                crate::water::lemma_index_coords(w as int, h as int, i);
                let xx = i % (w as int);
                let yy = i / (w as int);
                assert(state.tile_map.tiles@[grid_index(w as int, xx, yy)] == initial_tile(w as int, h as int, xx, yy));
            }
        }
        let mut k: usize = 0;
        while k < draws.len()
            invariant
                state.wf(),
                state.tile_map.width == w,
                state.tile_map.height == h,
                state.tile_map.tiles@ == t,
                state.world_width == width_tiles * TILE_SIZE,
                state.world_height == height_tiles * TILE_SIZE,
                k <= draws@.len(),
                draws@.len() == INITIAL_PROMISERS,
                forall|i: int| 0 <= i < draws@.len() ==> (#[trigger] draws@[i]).wf(),
                state.promisers@.len() == k,
                state.next_id == k,
                forall|i: int|
                    0 <= i < k ==> (#[trigger] state.promisers@[i])@ == spawned(
                        i as u32,
                        draws@[i].x * state.world_width / DRAW_SCALE as int,
                        state.world_height as int,
                        draws@[i],
                    ),
                state.light_rays@.len() == 0,
                state.tick_count == 0,
                state.last_update == 0,
            decreases draws@.len() - k,
        {
            let ghost before = state.promisers@;
            state.add_promiser(&draws[k]);
            proof {
                assert forall|i: int| 0 <= i < k implies (#[trigger] state.promisers@[i]) == before[i] by {
                    assert(state.promisers@.drop_last()[i] == state.promisers@[i]);
                }
            }
            k = k + 1;
        }
        state
    }

    /// The x coordinate at which a drawn entity spawns.
    fn spawn_x(&self, draw: &PromiserDraw) -> (r: i64)
        requires
            self.wf(),
            draw.wf(),
        ensures
            r == draw.x * self.world_width / DRAW_SCALE as int,
    {
        assert(draw.x * self.world_width <= 1_000_000 * MAX_WORLD) by (nonlinear_arith)
            requires
                draw.x < 1_000_000,
                0 <= self.world_width <= MAX_WORLD,
        ;
        assert(0 <= draw.x * self.world_width) by (nonlinear_arith)
            requires
                0 <= draw.x,
                0 <= self.world_width,
        ;
        proof {
            assert(draw.x * self.world_width <= 1_000_000 * self.world_width) by (nonlinear_arith)
                requires
                    draw.x < 1_000_000,
                    0 <= self.world_width,
            ;
            vstd::arithmetic::div_mod::lemma_div_is_ordered(
                draw.x * self.world_width,
                1_000_000 * self.world_width,
                1_000_000,
            );
            vstd::arithmetic::div_mod::lemma_div_multiples_vanish(self.world_width as int, 1_000_000);
        }
        (draw.x as i128 * self.world_width as i128 / DRAW_SCALE as i128) as i64
    }

    /// Adds an entity with the next id, dropped from the top of the world at
    /// the drawn position. Nothing happens once every id has been used.
    pub fn add_promiser(&mut self, draw: &PromiserDraw)
        requires
            old(self).wf(),
            draw.wf(),
        ensures
            final(self).wf(),
            final(self).tile_map == old(self).tile_map,
            final(self).world_width == old(self).world_width,
            final(self).world_height == old(self).world_height,
            final(self).light_rays == old(self).light_rays,
            final(self).tick_count == old(self).tick_count,
            final(self).last_update == old(self).last_update,
            old(self).next_id < u32::MAX ==> {
                &&& final(self).next_id == old(self).next_id + 1
                &&& final(self).promisers@.len() == old(self).promisers@.len() + 1
                &&& final(self).promisers@.drop_last() == old(self).promisers@
                &&& final(self).promisers@.last()@ == spawned(
                    old(self).next_id,
                    draw.x * old(self).world_width / DRAW_SCALE as int,
                    old(self).world_height as int,
                    *draw,
                )
            },
            old(self).next_id == u32::MAX ==> final(self).promisers@ == old(self).promisers@
                && final(self).next_id == old(self).next_id,
            has_pixel(final(self).promisers@) == (has_pixel(old(self).promisers@) || (old(
                self,
            ).next_id == 0)),
    {
        if self.next_id == u32::MAX {
            return;
        }
        let x = self.spawn_x(draw);
        let p = Promiser::new(self.next_id, x, self.world_height, draw);
        self.promisers.push(p);
        self.next_id = self.next_id + 1;
        assert(self.promisers@.drop_last() =~= old(self).promisers@);
        proof {
            let n = old(self).promisers@.len() as int;
            if has_pixel(old(self).promisers@) {
                let i = choose|i: int| 0 <= i < n && (#[trigger] old(self).promisers@[i]).is_pixel;
                assert(self.promisers@[i].is_pixel);
            }
            if has_pixel(self.promisers@) && !has_pixel(old(self).promisers@) {
                let i = choose|i: int| 0 <= i < n + 1 && (#[trigger] self.promisers@[i]).is_pixel;
                if i < n {
                    assert(old(self).promisers@[i].is_pixel);
                }
            }
            if old(self).next_id == 0 {
                assert(self.promisers@[n].is_pixel);
            }
        }
    }

    /// Removes the entity with the given id; does nothing if there is none.
    pub fn remove_promiser(&mut self, id: u32)
        requires
            old(self).wf(),
        ensures
            final(self).wf(),
            final(self).tile_map == old(self).tile_map,
            final(self).next_id == old(self).next_id,
            final(self).light_rays == old(self).light_rays,
            final(self).world_width == old(self).world_width,
            final(self).world_height == old(self).world_height,
            final(self).tick_count == old(self).tick_count,
            final(self).last_update == old(self).last_update,
            forall|i: int|
                0 <= i < old(self).promisers@.len() && (#[trigger] old(self).promisers@[i]).id == id
                    ==> final(self).promisers@ == old(self).promisers@.remove(i),
            (forall|i: int| 0 <= i < old(self).promisers@.len() ==> (#[trigger] old(self).promisers@[i]).id != id)
                ==> final(self).promisers@ == old(self).promisers@,
            has_pixel(final(self).promisers@) == (has_pixel(old(self).promisers@) && id != 0),
    {
        match self.index_of(id) {
            Some(i) => {
                let ghost s = self.promisers@;
                let _p = self.promisers.remove(i);
                proof {
                    assert forall|j: int|
                        0 <= j < s.len() && (#[trigger] s[j]).id == id implies j == i by {
                        if j < i {
                            assert(s[j].id < s[i as int].id);
                        }
                        if j > i {
                            assert(s[i as int].id < s[j].id);
                        }
                    }
                    if has_pixel(self.promisers@) {
                        let j = choose|j: int| 0 <= j < s.len() - 1 && (#[trigger] self.promisers@[j]).is_pixel;
                        if j < i {
                            assert(s[j].is_pixel);
                        } else {
                            assert(s[j + 1].is_pixel);
                        }
                    }
                    if has_pixel(s) && id != 0 {
                        let j = choose|j: int| 0 <= j < s.len() && (#[trigger] s[j]).is_pixel;
                        if j < i {
                            assert(self.promisers@[j].is_pixel);
                        } else {
                            assert(self.promisers@[j - 1].is_pixel);
                        }
                    }
                }
            },
            None => {
                proof {
                    if has_pixel(self.promisers@) {
                        let j = choose|j: int| 0 <= j < self.promisers@.len() && (#[trigger] self.promisers@[j]).is_pixel;
                        assert(self.promisers@[j].id == 0);
                    }
                }
            },
        }
    }

    /// Ticks every entity in order, entity `i` with draw `i`, against the
    /// tiles as they are.
    fn update_promisers(&mut self, dt: u32, draws: &Vec<TickDraw>)
        requires
            old(self).wf(),
            draws@.len() == old(self).promisers@.len(),
            forall|i: int| 0 <= i < draws@.len() ==> (#[trigger] draws@[i]).wf(),
        ensures
            final(self).wf(),
            final(self).tile_map == old(self).tile_map,
            final(self).light_rays == old(self).light_rays,
            final(self).next_id == old(self).next_id,
            final(self).world_width == old(self).world_width,
            final(self).world_height == old(self).world_height,
            final(self).tick_count == old(self).tick_count,
            final(self).last_update == old(self).last_update,
            same_ids(final(self).promisers@, old(self).promisers@),
            forall|i: int|
                0 <= i < old(self).promisers@.len() ==> inside_world(
                    #[trigger] final(self).promisers@[i],
                    old(self).world_width as int,
                    old(self).world_height as int,
                ),
            forall|i: int|
                0 <= i < old(self).promisers@.len() ==> (#[trigger] final(self).promisers@[i])@
                    == tick_view(
                    old(self).promisers@[i]@,
                    old(self).world_width as int,
                    old(self).world_height as int,
                    dt as int,
                    old(self).tile_map,
                    draws@[i],
                ),
    {
        let ghost s0 = self.promisers@;
        let n = self.promisers.len();
        let mut k: usize = 0;
        while k < n
            invariant
                k <= n,
                n == s0.len(),
                self.tile_map == old(self).tile_map,
                self.light_rays == old(self).light_rays,
                self.next_id == old(self).next_id,
                self.world_width == old(self).world_width,
                self.world_height == old(self).world_height,
                self.tick_count == old(self).tick_count,
                self.last_update == old(self).last_update,
                s0 == old(self).promisers@,
                old(self).wf(),
                draws@.len() == n,
                forall|i: int| 0 <= i < draws@.len() ==> (#[trigger] draws@[i]).wf(),
                same_ids(self.promisers@, s0),
                forall|i: int| 0 <= i < n ==> (#[trigger] self.promisers@[i]).wf(),
                forall|i: int| k <= i < n ==> (#[trigger] self.promisers@[i]) == s0[i],
                forall|i: int|
                    0 <= i < k ==> inside_world(
                        #[trigger] self.promisers@[i],
                        self.world_width as int,
                        self.world_height as int,
                    ),
                forall|i: int|
                    0 <= i < k ==> (#[trigger] self.promisers@[i])@ == tick_view(
                        s0[i]@,
                        self.world_width as int,
                        self.world_height as int,
                        dt as int,
                        self.tile_map,
                        draws@[i],
                    ),
            decreases n - k,
        {
            let w = self.world_width;
            let h = self.world_height;
            self.promisers[k].update(w, h, dt, &self.tile_map, &draws[k]);
            k = k + 1;
        }
        assert(self.wf()) by {
            assert forall|i: int, j: int|
                0 <= i < j < self.promisers@.len() implies (#[trigger] self.promisers@[i]).id
                    < (#[trigger] self.promisers@[j]).id by {
                assert(s0[i].id < s0[j].id);
            }
        }
    }

    /// The position of the entity with the given id, if there is one.
    fn index_of(&self, id: u32) -> (r: Option<usize>)
        requires
            self.wf(),
        ensures
            match r {
                Some(i) => i < self.promisers@.len() && self.promisers@[i as int].id == id,
                None => forall|i: int|
                    0 <= i < self.promisers@.len() ==> (#[trigger] self.promisers@[i]).id != id,
            },
    {
        let mut k: usize = 0;
        while k < self.promisers.len()
            invariant
                k <= self.promisers@.len(),
                forall|i: int| 0 <= i < k ==> (#[trigger] self.promisers@[i]).id != id,
            decreases self.promisers@.len() - k,
        {
            if self.promisers[k].id == id {
                return Some(k);
            }
            k = k + 1;
        }
        None
    }
}

/// The time, in microseconds, that a frame at `now` milliseconds covers: a
/// nominal tick at first, nothing if the clock went back, and at most what
/// a `u32` holds.
pub open spec fn frame_micros(last_update: int, now: int) -> int {
    if last_update == 0 {
        TICK_MICROS as int
    } else if now <= last_update {
        0
    } else if (now - last_update) * 1000 > u32::MAX {
        u32::MAX as int
    } else {
        (now - last_update) * 1000
    }
}

/// The water step runs on this tick.
pub open spec fn water_due(tick_count: u64) -> bool {
    tick_count % WATER_PERIOD == 0
}

/// The foliage step runs on this tick.
pub open spec fn foliage_due(tick_count: u64) -> bool {
    tick_count % FOLIAGE_PERIOD == 0
}

/// The tiles after the water and foliage steps that are due.
pub open spec fn terrain_after(t: Seq<Tile>, w: int, tick_count: u64) -> Seq<Tile> {
    let t1 = if water_due(tick_count) { water_step(t, w, true) } else { t };
    if foliage_due(tick_count) { foliage_step(t1, w) } else { t1 }
}

impl GameState {
    /// Runs entity kinematics over a frame ending at `current_time`
    /// (milliseconds); see `frame_micros`. Entity `i` uses draw `i`.
    pub fn update(&mut self, current_time: u64, draws: &Vec<TickDraw>)
        requires
            old(self).wf(),
            draws@.len() == old(self).promisers@.len(),
            forall|i: int| 0 <= i < draws@.len() ==> (#[trigger] draws@[i]).wf(),
        ensures
            final(self).wf(),
            final(self).tile_map == old(self).tile_map,
            final(self).light_rays == old(self).light_rays,
            final(self).next_id == old(self).next_id,
            final(self).tick_count == old(self).tick_count,
            final(self).last_update == current_time,
            same_ids(final(self).promisers@, old(self).promisers@),
            has_pixel(final(self).promisers@) == has_pixel(old(self).promisers@),
            forall|i: int|
                0 <= i < old(self).promisers@.len() ==> inside_world(
                    #[trigger] final(self).promisers@[i],
                    old(self).world_width as int,
                    old(self).world_height as int,
                ),
            forall|i: int|
                0 <= i < old(self).promisers@.len() ==> (#[trigger] final(self).promisers@[i])@
                    == tick_view(
                    old(self).promisers@[i]@,
                    old(self).world_width as int,
                    old(self).world_height as int,
                    frame_micros(old(self).last_update as int, current_time as int),
                    old(self).tile_map,
                    draws@[i],
                ),
    {
        let dt: u32 = if self.last_update == 0 {
            TICK_MICROS
        } else if current_time <= self.last_update {
            0
        } else if current_time - self.last_update > (u32::MAX / 1000) as u64 {
            u32::MAX
        } else {
            ((current_time - self.last_update) * 1000) as u32
        };
        self.last_update = current_time;
        self.update_promisers(dt, draws);
        proof {
            lemma_same_ids_pixel(self.promisers@, old(self).promisers@);
        }
    }

    /// One fixed tick of a sixtieth of a second: entity kinematics (entity
    /// `i` uses `entity_draws[i]`), then the water and foliage steps when
    /// due, then the light rays (ray `i` uses `ray_draws[i]`), new rays when
    /// due, and the fading of light energy.
    pub fn tick(
        &mut self,
        entity_draws: &Vec<TickDraw>,
        ray_draws: &Vec<RayDraw>,
        spawn_draws: &Vec<SpawnDraw>,
    )
        requires
            old(self).wf(),
            entity_draws@.len() == old(self).promisers@.len(),
            forall|i: int| 0 <= i < entity_draws@.len() ==> (#[trigger] entity_draws@[i]).wf(),
            ray_draws@.len() >= old(self).light_rays@.len(),
            forall|i: int| 0 <= i < ray_draws@.len() ==> (#[trigger] ray_draws@[i]).wf(),
            forall|i: int| 0 <= i < spawn_draws@.len() ==> (#[trigger] spawn_draws@[i]).wf(),
        ensures
            final(self).wf(),
            final(self).next_id == old(self).next_id,
            final(self).last_update == old(self).last_update,
            final(self).tick_count == (if old(self).tick_count == u64::MAX { 0 } else { old(self).tick_count + 1 }),
            final(self).tile_map.width == old(self).tile_map.width,
            final(self).tile_map.height == old(self).tile_map.height,
            same_ids(final(self).promisers@, old(self).promisers@),
            has_pixel(final(self).promisers@) == has_pixel(old(self).promisers@),
            forall|i: int|
                0 <= i < old(self).promisers@.len() ==> inside_world(
                    #[trigger] final(self).promisers@[i],
                    old(self).world_width as int,
                    old(self).world_height as int,
                ),
            forall|i: int|
                0 <= i < old(self).promisers@.len() ==> (#[trigger] final(self).promisers@[i])@
                    == tick_view(
                    old(self).promisers@[i]@,
                    old(self).world_width as int,
                    old(self).world_height as int,
                    TICK_MICROS as int,
                    old(self).tile_map,
                    entity_draws@[i],
                ),
            ({
                let w = old(self).tile_map.width as int;
                let h = old(self).tile_map.height as int;
                let t1 = terrain_after(old(self).tile_map.tiles@, w, old(self).tick_count);
                let pass = light_pass(
                    old(self).light_rays@,
                    t1,
                    w,
                    h,
                    old(self).world_width as int,
                    old(self).world_height as int,
                    TICK_MICROS as int,
                    ray_draws@,
                    old(self).light_rays@.len() as int,
                );
                let wanted = spawn_count(pass.0.len() as int);
                let count = if wanted <= spawn_draws@.len() { wanted } else { spawn_draws@.len() as int };
                let born = if water_due(old(self).tick_count) {
                    spawned_rays(pass.1, w, h, old(self).world_width as int, old(self).world_height as int, spawn_draws@, count)
                } else {
                    Seq::empty()
                };
                &&& final(self).light_rays@ == pass.0 + born
                &&& final(self).tile_map.tiles@ == Seq::new(pass.1.len(), |j: int| faded(pass.1[j]))
            }),
    {
        self.update_promisers(TICK_MICROS, entity_draws);
        proof {
            lemma_same_ids_pixel(self.promisers@, old(self).promisers@);
        }
        let ghost t0 = self.tile_map.tiles@;
        if self.tick_count % WATER_PERIOD == 0 {
            simulate_water_with_seepage(&mut self.tile_map);
        }
        if self.tick_count % FOLIAGE_PERIOD == 0 {
            simulate_foliage_step(&mut self.tile_map);
        }
        assert(self.tile_map.tiles@ == terrain_after(t0, self.tile_map.width as int, self.tick_count));
        let w = self.world_width;
        let h = self.world_height;
        update_light_rays(&mut self.light_rays, &mut self.tile_map, w, h, TICK_MICROS, ray_draws);
        if self.tick_count % WATER_PERIOD == 0 {
            generate_light_rays(&mut self.light_rays, &self.tile_map, w, h, spawn_draws);
        } else {
            assert(self.light_rays@ =~= self.light_rays@ + Seq::<LightRay>::empty());
        }
        decay_light(&mut self.tile_map);
        self.tick_count = if self.tick_count == u64::MAX { 0 } else { self.tick_count + 1 };
    }

    /// Runs the water step, with Dirt seepage, now; see `water_step`.
    pub fn simulate_water(&mut self)
        requires
            old(self).wf(),
        ensures
            final(self).wf(),
            final(self).tile_map.width == old(self).tile_map.width,
            final(self).tile_map.height == old(self).tile_map.height,
            final(self).tile_map.tiles@ == water_step(old(self).tile_map.tiles@, old(self).tile_map.width as int, true),
            final(self).promisers == old(self).promisers,
            final(self).light_rays == old(self).light_rays,
            final(self).next_id == old(self).next_id,
            final(self).tick_count == old(self).tick_count,
    {
        simulate_water_with_seepage(&mut self.tile_map);
    }

    /// Runs the foliage step now; see `foliage_step`.
    pub fn simulate_foliage(&mut self)
        requires
            old(self).wf(),
        ensures
            final(self).wf(),
            final(self).tile_map.width == old(self).tile_map.width,
            final(self).tile_map.height == old(self).tile_map.height,
            final(self).tile_map.tiles@ == foliage_step(old(self).tile_map.tiles@, old(self).tile_map.width as int),
            final(self).promisers == old(self).promisers,
            final(self).light_rays == old(self).light_rays,
            final(self).next_id == old(self).next_id,
            final(self).tick_count == old(self).tick_count,
    {
        simulate_foliage_step(&mut self.tile_map);
    }
}

/// The entity with id `id` is at position `i`, and the command turned it
/// into `after` (given as a view) and left the rest of the world alone; or
/// there is no such entity and nothing changed.
pub open spec fn commanded(
    old: Seq<Promiser>,
    new: Seq<Promiser>,
    id: u32,
    after: spec_fn(Promiser) -> crate::promiser::PromiserView,
) -> bool {
    &&& new.len() == old.len()
    &&& forall|i: int|
        0 <= i < old.len() ==> if (#[trigger] old[i]).id == id {
            new[i]@ == after(old[i]) && new[i].wf()
        } else {
            new[i] == old[i]
        }
}

impl GameState {
    /// Puts the entity with the given id into Thinking, with a fresh timer.
    pub fn make_promiser_think(&mut self, id: u32)
        requires
            old(self).wf(),
        ensures
            final(self).wf(),
            final(self).tile_map == old(self).tile_map,
            final(self).light_rays == old(self).light_rays,
            final(self).next_id == old(self).next_id,
            final(self).tick_count == old(self).tick_count,
            same_ids(final(self).promisers@, old(self).promisers@),
            has_pixel(final(self).promisers@) == has_pixel(old(self).promisers@),
            commanded(
                old(self).promisers@,
                final(self).promisers@,
                id,
                |p: Promiser|
                    crate::promiser::PromiserView {
                        state: crate::promiser::PromiserState::Thinking,
                        state_timer: 0,
                        ..p@
                    },
            ),
    {
        if let Some(i) = self.index_of(id) {
            self.promisers[i].start_thinking();
            proof {
                self.lemma_one_changed(old(self).promisers@, i as int, id);
            }
        }
        proof {
            lemma_same_ids_pixel(self.promisers@, old(self).promisers@);
        }
    }

    /// Makes the entity with the given id speak `thought`.
    pub fn make_promiser_speak(&mut self, id: u32, thought: String)
        requires
            old(self).wf(),
        ensures
            final(self).wf(),
            final(self).tile_map == old(self).tile_map,
            final(self).light_rays == old(self).light_rays,
            final(self).next_id == old(self).next_id,
            final(self).tick_count == old(self).tick_count,
            same_ids(final(self).promisers@, old(self).promisers@),
            has_pixel(final(self).promisers@) == has_pixel(old(self).promisers@),
            commanded(
                old(self).promisers@,
                final(self).promisers@,
                id,
                |p: Promiser|
                    crate::promiser::PromiserView {
                        state: crate::promiser::PromiserState::Speaking,
                        state_timer: 0,
                        thought: thought@,
                        ..p@
                    },
            ),
    {
        if let Some(i) = self.index_of(id) {
            self.promisers[i].set_thought(thought);
            proof {
                self.lemma_one_changed(old(self).promisers@, i as int, id);
            }
        }
        proof {
            lemma_same_ids_pixel(self.promisers@, old(self).promisers@);
        }
    }

    /// Makes the entity with the given id whisper `thought` to the entity
    /// `target_id` (which need not exist).
    pub fn make_promiser_whisper(&mut self, id: u32, thought: String, target_id: u32)
        requires
            old(self).wf(),
        ensures
            final(self).wf(),
            final(self).tile_map == old(self).tile_map,
            final(self).light_rays == old(self).light_rays,
            final(self).next_id == old(self).next_id,
            final(self).tick_count == old(self).tick_count,
            same_ids(final(self).promisers@, old(self).promisers@),
            has_pixel(final(self).promisers@) == has_pixel(old(self).promisers@),
            commanded(
                old(self).promisers@,
                final(self).promisers@,
                id,
                |p: Promiser|
                    crate::promiser::PromiserView {
                        state: crate::promiser::PromiserState::Whispering,
                        state_timer: 0,
                        thought: thought@,
                        target_id,
                        ..p@
                    },
            ),
    {
        if let Some(i) = self.index_of(id) {
            self.promisers[i].set_whisper(thought, target_id);
            proof {
                self.lemma_one_changed(old(self).promisers@, i as int, id);
            }
        }
        proof {
            lemma_same_ids_pixel(self.promisers@, old(self).promisers@);
        }
    }

    /// Makes the entity with the given id start running; see
    /// `Promiser::start_running`.
    pub fn make_promiser_run(&mut self, id: u32)
        requires
            old(self).wf(),
        ensures
            final(self).wf(),
            final(self).tile_map == old(self).tile_map,
            final(self).light_rays == old(self).light_rays,
            final(self).next_id == old(self).next_id,
            final(self).tick_count == old(self).tick_count,
            same_ids(final(self).promisers@, old(self).promisers@),
            has_pixel(final(self).promisers@) == has_pixel(old(self).promisers@),
            commanded(
                old(self).promisers@,
                final(self).promisers@,
                id,
                |p: Promiser|
                    crate::promiser::PromiserView {
                        state: crate::promiser::PromiserState::Running,
                        state_timer: 0,
                        vx: crate::promiser::clamp(
                            2 * p.vx,
                            -crate::promiser::RUNNING_MAX_VX as int,
                            crate::promiser::RUNNING_MAX_VX as int,
                        ),
                        vy: crate::promiser::clamp(
                            crate::promiser::scale(p.vy as int, 3, 2),
                            -crate::promiser::RUNNING_MAX_VY as int,
                            crate::promiser::RUNNING_MAX_VY as int,
                        ),
                        ..p@
                    },
            ),
    {
        if let Some(i) = self.index_of(id) {
            self.promisers[i].start_running();
            proof {
                self.lemma_one_changed(old(self).promisers@, i as int, id);
            }
        }
        proof {
            lemma_same_ids_pixel(self.promisers@, old(self).promisers@);
        }
    }

    /// After one entity changed in place (keeping its id and flag), the
    /// world's invariant still holds and no other entity has the id.
    proof fn lemma_one_changed(&self, old_s: Seq<Promiser>, i: int, id: u32)
        requires
            0 <= i < old_s.len(),
            old_s[i].id == id,
            self.promisers@.len() == old_s.len(),
            forall|j: int| 0 <= j < old_s.len() && j != i ==> self.promisers@[j] == old_s[j],
            self.promisers@[i].id == id,
            self.promisers@[i].is_pixel == old_s[i].is_pixel,
            self.promisers@[i].wf(),
            forall|a: int, b: int| 0 <= a < b < old_s.len() ==> (#[trigger] old_s[a]).id < (#[trigger] old_s[b]).id,
        ensures
            forall|j: int| 0 <= j < old_s.len() && j != i ==> (#[trigger] old_s[j]).id != id,
            forall|a: int, b: int|
                0 <= a < b < self.promisers@.len() ==> (#[trigger] self.promisers@[a]).id
                    < (#[trigger] self.promisers@[b]).id,
            same_ids(self.promisers@, old_s),
    {
        assert forall|j: int| 0 <= j < old_s.len() && j != i implies (#[trigger] old_s[j]).id != id by {
            if j < i {
                assert(old_s[j].id < old_s[i].id);
            } else {
                assert(old_s[i].id < old_s[j].id);
            }
        }
        assert forall|a: int, b: int|
            0 <= a < b < self.promisers@.len() implies (#[trigger] self.promisers@[a]).id
                < (#[trigger] self.promisers@[b]).id by {
            assert(old_s[a].id < old_s[b].id);
        }
    }

    /// Places a fresh tile of the kind the label names (Air for an unknown
    /// label) at `(x, y)`; does nothing outside the grid.
    pub fn place_tile(&mut self, x: usize, y: usize, tile_type: String)
        requires
            old(self).wf(),
        ensures
            final(self).wf(),
            final(self).promisers == old(self).promisers,
            final(self).light_rays == old(self).light_rays,
            final(self).next_id == old(self).next_id,
            final(self).tick_count == old(self).tick_count,
            final(self).tile_map.width == old(self).tile_map.width,
            final(self).tile_map.height == old(self).tile_map.height,
            old(self).tile_map.in_bounds(x as int, y as int) ==> final(self).tile_map.tiles@
                == old(self).tile_map.tiles@.update(
                grid_index(old(self).tile_map.width as int, x as int, y as int),
                Tile::spec_of_kind(kind_of_label(tile_type@)),
            ),
            !old(self).tile_map.in_bounds(x as int, y as int) ==> final(self).tile_map.tiles@
                == old(self).tile_map.tiles@,
    {
        let kind = kind_from_label(&tile_type);
        self.tile_map.set_tile(x, y, Tile::of_kind(kind));
    }

    /// The label of the kind of tile at `(x, y)`; "Air" outside the grid.
    pub fn get_tile_at(&self, x: usize, y: usize) -> (r: String)
        requires
            self.wf(),
        ensures
            self.tile_map.in_bounds(x as int, y as int) ==> r@ == label_of_kind(
                self.tile_map.at(x as int, y as int).tile_type,
            ),
            !self.tile_map.in_bounds(x as int, y as int) ==> r@ == "Air"@,
    {
        match self.tile_map.get_tile(x, y) {
            Some(tile) => label_from_kind(tile.tile_type),
            None => label_from_kind(TileType::Air),
        }
    }

    /// The id of the pixel entity, if it is alive.
    pub fn find_pixel(&self) -> (r: Option<u32>)
        requires
            self.wf(),
        ensures
            has_pixel(self.promisers@) ==> r == Some(0u32),
            !has_pixel(self.promisers@) ==> r.is_none(),
            r matches Some(id) ==> exists|i: int|
                0 <= i < self.promisers@.len() && (#[trigger] self.promisers@[i]).is_pixel
                    && self.promisers@[i].id == id,
    {
        let mut k: usize = 0;
        while k < self.promisers.len()
            invariant
                self.wf(),
                k <= self.promisers@.len(),
                forall|i: int| 0 <= i < k ==> !(#[trigger] self.promisers@[i]).is_pixel,
            decreases self.promisers@.len() - k,
        {
            if self.promisers[k].is_pixel {
                assert(self.promisers@[k as int].id == 0);
                return Some(self.promisers[k].id);
            }
            k = k + 1;
        }
        None
    }

    /// The id of the pixel entity, or 0 if there is none.
    pub fn get_pixel_id(&self) -> (r: u32)
        requires
            self.wf(),
        ensures
            has_pixel(self.promisers@) ==> exists|i: int|
                0 <= i < self.promisers@.len() && (#[trigger] self.promisers@[i]).is_pixel
                    && self.promisers@[i].id == r,
            !has_pixel(self.promisers@) ==> r == 0,
    {
        match self.find_pixel() {
            Some(id) => id,
            None => 0,
        }
    }

    /// The id of the entity at the drawn position in id order, or 0 if there
    /// are none.
    pub fn get_random_promiser_id(&self, draw: u32) -> (r: u32)
        requires
            self.wf(),
            draw < DRAW_SCALE,
        ensures
            self.promisers@.len() == 0 ==> r == 0,
            self.promisers@.len() > 0 ==> r == self.promisers@[draw * self.promisers@.len() / DRAW_SCALE as int].id,
    {
        let n = self.promisers.len();
        if n == 0 {
            return 0;
        }
        assert(draw * n < DRAW_SCALE * n) by (nonlinear_arith)
            requires
                draw < DRAW_SCALE,
                n > 0,
        ;
        proof {
            let x = draw * n;
            vstd::arithmetic::div_mod::lemma_fundamental_div_mod(x as int, DRAW_SCALE as int);
            vstd::arithmetic::div_mod::lemma_mod_pos_bound(x as int, DRAW_SCALE as int);
            assert((x as int) / (DRAW_SCALE as int) < n) by (nonlinear_arith)
                requires
                    (DRAW_SCALE as int) * ((x as int) / (DRAW_SCALE as int)) <= x,
                    x < DRAW_SCALE * n,
            ;
            vstd::arithmetic::div_mod::lemma_div_pos_is_pos(x as int, DRAW_SCALE as int);
        }
        let idx = (draw as u128 * n as u128 / DRAW_SCALE as u128) as usize;
        self.promisers[idx].id
    }

    /// The number of entities alive.
    pub fn promiser_count(&self) -> (r: usize)
        ensures
            r == self.promisers@.len(),
    {
        self.promisers.len()
    }

    /// The tile grid.
    pub fn tile_map(&self) -> (r: &TileMap)
        ensures
            *r == self.tile_map,
    {
        &self.tile_map
    }
}

/// The kind of tile a label names; see `kind_of_label`.
pub fn kind_from_label(label: &String) -> (r: TileType)
    ensures
        r == kind_of_label(label@),
{
    if *label == "Dirt".to_owned() {
        TileType::Dirt
    } else if *label == "Stone".to_owned() {
        TileType::Stone
    } else if *label == "Water".to_owned() {
        TileType::Water
    } else if *label == "Foliage".to_owned() {
        TileType::Foliage
    } else {
        TileType::Air
    }
}

/// The label of a kind of tile; see `label_of_kind`.
pub fn label_from_kind(kind: TileType) -> (r: String)
    ensures
        r@ == label_of_kind(kind),
{
    match kind {
        TileType::Air => "Air".to_owned(),
        TileType::Dirt => "Dirt".to_owned(),
        TileType::Stone => "Stone".to_owned(),
        TileType::Water => "Water".to_owned(),
        TileType::Foliage => "Foliage".to_owned(),
    }
}

/// Ticks keep the pixel entity: with the same ids and flags in order, one
/// sequence has it exactly when the other does.
proof fn lemma_same_ids_pixel(a: Seq<Promiser>, b: Seq<Promiser>)
    requires
        same_ids(a, b),
    ensures
        has_pixel(a) == has_pixel(b),
{
    if has_pixel(a) {
        let i = choose|i: int| 0 <= i < a.len() && (#[trigger] a[i]).is_pixel;
        assert(b[i].is_pixel);
    }
    if has_pixel(b) {
        let i = choose|i: int| 0 <= i < b.len() && (#[trigger] b[i]).is_pixel;
        assert(a[i].is_pixel);
    }
}

} // verus!
