//! Light transport: rays enter at the world's edges, move, dim in water, and
//! are reflected or absorbed by solid tiles, whose light energy they raise.
use vstd::prelude::*;
use crate::draw::{DIRECTION_SCALE, DRAW_SCALE, RayDraw, SpawnDraw};
use crate::promiser::{MAX_WORLD, scale};
use crate::tile::{Tile, TileMap, TileType, TILE_SIZE, grid_index, tiles_wf};

verus! {

/// Most light rays alive at once.
pub const MAX_LIGHT_RAYS: usize = 10000;

/// Most light rays spawned by one call of `generate_light_rays`.
pub const RAYS_PER_SPAWN: usize = 100;

/// Speed of a new ray, in milli-pixels per second.
pub const RAY_SPEED: i64 = 100_000;

/// How far inside the world's edge a ray starts, in milli-pixels.
pub const RAY_START_EPSILON: i64 = 2_000;

/// Intensity of a new ray, in thousandths.
pub const FULL_INTENSITY: u32 = 1000;

/// Rays weaker than this are dropped.
pub const MIN_INTENSITY: u32 = 100;

/// Chance, in millionths, that a ray hitting a solid tile is reflected
/// rather than absorbed.
pub const REFLECT_CHANCE: u32 = 300_000;

/// Most light energy a tile holds.
pub const MAX_LIGHT_ENERGY: u32 = 1_000_000;

/// Brightness (in thousandths) of a tile that holds no energy.
pub const AMBIENT_BRIGHTNESS: u32 = 100;

/// Energy at which a tile is halfway between ambient and full brightness.
pub const HALF_BRIGHTNESS_ENERGY: u32 = 2_000;

/// A ray of light. Position in milli-pixels, direction as a unit vector in
/// thousandths, speed in milli-pixels per second, intensity in thousandths.
#[derive(Clone, Copy, Debug, PartialEq, Eq, Structural)]
pub struct LightRay {
    pub x: i64,
    pub y: i64,
    pub dir_x: i64,
    pub dir_y: i64,
    pub speed: i64,
    pub intensity: u32,
}

impl LightRay {
    pub open spec fn wf(self) -> bool {
        &&& -2 * MAX_WORLD <= self.x <= 2 * MAX_WORLD
        &&& -2 * MAX_WORLD <= self.y <= 2 * MAX_WORLD
        &&& -DIRECTION_SCALE <= self.dir_x <= DIRECTION_SCALE
        &&& -DIRECTION_SCALE <= self.dir_y <= DIRECTION_SCALE
        &&& 0 <= self.speed <= RAY_SPEED
        &&& self.intensity <= FULL_INTENSITY
    }

    /// The ray after moving for `dt` microseconds.
    pub open spec fn advanced(self, dt: int) -> LightRay {
        LightRay {
            x: (self.x + scale(self.dir_x * self.speed, dt, 1_000_000_000)) as i64,
            y: (self.y + scale(self.dir_y * self.speed, dt, 1_000_000_000)) as i64,
            ..self
        }
    }

    pub open spec fn outside(self, width: int, height: int) -> bool {
        self.x < 0 || self.x >= width || self.y < 0 || self.y >= height
    }

    proof fn lemma_velocity_bound(self)
        requires
            self.wf(),
        ensures
            -100_000_000 <= self.dir_x * self.speed <= 100_000_000,
            -100_000_000 <= self.dir_y * self.speed <= 100_000_000,
    {
        assert(-100_000_000 <= self.dir_x * self.speed <= 100_000_000) by (nonlinear_arith)
            requires
                -1000 <= self.dir_x <= 1000,
                0 <= self.speed <= 100_000,
        ;
        assert(-100_000_000 <= self.dir_y * self.speed <= 100_000_000) by (nonlinear_arith)
            requires
                -1000 <= self.dir_y <= 1000,
                0 <= self.speed <= 100_000,
        ;
    }

    /// A new ray at full intensity and speed, heading along the given
    /// direction normalised to a unit vector in thousandths (straight up for
    /// a zero direction); see `unit_dir`.
    pub fn new(start_x: i64, start_y: i64, direction_x: i32, direction_y: i32) -> (r: LightRay)
        requires
            -2 * MAX_WORLD <= start_x <= 2 * MAX_WORLD,
            -2 * MAX_WORLD <= start_y <= 2 * MAX_WORLD,
        ensures
            r == (LightRay {
                x: start_x,
                y: start_y,
                dir_x: unit_dir(direction_x as int, direction_y as int).0 as i64,
                dir_y: unit_dir(direction_x as int, direction_y as int).1 as i64,
                speed: RAY_SPEED,
                intensity: FULL_INTENSITY,
            }),
            r.wf(),
    {
        let (dir_x, dir_y) = unit_direction(direction_x, direction_y);
        LightRay { x: start_x, y: start_y, dir_x, dir_y, speed: RAY_SPEED, intensity: FULL_INTENSITY }
    }

    /// Horizontal velocity, in milli-pixels per second.
    pub fn vx(&self) -> (r: i64)
        requires
            self.wf(),
        ensures
            r == scale(self.dir_x * self.speed, 1, 1000),
    {
        proof {
            self.lemma_velocity_bound();
        }
        let p = self.dir_x * self.speed;
        if p >= 0 { p / 1000 } else { -((-p) / 1000) }
    }

    /// Vertical velocity, in milli-pixels per second.
    pub fn vy(&self) -> (r: i64)
        requires
            self.wf(),
        ensures
            r == scale(self.dir_y * self.speed, 1, 1000),
    {
        proof {
            self.lemma_velocity_bound();
        }
        let p = self.dir_y * self.speed;
        if p >= 0 { p / 1000 } else { -((-p) / 1000) }
    }

    /// Moves the ray for `dt` microseconds.
    pub fn update(&mut self, dt: u32)
        requires
            old(self).wf(),
        ensures
            *final(self) == old(self).advanced(dt as int),
            final(self).x == old(self).x + scale(old(self).dir_x * old(self).speed, dt as int, 1_000_000_000),
            final(self).y == old(self).y + scale(old(self).dir_y * old(self).speed, dt as int, 1_000_000_000),
            -2 * MAX_WORLD - 0x1_0000_0000 <= final(self).x <= 2 * MAX_WORLD + 0x1_0000_0000,
            -2 * MAX_WORLD - 0x1_0000_0000 <= final(self).y <= 2 * MAX_WORLD + 0x1_0000_0000,
    {
        proof {
            old(self).lemma_velocity_bound();
        }
        let dx = move_by(self.dir_x * self.speed, dt);
        let dy = move_by(self.dir_y * self.speed, dt);
        self.x = self.x + dx;
        self.y = self.y + dy;
    }

    /// Whether the ray has left the world.
    pub fn is_out_of_bounds(&self, world_width: i64, world_height: i64) -> (r: bool)
        ensures
            r == self.outside(world_width as int, world_height as int),
    {
        self.x < 0 || self.x >= world_width || self.y < 0 || self.y >= world_height
    }
}

/// Drawn directions are scaled up by this much before they are measured, so
/// that short vectors are normalised as precisely as long ones.
pub const DIRECTION_PRECISION: i128 = 1_000_000;

/// `r` is the integer square root of `n`.
pub open spec fn is_isqrt(n: int, r: int) -> bool {
    0 <= r && r * r <= n && n < (r + 1) * (r + 1)
}

/// The integer square root: the largest `r` with `r * r <= n`.
pub open spec fn isqrt_of(n: int) -> int {
    choose|r: int| is_isqrt(n, r)
}

proof fn lemma_isqrt_unique(n: int, a: int, b: int)
    requires
        is_isqrt(n, a),
        is_isqrt(n, b),
    ensures
        a == b,
{
    if a < b {
        assert((a + 1) * (a + 1) <= b * b) by (nonlinear_arith)
            requires
                0 <= a + 1 <= b,
        ;
    }
    if b < a {
        assert((b + 1) * (b + 1) <= a * a) by (nonlinear_arith)
            requires
                0 <= b + 1 <= a,
        ;
    }
}

/// The direction `(dx, dy)` as a unit vector in thousandths, each component
/// rounded toward zero; a zero direction points straight up.
pub open spec fn unit_dir(dx: int, dy: int) -> (int, int) {
    let big_x = dx * DIRECTION_PRECISION;
    let big_y = dy * DIRECTION_PRECISION;
    let n = big_x * big_x + big_y * big_y;
    if n == 0 {
        (0, DIRECTION_SCALE as int)
    } else {
        let len = isqrt_of(n);
        (scale(big_x, DIRECTION_SCALE as int, len), scale(big_y, DIRECTION_SCALE as int, len))
    }
}

fn isqrt(n: u128) -> (r: u128)
    requires
        n < 0x100_0000_0000_0000_0000_0000_0000,
    ensures
        is_isqrt(n as int, r as int),
        r as int == isqrt_of(n as int),
{
    let mut lo: u128 = 0;
    let mut hi: u128 = 0x10_0000_0000_0000;
    assert(hi * hi == 0x100_0000_0000_0000_0000_0000_0000);
    while lo + 1 < hi
        invariant
            lo < hi <= 0x10_0000_0000_0000,
            lo * lo <= n,
            n < hi * hi,
        decreases hi - lo,
    {
        let mid = lo + (hi - lo) / 2;
        assert(mid * mid <= 0x10_0000_0000_0000 * 0x10_0000_0000_0000) by (nonlinear_arith)
            requires
                mid <= 0x10_0000_0000_0000,
        ;
        if mid * mid <= n {
            lo = mid;
        } else {
            hi = mid;
        }
    }
    proof {
        lemma_isqrt_unique(n as int, lo as int, isqrt_of(n as int));
    }
    lo
}

/// Normalises a direction; see `unit_dir`.
fn unit_direction(dx: i32, dy: i32) -> (r: (i64, i64))
    ensures
        r.0 == unit_dir(dx as int, dy as int).0,
        r.1 == unit_dir(dx as int, dy as int).1,
        -DIRECTION_SCALE <= r.0 <= DIRECTION_SCALE,
        -DIRECTION_SCALE <= r.1 <= DIRECTION_SCALE,
{
    let big_x: i128 = dx as i128 * DIRECTION_PRECISION;
    let big_y: i128 = dy as i128 * DIRECTION_PRECISION;
    let ax: u128 = if big_x >= 0 { big_x as u128 } else { (-big_x) as u128 };
    let ay: u128 = if big_y >= 0 { big_y as u128 } else { (-big_y) as u128 };
    assert(ax <= 0x8_0000_0000_0000 && ay <= 0x8_0000_0000_0000);
    assert(ax * ax <= 0x8_0000_0000_0000 * 0x8_0000_0000_0000) by (nonlinear_arith)
        requires
            ax <= 0x8_0000_0000_0000,
    ;
    assert(ay * ay <= 0x8_0000_0000_0000 * 0x8_0000_0000_0000) by (nonlinear_arith)
        requires
            ay <= 0x8_0000_0000_0000,
    ;
    assert(ax * ax == big_x * big_x) by (nonlinear_arith)
        requires
            ax == big_x || ax == -big_x,
    ;
    assert(ay * ay == big_y * big_y) by (nonlinear_arith)
        requires
            ay == big_y || ay == -big_y,
    ;
    let n: u128 = ax * ax + ay * ay;
    if n == 0 {
        return (0, DIRECTION_SCALE as i64);
    }
    let len = isqrt(n);
    proof {
        assert(ax <= len && ay <= len) by {
            if len < ax {
                assert((len + 1) * (len + 1) <= ax * ax) by (nonlinear_arith)
                    requires
                        0 <= len + 1 <= ax,
                ;
            }
            if len < ay {
                assert((len + 1) * (len + 1) <= ay * ay) by (nonlinear_arith)
                    requires
                        0 <= len + 1 <= ay,
                ;
            }
        }
        assert(len > 0) by {
            if len == 0 {
                assert(n < 1);
            }
        }
        assert(ax * 1000 <= len * 1000 && ay * 1000 <= len * 1000);
        vstd::arithmetic::div_mod::lemma_div_is_ordered((ax * 1000) as int, (len * 1000) as int, len as int);
        vstd::arithmetic::div_mod::lemma_div_is_ordered((ay * 1000) as int, (len * 1000) as int, len as int);
        vstd::arithmetic::div_mod::lemma_div_multiples_vanish(1000, len as int);
        assert(len * 1000 == 1000 * len) by (nonlinear_arith);
    }
    let qx = (ax * 1000 / len) as i64;
    let qy = (ay * 1000 / len) as i64;
    (if big_x >= 0 { qx } else { -qx }, if big_y >= 0 { qy } else { -qy })
}

/// The distance covered in `dt` microseconds at `v` thousandths of a
/// milli-pixel per second, rounded toward zero.
fn move_by(v: i64, dt: u32) -> (r: i64)
    requires
        -100_000_000 <= v <= 100_000_000,
    ensures
        r == scale(v as int, dt as int, 1_000_000_000),
        -0x1_0000_0000 <= r <= 0x1_0000_0000,
{
    let a: u64 = if v >= 0 { v as u64 } else { (-v) as u64 };
    assert(a * dt <= 100_000_000 * 0x1_0000_0000) by (nonlinear_arith)
        requires
            a <= 100_000_000,
            dt <= 0xFFFF_FFFF,
    ;
    let q: u64 = a * dt as u64 / 1_000_000_000;
    assert(q <= 0x1_0000_0000) by {
        vstd::arithmetic::div_mod::lemma_div_is_ordered((a * dt) as int, 100_000_000 * 0x1_0000_0000int, 1_000_000_000int);
    }
    if v >= 0 { q as i64 } else { -(q as i64) }
}

/// The index of the tile under the point `(px, py)` of a grid `w` tiles
/// wide and `h` tall, if there is one.
pub open spec fn tile_under(w: int, h: int, px: int, py: int) -> Option<int> {
    if 0 <= px && 0 <= py && px / (TILE_SIZE as int) < w && py / (TILE_SIZE as int) < h {
        Some(grid_index(w, px / TILE_SIZE as int, py / TILE_SIZE as int))
    } else {
        None
    }
}

fn tile_under_exec(m: &TileMap, px: i64, py: i64) -> (r: Option<usize>)
    requires
        m.wf(),
    ensures
        match r {
            Some(i) => tile_under(m.width as int, m.height as int, px as int, py as int) == Some(
                i as int,
            ) && i < m.tiles@.len(),
            None => tile_under(m.width as int, m.height as int, px as int, py as int).is_none(),
        },
{
    if px < 0 || py < 0 {
        return None;
    }
    let tx = px / TILE_SIZE;
    let ty = py / TILE_SIZE;
    if (tx as i128) < m.width as i128 && (ty as i128) < m.height as i128 {
        proof {
            crate::tile::lemma_index_in_grid(m.width as int, m.height as int, tx as int, ty as int);
        }
        // The index below is bounded by the vector's length.
        let _len = m.tiles.len();
        Some(ty as usize * m.width + tx as usize)
    } else {
        None
    }
}

/// What one tick does to one ray: it moves; it is dropped if it left the
/// world; in Water it loses a twentieth of its intensity and a tenth of its
/// speed; in a solid tile it is either reflected (with the drawn chance) into
/// the drawn direction at seven tenths of its speed, giving half its
/// intensity to the tile, or absorbed, giving all of it. Rays that end
/// weaker than `MIN_INTENSITY` are dropped. The result is the ray that
/// stays, if any, and the energy given to the tile under it.
pub open spec fn ray_step(
    r: LightRay,
    dt: int,
    t: Seq<Tile>,
    w: int,
    h: int,
    width: int,
    height: int,
    d: RayDraw,
) -> (Option<LightRay>, int) {
    let moved = r.advanced(dt);
    if moved.outside(width, height) {
        (None, 0)
    } else {
        match tile_under(w, h, moved.x as int, moved.y as int) {
            None => (Some(moved), 0),
            Some(i) => {
                let kind = t[i].tile_type;
                if kind == TileType::Air {
                    (Some(moved), 0)
                } else if kind == TileType::Water {
                    let dim = moved.intensity * 95 / 100;
                    if dim < MIN_INTENSITY {
                        (None, 0)
                    } else {
                        (
                            Some(
                                LightRay {
                                    intensity: dim as u32,
                                    speed: (moved.speed * 9 / 10) as i64,
                                    ..moved
                                },
                            ),
                            0,
                        )
                    }
                } else if d.reflect < REFLECT_CHANCE {
                    let half = moved.intensity / 2;
                    let bounced = LightRay {
                        dir_x: unit_dir(d.dir_x as int, d.dir_y as int).0 as i64,
                        dir_y: unit_dir(d.dir_x as int, d.dir_y as int).1 as i64,
                        speed: (moved.speed * 7 / 10) as i64,
                        intensity: half as u32,
                        ..moved
                    };
                    (
                        if half < MIN_INTENSITY {
                            None
                        } else {
                            Some(bounced)
                        },
                        moved.intensity - half,
                    )
                } else {
                    (None, moved.intensity as int)
                }
            },
        }
    }
}

/// The tiles after `amount` energy is given to the tile under `(px, py)`;
/// a tile's energy saturates at `MAX_LIGHT_ENERGY`.
pub open spec fn deposit(t: Seq<Tile>, w: int, h: int, px: int, py: int, amount: int) -> Seq<Tile> {
    match tile_under(w, h, px, py) {
        Some(i) => if amount > 0 {
            let e = t[i].light_energy + amount;
            t.update(
                i,
                Tile {
                    light_energy: if e > MAX_LIGHT_ENERGY { MAX_LIGHT_ENERGY } else { e as u32 },
                    ..t[i]
                },
            )
        } else {
            t
        },
        None => t,
    }
}

/// The rays that stay and the tiles after the first `k` rays have had
/// their tick, one after another.
pub open spec fn light_pass(
    rays: Seq<LightRay>,
    t: Seq<Tile>,
    w: int,
    h: int,
    width: int,
    height: int,
    dt: int,
    draws: Seq<RayDraw>,
    k: int,
) -> (Seq<LightRay>, Seq<Tile>)
    decreases k,
{
    if k <= 0 {
        (Seq::empty(), t)
    } else {
        let (kept, tiles) = light_pass(rays, t, w, h, width, height, dt, draws, k - 1);
        let (fate, amount) = ray_step(rays[k - 1], dt, tiles, w, h, width, height, draws[k - 1]);
        let moved = rays[k - 1].advanced(dt);
        (
            match fate {
                Some(r) => kept.push(r),
                None => kept,
            },
            deposit(tiles, w, h, moved.x as int, moved.y as int, amount),
        )
    }
}

/// Gives `amount` energy to tile `i`, saturating at `MAX_LIGHT_ENERGY`.
fn add_energy(tile_map: &mut TileMap, i: usize, amount: u32)
    requires
        old(tile_map).wf(),
        i < old(tile_map).tiles@.len(),
    ensures
        final(tile_map).wf(),
        final(tile_map).width == old(tile_map).width,
        final(tile_map).height == old(tile_map).height,
        amount > 0 ==> final(tile_map).tiles@ == old(tile_map).tiles@.update(
            i as int,
            Tile {
                light_energy: if old(tile_map).tiles@[i as int].light_energy + amount > MAX_LIGHT_ENERGY {
                    MAX_LIGHT_ENERGY
                } else {
                    (old(tile_map).tiles@[i as int].light_energy + amount) as u32
                },
                ..old(tile_map).tiles@[i as int]
            },
        ),
        amount == 0 ==> final(tile_map).tiles@ == old(tile_map).tiles@,
{
    if amount > 0 {
        let mut tile = tile_map.tiles[i];
        tile.light_energy = if tile.light_energy as u64 + amount as u64 > MAX_LIGHT_ENERGY as u64 {
            MAX_LIGHT_ENERGY
        } else {
            tile.light_energy + amount
        };
        tile_map.tiles.set(i, tile);
        assert(tiles_wf(tile_map.tiles@)) by {
            assert(tile_map.tiles@[i as int].wf());
        }
    }
}

/// One tick of every ray, in order; see `ray_step`. Rays that stay keep
/// their order, and the energy they give lights up the tiles.
pub fn update_light_rays(
    rays: &mut Vec<LightRay>,
    tile_map: &mut TileMap,
    world_width: i64,
    world_height: i64,
    dt: u32,
    draws: &Vec<RayDraw>,
)
    requires
        old(tile_map).wf(),
        forall|k: int| 0 <= k < old(rays)@.len() ==> (#[trigger] old(rays)@[k]).wf(),
        draws@.len() >= old(rays)@.len(),
        forall|k: int| 0 <= k < draws@.len() ==> (#[trigger] draws@[k]).wf(),
        0 <= world_width <= MAX_WORLD,
        0 <= world_height <= MAX_WORLD,
    ensures
        final(tile_map).wf(),
        final(tile_map).width == old(tile_map).width,
        final(tile_map).height == old(tile_map).height,
        ({
            let pass = light_pass(
                old(rays)@,
                old(tile_map).tiles@,
                old(tile_map).width as int,
                old(tile_map).height as int,
                world_width as int,
                world_height as int,
                dt as int,
                draws@,
                old(rays)@.len() as int,
            );
            final(rays)@ == pass.0 && final(tile_map).tiles@ == pass.1
        }),
        forall|k: int| 0 <= k < final(rays)@.len() ==> (#[trigger] final(rays)@[k]).wf(),
{
    let ghost rays0 = rays@;
    let ghost t0 = tile_map.tiles@;
    let w = tile_map.width;
    let h = tile_map.height;
    let mut kept: Vec<LightRay> = Vec::new();
    let n = rays.len();
    let mut k: usize = 0;
    while k < n
        invariant
            rays@ == rays0,
            n == rays0.len(),
            k <= n,
            tile_map.wf(),
            tile_map.width == w,
            tile_map.height == h,
            draws@.len() >= n,
            forall|j: int| 0 <= j < n ==> (#[trigger] rays0[j]).wf(),
            forall|j: int| 0 <= j < draws@.len() ==> (#[trigger] draws@[j]).wf(),
            0 <= world_width <= MAX_WORLD,
            0 <= world_height <= MAX_WORLD,
            ({
                let pass = light_pass(
                    rays0,
                    t0,
                    w as int,
                    h as int,
                    world_width as int,
                    world_height as int,
                    dt as int,
                    draws@,
                    k as int,
                );
                kept@ == pass.0 && tile_map.tiles@ == pass.1
            }),
            forall|j: int| 0 <= j < kept@.len() ==> (#[trigger] kept@[j]).wf(),
        decreases n - k,
    {
        let mut r = rays[k];
        let d = draws[k];
        r.update(dt);
        if !r.is_out_of_bounds(world_width, world_height) {
            match tile_under_exec(tile_map, r.x, r.y) {
                None => {
                    kept.push(r);
                },
                Some(i) => {
                    let kind = tile_map.tiles[i].tile_type;
                    match kind {
                        TileType::Air => {
                            kept.push(r);
                        },
                        TileType::Water => {
                            let dim = r.intensity * 95 / 100;
                            if dim >= MIN_INTENSITY {
                                kept.push(LightRay { intensity: dim, speed: r.speed * 9 / 10, ..r });
                            }
                        },
                        _ => {
                            if d.reflect < REFLECT_CHANCE {
                                let half = r.intensity / 2;
                                let (dir_x, dir_y) = unit_direction(d.dir_x, d.dir_y);
                                add_energy(tile_map, i, r.intensity - half);
                                if half >= MIN_INTENSITY {
                                    kept.push(
                                        LightRay {
                                            dir_x,
                                            dir_y,
                                            speed: r.speed * 7 / 10,
                                            intensity: half,
                                            ..r
                                        },
                                    );
                                }
                            } else {
                                add_energy(tile_map, i, r.intensity);
                            }
                        },
                    }
                },
            }
        }
        k = k + 1;
    }
    *rays = kept;
}

/// How many rays a spawn adds at most, with `n` rays alive.
pub open spec fn spawn_count(n: int) -> int {
    if n >= MAX_LIGHT_RAYS {
        0
    } else if MAX_LIGHT_RAYS - n < RAYS_PER_SPAWN {
        MAX_LIGHT_RAYS - n
    } else {
        RAYS_PER_SPAWN as int
    }
}

/// Where a drawn ray starts: on the drawn edge, at the drawn fraction of its
/// length, moved `RAY_START_EPSILON` into the world.
pub open spec fn spawn_point(d: SpawnDraw, width: int, height: int) -> (int, int) {
    let quarter = d.side / 250_000;
    let along_x = d.along * width / DRAW_SCALE as int;
    let along_y = d.along * height / DRAW_SCALE as int;
    if quarter == 0 {
        (along_x, height - RAY_START_EPSILON)
    } else if quarter == 1 {
        (width - RAY_START_EPSILON, along_y)
    } else if quarter == 2 {
        (along_x, RAY_START_EPSILON as int)
    } else {
        (RAY_START_EPSILON as int, along_y)
    }
}

/// A ray may start at `(x, y)`: inside the world, over Air or Water.
pub open spec fn spawn_ok(t: Seq<Tile>, w: int, h: int, width: int, height: int, x: int, y: int) -> bool {
    &&& 0 <= x < width
    &&& 0 <= y < height
    &&& match tile_under(w, h, x, y) {
        Some(i) => t[i].tile_type == TileType::Air || t[i].tile_type == TileType::Water,
        None => false,
    }
}

/// The rays made from the first `k` draws; a draw whose start is not
/// allowed makes none.
pub open spec fn spawned_rays(
    t: Seq<Tile>,
    w: int,
    h: int,
    width: int,
    height: int,
    draws: Seq<SpawnDraw>,
    k: int,
) -> Seq<LightRay>
    decreases k,
{
    if k <= 0 {
        Seq::empty()
    } else {
        let prev = spawned_rays(t, w, h, width, height, draws, k - 1);
        let d = draws[k - 1];
        let (x, y) = spawn_point(d, width, height);
        if spawn_ok(t, w, h, width, height, x, y) {
            prev.push(
                LightRay {
                    x: x as i64,
                    y: y as i64,
                    dir_x: unit_dir(d.dir_x as int, d.dir_y as int).0 as i64,
                    dir_y: unit_dir(d.dir_x as int, d.dir_y as int).1 as i64,
                    speed: RAY_SPEED,
                    intensity: FULL_INTENSITY,
                },
            )
        } else {
            prev
        }
    }
}

/// Whether a ray may start at `(x, y)`.
pub fn is_valid_spawn_position(tile_map: &TileMap, world_width: i64, world_height: i64, x: i64, y: i64) -> (r: bool)
    requires
        tile_map.wf(),
    ensures
        r == spawn_ok(
            tile_map.tiles@,
            tile_map.width as int,
            tile_map.height as int,
            world_width as int,
            world_height as int,
            x as int,
            y as int,
        ),
{
    if x < 0 || x >= world_width || y < 0 || y >= world_height {
        return false;
    }
    match tile_under_exec(tile_map, x, y) {
        Some(i) => {
            let kind = tile_map.tiles[i].tile_type;
            kind == TileType::Air || kind == TileType::Water
        },
        None => false,
    }
}

/// Adds rays entering from the world's edges, one per draw, up to
/// `spawn_count` of the rays alive; see `spawned_rays`.
pub fn generate_light_rays(
    rays: &mut Vec<LightRay>,
    tile_map: &TileMap,
    world_width: i64,
    world_height: i64,
    draws: &Vec<SpawnDraw>,
)
    requires
        tile_map.wf(),
        forall|k: int| 0 <= k < draws@.len() ==> (#[trigger] draws@[k]).wf(),
        0 <= world_width <= MAX_WORLD,
        0 <= world_height <= MAX_WORLD,
    ensures
        final(rays)@ == old(rays)@ + spawned_rays(
            tile_map.tiles@,
            tile_map.width as int,
            tile_map.height as int,
            world_width as int,
            world_height as int,
            draws@,
            if spawn_count(old(rays)@.len() as int) <= draws@.len() {
                spawn_count(old(rays)@.len() as int)
            } else {
                draws@.len() as int
            },
        ),
        (forall|k: int| 0 <= k < old(rays)@.len() ==> (#[trigger] old(rays)@[k]).wf()) ==> (forall|
            k: int,
        | 0 <= k < final(rays)@.len() ==> (#[trigger] final(rays)@[k]).wf()),
{
    let ghost rays0 = rays@;
    let current = rays.len();
    let mut count: usize = if current >= MAX_LIGHT_RAYS {
        0
    } else if MAX_LIGHT_RAYS - current < RAYS_PER_SPAWN {
        MAX_LIGHT_RAYS - current
    } else {
        RAYS_PER_SPAWN
    };
    if count > draws.len() {
        count = draws.len();
    }
    let mut k: usize = 0;
    while k < count
        invariant
            k <= count,
            count <= draws@.len(),
            forall|j: int| 0 <= j < draws@.len() ==> (#[trigger] draws@[j]).wf(),
            0 <= world_width <= MAX_WORLD,
            0 <= world_height <= MAX_WORLD,
            tile_map.wf(),
            rays@ == rays0 + spawned_rays(
                tile_map.tiles@,
                tile_map.width as int,
                tile_map.height as int,
                world_width as int,
                world_height as int,
                draws@,
                k as int,
            ),
            (forall|j: int| 0 <= j < rays0.len() ==> (#[trigger] rays0[j]).wf()) ==> (forall|j: int|
                0 <= j < rays@.len() ==> (#[trigger] rays@[j]).wf()),
        decreases count - k,
    {
        let d = draws[k];
        let quarter = d.side / 250_000;
        assert(d.along * world_width <= 1_000_000 * MAX_WORLD) by (nonlinear_arith)
            requires
                d.along < 1_000_000,
                0 <= world_width <= MAX_WORLD,
        ;
        assert(d.along * world_height <= 1_000_000 * MAX_WORLD) by (nonlinear_arith)
            requires
                d.along < 1_000_000,
                0 <= world_height <= MAX_WORLD,
        ;
        let along_x = (d.along as i128 * world_width as i128 / DRAW_SCALE as i128) as i64;
        let along_y = (d.along as i128 * world_height as i128 / DRAW_SCALE as i128) as i64;
        proof {
            assert(d.along * world_width <= 1_000_000 * world_width) by (nonlinear_arith)
                requires
                    d.along < 1_000_000,
                    0 <= world_width,
            ;
            assert(d.along * world_height <= 1_000_000 * world_height) by (nonlinear_arith)
                requires
                    d.along < 1_000_000,
                    0 <= world_height,
            ;
            vstd::arithmetic::div_mod::lemma_div_is_ordered(d.along * world_width, 1_000_000 * world_width, 1_000_000);
            vstd::arithmetic::div_mod::lemma_div_multiples_vanish(world_width as int, 1_000_000);
            vstd::arithmetic::div_mod::lemma_div_is_ordered(d.along * world_height, 1_000_000 * world_height, 1_000_000);
            vstd::arithmetic::div_mod::lemma_div_multiples_vanish(world_height as int, 1_000_000);
            vstd::arithmetic::div_mod::lemma_div_pos_is_pos(d.along * world_width, 1_000_000);
            vstd::arithmetic::div_mod::lemma_div_pos_is_pos(d.along * world_height, 1_000_000);
        }
        let (x, y) = if quarter == 0 {
            (along_x, world_height - RAY_START_EPSILON)
        } else if quarter == 1 {
            (world_width - RAY_START_EPSILON, along_y)
        } else if quarter == 2 {
            (along_x, RAY_START_EPSILON)
        } else {
            (RAY_START_EPSILON, along_y)
        };
        if is_valid_spawn_position(tile_map, world_width, world_height, x, y) {
            rays.push(LightRay::new(x, y, d.dir_x, d.dir_y));
        }
        k = k + 1;
    }
}

/// Light energy fades each tick by an eighth (rounded down).
pub open spec fn faded(t: Tile) -> Tile {
    Tile { light_energy: (t.light_energy - t.light_energy / 8) as u32, ..t }
}

/// Fades the light energy of every tile; see `faded`.
pub fn decay_light(tile_map: &mut TileMap)
    requires
        old(tile_map).wf(),
    ensures
        final(tile_map).wf(),
        final(tile_map).width == old(tile_map).width,
        final(tile_map).height == old(tile_map).height,
        final(tile_map).tiles@ == Seq::new(
            old(tile_map).tiles@.len(),
            |j: int| faded(old(tile_map).tiles@[j]),
        ),
{
    let ghost t0 = tile_map.tiles@;
    let n = tile_map.tiles.len();
    let mut j: usize = 0;
    while j < n
        invariant
            j <= n,
            n == t0.len(),
            tile_map.width == old(tile_map).width,
            tile_map.height == old(tile_map).height,
            t0 == old(tile_map).tiles@,
            tile_map.tiles@.len() == n,
            tiles_wf(t0),
            forall|k: int| 0 <= k < j ==> tile_map.tiles@[k] == faded(t0[k]),
            forall|k: int| j <= k < n ==> tile_map.tiles@[k] == t0[k],
        decreases n - j,
    {
        let mut tile = tile_map.tiles[j];
        tile.light_energy = tile.light_energy - tile.light_energy / 8;
        tile_map.tiles.set(j, tile);
        j = j + 1;
    }
    assert(tile_map.tiles@ =~= Seq::new(t0.len(), |k: int| faded(t0[k])));
    assert(tiles_wf(tile_map.tiles@)) by {
        assert forall|k: int| 0 <= k < n implies (#[trigger] tile_map.tiles@[k]).wf() by {
            assert(t0[k].wf());
        }
    }
}

/// Brightness, in thousandths, of a tile holding `energy`: ambient light
/// when dark, rising with the energy toward (but never reaching) full.
pub open spec fn brightness_of(energy: int) -> int {
    AMBIENT_BRIGHTNESS + (1000 - AMBIENT_BRIGHTNESS) * energy / (energy + HALF_BRIGHTNESS_ENERGY)
}

/// Temperature of a tile holding `energy`, proportional to it (a tenth).
pub open spec fn temperature_of(energy: int) -> int {
    energy / 10
}

impl Tile {
    pub fn brightness(&self) -> (r: u32)
        ensures
            r == brightness_of(self.light_energy as int),
    {
        let e = self.light_energy as u64;
        assert((1000 - AMBIENT_BRIGHTNESS) * e / (e + HALF_BRIGHTNESS_ENERGY) <= 900) by {
            assert(900 * e <= 900 * (e + 2000)) by (nonlinear_arith);
            vstd::arithmetic::div_mod::lemma_div_is_ordered(900 * e, 900 * (e + 2000), e + 2000);
            vstd::arithmetic::div_mod::lemma_div_multiples_vanish(900, e + 2000);
            assert(900 * (e + 2000) == (e + 2000) * 900) by (nonlinear_arith);
        }
        (AMBIENT_BRIGHTNESS as u64 + (1000 - AMBIENT_BRIGHTNESS) as u64 * e / (e + HALF_BRIGHTNESS_ENERGY as u64)) as u32
    }

    pub fn temperature(&self) -> (r: u32)
        ensures
            r == temperature_of(self.light_energy as int),
    {
        self.light_energy / 10
    }
}

} // verus!
