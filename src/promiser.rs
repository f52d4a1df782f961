//! Wandering entities: a behaviour state machine with timed states, and
//! kinematics with axis-separated tile collisions.
use vstd::prelude::*;
use crate::tile::{TileMap, TILE_SIZE};
use crate::draw::{DRAW_SCALE, PromiserDraw, TickDraw};

verus! {

/// Behaviour state of a wandering entity.
#[derive(Clone, Copy, Debug, PartialEq, Eq, Structural)]
pub enum PromiserState {
    Idle,
    Thinking,
    Speaking,
    Whispering,
    Running,
}

/// Chance per tick, in millionths, that an idle entity starts thinking.
pub const THINK_CHANCE: u32 = 2_000;

/// Chance per tick, in millionths, of a random horizontal nudge.
pub const NUDGE_CHANCE: u32 = 10_000;

/// Gravity, in milli-pixels per second per microsecond.
pub const GRAVITY: i64 = 15;

/// Velocity caps, in milli-pixels per second.
pub const MAX_VX: i64 = 200_000;
pub const MAX_VY: i64 = 500_000;
pub const RUNNING_MAX_VX: i64 = 300_000;
pub const RUNNING_MAX_VY: i64 = 750_000;

/// Size (half the side of the collision box) of the special entity, and the
/// range of the others, in milli-pixels.
pub const PIXEL_SIZE: i64 = 8_000;
pub const MIN_SIZE: i64 = 5_000;
pub const MAX_SIZE: i64 = 15_000;

/// Colour of the special entity.
pub const PIXEL_COLOR: u32 = 0xFF00_FFFF;

/// Shortest stay in a state other than Idle, in microseconds.
pub open spec fn min_dwell(s: PromiserState) -> int {
    match s {
        PromiserState::Idle => 0,
        PromiserState::Thinking => 2_000_000,
        PromiserState::Speaking => 3_000_000,
        PromiserState::Whispering => 1_000_000,
        PromiserState::Running => 2_000_000,
    }
}

/// How much longer than the shortest stay a state may last, in microseconds.
pub open spec fn dwell_span(s: PromiserState) -> int {
    match s {
        PromiserState::Idle => 0,
        PromiserState::Thinking => 3_000_000,
        PromiserState::Speaking => 2_000_000,
        PromiserState::Whispering => 1_000_000,
        PromiserState::Running => 3_000_000,
    }
}

/// Longest stay in a state other than Idle, in microseconds.
pub open spec fn max_dwell(s: PromiserState) -> int {
    min_dwell(s) + dwell_span(s)
}

/// The time after which a state ends, for a dwell draw.
pub open spec fn dwell_limit(s: PromiserState, dwell: int) -> int {
    min_dwell(s) + dwell_span(s) * dwell / DRAW_SCALE as int
}

/// Movement speed in a state, in tenths of the normal speed.
pub open spec fn speed_tenths(s: PromiserState) -> int {
    match s {
        PromiserState::Running => 25,
        PromiserState::Whispering => 5,
        PromiserState::Thinking => 3,
        _ => 10,
    }
}

/// `v * num / den`, rounded toward zero.
pub open spec fn scale(v: int, num: int, den: int) -> int {
    if v >= 0 { v * num / den } else { -((-v) * num / den) }
}

pub open spec fn clamp(v: int, lo: int, hi: int) -> int {
    if v < lo { lo } else if v > hi { hi } else { v }
}

/// Largest world side, in milli-pixels, that entity kinematics accept.
pub const MAX_WORLD: i64 = 1_000_000_000_000_000;

/// Numeric code of a state, as the snapshot reports it.
pub open spec fn state_code(s: PromiserState) -> u32 {
    match s {
        PromiserState::Idle => 0,
        PromiserState::Thinking => 1,
        PromiserState::Speaking => 2,
        PromiserState::Whispering => 3,
        PromiserState::Running => 4,
    }
}

/// A wandering entity. Positions are in milli-pixels with `y` pointing up,
/// velocities in milli-pixels per second, the state timer in microseconds.
pub struct Promiser {
    pub id: u32,
    pub x: i64,
    pub y: i64,
    pub vx: i64,
    pub vy: i64,
    pub size: i64,
    pub color: u32,
    pub state: PromiserState,
    pub thought: String,
    pub target_id: u32,
    pub state_timer: u64,
    pub is_pixel: bool,
}

/// The mathematical state of an entity.
pub struct PromiserView {
    pub id: u32,
    pub x: int,
    pub y: int,
    pub vx: int,
    pub vy: int,
    pub size: int,
    pub color: u32,
    pub state: PromiserState,
    pub thought: Seq<char>,
    pub target_id: u32,
    pub state_timer: int,
    pub is_pixel: bool,
}

impl View for Promiser {
    type V = PromiserView;

    open spec fn view(&self) -> PromiserView {
        PromiserView {
            id: self.id,
            x: self.x as int,
            y: self.y as int,
            vx: self.vx as int,
            vy: self.vy as int,
            size: self.size as int,
            color: self.color,
            state: self.state,
            thought: self.thought@,
            target_id: self.target_id,
            state_timer: self.state_timer as int,
            is_pixel: self.is_pixel,
        }
    }
}

/// Whether the corner point `(cx, cy)` lies in a solid tile.
pub open spec fn corner_solid(m: TileMap, cx: int, cy: int) -> bool {
    &&& cx >= 0
    &&& cy >= 0
    &&& m.in_bounds(cx / TILE_SIZE as int, cy / TILE_SIZE as int)
    &&& m.at(cx / TILE_SIZE as int, cy / TILE_SIZE as int).tile_type.spec_is_solid()
}

/// Whether a box of half-side `size` centred at `(x, y)` has a corner in a
/// solid tile.
pub open spec fn collides(m: TileMap, size: int, x: int, y: int) -> bool {
    ||| corner_solid(m, x - size, y - size)
    ||| corner_solid(m, x + size, y - size)
    ||| corner_solid(m, x - size, y + size)
    ||| corner_solid(m, x + size, y + size)
}

/// A fresh entity: the one with id 0 is the special "pixel" entity, with a
/// fixed size and colour; the others draw theirs.
pub open spec fn spawned(id: u32, x: int, y: int, d: PromiserDraw) -> PromiserView {
    let is_pixel = id == 0;
    PromiserView {
        id,
        x,
        y,
        vx: d.vx / 5 - 100_000,
        vy: -(d.vy * 3 / 20 + 50_000),
        size: if is_pixel { PIXEL_SIZE as int } else { MIN_SIZE + d.size / 100 },
        color: if is_pixel { PIXEL_COLOR } else { (0xFF00_0000 + d.color * 0xFF_FFFF / DRAW_SCALE as int) as u32 },
        state: PromiserState::Idle,
        thought: Seq::empty(),
        target_id: 0,
        state_timer: 0,
        is_pixel,
    }
}

/// The state machine part of a tick: the timer advances (saturating); an
/// idle entity may start thinking; any other state ends once the timer
/// passes its drawn limit, which clears what belongs to the state (the
/// words of Speaking, the words and target of Whispering) and slows down a
/// runner.
pub open spec fn advance_state(p: PromiserView, dt: int, d: TickDraw) -> PromiserView {
    let timer = if p.state_timer + dt > u64::MAX { u64::MAX as int } else { p.state_timer + dt };
    if p.state == PromiserState::Idle {
        if d.think < THINK_CHANCE {
            PromiserView { state: PromiserState::Thinking, state_timer: 0, ..p }
        } else {
            PromiserView { state_timer: timer, ..p }
        }
    } else if timer > dwell_limit(p.state, d.dwell as int) {
        let idle = PromiserView { state: PromiserState::Idle, state_timer: 0, ..p };
        match p.state {
            PromiserState::Speaking => PromiserView { thought: Seq::empty(), ..idle },
            PromiserState::Whispering => PromiserView { thought: Seq::empty(), target_id: 0, ..idle },
            PromiserState::Running => PromiserView {
                vx: scale(p.vx, 6, 10),
                vy: scale(p.vy, 8, 10),
                ..idle
            },
            _ => idle,
        }
    } else {
        PromiserView { state_timer: timer, ..p }
    }
}

/// Gravity and movement: the vertical velocity takes gravity, then the
/// entity moves one axis at a time. A horizontal move into a solid tile is
/// undone and the horizontal velocity reversed at half strength; a vertical
/// move into one is undone and the entity either lands (falling: no vertical
/// velocity, horizontal friction) or bounces down at three tenths.
pub open spec fn integrate(p: PromiserView, dt: int, m: TileMap) -> PromiserView {
    let vy = p.vy - GRAVITY * dt;
    let factor = dt * speed_tenths(p.state);
    let nx = p.x + scale(p.vx, factor, 10_000_000);
    let ny = p.y + scale(vy, factor, 10_000_000);
    let hit_x = collides(m, p.size, nx, p.y);
    let x = if hit_x { p.x } else { nx };
    let vx = if hit_x { -scale(p.vx, 5, 10) } else { p.vx };
    if collides(m, p.size, x, ny) {
        if vy < 0 {
            PromiserView { x, vx: scale(vx, 85, 100), vy: 0, ..p }
        } else {
            PromiserView { x, vx, vy: -scale(vy, 3, 10), ..p }
        }
    } else {
        PromiserView { x, y: ny, vx, vy, ..p }
    }
}

/// The world's edges: the entity is clamped into the box that keeps its
/// collision box inside the world, with a bounce at eight tenths from the
/// sides, seven tenths and friction from the top edge (`y` = height), and
/// five tenths from the bottom edge.
pub open spec fn bounce_off_edges(p: PromiserView, width: int, height: int) -> PromiserView {
    let lo = p.size;
    let hi = width - p.size;
    let side = p.x <= lo || p.x >= hi;
    let x = if side { clamp(p.x, lo, hi) } else { p.x };
    let vx1 = if side { -scale(p.vx, 8, 10) } else { p.vx };
    let far = p.y >= height - p.size;
    let y1 = if far { height - p.size } else { p.y };
    let vy1 = if far { -scale(p.vy, 7, 10) } else { p.vy };
    let vx = if far { scale(vx1, 95, 100) } else { vx1 };
    let near = y1 <= p.size;
    let y = if near { p.size } else { y1 };
    let vy = if near { -scale(vy1, 5, 10) } else { vy1 };
    PromiserView { x, y, vx, vy, ..p }
}

/// A random horizontal nudge (never while thinking), then the velocity caps
/// of the state.
pub open spec fn nudge_and_cap(p: PromiserView, d: TickDraw) -> PromiserView {
    let vx0 = if p.state != PromiserState::Thinking && d.nudge < NUDGE_CHANCE {
        p.vx + d.impulse / 10 - 50_000
    } else {
        p.vx
    };
    let running = p.state == PromiserState::Running;
    let mvx: int = if running { RUNNING_MAX_VX as int } else { MAX_VX as int };
    let mvy: int = if running { RUNNING_MAX_VY as int } else { MAX_VY as int };
    PromiserView { vx: clamp(vx0, -mvx, mvx), vy: clamp(p.vy, -mvy, mvy), ..p }
}

/// One tick of an entity.
pub open spec fn tick_view(
    p: PromiserView,
    width: int,
    height: int,
    dt: int,
    m: TileMap,
    d: TickDraw,
) -> PromiserView {
    nudge_and_cap(bounce_off_edges(integrate(advance_state(p, dt, d), dt, m), width, height), d)
}

/// `v * num / den`, rounded toward zero.
fn scale_by(v: i128, num: i128, den: i128) -> (r: i128)
    requires
        -0x4000_0000_0000_0000 <= v <= 0x4000_0000_0000_0000,
        0 <= num <= 0x4000_0000_0000_0000,
        den > 0,
    ensures
        r == scale(v as int, num as int, den as int),
{
    let a: i128 = if v >= 0 { v } else { -v };
    assert(a * num <= 0x4000_0000_0000_0000 * 0x4000_0000_0000_0000) by (nonlinear_arith)
        requires
            0 <= a <= 0x4000_0000_0000_0000,
            0 <= num <= 0x4000_0000_0000_0000,
    ;
    assert(0 <= a * num) by (nonlinear_arith)
        requires
            0 <= a,
            0 <= num,
    ;
    let q = (a * num) / den;
    if v >= 0 { q } else { -q }
}

/// Whether the point `(cx, cy)` lies in a solid tile.
fn corner_solid_at(m: &TileMap, cx: i128, cy: i128) -> (r: bool)
    requires
        m.wf(),
    ensures
        r == corner_solid(*m, cx as int, cy as int),
{
    if cx < 0 || cy < 0 {
        return false;
    }
    let tx = cx / TILE_SIZE as i128;
    let ty = cy / TILE_SIZE as i128;
    if tx < m.width as i128 && ty < m.height as i128 {
        match m.get_tile(tx as usize, ty as usize) {
            Some(t) => t.tile_type.is_solid(),
            None => false,
        }
    } else {
        false
    }
}

/// Whether a box of half-side `size` centred at `(x, y)` touches a solid
/// tile with a corner.
fn collides_at(m: &TileMap, size: i64, x: i128, y: i128) -> (r: bool)
    requires
        m.wf(),
        -0x4_0000_0000_0000_0000 <= x <= 0x4_0000_0000_0000_0000,
        -0x4_0000_0000_0000_0000 <= y <= 0x4_0000_0000_0000_0000,
        0 <= size <= MAX_SIZE,
    ensures
        r == collides(*m, size as int, x as int, y as int),
{
    let s = size as i128;
    corner_solid_at(m, x - s, y - s) || corner_solid_at(m, x + s, y - s) || corner_solid_at(
        m,
        x - s,
        y + s,
    ) || corner_solid_at(m, x + s, y + s)
}

/// A drawn state limit lies between the shortest and the longest stay.
pub proof fn lemma_dwell_limit_bounds(s: PromiserState, d: int)
    requires
        0 <= d < DRAW_SCALE,
    ensures
        min_dwell(s) <= dwell_limit(s, d),
        s != PromiserState::Idle ==> dwell_limit(s, d) < max_dwell(s),
{
    let sp = dwell_span(s);
    let k = DRAW_SCALE as int;
    assert(0 <= sp * d <= sp * (k - 1)) by (nonlinear_arith)
        requires
            sp >= 0,
            0 <= d < k,
    ;
    vstd::arithmetic::div_mod::lemma_div_pos_is_pos(sp * d, k);
    vstd::arithmetic::div_mod::lemma_div_is_ordered(sp * d, sp * (k - 1), k);
    if sp > 0 {
        let x = sp * d;
        vstd::arithmetic::div_mod::lemma_fundamental_div_mod(x, k);
        vstd::arithmetic::div_mod::lemma_mod_pos_bound(x, k);
        assert(x < sp * k) by (nonlinear_arith)
            requires
                sp > 0,
                x == sp * d,
                d < k,
        ;
        assert(x / k < sp) by (nonlinear_arith)
            requires
                k * (x / k) <= x,
                x < sp * k,
                k > 0,
        ;
    }
}

/// Scaling never grows a magnitude by more than the numerator.
proof fn lemma_scale_bound(v: int, num: int, den: int, bound: int)
    requires
        0 <= num,
        den >= 1,
        -bound <= v <= bound,
        (if v >= 0 { v } else { -v }) * num <= bound * num,
    ensures
        -(bound * num) <= scale(v, num, den) <= bound * num,
{
    let a = if v >= 0 { v } else { -v };
    assert(0 <= a * num) by (nonlinear_arith)
        requires
            0 <= a,
            0 <= num,
    ;
    vstd::arithmetic::div_mod::lemma_div_is_ordered_by_denominator(a * num, 1, den);
    vstd::arithmetic::div_mod::lemma_div_basics(a * num);
    vstd::arithmetic::div_mod::lemma_div_pos_is_pos(a * num, den);
}

/// Scaling by a fraction of at most one keeps the sign and does not grow.
proof fn lemma_scale_shrinks(v: int, num: int, den: int)
    requires
        0 <= num <= den,
        den > 0,
    ensures
        v >= 0 ==> 0 <= scale(v, num, den) <= v,
        v < 0 ==> v <= scale(v, num, den) <= 0,
{
    let a = if v >= 0 { v } else { -v };
    assert(0 <= a * num <= a * den) by (nonlinear_arith)
        requires
            0 <= a,
            0 <= num <= den,
    ;
    vstd::arithmetic::div_mod::lemma_div_is_ordered(a * num, a * den, den);
    vstd::arithmetic::div_mod::lemma_div_multiples_vanish(a, den);
    assert(a * den == den * a) by (nonlinear_arith);
    vstd::arithmetic::div_mod::lemma_div_pos_is_pos(a * num, den);
}

fn clamp_i128(v: i128, lo: i128, hi: i128) -> (r: i128)
    ensures
        r == clamp(v as int, lo as int, hi as int),
{
    if v < lo {
        lo
    } else if v > hi {
        hi
    } else {
        v
    }
}

/// The position and velocity after gravity and tile collisions.
fn integrate_exec(p: &Promiser, dt: u32, m: &TileMap) -> (r: (i128, i128, i64, i64))
    requires
        p.wf(),
        m.wf(),
    ensures
        integrate(p@, dt as int, *m) == (PromiserView { x: r.0 as int, y: r.1 as int, vx: r.2 as int, vy: r.3 as int, ..p@ }),
        -0x4_0000_0000_0000_0000 <= r.0 <= 0x4_0000_0000_0000_0000,
        -0x4_0000_0000_0000_0000 <= r.1 <= 0x4_0000_0000_0000_0000,
        -RUNNING_MAX_VX <= r.2 <= RUNNING_MAX_VX,
        -80_000_000_000 <= r.3 <= 80_000_000_000,
{
    let vy: i64 = p.vy - GRAVITY * dt as i64;
    let mult: i128 = match p.state {
        PromiserState::Running => 25,
        PromiserState::Whispering => 5,
        PromiserState::Thinking => 3,
        _ => 10,
    };
    let factor: i128 = dt as i128 * mult;
    let dx = scale_by(p.vx as i128, factor, 10_000_000);
    let dy = scale_by(vy as i128, factor, 10_000_000);
    assert(-0x1000_0000_0000_0000 <= dx <= 0x1000_0000_0000_0000) by {
        assert((if p.vx >= 0 { p.vx as int } else { -p.vx }) * factor <= 0x100_0000_0000 * factor) by (nonlinear_arith)
            requires
                -300_000 <= p.vx <= 300_000,
                0 <= factor,
        ;
        lemma_scale_bound(p.vx as int, factor as int, 10_000_000, 0x100_0000_0000);
        assert(0x100_0000_0000 * factor <= 0x100_0000_0000 * 0x20_0000_0000) by (nonlinear_arith)
            requires
                0 <= factor <= 0x20_0000_0000,
        ;
    }
    assert(-0x1000_0000_0000_0000 <= dy <= 0x1000_0000_0000_0000) by {
        assert((if vy >= 0 { vy as int } else { -vy }) * factor <= 0x100_0000_0000 * factor) by (nonlinear_arith)
            requires
                -0x100_0000_0000 <= vy <= 0x100_0000_0000,
                0 <= factor,
        ;
        lemma_scale_bound(vy as int, factor as int, 10_000_000, 0x100_0000_0000);
        assert(0x100_0000_0000 * factor <= 0x100_0000_0000 * 0x20_0000_0000) by (nonlinear_arith)
            requires
                0 <= factor <= 0x20_0000_0000,
        ;
    }
    let nx: i128 = p.x as i128 + dx;
    let ny: i128 = p.y as i128 + dy;
    let hit_x = collides_at(m, p.size, nx, p.y as i128);
    let x: i128 = if hit_x { p.x as i128 } else { nx };
    let vx: i64 = if hit_x {
        proof {
            lemma_scale_shrinks(p.vx as int, 5, 10);
        }
        -(scale_by(p.vx as i128, 5, 10) as i64)
    } else {
        p.vx
    };
    if collides_at(m, p.size, x, ny) {
        if vy < 0 {
            proof {
                lemma_scale_shrinks(vx as int, 85, 100);
            }
            (x, p.y as i128, scale_by(vx as i128, 85, 100) as i64, 0)
        } else {
            proof {
                lemma_scale_shrinks(vy as int, 3, 10);
            }
            (x, p.y as i128, vx, -(scale_by(vy as i128, 3, 10) as i64))
        }
    } else {
        (x, ny, vx, vy)
    }
}

/// The position and velocity after the world's edges.
fn bounce_exec(x: i128, y: i128, vx: i64, vy: i64, size: i64, width: i64, height: i64) -> (r: (
    i64,
    i64,
    i64,
    i64,
))
    requires
        -0x4_0000_0000_0000_0000 <= x <= 0x4_0000_0000_0000_0000,
        -0x4_0000_0000_0000_0000 <= y <= 0x4_0000_0000_0000_0000,
        -RUNNING_MAX_VX <= vx <= RUNNING_MAX_VX,
        -80_000_000_000 <= vy <= 80_000_000_000,
        0 < size <= MAX_SIZE,
        0 <= width <= MAX_WORLD,
        0 <= height <= MAX_WORLD,
    ensures
        ({
            let q = PromiserView { x: x as int, y: y as int, vx: vx as int, vy: vy as int, size: size as int, ..arbitrary_view() };
            let b = bounce_off_edges(q, width as int, height as int);
            b.x == r.0 && b.y == r.1 && b.vx == r.2 && b.vy == r.3
        }),
        -RUNNING_MAX_VX <= r.2 <= RUNNING_MAX_VX,
        -80_000_000_000 <= r.3 <= 80_000_000_000,
{
    let lo = size as i128;
    let hi = width as i128 - size as i128;
    let side = x <= lo || x >= hi;
    let x1: i128 = if side { clamp_i128(x, lo, hi) } else { x };
    proof {
        lemma_scale_shrinks(vx as int, 8, 10);
        lemma_scale_shrinks(vy as int, 7, 10);
    }
    let vx1: i64 = if side { -(scale_by(vx as i128, 8, 10) as i64) } else { vx };
    let far = y >= height as i128 - size as i128;
    let y1: i128 = if far { height as i128 - size as i128 } else { y };
    let vy1: i64 = if far { -(scale_by(vy as i128, 7, 10) as i64) } else { vy };
    proof {
        lemma_scale_shrinks(vx1 as int, 95, 100);
        lemma_scale_shrinks(vy1 as int, 5, 10);
    }
    let vx2: i64 = if far { scale_by(vx1 as i128, 95, 100) as i64 } else { vx1 };
    let near = y1 <= size as i128;
    let y2: i128 = if near { size as i128 } else { y1 };
    let vy2: i64 = if near { -(scale_by(vy1 as i128, 5, 10) as i64) } else { vy1 };
    (x1 as i64, y2 as i64, vx2, vy2)
}

/// Some entity view; only the fields a statement names matter.
pub open spec fn arbitrary_view() -> PromiserView {
    PromiserView {
        id: 0,
        x: 0,
        y: 0,
        vx: 0,
        vy: 0,
        size: 0,
        color: 0,
        state: PromiserState::Idle,
        thought: Seq::empty(),
        target_id: 0,
        state_timer: 0,
        is_pixel: false,
    }
}

impl Promiser {
    /// Sizes and velocities are within their caps.
    pub open spec fn wf(&self) -> bool {
        &&& 0 < self.size <= MAX_SIZE
        &&& -RUNNING_MAX_VX <= self.vx <= RUNNING_MAX_VX
        &&& -RUNNING_MAX_VY <= self.vy <= RUNNING_MAX_VY
    }

    /// A fresh, idle entity at `(x, y)`; see `spawned`.
    pub fn new(id: u32, x: i64, y: i64, draw: &PromiserDraw) -> (p: Promiser)
        requires
            draw.wf(),
        ensures
            p@ == spawned(id, x as int, y as int, *draw),
            p.wf(),
    {
        let is_pixel = id == 0;
        Promiser {
            id,
            x,
            y,
            vx: draw.vx as i64 / 5 - 100_000,
            vy: -(draw.vy as i64 * 3 / 20 + 50_000),
            size: if is_pixel { PIXEL_SIZE } else { MIN_SIZE + draw.size as i64 / 100 },
            color: if is_pixel { PIXEL_COLOR } else { (0xFF00_0000u64 + draw.color as u64 * 0xFF_FFFF / DRAW_SCALE as u64) as u32 },
            state: PromiserState::Idle,
            thought: String::new(),
            target_id: 0,
            state_timer: 0,
            is_pixel,
        }
    }

    pub fn id(&self) -> (r: u32)
        ensures
            r == self.id,
    {
        self.id
    }

    pub fn x(&self) -> (r: i64)
        ensures
            r == self.x,
    {
        self.x
    }

    pub fn y(&self) -> (r: i64)
        ensures
            r == self.y,
    {
        self.y
    }

    pub fn size(&self) -> (r: i64)
        ensures
            r == self.size,
    {
        self.size
    }

    pub fn color(&self) -> (r: u32)
        ensures
            r == self.color,
    {
        self.color
    }

    /// The state as its numeric code (0 idle, 1 thinking, 2 speaking,
    /// 3 whispering, 4 running).
    pub fn state(&self) -> (r: u32)
        ensures
            r == state_code(self.state),
    {
        match self.state {
            PromiserState::Idle => 0,
            PromiserState::Thinking => 1,
            PromiserState::Speaking => 2,
            PromiserState::Whispering => 3,
            PromiserState::Running => 4,
        }
    }

    pub fn thought(&self) -> (r: String)
        ensures
            r@ == self.thought@,
    {
        self.thought.clone()
    }

    pub fn target_id(&self) -> (r: u32)
        ensures
            r == self.target_id,
    {
        self.target_id
    }

    pub fn is_pixel(&self) -> (r: bool)
        ensures
            r == self.is_pixel,
    {
        self.is_pixel
    }

    /// Starts thinking, with a fresh timer.
    pub fn start_thinking(&mut self)
        requires
            old(self).wf(),
        ensures
            final(self).wf(),
            final(self)@ == (PromiserView { state: PromiserState::Thinking, state_timer: 0, ..old(self)@ }),
    {
        self.state = PromiserState::Thinking;
        self.state_timer = 0;
    }

    /// Starts speaking the given words, with a fresh timer.
    pub fn set_thought(&mut self, thought: String)
        requires
            old(self).wf(),
        ensures
            final(self).wf(),
            final(self)@ == (PromiserView {
                state: PromiserState::Speaking,
                state_timer: 0,
                thought: thought@,
                ..old(self)@
            }),
    {
        self.thought = thought;
        self.state = PromiserState::Speaking;
        self.state_timer = 0;
    }

    /// Starts whispering the given words to the entity `target_id`, with a
    /// fresh timer.
    pub fn set_whisper(&mut self, thought: String, target_id: u32)
        requires
            old(self).wf(),
        ensures
            final(self).wf(),
            final(self)@ == (PromiserView {
                state: PromiserState::Whispering,
                state_timer: 0,
                thought: thought@,
                target_id,
                ..old(self)@
            }),
    {
        self.thought = thought;
        self.target_id = target_id;
        self.state = PromiserState::Whispering;
        self.state_timer = 0;
    }

    /// Starts running, with a fresh timer: the horizontal velocity doubles
    /// and the vertical one grows by half, within the running caps.
    pub fn start_running(&mut self)
        requires
            old(self).wf(),
        ensures
            final(self).wf(),
            final(self)@ == (PromiserView {
                state: PromiserState::Running,
                state_timer: 0,
                vx: clamp(2 * old(self).vx, -RUNNING_MAX_VX as int, RUNNING_MAX_VX as int),
                vy: clamp(scale(old(self).vy as int, 3, 2), -RUNNING_MAX_VY as int, RUNNING_MAX_VY as int),
                ..old(self)@
            }),
    {
        self.state = PromiserState::Running;
        self.state_timer = 0;
        self.vx = clamp_i128(2 * self.vx as i128, -RUNNING_MAX_VX as i128, RUNNING_MAX_VX as i128) as i64;
        self.vy = clamp_i128(scale_by(self.vy as i128, 3, 2), -RUNNING_MAX_VY as i128, RUNNING_MAX_VY as i128) as i64;
    }

    /// The state machine part of a tick; see `advance_state`.
    fn advance_state_exec(&mut self, dt: u32, draw: &TickDraw)
        requires
            old(self).wf(),
            draw.wf(),
        ensures
            final(self).wf(),
            final(self)@ == advance_state(old(self)@, dt as int, *draw),
    {
        let timer: u64 = if self.state_timer <= u64::MAX - dt as u64 {
            self.state_timer + dt as u64
        } else {
            u64::MAX
        };
        let dwell = draw.dwell as u64;
        match self.state {
            PromiserState::Idle => {
                if draw.think < THINK_CHANCE {
                    self.state = PromiserState::Thinking;
                    self.state_timer = 0;
                } else {
                    self.state_timer = timer;
                }
            },
            PromiserState::Thinking => {
                if timer > 2_000_000 + 3_000_000 * dwell / DRAW_SCALE as u64 {
                    self.state = PromiserState::Idle;
                    self.state_timer = 0;
                } else {
                    self.state_timer = timer;
                }
            },
            PromiserState::Speaking => {
                if timer > 3_000_000 + 2_000_000 * dwell / DRAW_SCALE as u64 {
                    self.state = PromiserState::Idle;
                    self.thought = String::new();
                    self.state_timer = 0;
                } else {
                    self.state_timer = timer;
                }
            },
            PromiserState::Whispering => {
                if timer > 1_000_000 + 1_000_000 * dwell / DRAW_SCALE as u64 {
                    self.state = PromiserState::Idle;
                    self.thought = String::new();
                    self.target_id = 0;
                    self.state_timer = 0;
                } else {
                    self.state_timer = timer;
                }
            },
            PromiserState::Running => {
                if timer > 2_000_000 + 3_000_000 * dwell / DRAW_SCALE as u64 {
                    proof {
                        lemma_scale_shrinks(self.vx as int, 6, 10);
                        lemma_scale_shrinks(self.vy as int, 8, 10);
                    }
                    self.state = PromiserState::Idle;
                    self.state_timer = 0;
                    self.vx = scale_by(self.vx as i128, 6, 10) as i64;
                    self.vy = scale_by(self.vy as i128, 8, 10) as i64;
                } else {
                    self.state_timer = timer;
                }
            },
        }
    }

    /// The nudge and velocity caps of a tick; see `nudge_and_cap`.
    fn nudge_and_cap_exec(&mut self, draw: &TickDraw)
        requires
            -RUNNING_MAX_VX <= old(self).vx <= RUNNING_MAX_VX,
            -80_000_000_000 <= old(self).vy <= 80_000_000_000,
            0 < old(self).size <= MAX_SIZE,
            draw.wf(),
        ensures
            final(self).wf(),
            final(self)@ == nudge_and_cap(old(self)@, *draw),
    {
        let vx0: i64 = if self.state != PromiserState::Thinking && draw.nudge < NUDGE_CHANCE {
            self.vx + draw.impulse as i64 / 10 - 50_000
        } else {
            self.vx
        };
        let running = self.state == PromiserState::Running;
        let mvx: i64 = if running { RUNNING_MAX_VX } else { MAX_VX };
        let mvy: i64 = if running { RUNNING_MAX_VY } else { MAX_VY };
        self.vx = clamp_i128(vx0 as i128, -mvx as i128, mvx as i128) as i64;
        self.vy = clamp_i128(self.vy as i128, -mvy as i128, mvy as i128) as i64;
    }

    /// One tick of the entity: state machine, gravity and movement with tile
    /// collisions, the world's edges, then a random nudge and the velocity
    /// caps. The entity ends inside the world whenever the world is wide and
    /// tall enough for its collision box.
    pub fn update(
        &mut self,
        world_width: i64,
        world_height: i64,
        dt: u32,
        tile_map: &TileMap,
        draw: &TickDraw,
    )
        requires
            old(self).wf(),
            tile_map.wf(),
            draw.wf(),
            0 <= world_width <= MAX_WORLD,
            0 <= world_height <= MAX_WORLD,
        ensures
            final(self).wf(),
            final(self)@ == tick_view(
                old(self)@,
                world_width as int,
                world_height as int,
                dt as int,
                *tile_map,
                *draw,
            ),
            final(self).id == old(self).id,
            final(self).is_pixel == old(self).is_pixel,
            final(self).size == old(self).size,
            2 * old(self).size <= world_width ==> old(self).size <= final(self).x <= world_width
                - old(self).size,
            2 * old(self).size <= world_height ==> old(self).size <= final(self).y <= world_height
                - old(self).size,
            old(self).state != PromiserState::Idle && old(self).state_timer + dt > max_dwell(
                old(self).state,
            ) ==> final(self).state == PromiserState::Idle,
            old(self).state != PromiserState::Idle && final(self).state == PromiserState::Idle
                ==> old(self).state_timer + dt > min_dwell(old(self).state),
            old(self).state == PromiserState::Speaking && final(self).state == PromiserState::Idle
                ==> final(self).thought@.len() == 0,
            old(self).state == PromiserState::Whispering && final(self).state
                == PromiserState::Idle ==> final(self).thought@.len() == 0 && final(self).target_id
                == 0,
    {
        proof {
            lemma_dwell_limit_bounds(old(self).state, draw.dwell as int);
        }
        self.advance_state_exec(dt, draw);
        let (x, y, vx, vy) = integrate_exec(self, dt, tile_map);
        let (x, y, vx, vy) = bounce_exec(x, y, vx, vy, self.size, world_width, world_height);
        self.x = x;
        self.y = y;
        self.vx = vx;
        self.vy = vy;
        self.nudge_and_cap_exec(draw);
    }
}

} // verus!
