//! Random draws: the simulation makes no random choice itself, the caller
//! draws and hands in plain numbers.
use vstd::prelude::*;

verus! {

/// Random choices are made by the caller and handed in as draws: integers in
/// `[0, DRAW_SCALE)`, read as fractions of one (millionths).
pub const DRAW_SCALE: u32 = 1_000_000;

/// The draws that place and shape a newly spawned entity.
#[derive(Clone, Copy, Debug, PartialEq, Eq, Structural)]
pub struct PromiserDraw {
    /// Horizontal spawn position, as a fraction of the world width.
    pub x: u32,
    pub vx: u32,
    pub vy: u32,
    pub size: u32,
    pub color: u32,
}

/// The draws one entity uses in one tick.
#[derive(Clone, Copy, Debug, PartialEq, Eq, Structural)]
pub struct TickDraw {
    /// Compared with the chance that an idle entity starts thinking.
    pub think: u32,
    /// Where, between its shortest and longest stay, the current state ends.
    pub dwell: u32,
    /// Compared with the chance of a random horizontal nudge.
    pub nudge: u32,
    /// The strength and direction of the nudge.
    pub impulse: u32,
}

/// Components of a ray's direction are kept as a unit vector scaled by this
/// much. Drawn directions may have any length; they are normalised.
pub const DIRECTION_SCALE: i32 = 1000;

/// The draws for one light ray that may hit a solid tile this tick.
#[derive(Clone, Copy, Debug, PartialEq, Eq, Structural)]
pub struct RayDraw {
    /// Compared with the chance that the ray is reflected.
    pub reflect: u32,
    /// The new direction of a reflected ray.
    pub dir_x: i32,
    pub dir_y: i32,
}

/// The draws for one new light ray.
#[derive(Clone, Copy, Debug, PartialEq, Eq, Structural)]
pub struct SpawnDraw {
    /// Which edge of the world the ray enters from: the four quarters of the
    /// range are the top, right, bottom and left edges.
    pub side: u32,
    /// Where along that edge, as a fraction of its length.
    pub along: u32,
    /// The direction of the ray.
    pub dir_x: i32,
    pub dir_y: i32,
}

impl RayDraw {
    pub open spec fn wf(self) -> bool {
        &&& self.reflect < DRAW_SCALE
    }
}

impl SpawnDraw {
    pub open spec fn wf(self) -> bool {
        &&& self.side < DRAW_SCALE
        &&& self.along < DRAW_SCALE
    }
}

impl PromiserDraw {
    pub open spec fn wf(self) -> bool {
        &&& self.x < DRAW_SCALE
        &&& self.vx < DRAW_SCALE
        &&& self.vy < DRAW_SCALE
        &&& self.size < DRAW_SCALE
        &&& self.color < DRAW_SCALE
    }
}

impl TickDraw {
    pub open spec fn wf(self) -> bool {
        &&& self.think < DRAW_SCALE
        &&& self.dwell < DRAW_SCALE
        &&& self.nudge < DRAW_SCALE
        &&& self.impulse < DRAW_SCALE
    }
}

} // verus!
