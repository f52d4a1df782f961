//! Deterministic simulation core of a 2D sandbox world: a tile grid with a
//! water automaton and foliage growth, light rays that deposit energy into
//! tiles, and wandering entities with tile-aware kinematics and a small state
//! machine.
//!
//! All quantities are integers. Lengths are measured in milli-pixels, times in
//! microseconds, and every random choice is handed in by the caller as a draw
//! (see `draw`), so that a step is a function of its inputs.
pub mod numeric;
pub mod draw;
pub mod foliage;
pub mod game;
pub mod light;
pub mod promiser;
pub mod tile;
pub mod water;
pub mod water_props;

pub use numeric::{compute_fibonacci, heavy_computation_sum};
pub use draw::{PromiserDraw, RayDraw, SpawnDraw, TickDraw, DRAW_SCALE};
pub use game::GameState;
pub use light::LightRay;
pub use promiser::{Promiser, PromiserState};
pub use tile::{Tile, TileMap, TileType, MAX_WATER_AMOUNT, TILE_SIZE};
pub use water::{simulate_water_step, simulate_water_with_seepage};
