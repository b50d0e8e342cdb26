//! Tuning constants for the simulation core.
//!
//! Angles are in tenths of a degree; direction vectors are scaled by
//! `DIR_SCALE`; world lengths are plain integer units.

use vstd::prelude::*;

verus! {

/// A full turn, in tenths of a degree.
pub const DEGREES_360: u32 = 3600;

/// Half a turn, in tenths of a degree.
pub const DEGREES_180: u32 = 1800;

/// Three quarters of a turn, in tenths of a degree.
pub const DEGREES_270: u32 = 2700;

/// A quarter turn, in tenths of a degree.
pub const DEGREES_90: u32 = 900;

/// Scale of direction vectors: a unit vector has length about 1000.
pub const DIR_SCALE: i64 = 1000;

/// Side length of one grid cell, in world units.
pub const GRID_RESOLUTION: i64 = 50;

/// Side length of the whole (square) world, in world units.
pub const GRID_AREA_SIZE: i64 = 5000;

/// Upper bound on the magnitude of any world coordinate, radius or
/// cell size accepted by the geometric functions; keeps all squared
/// distances well inside `i64`.
pub const COORD_LIMIT: i64 = 1_000_000;

/// How many agents the default scenario spawns.
pub const ANT_COUNT: usize = 10000;

/// How far an agent can see, in world units.
pub const ANT_VIEW_DISTANCE: i64 = 150;

/// Diameter of an agent, in world units.
pub const ANT_SIZE: i64 = 25;

/// Full opening angle of an agent's view cone (90 degrees).
pub const ANT_VIEW_ANGLE: u32 = 900;

/// Forward speed of an agent, in world units per second.
pub const ANT_SPEED: i64 = 100;

/// Base turning speed of an agent, in tenths of a degree per second
/// (about one radian per second).
pub const ANT_ROTATION_SPEED: u32 = 573;

/// Radius of the nest area, in world units.
pub const NEST_SIZE: i64 = 100;

/// Centre of the nest area.
pub const NEST_POSITION: (i64, i64) = (0, 0);

/// Per-tick pheromone retention factor, in thousandths (0.99).
pub const PHEROMONE_DECAY_MILLI: i64 = 990;

/// Largest pheromone intensity, in thousandths (1.0).
pub const PHEROMONE_MAX_MILLI: i64 = 1000;

/// Bound on one random steering nudge, in direction-vector scale
/// (plus or minus a fifth of a unit vector).
pub const JITTER_LIMIT: i64 = 200;

} // verus!
