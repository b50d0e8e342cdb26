//! Core of a 2D agent ("ant") simulation: a uniform spatial grid of
//! per-category entity buckets with incremental relocation and range
//! queries, view-cone perception geometry, and the steering/movement
//! model that consumes query results.
//!
//! All coordinates are fixed-point integers: world positions are plain
//! `i64` units, direction vectors are scaled by 1000 (a unit vector has
//! length about 1000), and angles are in tenths of a degree (a full
//! turn is 3600).

pub mod ant;
pub mod constants;
pub mod grid;
pub mod sim;
pub mod utils;
