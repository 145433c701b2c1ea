//! Turn-based dungeon game logic: occupancy grid, movement resolution,
//! autotile rules, map parsing, line of sight, light merging and palettes,
//! enemy decisions, visibility layers and frame composition.

pub mod geometry;
pub mod grid;
pub mod resolution;
pub mod text;
pub mod tiles;
pub mod map;
pub mod lighting;
pub mod frame;
pub mod line;
pub mod simulation;
pub mod ai;
pub mod vision;
pub mod autotile;
pub mod agent;
pub mod content;
pub mod options;
