//! Simulation core of a turn-stepped, grid-based dungeon game: a procedural
//! map generator, a grid field-of-view computation, an entity/component
//! store with generation-checked identifiers, and the per-tick orchestration
//! that ties movement intent, visibility recomputation and deferred
//! structural changes together.

pub mod components;
pub mod entity;
pub mod grid;
pub mod mapgen;
pub mod rng;
pub mod scheduler;
pub mod visibility;
