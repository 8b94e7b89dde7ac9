//! A turn-based dungeon-crawler simulation engine: an entity store with
//! optional combat / AI / item / equipment capabilities, a procedural
//! dungeon generator, a combat and spell-effect resolver, a turn
//! engine, and a persistence codec for the whole aggregate. Rendering,
//! input devices, the point-in-view computation and the file system are
//! outside collaborators; the engine exchanges plain values with them.

pub mod ai;
pub mod colors;
pub mod combat;
pub mod consts;
pub mod effects;
pub mod engine;
pub mod entity;
pub mod game;
pub mod fov;
pub mod gamemap;
pub mod geom;
pub mod inventory;
pub mod mapgen;
pub mod persist;
pub mod reach;
pub mod rng;
pub mod text;
