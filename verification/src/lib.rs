//! Simulation core of a fixed-timestep 2D arcade shooter.
//!
//! The core advances positions, detects collisions between the player's
//! projectiles and their targets, creates and destroys entities through a
//! queue of requests that takes effect once per tick, and plays the frames of
//! explosions. Lengths are fixed-point numbers and durations are nanoseconds,
//! so that a run is repeatable bit for bit.

pub mod animation;
pub mod collision;
pub mod command;
pub mod config;
pub mod entity;
pub mod geometry;
pub mod movement;
pub mod store;
pub mod world;

pub use animation::{Animation, AnimationState};
pub use command::{Command, CommandBuffer};
pub use config::{Config, ConfigError, Params};
pub use entity::{AssetHandle, Component, Components, Entity, EntityId, Filter, Movable, Ownership, Role};
pub use geometry::{Extent, Vec2, WinSize, UNIT};
pub use store::{Store, StoreError};
pub use world::Simulation;
