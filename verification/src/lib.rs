//! Verified core of a Godot + Bevy ECS presentation pipeline.
//!
//! The ECS model produces presentation intents (spawns, transform patches,
//! despawns); this library holds those intents, orders them, consolidates
//! them and keeps the entity-to-view registry, independently of the engine.
//! Entities are identified by the full 64-bit value of an ECS entity
//! (index and generation together).

pub mod commands;
pub mod enemies;
pub mod extraction;
pub mod output;
pub mod present_order;
pub mod registry;
