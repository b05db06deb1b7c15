//! Core of a real-time combat telemetry meter: an in-memory aggregation of
//! per-entity combat statistics over a stream of decoded game packets, with
//! encounter boundary detection, cooldown and buff tracking, snapshot
//! windows, and a verified persistence codec.

pub mod laws;
pub mod models;
pub mod monitor;
pub mod scene;
pub mod snapshot;
pub mod stats;
pub mod store;
pub mod sums;
pub mod boundary;
pub mod buffs;
pub mod codec;
pub mod cooldown;
pub mod aggregator;
pub mod battle;
pub mod dungeon;
pub mod encounter;
pub mod entity;
pub mod tables;

pub use stats::CombatStats;
