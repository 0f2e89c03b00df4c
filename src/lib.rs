//! Snapshot aggregation and metric synchronisation for a backup inventory.
//!
//! The library groups snapshots by host and path, enriches each group with
//! size and age statistics, drives one refresh cycle as a state machine whose
//! outside work is performed by the caller, and decides what the metrics sink
//! shows across cycles and restarts.
pub mod config;
pub mod model;
pub mod details;
pub mod grouping;
pub mod inventory;
pub mod cycle;
pub mod publish;
pub mod schedule;
pub mod summary;
