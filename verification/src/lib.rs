//! Deterministic structural runtime kernel: change masks, propagation
//! frontiers, cell addressing, region state machines, canonical sequence
//! ordering and replay validation for the Mirage substrate.
mod bits;
pub mod delta;
pub mod frontier;
pub mod pool;
pub mod field_handle;
pub mod invariants;
pub mod region;
pub mod ordering;
pub mod pipeline;
pub mod residency;
pub mod streaming;
pub mod world;
pub mod validation;
pub mod governance;
pub mod hardware;
pub mod replay;
pub mod regions;
pub mod bridge;
pub mod history;
pub mod propagation;
pub mod runtime_frame;
pub mod canonical;
pub mod structural_replay;
pub mod emission;
pub mod region_map;
pub mod streaming_coordinator;
pub mod morphogenic;
pub mod fields;
pub mod world_snapshot;
pub mod propagation_bridge;
pub mod execution_bridge;
pub mod renderer_validation;
