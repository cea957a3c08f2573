//! Verified core of a single-accelerator power and process monitor.
//!
//! The library models the reconciliation engine: normalizing raw attribute
//! text read from flat key files, selecting the monitored device, cleaning
//! per-process metadata, assembling telemetry snapshots, memoizing process
//! identities with poll-driven eviction, and driving the power-gated worker
//! state machine that emits one envelope per tick.  All device, filesystem
//! and signal I/O lives outside the library; callers hand in the raw values
//! those sources produced and receive plain values back.

pub mod cache;
pub mod pci;
pub mod process_ops;
pub mod telemetry;
pub mod text;
pub mod worker;
