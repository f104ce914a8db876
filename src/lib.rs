//! Core logic of a per-host telemetry agent for GPU-dense compute nodes:
//! counter bookkeeping, parsing of kernel counter files, the local
//! time-series buffer's block and replay rules, the status store's derived
//! fields, the device scheduler's filters and the agent client's request
//! handling.

pub mod counter;
pub mod text;
pub mod tsdb;
pub mod replay;
pub mod prune;
pub mod procfs;
pub mod host;
pub mod gpu;
pub mod status;
pub mod schedule;
pub mod orchestrator;
pub mod config;
pub mod nvml_ext;
pub mod client;
