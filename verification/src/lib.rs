//! Accelerator telemetry core: unit-aware metric values parsed from text,
//! per-device snapshots, and attribution of GPU-using processes to the
//! container (if any) that launched them, by walking the host process
//! ancestry against an index of container init PIDs.

pub mod args;
pub mod cli;
pub mod digits;
pub mod display;
pub mod docker;
pub mod error;
pub mod nv_gpu;
pub mod process;
pub mod snapshot;
pub mod vendors;
