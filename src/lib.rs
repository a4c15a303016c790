//! Rolling-snapshot correlation of kernel OOM kills with recent system state.
//!
//! The library keeps a bounded history of system snapshots, detects new
//! kill lines in the kernel log, matches each killed process with the
//! freshest snapshot that still shows it, and tracks the peak memory usage
//! of each half-day window.
use vstd::prelude::*;

pub mod usage;
pub mod snapshot;
pub mod history;
pub mod detector;
pub mod correlator;
pub mod watch;
pub mod peak;
pub mod text;
