//! The fabric: the CPU-backed emulation core and the scheduler that
//! dispatches a command stream in token order.

pub mod cpu_emu;
pub mod error;
pub mod scheduler;
pub mod record;

pub use error::FabricError;
pub use scheduler::{FabricAction, FabricScheduler, RunReport};
