//! The CXL host side: GEMM jobs, their dispatch stream, result decoding,
//! the session that drives an endpoint, replay recording, QEMU Type-2
//! artifacts and the simulator-feasible report.

pub mod text;
pub mod job;
pub mod error;
pub mod dispatch;
pub mod result;
pub mod qemu_type2;
pub mod replay;
pub mod provenance;
pub mod session;
pub mod sim_feasible;
pub mod bar2_files;

pub use error::HostError;
pub use job::{GemmJob, GemmResult};
pub use replay::{
    CxlDirection, CxlEndpoint, CxlRecordMode, CxlRecordPolicy, CxlRecordedRun, CxlReplayArtifact, CxlReplayRecord,
    CxlReplaySummary, CxlReplayValidation, CxlTransactionClass,
};
pub use sim_feasible::PayloadRecordCounts;
