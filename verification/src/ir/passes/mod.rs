//! The SlugIR passes.

pub mod select_backend;
pub mod fuse_decode_ops;
pub mod assign_tokens;
pub mod validate_against_rtlmap;

pub use assign_tokens::AssignTokens;
pub use fuse_decode_ops::FuseDecodeOps;
pub use select_backend::{BackendPolicy, SelectBackend};
pub use validate_against_rtlmap::ValidateAgainstRtlmap;
