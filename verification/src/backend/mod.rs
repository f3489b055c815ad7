//! Binding SlugIR ops to IP dispatch commands.

pub mod dispatch;
pub mod bindings;
pub mod emit;

pub use dispatch::{BackendBinding, BindCtx, BindError, DispatchCmd, DispatchMeta};
pub use emit::emit_dispatches;
