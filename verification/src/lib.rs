//! SlugArch: CXL wire format, SlugIR passes, backend binding, fabric
//! scheduling and the CXL host runtime, with their contracts.

pub mod wire;
pub mod ir;
pub mod host;
pub mod backend;
pub mod fabric;
