//! Errors of the host runtime.

use vstd::prelude::*;

use crate::wire::error::WireError;

verus! {

/// Why a GEMM run or a response stream failed.
#[derive(Debug, Clone, PartialEq, Eq)]
pub enum HostError {
    /// The endpoint (or a response) failed a dispatch.
    DispatchFailed { tag: u16, reason: String },
    /// A response carried a tag other than the outstanding one.
    UnexpectedTag { got: u16, outstanding: Vec<u16> },
    /// A response FLIT did not decode.
    WireDecode(WireError),
    /// No response FLIT came within the timeout.
    FlitTimeout { ticks: u64 },
    /// The run took more cycles than allowed.
    CyclesExceeded { limit: u64, actual: u64 },
}

impl From<WireError> for HostError {
    fn from(e: WireError) -> (r: HostError)
        ensures
            r == HostError::WireDecode(e),
    {
        HostError::WireDecode(e)
    }
}

impl vstd::std_specs::convert::FromSpecImpl<WireError> for HostError {
    open spec fn obeys_from_spec() -> bool {
        true
    }

    open spec fn from_spec(e: WireError) -> HostError {
        HostError::WireDecode(e)
    }
}

} // verus!
