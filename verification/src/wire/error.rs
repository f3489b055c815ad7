//! Wire-layer errors.

use vstd::prelude::*;

use super::msg::MsgClass;

verus! {

/// Why a FLIT could not be decoded (or a response did not match).
#[derive(Debug, Clone, Copy, PartialEq, Eq, Structural)]
pub enum WireError {
    /// The class nibble names no message class.
    UnknownClass(u8),
    /// The opcode nibble names no opcode of the class.
    UnknownOpcode(u8, MsgClass),
    /// A reserved byte (43..64) is nonzero.
    ReservedBitsSet,
    /// A response carried another tag than the request.
    TagMismatch { expected: u16, got: u16 },
}

} // verus!
