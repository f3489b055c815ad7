//! Errors of the fabric.

use vstd::prelude::*;

use crate::backend::dispatch::BindError;
use crate::ir::error::IrError;
use crate::ir::types::{IpId, OpId, TokenId};

verus! {

/// Why a fabric run failed.
#[derive(Debug)]
pub enum FabricError {
    /// A command (or the whole run) took more cycles than allowed.
    DispatchTimeout { ip: IpId, cycles: u64, cmd_op: Option<OpId> },
    /// Commands are left whose token_in no command will retire.
    TokenResolutionStuck { pending: usize },
    /// A replay took another number of cycles than recorded.
    DeterminismMismatch { expected: u64, actual: u64 },
    /// A memory region hashed differently than expected.
    ValueMismatch { region: String, expected: String, actual: String },
    /// Binding failed.
    Bind(BindError),
    /// An IR pass failed.
    Ir(IrError),
    /// Reading or writing failed.
    Io(String),
    /// Encoding or decoding an artifact failed.
    Serialize(String),
    /// A command waits on a token nothing produces.
    UnknownToken(TokenId),
}

} // verus!
