//! Dependency edges between ops.

use vstd::prelude::*;

use super::types::OpId;

verus! {

/// A dependency edge between two ops.
#[derive(Debug, Clone, Copy, PartialEq, Eq, Hash, Structural)]
pub enum Edge {
    /// The dst op consumes the src op's value (SSA data dependency).
    Data(OpId, OpId),
    /// The dst op waits for the src op's token retirement (ordering).
    Token(OpId, OpId),
}

impl Edge {
    /// The op the edge leaves.
    #[verifier::allow_in_spec]
    pub fn src(&self) -> OpId
        returns
            match self {
                Edge::Data(s, _) => *s,
                Edge::Token(s, _) => *s,
            },
    {
        match self {
            Edge::Data(s, _) | Edge::Token(s, _) => *s,
        }
    }

    /// The op the edge enters.
    #[verifier::allow_in_spec]
    pub fn dst(&self) -> OpId
        returns
            match self {
                Edge::Data(_, d) => *d,
                Edge::Token(_, d) => *d,
            },
    {
        match self {
            Edge::Data(_, d) | Edge::Token(_, d) => *d,
        }
    }
}

} // verus!
