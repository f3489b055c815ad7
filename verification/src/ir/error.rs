//! Errors of the IR layer.

use vstd::prelude::*;

use super::types::OpId;

verus! {

/// Structural diff between a SlugIR function and an rtlmap pipeline.
#[derive(Debug, Clone, Default, PartialEq)]
pub struct RtlmapDiff {
    pub missing_nodes: Vec<String>,
    pub extra_nodes: Vec<String>,
    /// (node_id, expected, actual)
    pub wrong_ip: Vec<(String, String, String)>,
    pub edge_diff: Vec<String>,
}

impl RtlmapDiff {
    /// Whether the diff records no difference at all.
    pub fn is_empty(&self) -> (r: bool)
        ensures
            r == (self.missing_nodes@.len() == 0 && self.extra_nodes@.len() == 0
                && self.wrong_ip@.len() == 0 && self.edge_diff@.len() == 0),
    {
        self.missing_nodes.len() == 0 && self.extra_nodes.len() == 0 && self.wrong_ip.len() == 0
            && self.edge_diff.len() == 0
    }
}

/// Errors that can arise in the IR layer: construction, passes, or
/// serialization.
#[derive(Debug, Clone, PartialEq)]
pub enum IrError {
    /// Serialization failed.
    Serialize(String),
    /// Deserialization failed.
    Deserialize(String),
    /// A pass failed, possibly on a given op.
    PassFailed { pass: &'static str, node: Option<OpId>, msg: String },
    /// The token graph has a cycle (or an edge into an unknown op); the
    /// ops that could not be ordered.
    TokenGraphCycle { cycle: Vec<OpId> },
    /// The function differs from the rtlmap oracle.
    OracleMismatch { diff: RtlmapDiff },
}

} // verus!
