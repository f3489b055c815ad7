//! SlugIR operations and their metadata.

use vstd::prelude::*;

use super::types::{Addr, BackendChoice, Dtype, OpId, Shape, TokenId};

verus! {

/// Reference to an operand value inside a Function.
#[derive(Debug, Clone, Copy, PartialEq, Eq, Structural)]
pub enum OperandRef {
    /// SSA-style reference to another op's output.
    Op(OpId),
    /// Host-memory address (input/output buffer).
    Addr(Addr),
    /// Immediate scalar, interpreted per Dtype.
    ImmU64(u64),
    /// Immediate f32, held as its IEEE-754 bit pattern.
    ImmF32(u32),
}

/// Scalar/vector arithmetic kinds.
#[derive(Debug, Clone, Copy, PartialEq, Eq, Hash, Structural)]
pub enum ArithKind {
    Add,
    Sub,
    Mul,
    Mad,
    Div,
    Rem,
    Fma,
    Min,
    Max,
    Abs,
    Cvt,
    Mov,
}

/// Tensor-tile kinds.
#[derive(Debug, Clone, Copy, PartialEq, Eq, Hash, Structural)]
pub enum TileKind {
    /// Dense matmul tile.
    Gemm,
    /// Elementwise over a tile.
    Elementwise,
}

/// Stateful decode-step kinds.
#[derive(Debug, Clone, Copy, PartialEq, Eq, Hash, Structural)]
pub enum StateKind {
    /// RMS normalization step.
    RmsNorm,
    /// Attention decode (per-token state advance).
    AttnDecode,
    /// MLP gate/up/down fused step.
    MlpStep,
    /// Generic decode-step fallback.
    DecodeGeneric,
}

/// A SlugIR operation: one node in a Function's graph.
#[derive(Debug, Clone, PartialEq)]
pub enum Op {
    /// Scalar/vector arithmetic.
    Arith { kind: ArithKind, operands: Vec<OperandRef>, dtype: Dtype },
    /// Tensor-tile op (lowers to a GEMM-class IP).
    TensorTile { kind: TileKind, shape: Shape, dtype: Dtype, operands: Vec<OperandRef> },
    /// Stateful/decode-step op (lowers to the NPU array).
    StateStep { kind: StateKind, operands: Vec<OperandRef> },
    /// Memory movement (lowers to the NoC / DMA path).
    Dma { src: Addr, dst: Addr, bytes: u64 },
    /// Fallback emulation op (lowers to ptx_emulation_core).
    Emu { opcode: u32, operands: Vec<OperandRef> },
}

/// An operation as a mathematical value: operand lists and shapes as
/// sequences.
pub enum OpView {
    Arith { kind: ArithKind, operands: Seq<OperandRef>, dtype: Dtype },
    TensorTile { kind: TileKind, shape: Seq<u32>, dtype: Dtype, operands: Seq<OperandRef> },
    StateStep { kind: StateKind, operands: Seq<OperandRef> },
    Dma { src: Addr, dst: Addr, bytes: u64 },
    Emu { opcode: u32, operands: Seq<OperandRef> },
}

impl View for Op {
    type V = OpView;

    open spec fn view(&self) -> OpView {
        match self {
            Op::Arith { kind, operands, dtype } => OpView::Arith { kind: *kind, operands: operands@, dtype: *dtype },
            Op::TensorTile { kind, shape, dtype, operands } => OpView::TensorTile {
                kind: *kind,
                shape: shape.0@,
                dtype: *dtype,
                operands: operands@,
            },
            Op::StateStep { kind, operands } => OpView::StateStep { kind: *kind, operands: operands@ },
            Op::Dma { src, dst, bytes } => OpView::Dma { src: *src, dst: *dst, bytes: *bytes },
            Op::Emu { opcode, operands } => OpView::Emu { opcode: *opcode, operands: operands@ },
        }
    }
}

/// Metadata attached to an Op once passes have annotated it.
#[derive(Debug, Clone, PartialEq, Eq)]
pub struct OpMeta {
    /// Assigned by `select_backend`.
    pub backend: Option<BackendChoice>,
    /// Assigned by `assign_tokens`.
    pub token_in: Option<TokenId>,
    pub token_out: Option<TokenId>,
    /// Free-form source hint for diagnostics (PTX line, span, ...).
    pub source_hint: Option<String>,
}

impl Default for OpMeta {
    /// Metadata with nothing assigned.
    fn default() -> (r: Self)
        ensures
            r.backend is None,
            r.token_in is None,
            r.token_out is None,
            r.source_hint is None,
    {
        OpMeta { backend: None, token_in: None, token_out: None, source_hint: None }
    }
}

} // verus!
