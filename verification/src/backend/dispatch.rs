//! Dispatch commands, the binding interface and its errors.

use vstd::prelude::*;

use crate::ir::op::{Op, OpView};
use crate::ir::types::{dims_product, IpId, TokenId};

verus! {

/// One command for an IP: its opcode and the 256-bit token_in payload.
#[derive(Debug, Clone)]
pub struct DispatchCmd {
    pub ip: IpId,
    pub opcode: u32,
    /// token_in payload (256-bit wire as bytes).
    pub token: [u8; 32],
    pub token_in: TokenId,
    pub token_out: TokenId,
    pub meta: DispatchMeta,
}

impl DispatchCmd {
    /// A copy of this command.
    pub fn clone_cmd(&self) -> (c: DispatchCmd)
        ensures
            c == *self,
    {
        let source_hint = match &self.meta.source_hint {
            Some(s) => Some(s.clone()),
            None => None,
        };
        let policy = match &self.meta.policy {
            Some(s) => Some(s.clone()),
            None => None,
        };
        DispatchCmd {
            ip: self.ip,
            opcode: self.opcode,
            token: self.token,
            token_in: self.token_in,
            token_out: self.token_out,
            meta: DispatchMeta { source_hint, policy },
        }
    }
}

/// Where a command came from.
#[derive(Debug, Clone)]
pub struct DispatchMeta {
    pub source_hint: Option<String>,
    pub policy: Option<String>,
}

impl Default for DispatchMeta {
    /// No hint, no policy.
    fn default() -> (r: Self)
        ensures
            r.source_hint is None,
            r.policy is None,
    {
        DispatchMeta { source_hint: None, policy: None }
    }
}

/// A dispatch command as a value.
pub struct DispatchView {
    pub ip: IpId,
    pub opcode: u32,
    pub token: Seq<u8>,
    pub token_in: TokenId,
    pub token_out: TokenId,
    pub source_hint: Option<Seq<char>>,
    pub policy: Option<Seq<char>>,
}

/// The characters of an optional string.
pub open spec fn opt_text(s: Option<String>) -> Option<Seq<char>> {
    match s {
        Some(t) => Some(t@),
        None => None,
    }
}

impl View for DispatchCmd {
    type V = DispatchView;

    open spec fn view(&self) -> DispatchView {
        DispatchView {
            ip: self.ip,
            opcode: self.opcode,
            token: self.token@,
            token_in: self.token_in,
            token_out: self.token_out,
            source_hint: opt_text(self.meta.source_hint),
            policy: opt_text(self.meta.policy),
        }
    }
}

/// The commands of a sequence, as values.
pub open spec fn cmd_views(v: Seq<DispatchCmd>) -> Seq<DispatchView> {
    v.map_values(|c: DispatchCmd| c@)
}

/// The tokens and the provenance a binding stamps on its commands.
pub struct BindCtx<'a> {
    pub token_in: TokenId,
    pub token_out: TokenId,
    pub source_hint: Option<&'a str>,
    pub policy: Option<&'a str>,
}

/// A binding context as a value.
pub struct CtxView {
    pub token_in: TokenId,
    pub token_out: TokenId,
    pub source_hint: Option<Seq<char>>,
    pub policy: Option<Seq<char>>,
}

impl<'a> BindCtx<'a> {
    /// The context as a value.
    pub open spec fn view(&self) -> CtxView {
        CtxView {
            token_in: self.token_in,
            token_out: self.token_out,
            source_hint: match self.source_hint {
                Some(s) => Some(s@),
                None => None,
            },
            policy: match self.policy {
                Some(s) => Some(s@),
                None => None,
            },
        }
    }
}

/// Why an op could not be bound.
#[derive(Debug)]
pub enum BindError {
    /// The chosen IP takes no op of this kind.
    NoBindingForChoice { choice: IpId, op_desc: String },
    /// The IP does not take this shape.
    ShapeUnsupported { ip: IpId, shape: Vec<u32> },
    /// An operand address is out of range.
    OperandOutOfRange { addr: u64 },
}

/// The text std's formatter gives for the derived `Debug` of an op.
pub uninterp spec fn op_debug_text(op: OpView) -> Seq<char>;

/// The `Debug` text of `op`, by std's formatter (`format!("{:?}", op)`
/// over the derived impl): the text is a function of the op's value.
#[verifier::external_body]
pub(crate) fn op_debug(op: &Op) -> (s: String)
    ensures
        s@ == op_debug_text(op@),
{
    format!("{:?}", op)
}

/// Every prefix product of a tile's dimensions fits in 32 bits.
pub open spec fn tile_fits(op: OpView) -> bool {
    match op {
        OpView::TensorTile { shape, .. } => forall|k: int| 0 <= k <= shape.len() ==> #[trigger] dims_product(shape.subrange(0, k)) <= u32::MAX,
        _ => true,
    }
}

/// A binding from ops to the commands of one IP.
pub trait BackendBinding {
    /// Whether this binding multiplies out a tile's shape.
    spec fn multiplies_tiles(&self) -> bool;

    /// The IP this binding dispatches to.
    fn ip(&self) -> IpId;

    /// The commands for `op` in context `ctx`. For a binding that
    /// multiplies out a tile's shape, the product must fit in 32 bits.
    fn bind(&self, op: &Op, ctx: &BindCtx) -> Result<Vec<DispatchCmd>, BindError>
        requires
            self.multiplies_tiles() ==> tile_fits(op@),
    ;
}

} // verus!
