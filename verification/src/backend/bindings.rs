//! The bindings of the IPs: which ops each takes and how it encodes them.

use vstd::prelude::*;

use crate::host::dispatch::u32_le;
use crate::ir::op::{Op, OpView, StateKind, TileKind};
use crate::ir::types::{dims_product, IpId};
use crate::wire::flit::u64_le;
use super::dispatch::{cmd_views, op_debug, op_debug_text, tile_fits, BackendBinding, BindCtx, BindError, CtxView, DispatchCmd, DispatchMeta, DispatchView};

verus! {

broadcast use vstd::array::group_array_axioms;

/// `n` zero bytes.
pub open spec fn zeros(n: nat) -> Seq<u8> {
    Seq::new(n, |i: int| 0u8)
}

/// The command for `ip` with `opcode` and `token`, stamped with `ctx`.
pub open spec fn cmd_view(ip: IpId, opcode: u32, token: Seq<u8>, ctx: CtxView) -> DispatchView {
    DispatchView {
        ip,
        opcode,
        token,
        token_in: ctx.token_in,
        token_out: ctx.token_out,
        source_hint: ctx.source_hint,
        policy: ctx.policy,
    }
}

/// A token carrying `x` little-endian in its first four bytes.
pub open spec fn word_token(x: u32) -> Seq<u8> {
    u32_le(x) + zeros(28)
}

/// A systolic array (or gemm_ip) `ip` takes a GEMM tile: opcode 1, the
/// product of the shape in the token.
pub open spec fn systolic_cmds(ip: IpId, op: OpView, ctx: CtxView) -> Option<Seq<DispatchView>> {
    match op {
        OpView::TensorTile { kind: TileKind::Gemm, shape, .. } => Some(seq![cmd_view(ip, 1, word_token(dims_product(shape) as u32), ctx)]),
        _ => None,
    }
}

/// The NoC takes a DMA: opcode 0, source, destination and length as
/// little-endian words in the token.
pub open spec fn noc_cmds(op: OpView, ctx: CtxView) -> Option<Seq<DispatchView>> {
    match op {
        OpView::Dma { src, dst, bytes } => Some(seq![cmd_view(IpId::NoCMesh, 0, u64_le(src) + u64_le(dst) + u64_le(bytes) + zeros(8), ctx)]),
        _ => None,
    }
}

/// The NPU opcode of a state step.
pub open spec fn state_opcode(kind: StateKind) -> u32 {
    match kind {
        StateKind::RmsNorm => 1,
        StateKind::AttnDecode => 2,
        StateKind::MlpStep => 3,
        StateKind::DecodeGeneric => 4,
    }
}

/// An NPU `ip` takes a state step: its kind's opcode, the operand count
/// in the token.
pub open spec fn npu_cmds(ip: IpId, op: OpView, ctx: CtxView) -> Option<Seq<DispatchView>> {
    match op {
        OpView::StateStep { kind, operands } => Some(seq![cmd_view(ip, state_opcode(kind), word_token(operands.len() as u32), ctx)]),
        _ => None,
    }
}

/// The emulation core takes an emulated op: its opcode, the operand count
/// in the token.
pub open spec fn ptx_cmds(op: OpView, ctx: CtxView) -> Option<Seq<DispatchView>> {
    match op {
        OpView::Emu { opcode, operands } => Some(seq![cmd_view(IpId::PtxEmulationCore, opcode, word_token(operands.len() as u32), ctx)]),
        _ => None,
    }
}

/// A state step bound to an NPU array becomes exactly one command for that
/// array, whose opcode is fixed by the step's kind: RmsNorm 1, AttnDecode
/// 2, MlpStep 3, DecodeGeneric 4. Any other op is refused.
pub proof fn lemma_npu_opcode_table(ip: IpId, op: Op, ctx: CtxView, r: Result<Vec<DispatchCmd>, BindError>)
    requires
        bind_outcome(npu_cmds(ip, op@, ctx), IpId::NpuArrayV4SeedG, op@, r),
    ensures
        op is StateStep ==> (r matches Ok(cmds) && cmds@.len() == 1 && cmds@[0].ip == ip),
        op matches Op::StateStep { kind: StateKind::RmsNorm, .. } ==> (r matches Ok(cmds) && cmds@[0].opcode == 1),
        op matches Op::StateStep { kind: StateKind::AttnDecode, .. } ==> (r matches Ok(cmds) && cmds@[0].opcode == 2),
        op matches Op::StateStep { kind: StateKind::MlpStep, .. } ==> (r matches Ok(cmds) && cmds@[0].opcode == 3),
        op matches Op::StateStep { kind: StateKind::DecodeGeneric, .. } ==> (r matches Ok(cmds) && cmds@[0].opcode == 4),
        !(op is StateStep) ==> (r matches Err(BindError::NoBindingForChoice { choice, .. }) && choice == IpId::NpuArrayV4SeedG),
{
    if let Ok(cmds) = r {
        if op is StateStep {
            assert(cmd_views(cmds@).len() == 1);
            assert(cmd_views(cmds@)[0] == cmds@[0]@);
        }
    }
}

/// Two state steps bound to NPU arrays get the same opcode only when they
/// are of the same kind.
pub proof fn lemma_npu_opcode_injective(
    ip1: IpId,
    op1: Op,
    ctx1: CtxView,
    r1: Result<Vec<DispatchCmd>, BindError>,
    ip2: IpId,
    op2: Op,
    ctx2: CtxView,
    r2: Result<Vec<DispatchCmd>, BindError>,
)
    requires
        bind_outcome(npu_cmds(ip1, op1@, ctx1), IpId::NpuArrayV4SeedG, op1@, r1),
        bind_outcome(npu_cmds(ip2, op2@, ctx2), IpId::NpuArrayV4SeedG, op2@, r2),
        op1 is StateStep,
        op2 is StateStep,
    ensures
        r1 matches Ok(c1) && r2 matches Ok(c2) && (c1@[0].opcode == c2@[0].opcode <==> op1->StateStep_kind == op2->StateStep_kind),
{
    lemma_npu_opcode_table(ip1, op1, ctx1, r1);
    lemma_npu_opcode_table(ip2, op2, ctx2, r2);
}

/// The other bindings' opcodes: a systolic array (or gemm_ip) makes one
/// command with opcode 1 of a GEMM tile and refuses an elementwise tile; the
/// NoC makes one command with opcode 0 of a DMA; the emulation core makes
/// one command carrying the emulated op's own opcode.
pub proof fn lemma_binding_opcodes(ip: IpId, op: Op, ctx: CtxView)
    ensures
        op matches Op::TensorTile { kind: TileKind::Gemm, .. } ==> (systolic_cmds(ip, op@, ctx) matches Some(c)
            && c.len() == 1 && c[0].ip == ip && c[0].opcode == 1),
        !(op matches Op::TensorTile { kind: TileKind::Gemm, .. }) ==> systolic_cmds(ip, op@, ctx) is None,
        op is Dma ==> (noc_cmds(op@, ctx) matches Some(c) && c.len() == 1 && c[0].ip == IpId::NoCMesh && c[0].opcode == 0),
        !(op is Dma) ==> noc_cmds(op@, ctx) is None,
        op matches Op::Emu { opcode, .. } ==> (ptx_cmds(op@, ctx) matches Some(c) && c.len() == 1
            && c[0].ip == IpId::PtxEmulationCore && c[0].opcode == opcode),
        !(op is Emu) ==> ptx_cmds(op@, ctx) is None,
{
}

/// `r` is the outcome of a binding that makes `cmds` of `op` (none when
/// it does not take the op, which it then reports as `choice`).
pub open spec fn bind_outcome(cmds: Option<Seq<DispatchView>>, choice: IpId, op: OpView, r: Result<Vec<DispatchCmd>, BindError>) -> bool {
    match cmds {
        Some(c) => r matches Ok(v) && cmd_views(v@) == c,
        None => r matches Err(BindError::NoBindingForChoice { choice: ch, op_desc }) && ch == choice && op_desc@ == op_debug_text(op),
    }
}

fn stamp(ip: IpId, opcode: u32, token: [u8; 32], ctx: &BindCtx) -> (r: Vec<DispatchCmd>)
    ensures
        cmd_views(r@) == seq![cmd_view(ip, opcode, token@, ctx.view())],
{
    let source_hint = match ctx.source_hint {
        Some(s) => Some(String::from_str(s)),
        None => None,
    };
    let policy = match ctx.policy {
        Some(s) => Some(String::from_str(s)),
        None => None,
    };
    let mut v: Vec<DispatchCmd> = Vec::new();
    v.push(DispatchCmd {
        ip,
        opcode,
        token,
        token_in: ctx.token_in,
        token_out: ctx.token_out,
        meta: DispatchMeta { source_hint, policy },
    });
    assert(cmd_views(v@) =~= seq![cmd_view(ip, opcode, token@, ctx.view())]);
    v
}

fn word_token_bytes(x: u32) -> (t: [u8; 32])
    ensures
        t@ == word_token(x),
{
    let mut t = [0u8; 32];
    t[0] = (x & 0xff) as u8;
    t[1] = ((x >> 8u32) & 0xff) as u8;
    t[2] = ((x >> 16u32) & 0xff) as u8;
    t[3] = (x >> 24u32) as u8;
    assert(t@ =~= word_token(x));
    t
}

fn put_u64(t: &mut [u8; 32], at: usize, x: u64)
    requires
        at + 8 <= 32,
    ensures
        final(t)@ == old(t)@.subrange(0, at as int) + u64_le(x) + old(t)@.subrange(at + 8, 32),
{
    t[at] = (x & 0xff) as u8;
    t[at + 1] = ((x >> 8u64) & 0xff) as u8;
    t[at + 2] = ((x >> 16u64) & 0xff) as u8;
    t[at + 3] = ((x >> 24u64) & 0xff) as u8;
    t[at + 4] = ((x >> 32u64) & 0xff) as u8;
    t[at + 5] = ((x >> 40u64) & 0xff) as u8;
    t[at + 6] = ((x >> 48u64) & 0xff) as u8;
    t[at + 7] = (x >> 56u64) as u8;
    assert(t@ =~= old(t)@.subrange(0, at as int) + u64_le(x) + old(t)@.subrange(at + 8, 32));
}

/// The product of the dimensions of a tile, in 32 bits.
fn shape_product(shape: &Vec<u32>) -> (p: u32)
    requires
        forall|k: int| 0 <= k <= shape@.len() ==> #[trigger] dims_product(shape@.subrange(0, k)) <= u32::MAX,
    ensures
        p == dims_product(shape@),
{
    let mut acc: u32 = 1;
    let mut i: usize = 0;
    while i < shape.len()
        invariant
            0 <= i <= shape@.len(),
            acc == dims_product(shape@.subrange(0, i as int)),
            forall|k: int| 0 <= k <= shape@.len() ==> #[trigger] dims_product(shape@.subrange(0, k)) <= u32::MAX,
        decreases shape@.len() - i,
    {
        proof {
            assert(dims_product(shape@.subrange(0, i as int + 1)) <= u32::MAX);
            assert(shape@.subrange(0, i as int + 1).drop_last() =~= shape@.subrange(0, i as int));
        }
        acc = acc * shape[i];
        i = i + 1;
    }
    assert(shape@.subrange(0, i as int) =~= shape@);
    acc
}

fn refuse(choice: IpId, op: &Op) -> (r: Result<Vec<DispatchCmd>, BindError>)
    ensures
        r matches Err(BindError::NoBindingForChoice { choice: ch, op_desc }) && ch == choice && op_desc@ == op_debug_text(op@),
{
    Err(BindError::NoBindingForChoice { choice, op_desc: op_debug(op) })
}

/// The binding shared by the three systolic array sizes and gemm_ip:
/// opcode 1 (GEMM tile), the product of the shape in the token.
pub struct SystolicBinding(pub IpId);

impl BackendBinding for SystolicBinding {
    open spec fn multiplies_tiles(&self) -> bool {
        true
    }

    fn ip(&self) -> (r: IpId)
        ensures
            r == self.0,
    {
        self.0
    }

    fn bind(&self, op: &Op, ctx: &BindCtx) -> (r: Result<Vec<DispatchCmd>, BindError>)
        ensures
            bind_outcome(systolic_cmds(self.0, op@, ctx.view()), self.0, op@, r),
    {
        match op {
            Op::TensorTile { kind: TileKind::Gemm, shape, .. } => {
                let prod = shape_product(&shape.0);
                Ok(stamp(self.0, 1, word_token_bytes(prod), ctx))
            },
            _ => refuse(self.0, op),
        }
    }
}

/// Binds DMA ops to the NoC: opcode 0; source, destination and length as
/// little-endian words in token bytes 0..8, 8..16 and 16..24.
pub struct NoCMeshBinding;

impl BackendBinding for NoCMeshBinding {
    open spec fn multiplies_tiles(&self) -> bool {
        false
    }

    fn ip(&self) -> (r: IpId)
        ensures
            r == IpId::NoCMesh,
    {
        IpId::NoCMesh
    }

    fn bind(&self, op: &Op, ctx: &BindCtx) -> (r: Result<Vec<DispatchCmd>, BindError>)
        ensures
            bind_outcome(noc_cmds(op@, ctx.view()), IpId::NoCMesh, op@, r),
    {
        match op {
            Op::Dma { src, dst, bytes } => {
                let mut token = [0u8; 32];
                let ghost z = token@;
                put_u64(&mut token, 0, *src);
                put_u64(&mut token, 8, *dst);
                put_u64(&mut token, 16, *bytes);
                assert(token@ =~= u64_le(*src) + u64_le(*dst) + u64_le(*bytes) + zeros(8));
                Ok(stamp(IpId::NoCMesh, 0, token, ctx))
            },
            _ => refuse(IpId::NoCMesh, op),
        }
    }
}

/// Binds state steps to the NPU v4 seed_g array; the opcode encodes the
/// step's kind, the token the operand count.
pub struct NpuSeedGBinding;

impl BackendBinding for NpuSeedGBinding {
    open spec fn multiplies_tiles(&self) -> bool {
        false
    }

    fn ip(&self) -> (r: IpId)
        ensures
            r == IpId::NpuArrayV4SeedG,
    {
        IpId::NpuArrayV4SeedG
    }

    fn bind(&self, op: &Op, ctx: &BindCtx) -> (r: Result<Vec<DispatchCmd>, BindError>)
        ensures
            bind_outcome(npu_cmds(IpId::NpuArrayV4SeedG, op@, ctx.view()), IpId::NpuArrayV4SeedG, op@, r),
    {
        match op {
            Op::StateStep { kind, operands } => {
                let opcode: u32 = match kind {
                    StateKind::RmsNorm => 1,
                    StateKind::AttnDecode => 2,
                    StateKind::MlpStep => 3,
                    StateKind::DecodeGeneric => 4,
                };
                let n = operands.len() as u32;
                Ok(stamp(IpId::NpuArrayV4SeedG, opcode, word_token_bytes(n), ctx))
            },
            _ => refuse(IpId::NpuArrayV4SeedG, op),
        }
    }
}

/// The clustered NPU: the seed_g encoding, routed to NpuClusterV4. An op
/// it does not take is reported as refused by the seed_g array.
pub struct NpuClusterBinding;

impl BackendBinding for NpuClusterBinding {
    open spec fn multiplies_tiles(&self) -> bool {
        false
    }

    fn ip(&self) -> (r: IpId)
        ensures
            r == IpId::NpuClusterV4,
    {
        IpId::NpuClusterV4
    }

    fn bind(&self, op: &Op, ctx: &BindCtx) -> (r: Result<Vec<DispatchCmd>, BindError>)
        ensures
            bind_outcome(npu_cmds(IpId::NpuClusterV4, op@, ctx.view()), IpId::NpuArrayV4SeedG, op@, r),
    {
        let inner = NpuSeedGBinding.bind(op, ctx);
        match inner {
            Ok(cmds) => {
                let mut out: Vec<DispatchCmd> = Vec::new();
                let mut i: usize = 0;
                let mut cmds = cmds;
                while i < cmds.len()
                    invariant
                        0 <= i <= cmds@.len(),
                        cmd_views(out@) == cmd_views(cmds@).subrange(0, i as int).map_values(|c: DispatchView| DispatchView { ip: IpId::NpuClusterV4, ..c }),
                    decreases cmds@.len() - i,
                {
                    let c = &cmds[i];
                    let meta = DispatchMeta {
                        source_hint: match &c.meta.source_hint {
                            Some(s) => Some(s.clone()),
                            None => None,
                        },
                        policy: match &c.meta.policy {
                            Some(s) => Some(s.clone()),
                            None => None,
                        },
                    };
                    let ghost before = out@;
                    assert(cmd_views(before).len() == before.len());
                    assert(before.len() == i);
                    out.push(DispatchCmd { ip: IpId::NpuClusterV4, opcode: c.opcode, token: c.token, token_in: c.token_in, token_out: c.token_out, meta });
                    assert forall|k: int| 0 <= k < i + 1 implies #[trigger] cmd_views(out@)[k] == cmd_views(cmds@).subrange(0, i as int + 1).map_values(|c: DispatchView| DispatchView { ip: IpId::NpuClusterV4, ..c })[k] by {
                        if k < i {
                            assert(cmd_views(out@)[k] == cmd_views(before)[k]);
                            assert(cmd_views(cmds@).subrange(0, i as int).map_values(|c: DispatchView| DispatchView { ip: IpId::NpuClusterV4, ..c })[k] == DispatchView { ip: IpId::NpuClusterV4, ..cmd_views(cmds@)[k] });
                        }
                    }
                    assert(cmd_views(out@) =~= cmd_views(cmds@).subrange(0, i as int + 1).map_values(|c: DispatchView| DispatchView { ip: IpId::NpuClusterV4, ..c }));
                    i = i + 1;
                }
                assert(cmd_views(cmds@).subrange(0, i as int) =~= cmd_views(cmds@));
                assert(cmd_views(out@) =~= npu_cmds(IpId::NpuClusterV4, op@, ctx.view())->0);
                Ok(out)
            },
            Err(e) => Err(e),
        }
    }
}

/// The CPU-backed emulation core: the op's own opcode, the operand count
/// in the token. It runs on the CPU against host memory, not on RTL.
pub struct PtxEmulationBinding;

impl BackendBinding for PtxEmulationBinding {
    open spec fn multiplies_tiles(&self) -> bool {
        false
    }

    fn ip(&self) -> (r: IpId)
        ensures
            r == IpId::PtxEmulationCore,
    {
        IpId::PtxEmulationCore
    }

    fn bind(&self, op: &Op, ctx: &BindCtx) -> (r: Result<Vec<DispatchCmd>, BindError>)
        ensures
            bind_outcome(ptx_cmds(op@, ctx.view()), IpId::PtxEmulationCore, op@, r),
    {
        match op {
            Op::Emu { opcode, operands } => {
                let n = operands.len() as u32;
                Ok(stamp(IpId::PtxEmulationCore, *opcode, word_token_bytes(n), ctx))
            },
            _ => refuse(IpId::PtxEmulationCore, op),
        }
    }
}

/// gemm_ip: the systolic encoding (it shares the RTL of the 16x16 array),
/// routed to GemmIp.
pub struct GemmIpBinding;

impl BackendBinding for GemmIpBinding {
    open spec fn multiplies_tiles(&self) -> bool {
        true
    }

    fn ip(&self) -> (r: IpId)
        ensures
            r == IpId::GemmIp,
    {
        IpId::GemmIp
    }

    fn bind(&self, op: &Op, ctx: &BindCtx) -> (r: Result<Vec<DispatchCmd>, BindError>)
        ensures
            bind_outcome(systolic_cmds(IpId::GemmIp, op@, ctx.view()), IpId::GemmIp, op@, r),
    {
        SystolicBinding(IpId::GemmIp).bind(op, ctx)
    }
}

} // verus!
