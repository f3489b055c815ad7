//! Binding every op of a module to the IP its metadata chose, in each
//! function's order.

use vstd::prelude::*;

use crate::ir::module::{Function, Module};
use crate::ir::op::{Op, OpMeta, OpView};
use crate::ir::types::{IpId, OpId, TokenId};
use super::bindings::{
    cmd_view, noc_cmds, npu_cmds, ptx_cmds, systolic_cmds, word_token, GemmIpBinding, NoCMeshBinding, NpuClusterBinding,
    NpuSeedGBinding, PtxEmulationBinding, SystolicBinding,
};
use super::dispatch::{cmd_views, op_debug, op_debug_text, opt_text, tile_fits, BackendBinding, BindCtx, BindError, CtxView, DispatchCmd, DispatchView};

verus! {

/// The (op, metadata) of each entry of a function's order.
pub open spec fn order_items(f: Function) -> Seq<(OpView, OpMeta)> {
    f.order@.map_values(|id: OpId| (f.ops@[id]@, f.meta@[id]))
}

/// The (op, metadata) of each entry of each function's order, in order.
pub open spec fn emit_items(fs: Seq<Function>) -> Seq<(OpView, OpMeta)>
    decreases fs.len(),
{
    if fs.len() == 0 {
        Seq::empty()
    } else {
        emit_items(fs.drop_last()) + order_items(fs.last())
    }
}

/// Whether the binding of `ip` multiplies out a tile's shape: the systolic
/// arrays and gemm_ip.
pub open spec fn multiplies_tiles_ip(ip: IpId) -> bool {
    ip is SystolicArray4x4 || ip is SystolicArray16x16 || ip is SystolicArray32x32 || ip is GemmIp
}

/// `id` names an op of `f` that has metadata with a chosen backend, and,
/// for a tile bound to an IP that multiplies out its shape, a shape whose
/// product fits in 32 bits.
pub open spec fn emittable_op(f: Function, id: OpId) -> bool {
    &&& f.ops@.contains_key(id)
    &&& f.meta@.contains_key(id)
    &&& f.meta@[id].backend is Some
    &&& multiplies_tiles_ip((f.meta@[id].backend->0).0) ==> tile_fits(f.ops@[id]@)
}

/// Every entry of every order names an op that has metadata and a chosen
/// backend, and every tile bound to a systolic array or gemm_ip has a
/// shape whose product fits in 32 bits.
pub open spec fn emittable(m: Module) -> bool {
    forall|i: int, j: int|
        #![trigger m.functions@[i].order@[j]]
        0 <= i < m.functions@.len() && 0 <= j < m.functions@[i].order@.len() ==> emittable_op(m.functions@[i], m.functions@[i].order@[j])
}

/// The context an op is bound in: its tokens (0 when unassigned), its
/// source hint and the policy name.
pub open spec fn item_ctx(meta: OpMeta, policy: Seq<char>) -> CtxView {
    CtxView {
        token_in: match meta.token_in {
            Some(t) => t,
            None => TokenId(0),
        },
        token_out: match meta.token_out {
            Some(t) => t,
            None => TokenId(0),
        },
        source_hint: opt_text(meta.source_hint),
        policy: Some(policy),
    }
}

/// The opcode an op runs under on the emulation core: its own for an
/// emulated op, 253 (the catch-all) for any other.
pub open spec fn emu_opcode(op: OpView) -> u32 {
    match op {
        OpView::Emu { opcode, .. } => opcode,
        _ => 253,
    }
}

/// The commands, or the refusal (the IP reported and the op).
pub open spec fn or_refused(c: Option<Seq<DispatchView>>, choice: IpId, op: OpView) -> Result<Seq<DispatchView>, (IpId, OpView)> {
    match c {
        Some(cmds) => Ok(cmds),
        None => Err((choice, op)),
    }
}

/// The commands of an op whose metadata chose a backend.
pub open spec fn item_cmds(op: OpView, meta: OpMeta, policy: Seq<char>) -> Result<Seq<DispatchView>, (IpId, OpView)> {
    let ip = (meta.backend->0).0;
    let ctx = item_ctx(meta, policy);
    match ip {
        IpId::PtxEmulationCore => Ok(seq![cmd_view(IpId::PtxEmulationCore, emu_opcode(op), word_token(0), ctx)]),
        IpId::SlugCxl4x4 => Err((IpId::SlugCxl4x4, op)),
        IpId::NoCMesh => or_refused(noc_cmds(op, ctx), IpId::NoCMesh, op),
        IpId::NpuArrayV4SeedG => or_refused(npu_cmds(IpId::NpuArrayV4SeedG, op, ctx), IpId::NpuArrayV4SeedG, op),
        IpId::NpuClusterV4 => or_refused(npu_cmds(IpId::NpuClusterV4, op, ctx), IpId::NpuArrayV4SeedG, op),
        _ => or_refused(systolic_cmds(ip, op, ctx), ip, op),
    }
}

/// What one op with a chosen backend becomes: on the emulation core, one
/// command under the op's own opcode if it is an emulated op and under 253
/// otherwise; on the CXL endpoint, a refusal. Whatever the IP, every
/// command is stamped with the op's tokens (token 0 where one is unset)
/// and the policy name.
pub proof fn lemma_item_cmds_routes(op: OpView, meta: OpMeta, policy: Seq<char>)
    requires
        meta.backend is Some,
    ensures
        (meta.backend->0).0 == IpId::PtxEmulationCore ==> (item_cmds(op, meta, policy) matches Ok(c) && c.len() == 1
            && c[0].ip == IpId::PtxEmulationCore && c[0].opcode == (match op {
                OpView::Emu { opcode, .. } => opcode,
                _ => 253u32,
            })),
        (meta.backend->0).0 == IpId::SlugCxl4x4 ==> item_cmds(op, meta, policy) == Err::<Seq<DispatchView>, (IpId, OpView)>((IpId::SlugCxl4x4, op)),
        item_cmds(op, meta, policy) matches Ok(c) ==> forall|i: int| 0 <= i < c.len() ==> {
            &&& (#[trigger] c[i]).token_in == (match meta.token_in {
                Some(t) => t,
                None => TokenId(0),
            })
            &&& c[i].token_out == (match meta.token_out {
                Some(t) => t,
                None => TokenId(0),
            })
            &&& c[i].policy == Some(policy)
        },
{
}

/// The commands of `items`, concatenated; or the first refusal.
pub open spec fn emit_result(items: Seq<(OpView, OpMeta)>, policy: Seq<char>) -> Result<Seq<DispatchView>, (IpId, OpView)>
    decreases items.len(),
{
    if items.len() == 0 {
        Ok(Seq::empty())
    } else {
        match emit_result(items.drop_last(), policy) {
            Err(e) => Err(e),
            Ok(prev) => match item_cmds(items.last().0, items.last().1, policy) {
                Ok(c) => Ok(prev + c),
                Err(e) => Err(e),
            },
        }
    }
}

proof fn lemma_emit_err_extends(a: Seq<(OpView, OpMeta)>, b: Seq<(OpView, OpMeta)>, policy: Seq<char>)
    requires
        emit_result(a, policy) is Err,
    ensures
        emit_result(a + b, policy) == emit_result(a, policy),
    decreases b.len(),
{
    if b.len() > 0 {
        assert((a + b).drop_last() =~= a + b.drop_last());
        lemma_emit_err_extends(a, b.drop_last(), policy);
    } else {
        assert(a + b =~= a);
    }
}

/// Binds every op of `m`, function by function in each function's order,
/// to the IP its metadata chose, stamping `policy_name` on each command.
/// Ops on the emulation core run as emulated ops (opcode 253 for any other
/// kind of op). Fails at the first op its IP does not take.
pub fn emit_dispatches(m: &Module, policy_name: &str) -> (r: Result<Vec<DispatchCmd>, BindError>)
    requires
        emittable(*m),
    ensures
        match emit_result(emit_items(m.functions@), policy_name@) {
            Ok(cmds) => r matches Ok(v) && cmd_views(v@) == cmds,
            Err((choice, op)) => r matches Err(BindError::NoBindingForChoice { choice: ch, op_desc }) && ch == choice
                && op_desc@ == op_debug_text(op),
        },
{
    let ghost policy = policy_name@;
    let mut out: Vec<DispatchCmd> = Vec::new();
    let mut i: usize = 0;
    assert(emit_items(m.functions@.subrange(0, 0)) =~= Seq::<(OpView, OpMeta)>::empty());
    assert(cmd_views(out@) =~= Seq::<DispatchView>::empty());
    while i < m.functions.len()
        invariant
            0 <= i <= m.functions@.len(),
            emittable(*m),
            policy == policy_name@,
            emit_result(emit_items(m.functions@.subrange(0, i as int)), policy) == Ok::<Seq<DispatchView>, (IpId, OpView)>(cmd_views(out@)),
        decreases m.functions@.len() - i,
    {
        let f = &m.functions[i];
        let ghost done = emit_items(m.functions@.subrange(0, i as int));
        proof {
            assert(m.functions@.subrange(0, i as int + 1).drop_last() =~= m.functions@.subrange(0, i as int));
            assert(done + order_items(*f).subrange(0, 0) =~= done);
        }
        let mut j: usize = 0;
        while j < f.order.len()
            invariant
                0 <= i < m.functions@.len(),
                *f == m.functions@[i as int],
                0 <= j <= f.order@.len(),
                emittable(*m),
                policy == policy_name@,
                done == emit_items(m.functions@.subrange(0, i as int)),
                emit_result(done + order_items(*f).subrange(0, j as int), policy) == Ok::<Seq<DispatchView>, (IpId, OpView)>(cmd_views(out@)),
            decreases f.order@.len() - j,
        {
            let id = f.order[j];
            let ghost items = done + order_items(*f).subrange(0, j as int + 1);
            proof {
                assert(items.drop_last() =~= done + order_items(*f).subrange(0, j as int));
                assert(items.last() == (f.ops@[id]@, f.meta@[id]));
                assert(m.functions@[i as int].order@[j as int] == id);
                assert(emittable_op(*f, id));
            }
            let op = match f.ops.get(&id) {
                Some(op) => op,
                None => {
                    assert(false);
                    return Ok(out);
                },
            };
            let meta = match f.meta.get(&id) {
                Some(meta) => meta,
                None => {
                    assert(false);
                    return Ok(out);
                },
            };
            let ip = match meta.backend {
                Some(b) => b.0,
                None => {
                    assert(false);
                    return Ok(out);
                },
            };
            let ctx = BindCtx {
                token_in: match meta.token_in {
                    Some(t) => t,
                    None => TokenId(0),
                },
                token_out: match meta.token_out {
                    Some(t) => t,
                    None => TokenId(0),
                },
                source_hint: match &meta.source_hint {
                    Some(s) => Some(s.as_str()),
                    None => None,
                },
                policy: Some(policy_name),
            };
            assert(ctx.view() == item_ctx(*meta, policy));
            let res = match ip {
                IpId::PtxEmulationCore => {
                    let opcode = match op {
                        Op::Emu { opcode, .. } => *opcode,
                        _ => 253,
                    };
                    let emu = Op::Emu { opcode, operands: Vec::new() };
                    PtxEmulationBinding.bind(&emu, &ctx)
                },
                IpId::NoCMesh => NoCMeshBinding.bind(op, &ctx),
                IpId::SystolicArray4x4 => SystolicBinding(IpId::SystolicArray4x4).bind(op, &ctx),
                IpId::SystolicArray16x16 => SystolicBinding(IpId::SystolicArray16x16).bind(op, &ctx),
                IpId::SystolicArray32x32 => SystolicBinding(IpId::SystolicArray32x32).bind(op, &ctx),
                IpId::NpuArrayV4SeedG => NpuSeedGBinding.bind(op, &ctx),
                IpId::NpuClusterV4 => NpuClusterBinding.bind(op, &ctx),
                IpId::GemmIp => GemmIpBinding.bind(op, &ctx),
                IpId::SlugCxl4x4 => Err(BindError::NoBindingForChoice { choice: ip, op_desc: op_debug(op) }),
            };
            match res {
                Ok(mut cmds) => {
                    let ghost before = cmd_views(out@);
                    let ghost added = cmd_views(cmds@);
                    out.append(&mut cmds);
                    assert(cmd_views(out@) =~= before + added);
                },
                Err(e) => {
                    proof {
                        lemma_emit_err_extends(items, order_items(*f).subrange(j as int + 1, f.order@.len() as int), policy);
                        assert(items + order_items(*f).subrange(j as int + 1, f.order@.len() as int) =~= done + order_items(*f));
                        assert(m.functions@.subrange(0, i as int + 1).drop_last() =~= m.functions@.subrange(0, i as int));
                        assert(emit_items(m.functions@.subrange(0, i as int + 1)) == done + order_items(*f));
                        lemma_emit_err_extends(emit_items(m.functions@.subrange(0, i as int + 1)), emit_items_tail(m.functions@, i as int + 1), policy);
                        lemma_emit_items_split(m.functions@, i as int + 1);
                    }
                    return Err(e);
                },
            }
            j = j + 1;
        }
        proof {
            assert(order_items(*f).subrange(0, j as int) =~= order_items(*f));
        }
        i = i + 1;
    }
    assert(m.functions@.subrange(0, i as int) =~= m.functions@);
    Ok(out)
}

/// The items of the functions from `k` on.
spec fn emit_items_tail(fs: Seq<Function>, k: int) -> Seq<(OpView, OpMeta)>
    decreases fs.len() - k,
{
    if k >= fs.len() {
        Seq::empty()
    } else {
        order_items(fs[k]) + emit_items_tail(fs, k + 1)
    }
}

proof fn lemma_emit_items_split(fs: Seq<Function>, k: int)
    requires
        0 <= k <= fs.len(),
    ensures
        emit_items(fs) == emit_items(fs.subrange(0, k)) + emit_items_tail(fs, k),
    decreases fs.len() - k,
{
    if k < fs.len() {
        lemma_emit_items_split(fs, k + 1);
        assert(fs.subrange(0, k + 1).drop_last() =~= fs.subrange(0, k));
        assert(fs.subrange(0, k + 1).last() == fs[k]);
        assert(emit_items(fs.subrange(0, k)) + emit_items_tail(fs, k) =~= emit_items(fs.subrange(0, k + 1)) + emit_items_tail(fs, k + 1));
    } else {
        assert(fs.subrange(0, k) =~= fs);
        assert(emit_items(fs.subrange(0, k)) + emit_items_tail(fs, k) =~= emit_items(fs.subrange(0, k)));
    }
}

} // verus!
