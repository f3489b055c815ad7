//! select_backend: annotates every op with a BackendChoice.

use vstd::prelude::*;

use super::super::error::IrError;
use super::super::idmap::IdMap;
use super::super::module::{Function, Module};
use super::super::op::{Op, OpMeta, TileKind};
use super::super::pass::Pass;
use super::super::types::{BackendChoice, IpId, OpId, Shape};

verus! {

/// Policy for picking a backend, decided per op. A trait (not a closure) so
/// that named policies can be recorded in replay artifacts.
pub trait BackendPolicy {
    /// The backend this policy picks for `op`.
    spec fn spec_pick(&self, op: Op) -> BackendChoice;

    /// The policy name.
    fn name(&self) -> &'static str;

    /// Picks the backend for `op`.
    fn pick(&self, op: &Op) -> (r: BackendChoice)
        ensures
            r == self.spec_pick(*op),
    ;
}

/// The largest dimension of a shape (0 for rank 0).
pub open spec fn dims_max(dims: Seq<u32>) -> u32
    decreases dims.len(),
{
    if dims.len() == 0 {
        0
    } else if dims.last() > dims_max(dims.drop_last()) {
        dims.last()
    } else {
        dims_max(dims.drop_last())
    }
}

/// The systolic array for a GEMM tile of the given largest dimension.
pub open spec fn spec_gemm_tile_ip(max_dim: u32) -> IpId {
    if max_dim >= 128 {
        IpId::SystolicArray32x32
    } else if max_dim >= 32 {
        IpId::SystolicArray16x16
    } else {
        IpId::SystolicArray4x4
    }
}

/// The backend the default v1 policy picks for `op`.
pub open spec fn default_pick(op: Op) -> IpId {
    match op {
        Op::TensorTile { kind: TileKind::Gemm, shape, .. } => spec_gemm_tile_ip(dims_max(shape.0@)),
        Op::TensorTile { kind: TileKind::Elementwise, .. } => IpId::NpuArrayV4SeedG,
        Op::StateStep { .. } => IpId::NpuArrayV4SeedG,
        Op::Dma { .. } => IpId::NoCMesh,
        Op::Emu { .. } => IpId::PtxEmulationCore,
        Op::Arith { .. } => IpId::PtxEmulationCore,
    }
}

/// The systolic array for a GEMM tile: 32x32 if its largest dimension is
/// at least 128, 16x16 if at least 32, else 4x4.
pub fn gemm_tile_ip(shape: &Shape) -> (r: IpId)
    ensures
        r == spec_gemm_tile_ip(dims_max(shape.0@)),
{
    let mut max_dim: u32 = 0;
    let mut i: usize = 0;
    while i < shape.0.len()
        invariant
            0 <= i <= shape.0@.len(),
            max_dim == dims_max(shape.0@.subrange(0, i as int)),
        decreases shape.0@.len() - i,
    {
        assert(shape.0@.subrange(0, i as int + 1).drop_last() =~= shape.0@.subrange(0, i as int));
        if shape.0[i] > max_dim {
            max_dim = shape.0[i];
        }
        i = i + 1;
    }
    assert(shape.0@.subrange(0, i as int) =~= shape.0@);
    if max_dim >= 128 {
        IpId::SystolicArray32x32
    } else if max_dim >= 32 {
        IpId::SystolicArray16x16
    } else {
        IpId::SystolicArray4x4
    }
}

/// The default v1 policy:
///   - TensorTile(Gemm, shape): by the largest dimension (see `gemm_tile_ip`);
///   - TensorTile(Elementwise) and StateStep: NpuArrayV4SeedG;
///   - Dma: NoCMesh;
///   - Emu and Arith: PtxEmulationCore.
pub struct DefaultPolicy;

impl BackendPolicy for DefaultPolicy {
    open spec fn spec_pick(&self, op: Op) -> BackendChoice {
        BackendChoice(default_pick(op))
    }

    fn name(&self) -> (r: &'static str)
        ensures
            r@ == "default_v1"@,
    {
        "default_v1"
    }

    fn pick(&self, op: &Op) -> (r: BackendChoice) {
        let ip = match op {
            Op::TensorTile { kind: TileKind::Gemm, shape, .. } => gemm_tile_ip(shape),
            Op::TensorTile { kind: TileKind::Elementwise, .. } => IpId::NpuArrayV4SeedG,
            Op::StateStep { .. } => IpId::NpuArrayV4SeedG,
            Op::Dma { .. } => IpId::NoCMesh,
            Op::Emu { .. } => IpId::PtxEmulationCore,
            Op::Arith { .. } => IpId::PtxEmulationCore,
        };
        BackendChoice(ip)
    }
}

proof fn lemma_dims_max(dims: Seq<u32>)
    ensures
        forall|i: int| 0 <= i < dims.len() ==> dims[i] <= dims_max(dims),
        dims.len() == 0 ==> dims_max(dims) == 0,
        dims.len() > 0 ==> exists|i: int| 0 <= i < dims.len() && dims[i] == dims_max(dims),
    decreases dims.len(),
{
    if dims.len() > 0 {
        let init = dims.drop_last();
        lemma_dims_max(init);
        assert forall|i: int| 0 <= i < dims.len() implies dims[i] <= dims_max(dims) by {
            if i < dims.len() - 1 {
                assert(dims[i] == init[i]);
            }
        }
        if dims.last() > dims_max(init) {
            assert(dims[dims.len() - 1] == dims_max(dims));
        } else if init.len() > 0 {
            let j = choose|j: int| 0 <= j < init.len() && init[j] == dims_max(init);
            assert(dims[j] == dims_max(dims));
        } else {
            assert(dims[0] == dims_max(dims));
        }
    }
}

/// The default policy sends an op to a systolic array exactly when it is a
/// GEMM tile. An elementwise tile, whatever its shape, and a state step go
/// to the NPU seed_g array; a DMA to the NoC; emulated and arithmetic ops
/// to the emulation core.
pub proof fn lemma_default_policy_routes(op: Op)
    ensures
        ({
            let ip = DefaultPolicy.spec_pick(op).0;
            (ip is SystolicArray4x4 || ip is SystolicArray16x16 || ip is SystolicArray32x32) <==> op matches Op::TensorTile {
                kind: TileKind::Gemm,
                ..
            }
        }),
        op matches Op::TensorTile { kind: TileKind::Elementwise, .. } ==> DefaultPolicy.spec_pick(op) == BackendChoice(IpId::NpuArrayV4SeedG),
        op is StateStep ==> DefaultPolicy.spec_pick(op) == BackendChoice(IpId::NpuArrayV4SeedG),
        op is Dma ==> DefaultPolicy.spec_pick(op) == BackendChoice(IpId::NoCMesh),
        op is Emu || op is Arith ==> DefaultPolicy.spec_pick(op) == BackendChoice(IpId::PtxEmulationCore),
{
}

/// The default policy sizes a GEMM tile by its dimensions: the 32x32 array
/// when some dimension reaches 128, the 4x4 array when every dimension is
/// below 32, and the 16x16 array otherwise.
pub proof fn lemma_default_gemm_by_size(op: Op)
    requires
        op matches Op::TensorTile { kind: TileKind::Gemm, .. },
    ensures
        ({
            let d = op->TensorTile_shape.0@;
            let ip = DefaultPolicy.spec_pick(op).0;
            &&& (exists|i: int| 0 <= i < d.len() && d[i] >= 128) ==> ip == IpId::SystolicArray32x32
            &&& (forall|i: int| 0 <= i < d.len() ==> d[i] < 32) ==> ip == IpId::SystolicArray4x4
            &&& ((forall|i: int| 0 <= i < d.len() ==> d[i] < 128) && (exists|i: int| 0 <= i < d.len() && d[i] >= 32))
                ==> ip == IpId::SystolicArray16x16
        }),
{
    lemma_dims_max(op->TensorTile_shape.0@);
}

/// The v1 command-line policy: every op runs on the emulation core, until
/// the other IPs have token encodings taken from their port bindings.
pub struct AllEmuPolicy;

impl BackendPolicy for AllEmuPolicy {
    open spec fn spec_pick(&self, op: Op) -> BackendChoice {
        BackendChoice(IpId::PtxEmulationCore)
    }

    fn name(&self) -> (r: &'static str)
        ensures
            r@ == "all_emu_v1"@,
    {
        "all_emu_v1"
    }

    fn pick(&self, _op: &Op) -> (r: BackendChoice) {
        BackendChoice(IpId::PtxEmulationCore)
    }
}

/// Override policy: every op maps to one fixed IP.
pub struct ForceIp(pub IpId, pub &'static str);

impl BackendPolicy for ForceIp {
    open spec fn spec_pick(&self, op: Op) -> BackendChoice {
        BackendChoice(self.0)
    }

    fn name(&self) -> (r: &'static str)
        ensures
            r == self.1,
    {
        self.1
    }

    fn pick(&self, _op: &Op) -> (r: BackendChoice) {
        BackendChoice(self.0)
    }
}

/// The command-line policy puts every op on the emulation core, and a
/// forced policy puts every op on its IP, whatever the op.
pub proof fn lemma_uniform_policies(op: Op, ip: IpId, name: &'static str)
    ensures
        AllEmuPolicy.spec_pick(op) == BackendChoice(IpId::PtxEmulationCore),
        ForceIp(ip, name).spec_pick(op) == BackendChoice(ip),
{
}

/// The metadata `m` (or empty metadata when absent) with `b` as backend.
pub open spec fn with_backend(m: Option<OpMeta>, b: BackendChoice) -> OpMeta {
    match m {
        Some(m) => OpMeta { backend: Some(b), ..m },
        None => OpMeta { backend: Some(b), token_in: None, token_out: None, source_hint: None },
    }
}

/// Metadata of a function after the pass: every op gets the policy's
/// backend, other fields (and metadata of unknown ids) are kept.
pub open spec fn selected_meta<P: BackendPolicy>(
    p: P,
    ops: Map<OpId, Op>,
    meta: Map<OpId, OpMeta>,
) -> Map<OpId, OpMeta> {
    Map::new(
        |k: OpId| ops.contains_key(k) || meta.contains_key(k),
        |k: OpId|
            if ops.contains_key(k) {
                with_backend(if meta.contains_key(k) { Some(meta[k]) } else { None }, p.spec_pick(ops[k]))
            } else {
                meta[k]
            },
    )
}

/// `g` is `f` after the pass: same name, ops, edges and order, and every
/// op annotated with the policy's backend.
pub open spec fn function_selected<P: BackendPolicy>(p: P, f: Function, g: Function) -> bool {
    &&& g.name == f.name
    &&& g.ops@ == f.ops@
    &&& g.edges == f.edges
    &&& g.order == f.order
    &&& g.meta@ == selected_meta(p, f.ops@, f.meta@)
}

/// After the pass every op has metadata naming the policy's backend for
/// it, and the tokens and source hint it had are kept.
pub proof fn lemma_select_annotates_every_op<P: BackendPolicy>(p: P, f: Function, g: Function, k: OpId)
    requires
        function_selected(p, f, g),
        f.ops@.contains_key(k),
    ensures
        g.meta@.contains_key(k),
        g.meta@[k].backend == Some(p.spec_pick(f.ops@[k])),
        f.meta@.contains_key(k) ==> g.meta@[k].token_in == f.meta@[k].token_in && g.meta@[k].token_out
            == f.meta@[k].token_out && g.meta@[k].source_hint == f.meta@[k].source_hint,
{
}

/// Selecting again with the same policy changes nothing.
pub proof fn lemma_select_idempotent<P: BackendPolicy>(p: P, f: Function, g: Function, h: Function)
    requires
        function_selected(p, f, g),
        function_selected(p, g, h),
    ensures
        h.meta@ == g.meta@,
{
    assert(h.meta@ =~= g.meta@);
}

/// The pass that annotates every op with its policy's backend.
pub struct SelectBackend<P: BackendPolicy> {
    policy: P,
}

impl<P: BackendPolicy> SelectBackend<P> {
    /// The policy of this pass.
    pub closed spec fn policy(&self) -> P {
        self.policy
    }

    /// The pass with `policy`.
    pub fn new(policy: P) -> (r: Self)
        ensures
            r.policy() == policy,
    {
        SelectBackend { policy }
    }

    /// Annotates every op of `f`.
    fn select_in(&self, f: &mut Function)
        ensures
            function_selected(self.policy, *old(f), *final(f)),
    {
        let ids = f.ops.keys();
        let ghost ops = f.ops@;
        let ghost meta0 = f.meta@;
        let mut i: usize = 0;
        while i < ids.len()
            invariant
                0 <= i <= ids@.len(),
                f.ops@ == ops,
                f.name == old(f).name,
                f.edges == old(f).edges,
                f.order == old(f).order,
                forall|k: OpId| ops.contains_key(k) <==> ids@.contains(k),
                crate::ir::idmap::strictly_sorted(ids@),
                forall|k: OpId| #![trigger f.meta@.contains_key(k)]
                    f.meta@.contains_key(k) <==> (meta0.contains_key(k) || (exists|j: int| 0 <= j < i && ids@[j] == k)),
                forall|k: OpId| #[trigger] f.meta@.contains_key(k) ==> f.meta@[k] == (
                    if (exists|j: int| 0 <= j < i && ids@[j] == k) {
                        with_backend(if meta0.contains_key(k) { Some(meta0[k]) } else { None }, self.policy.spec_pick(ops[k]))
                    } else {
                        meta0[k]
                    }),
            decreases ids@.len() - i,
        {
            let id = ids[i];
            assert(ids@.contains(id));
            let choice = match f.ops.get(&id) {
                Some(op) => self.policy.pick(op),
                None => { assert(false); BackendChoice(IpId::PtxEmulationCore) },
            };
            let old_meta = f.meta.remove(&id);
            let new_meta = match old_meta {
                Some(m) => OpMeta { backend: Some(choice), ..m },
                None => OpMeta { backend: Some(choice), token_in: None, token_out: None, source_hint: None },
            };
            f.meta.insert(id, new_meta);
            proof {
                assert forall|j: int| 0 <= j < i implies ids@[j] != id by {
                    assert(ids@[j].0 < ids@[i as int].0);
                }
                assert(ids@[i as int] == id);
            }
            i = i + 1;
        }
        assert(f.meta@ =~= selected_meta(self.policy, ops, meta0));
    }
}

impl<P: BackendPolicy> Pass for SelectBackend<P> {
    /// What a run does: see `run`.
    open spec fn runs_to(&self, before: Module, after: Module, r: Result<(), IrError>) -> bool {
        &&& (r is Ok)
        &&& (after.symbols == before.symbols)
        &&& (after.functions@.len() == before.functions@.len())
        &&& (forall|i: int| 0 <= i < before.functions@.len() ==> function_selected(
                    self.policy(),
                    #[trigger] before.functions@[i],
                    after.functions@[i],
            ))
    }

    fn name(&self) -> (r: &'static str)
        ensures
            r@ == "select_backend"@,
    {
        "select_backend"
    }

    /// Annotates every op of every function; never fails.
    fn run(&mut self, module: &mut Module) -> (r: Result<(), IrError>)
        ensures
            r is Ok,
            final(self).policy() == old(self).policy(),
            final(module).symbols == old(module).symbols,
            final(module).functions@.len() == old(module).functions@.len(),
            forall|i: int| 0 <= i < old(module).functions@.len() ==> function_selected(
                old(self).policy(),
                #[trigger] old(module).functions@[i],
                final(module).functions@[i],
            ),
    {
        let n = module.functions.len();
        let mut i: usize = 0;
        while i < n
            invariant
                0 <= i <= n,
                n == module.functions@.len(),
                n == old(module).functions@.len(),
                module.symbols == old(module).symbols,
                forall|j: int| 0 <= j < i ==> function_selected(
                    self.policy,
                    #[trigger] old(module).functions@[j],
                    module.functions@[j],
                ),
                forall|j: int| i <= j < n ==> #[trigger] module.functions@[j] == old(module).functions@[j],
            decreases n - i,
        {
            self.select_in(&mut module.functions[i]);
            i = i + 1;
        }
        Ok(())
    }
}

impl SelectBackend<DefaultPolicy> {
    /// The pass with the default v1 policy.
    pub fn default_policy() -> (r: Self)
        ensures
            r.policy() == DefaultPolicy,
    {
        Self::new(DefaultPolicy)
    }
}

} // verus!
