//! fuse_decode_ops: merges back-to-back MlpStep StateSteps (the second
//! depending on the first) into one MlpStep whose operand list is the
//! concatenation. Deliberately narrow: it exists so that the four-pass
//! pipeline runs end to end.

use vstd::prelude::*;

use super::super::error::IrError;
use super::super::graph::Edge;
use super::super::idmap::IdMap;
use super::super::module::{Function, Module};
use super::super::op::{Op, OpView, OperandRef, StateKind};
use super::super::pass::Pass;
use super::super::types::OpId;

verus! {

/// The ops of a function as mathematical values.
pub open spec fn ops_view(m: Map<OpId, Op>) -> Map<OpId, OpView> {
    m.map_values(|o: Op| o@)
}

/// Whether `id` is an MlpStep state step in `m`.
pub open spec fn is_mlp(m: Map<OpId, OpView>, id: OpId) -> bool {
    m.contains_key(id) && m[id] matches OpView::StateStep { kind: StateKind::MlpStep, .. }
}

/// Whether some edge goes from `a` to `b`.
pub open spec fn has_edge(edges: Seq<Edge>, a: OpId, b: OpId) -> bool {
    exists|k: int| 0 <= k < edges.len() && edges[k].src() == a && edges[k].dst() == b
}

/// Whether `b` is fused into `a`.
pub open spec fn fusable(m: Map<OpId, OpView>, edges: Seq<Edge>, a: OpId, b: OpId) -> bool {
    is_mlp(m, a) && is_mlp(m, b) && has_edge(edges, a, b)
}

/// The operand list of a state step (empty for other ops).
pub open spec fn state_operands(v: OpView) -> Seq<OperandRef> {
    match v {
        OpView::StateStep { operands, .. } => operands,
        _ => Seq::empty(),
    }
}

/// `b` removed and its operands appended to those of `a` (if `a` is still
/// there).
pub open spec fn fuse_pair(m: Map<OpId, OpView>, a: OpId, b: OpId) -> Map<OpId, OpView> {
    let m1 = m.remove(b);
    if m1.contains_key(a) {
        m1.insert(
            a,
            OpView::StateStep {
                kind: StateKind::MlpStep,
                operands: state_operands(m[a]) + state_operands(m[b]),
            },
        )
    } else {
        m1
    }
}

/// The ops after the adjacent pairs `(order[i], order[i + 1])` for
/// `i < n` have been considered in turn.
pub open spec fn fused_ops(m: Map<OpId, OpView>, edges: Seq<Edge>, order: Seq<OpId>, n: nat) -> Map<OpId, OpView>
    decreases n,
{
    if n == 0 {
        m
    } else {
        let prev = fused_ops(m, edges, order, (n - 1) as nat);
        let a = order[n - 1];
        let b = order[n as int];
        if fusable(prev, edges, a, b) {
            fuse_pair(prev, a, b)
        } else {
            prev
        }
    }
}

/// The ids removed by the first `n` pair considerations, in removal order.
pub open spec fn fused_away(m: Map<OpId, OpView>, edges: Seq<Edge>, order: Seq<OpId>, n: nat) -> Seq<OpId>
    decreases n,
{
    if n == 0 {
        Seq::empty()
    } else {
        let prev = fused_away(m, edges, order, (n - 1) as nat);
        let a = order[n - 1];
        let b = order[n as int];
        if fusable(fused_ops(m, edges, order, (n - 1) as nat), edges, a, b) {
            prev.push(b)
        } else {
            prev
        }
    }
}

/// Number of adjacent pairs in `order`.
pub open spec fn pair_count(order: Seq<OpId>) -> nat {
    if order.len() == 0 { 0 } else { (order.len() - 1) as nat }
}

/// `s` without the ids in `r`, order kept.
pub open spec fn drop_ids(s: Seq<OpId>, r: Set<OpId>) -> Seq<OpId>
    decreases s.len(),
{
    if s.len() == 0 {
        Seq::empty()
    } else if r.contains(s.last()) {
        drop_ids(s.drop_last(), r)
    } else {
        drop_ids(s.drop_last(), r).push(s.last())
    }
}

/// `s` without the edges that touch an id in `r`, order kept.
pub open spec fn drop_edges(s: Seq<Edge>, r: Set<OpId>) -> Seq<Edge>
    decreases s.len(),
{
    if s.len() == 0 {
        Seq::empty()
    } else if r.contains(s.last().src()) || r.contains(s.last().dst()) {
        drop_edges(s.drop_last(), r)
    } else {
        drop_edges(s.drop_last(), r).push(s.last())
    }
}

/// `g` is `f` after fusion.
pub open spec fn function_fused(f: Function, g: Function) -> bool {
    let m = ops_view(f.ops@);
    let n = pair_count(f.order@);
    let removed = fused_away(m, f.edges@, f.order@, n).to_set();
    &&& g.name == f.name
    &&& ops_view(g.ops@) == fused_ops(m, f.edges@, f.order@, n)
    &&& g.meta@ == f.meta@.remove_keys(removed)
    &&& g.order@ == drop_ids(f.order@, removed)
    &&& g.edges@ == drop_edges(f.edges@, removed)
}

fn is_mlp_exec(ops: &IdMap<Op>, id: OpId) -> (r: bool)
    ensures
        r == is_mlp(ops_view(ops@), id),
{
    match ops.get(&id) {
        Some(Op::StateStep { kind: StateKind::MlpStep, .. }) => true,
        _ => false,
    }
}

pub(crate) fn has_edge_exec(edges: &Vec<Edge>, a: OpId, b: OpId) -> (r: bool)
    ensures
        r == has_edge(edges@, a, b),
{
    let mut k: usize = 0;
    while k < edges.len()
        invariant
            0 <= k <= edges@.len(),
            forall|j: int| 0 <= j < k ==> !(edges@[j].src() == a && edges@[j].dst() == b),
        decreases edges@.len() - k,
    {
        if edges[k].src() == a && edges[k].dst() == b {
            return true;
        }
        k = k + 1;
    }
    false
}

fn contains_id(s: &Vec<OpId>, id: OpId) -> (r: bool)
    ensures
        r == s@.contains(id),
{
    let mut k: usize = 0;
    while k < s.len()
        invariant
            0 <= k <= s@.len(),
            forall|j: int| 0 <= j < k ==> s@[j] != id,
        decreases s@.len() - k,
    {
        if s[k] == id {
            return true;
        }
        k = k + 1;
    }
    false
}

fn retain_ids(s: &Vec<OpId>, r: &Vec<OpId>) -> (out: Vec<OpId>)
    ensures
        out@ == drop_ids(s@, r@.to_set()),
{
    let mut out: Vec<OpId> = Vec::new();
    let mut i: usize = 0;
    while i < s.len()
        invariant
            0 <= i <= s@.len(),
            out@ == drop_ids(s@.subrange(0, i as int), r@.to_set()),
        decreases s@.len() - i,
    {
        assert(s@.subrange(0, i as int + 1).drop_last() =~= s@.subrange(0, i as int));
        if !contains_id(r, s[i]) {
            out.push(s[i]);
        }
        i = i + 1;
    }
    assert(s@.subrange(0, i as int) =~= s@);
    out
}

fn retain_edges(s: &Vec<Edge>, r: &Vec<OpId>) -> (out: Vec<Edge>)
    ensures
        out@ == drop_edges(s@, r@.to_set()),
{
    let mut out: Vec<Edge> = Vec::new();
    let mut i: usize = 0;
    while i < s.len()
        invariant
            0 <= i <= s@.len(),
            out@ == drop_edges(s@.subrange(0, i as int), r@.to_set()),
        decreases s@.len() - i,
    {
        assert(s@.subrange(0, i as int + 1).drop_last() =~= s@.subrange(0, i as int));
        if !contains_id(r, s[i].src()) && !contains_id(r, s[i].dst()) {
            out.push(s[i]);
        }
        i = i + 1;
    }
    assert(s@.subrange(0, i as int) =~= s@);
    out
}

proof fn lemma_no_mlp_nothing_fused(m: Map<OpId, OpView>, edges: Seq<Edge>, order: Seq<OpId>, n: nat)
    requires
        forall|id: OpId| !#[trigger] is_mlp(m, id),
    ensures
        fused_ops(m, edges, order, n) == m,
        fused_away(m, edges, order, n) == Seq::<OpId>::empty(),
    decreases n,
{
    if n > 0 {
        lemma_no_mlp_nothing_fused(m, edges, order, (n - 1) as nat);
        assert(!is_mlp(m, order[n - 1]));
    }
}

proof fn lemma_drop_nothing(ids: Seq<OpId>, edges: Seq<Edge>)
    ensures
        drop_ids(ids, Set::<OpId>::empty()) == ids,
        drop_edges(edges, Set::<OpId>::empty()) == edges,
    decreases ids.len() + edges.len(),
{
    if ids.len() > 0 {
        lemma_drop_nothing(ids.drop_last(), edges);
        assert(ids.drop_last().push(ids.last()) =~= ids);
    }
    if edges.len() > 0 {
        lemma_drop_nothing(ids, edges.drop_last());
        assert(edges.drop_last().push(edges.last()) =~= edges);
    }
}

/// A function without MlpStep ops comes out of fusion unchanged.
pub proof fn lemma_fuse_without_mlp_keeps_function(f: Function, g: Function)
    requires
        function_fused(f, g),
        forall|id: OpId| !#[trigger] is_mlp(ops_view(f.ops@), id),
    ensures
        ops_view(g.ops@) == ops_view(f.ops@),
        g.meta@ == f.meta@,
        g.order@ == f.order@,
        g.edges@ == f.edges@,
{
    let m = ops_view(f.ops@);
    let n = pair_count(f.order@);
    lemma_no_mlp_nothing_fused(m, f.edges@, f.order@, n);
    assert(Seq::<OpId>::empty().to_set() =~= Set::<OpId>::empty());
    lemma_drop_nothing(f.order@, f.edges@);
    assert(f.meta@.remove_keys(Set::<OpId>::empty()) =~= f.meta@);
}

proof fn lemma_fused_ops_shrink(m: Map<OpId, OpView>, edges: Seq<Edge>, order: Seq<OpId>, n: nat)
    ensures
        fused_ops(m, edges, order, n).dom().subset_of(m.dom()),
    decreases n,
{
    if n > 0 {
        lemma_fused_ops_shrink(m, edges, order, (n - 1) as nat);
    }
}

proof fn lemma_drop_ids_sub(s: Seq<OpId>, r: Set<OpId>)
    ensures
        drop_ids(s, r).len() <= s.len(),
        forall|k: int| 0 <= k < drop_ids(s, r).len() ==> s.contains(#[trigger] drop_ids(s, r)[k]) && !r.contains(drop_ids(s, r)[k]),
    decreases s.len(),
{
    if s.len() > 0 {
        lemma_drop_ids_sub(s.drop_last(), r);
        let d = drop_ids(s.drop_last(), r);
        assert forall|k: int| 0 <= k < drop_ids(s, r).len() implies s.contains(#[trigger] drop_ids(s, r)[k]) && !r.contains(drop_ids(s, r)[k]) by {
            if k < d.len() {
                assert(drop_ids(s, r)[k] == d[k]);
                let j = choose|j: int| 0 <= j < s.drop_last().len() && s.drop_last()[j] == d[k];
                assert(s[j] == d[k]);
            } else {
                assert(drop_ids(s, r)[k] == s.last());
                assert(s[s.len() - 1] == s.last());
            }
        }
    }
}

/// Fusion creates no op: the ops after it are among the ops before, and
/// the order keeps only ids it had, none of them fused away.
pub proof fn lemma_fuse_only_removes(f: Function, g: Function)
    requires
        function_fused(f, g),
    ensures
        ops_view(g.ops@).dom().subset_of(ops_view(f.ops@).dom()),
        g.order@.len() <= f.order@.len(),
        forall|k: int| 0 <= k < g.order@.len() ==> f.order@.contains(#[trigger] g.order@[k]),
{
    let m = ops_view(f.ops@);
    let n = pair_count(f.order@);
    lemma_fused_ops_shrink(m, f.edges@, f.order@, n);
    lemma_drop_ids_sub(f.order@, fused_away(m, f.edges@, f.order@, n).to_set());
}

/// Fuses the MlpStep chains of `f`.
pub fn fuse_mlp_chain(f: &mut Function) -> (r: Result<(), IrError>)
    ensures
        r is Ok,
        function_fused(*old(f), *final(f)),
{
    let ghost m0 = ops_view(f.ops@);
    let ghost meta0 = f.meta@;
    let mut to_remove: Vec<OpId> = Vec::new();
    let mut i: usize = 0;
    while f.order.len() > 0 && i < f.order.len() - 1
        invariant
            f.order == old(f).order,
            f.edges == old(f).edges,
            f.name == old(f).name,
            m0 == ops_view(old(f).ops@),
            meta0 == old(f).meta@,
            0 <= i <= pair_count(f.order@),
            ops_view(f.ops@) == fused_ops(m0, f.edges@, f.order@, i as nat),
            to_remove@ == fused_away(m0, f.edges@, f.order@, i as nat),
            f.meta@ == meta0.remove_keys(to_remove@.to_set()),
        decreases f.order@.len() - i,
    {
        let a = f.order[i];
        let b = f.order[i + 1];
        let ghost prev = ops_view(f.ops@);
        let a_is_mlp = is_mlp_exec(&f.ops, a);
        let b_is_mlp = is_mlp_exec(&f.ops, b);
        let dep = has_edge_exec(&f.edges, a, b);
        if a_is_mlp && b_is_mlp && dep {
            let mut b_ops = match f.ops.remove(&b) {
                Some(Op::StateStep { operands, .. }) => operands,
                _ => {
                    assert(false);
                    Vec::new()
                },
            };
            let ghost b_view = b_ops@;
            let ghost removed_before = to_remove@;
            match f.ops.remove(&a) {
                Some(Op::StateStep { kind, mut operands }) => {
                    operands.append(&mut b_ops);
                    f.ops.insert(a, Op::StateStep { kind, operands });
                },
                Some(other) => {
                    f.ops.insert(a, other);
                },
                None => {},
            }
            f.meta.remove(&b);
            to_remove.push(b);
            proof {
                assert(ops_view(f.ops@) =~= fuse_pair(prev, a, b));
                removed_before.lemma_push_to_set_commute(b);
                assert(to_remove@ == removed_before.push(b));
                assert(f.meta@ =~= meta0.remove_keys(to_remove@.to_set()));
            }
        }
        i = i + 1;
    }
    let new_order = retain_ids(&f.order, &to_remove);
    let new_edges = retain_edges(&f.edges, &to_remove);
    f.order = new_order;
    f.edges = new_edges;
    Ok(())
}

/// The fusion pass.
pub struct FuseDecodeOps;

impl Pass for FuseDecodeOps {
    /// What a run does: see `run`.
    open spec fn runs_to(&self, before: Module, after: Module, r: Result<(), IrError>) -> bool {
        &&& (r is Ok)
        &&& (after.symbols == before.symbols)
        &&& (after.functions@.len() == before.functions@.len())
        &&& (forall|i: int| 0 <= i < before.functions@.len() ==> function_fused(
                    #[trigger] before.functions@[i],
                    after.functions@[i],
            ))
    }

    fn name(&self) -> (r: &'static str)
        ensures
            r@ == "fuse_decode_ops"@,
    {
        "fuse_decode_ops"
    }

    /// Fuses the MlpStep chains of every function; never fails.
    fn run(&mut self, module: &mut Module) -> (r: Result<(), IrError>)
        ensures
            r is Ok,
            final(module).symbols == old(module).symbols,
            final(module).functions@.len() == old(module).functions@.len(),
            forall|i: int| 0 <= i < old(module).functions@.len() ==> function_fused(
                #[trigger] old(module).functions@[i],
                final(module).functions@[i],
            ),
    {
        let n = module.functions.len();
        let mut i: usize = 0;
        while i < n
            invariant
                0 <= i <= n,
                n == module.functions@.len(),
                n == old(module).functions@.len(),
                module.symbols == old(module).symbols,
                forall|j: int| 0 <= j < i ==> function_fused(#[trigger] old(module).functions@[j], module.functions@[j]),
                forall|j: int| i <= j < n ==> #[trigger] module.functions@[j] == old(module).functions@[j],
            decreases n - i,
        {
            let _ = fuse_mlp_chain(&mut module.functions[i]);
            i = i + 1;
        }
        Ok(())
    }
}

} // verus!
