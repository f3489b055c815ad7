//! Functions, modules, and the builder that assembles them.

use vstd::prelude::*;

use std::collections::HashMap;

use super::graph::Edge;
use super::idmap::IdMap;
use super::op::{Op, OpMeta};
use super::types::OpId;

verus! {

/// The destinations of the edges in `edges` that leave `id`, in edge order.
pub open spec fn succs(edges: Seq<Edge>, id: OpId) -> Seq<OpId>
    decreases edges.len(),
{
    if edges.len() == 0 {
        Seq::empty()
    } else if edges.last().src() == id {
        succs(edges.drop_last(), id).push(edges.last().dst())
    } else {
        succs(edges.drop_last(), id)
    }
}

/// The sources of the edges in `edges` that enter `id`, in edge order.
pub open spec fn preds(edges: Seq<Edge>, id: OpId) -> Seq<OpId>
    decreases edges.len(),
{
    if edges.len() == 0 {
        Seq::empty()
    } else if edges.last().dst() == id {
        preds(edges.drop_last(), id).push(edges.last().src())
    } else {
        preds(edges.drop_last(), id)
    }
}

/// A single SlugIR function (typically one PTX kernel entry).
#[derive(Debug, Clone, PartialEq)]
pub struct Function {
    pub name: String,
    pub ops: IdMap<Op>,
    pub meta: IdMap<OpMeta>,
    pub edges: Vec<Edge>,
    /// Topologically ordered op ids; the source of truth for walk order.
    pub order: Vec<OpId>,
}

impl Function {
    /// An empty function named `name`.
    pub fn new(name: &str) -> (r: Function)
        ensures
            r.name@ == name@,
            r.ops@ == Map::<OpId, Op>::empty(),
            r.meta@ == Map::<OpId, OpMeta>::empty(),
            r.edges@ == Seq::<Edge>::empty(),
            r.order@ == Seq::<OpId>::empty(),
    {
        Function {
            name: name.to_string(),
            ops: IdMap::new(),
            meta: IdMap::new(),
            edges: Vec::new(),
            order: Vec::new(),
        }
    }

    /// Destinations of the edges leaving `id`, in edge order.
    pub fn successors(&self, id: OpId) -> (r: Vec<OpId>)
        ensures
            r@ == succs(self.edges@, id),
    {
        let mut r: Vec<OpId> = Vec::new();
        let mut i: usize = 0;
        while i < self.edges.len()
            invariant
                0 <= i <= self.edges@.len(),
                r@ == succs(self.edges@.subrange(0, i as int), id),
            decreases self.edges@.len() - i,
        {
            assert(self.edges@.subrange(0, i as int + 1).drop_last() =~= self.edges@.subrange(0, i as int));
            if self.edges[i].src() == id {
                r.push(self.edges[i].dst());
            }
            i = i + 1;
        }
        assert(self.edges@.subrange(0, i as int) =~= self.edges@);
        r
    }

    /// Sources of the edges entering `id`, in edge order.
    pub fn predecessors(&self, id: OpId) -> (r: Vec<OpId>)
        ensures
            r@ == preds(self.edges@, id),
    {
        let mut r: Vec<OpId> = Vec::new();
        let mut i: usize = 0;
        while i < self.edges.len()
            invariant
                0 <= i <= self.edges@.len(),
                r@ == preds(self.edges@.subrange(0, i as int), id),
            decreases self.edges@.len() - i,
        {
            assert(self.edges@.subrange(0, i as int + 1).drop_last() =~= self.edges@.subrange(0, i as int));
            if self.edges[i].dst() == id {
                r.push(self.edges[i].src());
            }
            i = i + 1;
        }
        assert(self.edges@.subrange(0, i as int) =~= self.edges@);
        r
    }
}

/// A SlugIR module: functions and a symbol table.
#[derive(Debug, Clone, PartialEq)]
pub struct Module {
    pub functions: Vec<Function>,
    pub symbols: HashMap<String, String>,
}

impl Default for Module {
    /// A module with no functions and no symbols.
    fn default() -> (r: Self)
        ensures
            r.functions@ == Seq::<Function>::empty(),
            r.symbols@ == Map::<String, String>::empty(),
    {
        Module { functions: Vec::new(), symbols: HashMap::new() }
    }
}

/// Build-time context for assembling SlugIR; hands out fresh OpIds.
#[derive(Debug)]
pub struct Context {
    next_op: u32,
}

impl Context {
    /// The id the next call of `fresh_op` hands out.
    pub closed spec fn next(&self) -> u32 {
        self.next_op
    }

    /// A context that starts handing out ids at 0.
    pub fn new() -> (r: Context)
        ensures
            r.next() == 0,
    {
        Context { next_op: 0 }
    }

    /// A fresh id: each call hands out the next number.
    pub fn fresh_op(&mut self) -> (r: OpId)
        requires
            old(self).next() < u32::MAX,
        ensures
            r == OpId(old(self).next()),
            final(self).next() == old(self).next() + 1,
    {
        let id = OpId(self.next_op);
        self.next_op = self.next_op + 1;
        id
    }
}

/// The ids one context hands out count up from 0: for contexts `ctxs[0]`
/// (fresh, as `new` makes it), `ctxs[1]`, ... where each `fresh_op` call
/// takes `ctxs[i]` to `ctxs[i + 1]` and returns `ids[i]`, the `i`-th id is
/// `OpId(i)`, so the ids are pairwise distinct and strictly increasing.
pub proof fn lemma_fresh_ids_count_up(ctxs: Seq<Context>, ids: Seq<OpId>)
    requires
        ctxs.len() == ids.len() + 1,
        ctxs[0].next() == 0,
        forall|i: int| 0 <= i < ids.len() ==> #[trigger] ids[i] == OpId(ctxs[i].next()) && ctxs[i + 1].next() == ctxs[i].next() + 1,
    ensures
        forall|i: int| 0 <= i < ids.len() ==> #[trigger] ids[i] == OpId(i as u32),
        forall|i: int, j: int| 0 <= i < j < ids.len() ==> ids[i].0 < ids[j].0,
{
    lemma_fresh_nexts(ctxs, ids, ids.len() as int);
    assert forall|i: int| 0 <= i < ids.len() implies #[trigger] ids[i] == OpId(i as u32) by {
        assert(ctxs[i].next() == i);
    }
    assert forall|i: int, j: int| 0 <= i < j < ids.len() implies ids[i].0 < ids[j].0 by {
        assert(ctxs[i].next() == i && ctxs[j].next() == j);
        assert(ids[i] == OpId(ctxs[i].next()) && ids[j] == OpId(ctxs[j].next()));
    }
}

proof fn lemma_fresh_nexts(ctxs: Seq<Context>, ids: Seq<OpId>, k: int)
    requires
        0 <= k <= ids.len(),
        ctxs.len() == ids.len() + 1,
        ctxs[0].next() == 0,
        forall|i: int| 0 <= i < ids.len() ==> #[trigger] ids[i] == OpId(ctxs[i].next()) && ctxs[i + 1].next() == ctxs[i].next() + 1,
    ensures
        forall|i: int| 0 <= i <= k ==> #[trigger] ctxs[i].next() == i,
    decreases k,
{
    if k > 0 {
        lemma_fresh_nexts(ctxs, ids, k - 1);
        assert(ids[k - 1] == OpId(ctxs[k - 1].next()));
        assert(ctxs[k - 1].next() == k - 1);
    }
}

/// Builder for a single Function: hands out ids from a Context and records
/// the insertion order in `order`.
pub struct FunctionBuilder<'ctx> {
    ctx: &'ctx mut Context,
    f: Function,
}

impl<'ctx> FunctionBuilder<'ctx> {
    /// The function built so far.
    pub closed spec fn function(&self) -> Function {
        self.f
    }

    /// The id the next `add_op` hands out.
    pub closed spec fn next(&self) -> u32 {
        self.ctx.next()
    }

    /// A builder for an empty function named `name`.
    pub fn new(ctx: &'ctx mut Context, name: &str) -> (r: FunctionBuilder<'ctx>)
        ensures
            r.next() == old(ctx).next(),
            r.function().name@ == name@,
            r.function().ops@ == Map::<OpId, Op>::empty(),
            r.function().meta@ == Map::<OpId, OpMeta>::empty(),
            r.function().edges@ == Seq::<Edge>::empty(),
            r.function().order@ == Seq::<OpId>::empty(),
    {
        FunctionBuilder { ctx, f: Function::new(name) }
    }
    /// Adds `op` with empty metadata under a fresh id, and returns the id.
    pub fn add_op(&mut self, op: Op) -> (r: OpId)
        requires
            old(self).next() < u32::MAX,
        ensures
            r == OpId(old(self).next()),
            final(self).next() == old(self).next() + 1,
            final(self).function().name == old(self).function().name,
            final(self).function().ops@ == old(self).function().ops@.insert(r, op),
            final(self).function().meta@ == old(self).function().meta@.insert(
                r,
                OpMeta { backend: None, token_in: None, token_out: None, source_hint: None },
            ),
            final(self).function().edges@ == old(self).function().edges@,
            final(self).function().order@ == old(self).function().order@.push(r),
    {
        let id = self.ctx.fresh_op();
        self.f.ops.insert(id, op);
        self.f.meta.insert(id, OpMeta::default());
        self.f.order.push(id);
        id
    }

    /// Appends `edge`.
    pub fn add_edge(&mut self, edge: Edge)
        ensures
            final(self).next() == old(self).next(),
            final(self).function().name == old(self).function().name,
            final(self).function().ops@ == old(self).function().ops@,
            final(self).function().meta@ == old(self).function().meta@,
            final(self).function().edges@ == old(self).function().edges@.push(edge),
            final(self).function().order@ == old(self).function().order@,
    {
        self.f.edges.push(edge);
    }

    /// The function built.
    pub fn finish(self) -> (r: Function)
        ensures
            r == self.function(),
    {
        self.f
    }
}

} // verus!
