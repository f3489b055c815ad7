//! assign_tokens: orders the ops of each function by Kahn's algorithm
//! (ready ops taken first-in first-out, ties broken by increasing id) and
//! derives their tokens: an op's token_out is its 1-based position in that
//! order, its token_in the largest token_out among its predecessors (0 if
//! none).

use vstd::prelude::*;

use super::super::error::IrError;
use super::super::graph::Edge;
use super::super::idmap::{strictly_sorted, IdMap};
use super::fuse_decode_ops::{has_edge, has_edge_exec};
use super::super::module::{preds, Function, Module};
use super::super::op::OpMeta;
use super::super::pass::Pass;
use super::super::types::{OpId, TokenId};

verus! {

/// Position of `x` in `q`, or -1 when absent.
pub open spec fn pos_of(q: Seq<OpId>, x: OpId) -> int
    decreases q.len(),
{
    if q.len() == 0 {
        -1
    } else if q.last() == x {
        q.len() - 1
    } else {
        pos_of(q.drop_last(), x)
    }
}

/// The largest position in `q` of a source of an edge entering `s`, or -1.
pub open spec fn last_src(q: Seq<OpId>, edges: Seq<Edge>, s: OpId) -> int
    decreases edges.len(),
{
    if edges.len() == 0 {
        -1
    } else {
        let r = last_src(q, edges.drop_last(), s);
        let e = edges.last();
        if e.dst() == s && pos_of(q, e.src()) > r {
            pos_of(q, e.src())
        } else {
            r
        }
    }
}

/// Number of edges entering `s` whose source is not in `done`.
pub open spec fn in_count(edges: Seq<Edge>, s: OpId, done: Set<OpId>) -> nat
    decreases edges.len(),
{
    if edges.len() == 0 {
        0
    } else {
        in_count(edges.drop_last(), s, done) + if edges.last().dst() == s && !done.contains(
            edges.last().src(),
        ) {
            1nat
        } else {
            0nat
        }
    }
}

/// Number of edges from `a` to `s`.
pub open spec fn count_from(edges: Seq<Edge>, a: OpId, s: OpId) -> nat
    decreases edges.len(),
{
    if edges.len() == 0 {
        0
    } else {
        count_from(edges.drop_last(), a, s) + if edges.last().src() == a && edges.last().dst() == s {
            1nat
        } else {
            0nat
        }
    }
}

/// The nodes Kahn's algorithm works on: the ops and every edge target.
pub open spec fn kahn_domain(ops: Set<OpId>, edges: Seq<Edge>) -> Set<OpId> {
    ops.union(Set::new(|s: OpId| exists|k: int| 0 <= k < edges.len() && edges[k].dst() == s))
}

/// `(a, x)` comes strictly before `(b, y)` lexicographically.
pub open spec fn key_lt(a: int, x: OpId, b: int, y: OpId) -> bool {
    a < b || (a == b && x.0 < y.0)
}

/// `q` is the order in which Kahn's algorithm takes the nodes of
/// `kahn_domain(ops, edges)`: no node twice; every source of an edge
/// entering a node comes before it; every node all of whose sources are
/// taken is taken; and nodes come by increasing (position of their last
/// source, id), nodes without sources first.
pub open spec fn kahn_order(ops: Set<OpId>, edges: Seq<Edge>, q: Seq<OpId>) -> bool {
    &&& q.no_duplicates()
    &&& forall|p: int| 0 <= p < q.len() ==> kahn_domain(ops, edges).contains(#[trigger] q[p])
    &&& forall|p: int, k: int|
        0 <= p < q.len() && 0 <= k < edges.len() && #[trigger] edges[k].dst() == #[trigger] q[p]
            ==> 0 <= pos_of(q, edges[k].src()) < p
    &&& forall|s: OpId|
        kahn_domain(ops, edges).contains(s) && (forall|k: int|
            0 <= k < edges.len() && #[trigger] edges[k].dst() == s ==> q.contains(edges[k].src()))
            ==> q.contains(s)
    &&& forall|p: int, p2: int|
        0 <= p < p2 < q.len() ==> key_lt(
            last_src(q, edges, #[trigger] q[p]),
            q[p],
            last_src(q, edges, #[trigger] q[p2]),
            q[p2],
        )
}

proof fn lemma_pos_of_index(q: Seq<OpId>, i: int)
    requires
        q.no_duplicates(),
        0 <= i < q.len(),
    ensures
        pos_of(q, q[i]) == i,
    decreases q.len(),
{
    if i < q.len() - 1 {
        assert(q.last() != q[i]);
        assert(q.drop_last()[i] == q[i]);
        lemma_pos_of_index(q.drop_last(), i);
    }
}

proof fn lemma_pos_of_range(q: Seq<OpId>, x: OpId)
    ensures
        -1 <= pos_of(q, x) < q.len(),
        pos_of(q, x) >= 0 ==> q[pos_of(q, x)] == x,
        pos_of(q, x) == -1 <==> !q.contains(x),
    decreases q.len(),
{
    if q.len() > 0 {
        lemma_pos_of_range(q.drop_last(), x);
        if q.last() != x {
            if q.contains(x) {
                let j = choose|j: int| 0 <= j < q.len() && q[j] == x;
                assert(q.drop_last()[j] == x);
            }
            if pos_of(q, x) >= 0 {
                assert(q[pos_of(q, x)] == q.drop_last()[pos_of(q, x)]);
            }
        } else {
            assert(q[q.len() - 1] == x);
        }
    }
}

proof fn lemma_pos_of_push(q: Seq<OpId>, x: OpId, y: OpId)
    ensures
        y != x ==> pos_of(q.push(x), y) == pos_of(q, y),
        pos_of(q.push(x), x) == q.len(),
{
    assert(q.push(x).drop_last() =~= q);
}

proof fn lemma_last_src_bound(q: Seq<OpId>, edges: Seq<Edge>, s: OpId, k: int)
    requires
        0 <= k < edges.len(),
        edges[k].dst() == s,
    ensures
        last_src(q, edges, s) >= pos_of(q, edges[k].src()),
    decreases edges.len(),
{
    if k < edges.len() - 1 {
        assert(edges.drop_last()[k] == edges[k]);
        lemma_last_src_bound(q, edges.drop_last(), s, k);
    }
}

proof fn lemma_last_src_witness(q: Seq<OpId>, edges: Seq<Edge>, s: OpId)
    ensures
        last_src(q, edges, s) == -1 || exists|k: int|
            0 <= k < edges.len() && edges[k].dst() == s && last_src(q, edges, s) == pos_of(q, edges[k].src()),
    decreases edges.len(),
{
    if edges.len() > 0 {
        lemma_last_src_witness(q, edges.drop_last(), s);
        let r = last_src(q, edges.drop_last(), s);
        if last_src(q, edges, s) != r {
            assert(edges[edges.len() - 1] == edges.last());
        } else if r != -1 {
            let k = choose|k: int|
                0 <= k < edges.drop_last().len() && edges.drop_last()[k].dst() == s && r == pos_of(
                    q,
                    edges.drop_last()[k].src(),
                );
            assert(edges[k] == edges.drop_last()[k]);
        }
    }
}

proof fn lemma_last_src_push(q: Seq<OpId>, edges: Seq<Edge>, s: OpId, x: OpId)
    requires
        forall|k: int| 0 <= k < edges.len() && #[trigger] edges[k].dst() == s ==> edges[k].src() != x,
    ensures
        last_src(q.push(x), edges, s) == last_src(q, edges, s),
    decreases edges.len(),
{
    if edges.len() > 0 {
        assert forall|k: int| 0 <= k < edges.drop_last().len() && #[trigger] edges.drop_last()[k].dst() == s implies edges.drop_last()[k].src() != x by {
            assert(edges.drop_last()[k] == edges[k]);
        }
        lemma_last_src_push(q, edges.drop_last(), s, x);
        let e = edges.last();
        if e.dst() == s {
            assert(edges[edges.len() - 1] == e);
            lemma_pos_of_push(q, x, e.src());
        }
    }
}

proof fn lemma_in_count_step(edges: Seq<Edge>, s: OpId, done: Set<OpId>, id: OpId)
    requires
        !done.contains(id),
    ensures
        in_count(edges, s, done.insert(id)) + count_from(edges, id, s) == in_count(edges, s, done),
    decreases edges.len(),
{
    if edges.len() > 0 {
        lemma_in_count_step(edges.drop_last(), s, done, id);
    }
}

proof fn lemma_in_count_zero(edges: Seq<Edge>, s: OpId, done: Set<OpId>)
    ensures
        in_count(edges, s, done) == 0 <==> forall|k: int|
            0 <= k < edges.len() && #[trigger] edges[k].dst() == s ==> done.contains(edges[k].src()),
    decreases edges.len(),
{
    if edges.len() > 0 {
        lemma_in_count_zero(edges.drop_last(), s, done);
        if in_count(edges, s, done) == 0 {
            assert forall|k: int| 0 <= k < edges.len() && #[trigger] edges[k].dst() == s implies done.contains(edges[k].src()) by {
                if k < edges.len() - 1 {
                    assert(edges.drop_last()[k] == edges[k]);
                }
            }
        } else {
            if in_count(edges.drop_last(), s, done) != 0 {
                let k = choose|k: int|
                    0 <= k < edges.drop_last().len() && #[trigger] edges.drop_last()[k].dst() == s
                        && !done.contains(edges.drop_last()[k].src());
                assert(edges[k] == edges.drop_last()[k]);
            } else {
                assert(edges[edges.len() - 1] == edges.last());
            }
        }
    }
}

proof fn lemma_count_from_pos(edges: Seq<Edge>, a: OpId, s: OpId, k: int)
    requires
        0 <= k < edges.len(),
        edges[k].src() == a,
        edges[k].dst() == s,
    ensures
        count_from(edges, a, s) >= 1,
    decreases edges.len(),
{
    if k < edges.len() - 1 {
        assert(edges.drop_last()[k] == edges[k]);
        lemma_count_from_pos(edges.drop_last(), a, s, k);
    }
}

proof fn lemma_in_count_prefix(edges: Seq<Edge>, s: OpId, done: Set<OpId>, k: int)
    requires
        0 <= k < edges.len(),
    ensures
        in_count(edges.subrange(0, k + 1), s, done) == in_count(edges.subrange(0, k), s, done) + if edges[k].dst() == s && !done.contains(edges[k].src()) {
            1nat
        } else {
            0nat
        },
{
    assert(edges.subrange(0, k + 1).drop_last() =~= edges.subrange(0, k));
}

proof fn lemma_in_count_le(edges: Seq<Edge>, s: OpId, done: Set<OpId>)
    ensures
        in_count(edges, s, done) <= edges.len(),
    decreases edges.len(),
{
    if edges.len() > 0 {
        lemma_in_count_le(edges.drop_last(), s, done);
    }
}

proof fn lemma_count_from_concat(a: Seq<Edge>, b: Seq<Edge>, x: OpId, s: OpId)
    ensures
        count_from(a + b, x, s) == count_from(a, x, s) + count_from(b, x, s),
    decreases b.len(),
{
    if b.len() > 0 {
        assert((a + b).drop_last() =~= a + b.drop_last());
        lemma_count_from_concat(a, b.drop_last(), x, s);
    } else {
        assert(a + b =~= a);
    }
}

/// The in-degree table: every node of the domain, with the number of
/// edges entering it.
fn build_indeg(ids: &Vec<OpId>, edges: &Vec<Edge>) -> (r: IdMap<usize>)
    ensures
        r@.dom() == kahn_domain(ids@.to_set(), edges@),
        forall|s: OpId| #[trigger] r@.contains_key(s) ==> r@[s] == in_count(edges@, s, Set::empty()),
{
    let mut indeg: IdMap<usize> = IdMap::new();
    let mut i: usize = 0;
    while i < ids.len()
        invariant
            0 <= i <= ids@.len(),
            indeg@.dom() == ids@.subrange(0, i as int).to_set(),
            forall|s: OpId| #[trigger] indeg@.contains_key(s) ==> indeg@[s] == 0,
        decreases ids@.len() - i,
    {
        indeg.insert(ids[i], 0);
        proof {
            ids@.subrange(0, i as int).lemma_push_to_set_commute(ids@[i as int]);
            assert(ids@.subrange(0, i as int + 1) =~= ids@.subrange(0, i as int).push(ids@[i as int]));
        }
        i = i + 1;
    }
    assert(ids@.subrange(0, i as int) =~= ids@);
    let ghost base = ids@.to_set();
    let mut k: usize = 0;
    while k < edges.len()
        invariant
            0 <= k <= edges@.len(),
            base == ids@.to_set(),
            indeg@.dom() == base.union(Set::new(|s: OpId| exists|j: int| 0 <= j < k && edges@[j].dst() == s)),
            forall|s: OpId| #[trigger] indeg@.contains_key(s) ==> indeg@[s] == in_count(edges@.subrange(0, k as int), s, Set::empty()),
        decreases edges@.len() - k,
    {
        let d = edges[k].dst();
        proof {
            lemma_in_count_le(edges@.subrange(0, k as int), d, Set::empty());
        }
        let c: usize = match indeg.get(&d) {
            Some(c) => *c,
            None => 0,
        };
        proof {
            if !indeg@.contains_key(d) {
                assert(in_count(edges@.subrange(0, k as int), d, Set::empty()) == 0) by {
                    lemma_in_count_zero(edges@.subrange(0, k as int), d, Set::empty());
                    assert forall|j: int| 0 <= j < k && #[trigger] edges@.subrange(0, k as int)[j].dst() == d implies false by {
                        assert(edges@.subrange(0, k as int)[j] == edges@[j]);
                    }
                }
            }
        }
        indeg.insert(d, c + 1);
        proof {
            assert forall|s: OpId| #[trigger] indeg@.contains_key(s) implies indeg@[s] == in_count(edges@.subrange(0, k as int + 1), s, Set::empty()) by {
                lemma_in_count_prefix(edges@, s, Set::empty(), k as int);
            }
            assert(indeg@.dom() =~= base.union(Set::new(|s: OpId| exists|j: int| 0 <= j < k + 1 && edges@[j].dst() == s))) by {
                assert(edges@[k as int].dst() == d);
            }
        }
        k = k + 1;
    }
    assert(edges@.subrange(0, k as int) =~= edges@);
    assert(indeg@.dom() =~= kahn_domain(ids@.to_set(), edges@));
    indeg
}

proof fn lemma_nodup_subset_len(a: Seq<OpId>, b: Seq<OpId>)
    requires
        a.no_duplicates(),
        b.no_duplicates(),
        forall|p: int| 0 <= p < a.len() ==> b.contains(#[trigger] a[p]),
    ensures
        a.len() <= b.len(),
{
    a.unique_seq_to_set();
    b.unique_seq_to_set();
    assert(a.to_set().subset_of(b.to_set())) by {
        assert forall|x: OpId| a.to_set().contains(x) implies b.to_set().contains(x) by {
            let p = choose|p: int| 0 <= p < a.len() && a[p] == x;
            assert(b.contains(a[p]));
        }
    }
    vstd::set_lib::lemma_len_subset(a.to_set(), b.to_set());
}

/// The invariant of Kahn's loop: `q` holds the nodes taken so far,
/// `q[..head]` those whose edges have been released, and `indeg` counts,
/// for every node, its entering edges whose source is not yet released.
pub open spec fn kahn_inv(dd: Set<OpId>, edges: Seq<Edge>, q: Seq<OpId>, head: int, indeg: Map<OpId, usize>) -> bool {
    &&& q.no_duplicates()
    &&& 0 <= head <= q.len()
    &&& forall|p: int| 0 <= p < q.len() ==> dd.contains(#[trigger] q[p])
    &&& indeg.dom() == dd
    &&& forall|s: OpId| #[trigger] dd.contains(s) ==> indeg[s] == in_count(edges, s, q.subrange(0, head).to_set())
    &&& forall|s: OpId| #[trigger] dd.contains(s) ==> (indeg[s] == 0 <==> q.contains(s))
    &&& forall|p: int, k: int|
        0 <= p < q.len() && 0 <= k < edges.len() && #[trigger] edges[k].dst() == #[trigger] q[p]
            ==> 0 <= pos_of(q, edges[k].src()) < p && pos_of(q, edges[k].src()) < head
    &&& forall|p: int, p2: int|
        0 <= p < p2 < q.len() ==> key_lt(
            last_src(q, edges, #[trigger] q[p]),
            q[p],
            last_src(q, edges, #[trigger] q[p2]),
            q[p2],
        )
    &&& forall|p: int| 0 <= p < q.len() ==> last_src(q, edges, #[trigger] q[p]) < head
}

/// Releases the edges of `q[head]` and appends the nodes that become ready,
/// by increasing id.
fn kahn_step(
    q: &mut Vec<OpId>,
    head: usize,
    indeg: &mut IdMap<usize>,
    keys: &Vec<OpId>,
    edges: &Vec<Edge>,
    Ghost(dd): Ghost<Set<OpId>>,
)
    requires
        kahn_inv(dd, edges@, old(q)@, head as int, old(indeg)@),
        head < old(q)@.len(),
        strictly_sorted(keys@),
        forall|s: OpId| dd.contains(s) <==> keys@.contains(s),
        forall|j: int| 0 <= j < edges@.len() ==> dd.contains(#[trigger] edges@[j].dst()),
    ensures
        kahn_inv(dd, edges@, final(q)@, head + 1, final(indeg)@),
        final(q)@.len() >= old(q)@.len(),
        final(q)@.subrange(0, old(q)@.len() as int) == old(q)@,
{
    let ghost q0 = q@;
    let ghost indeg0 = indeg@;
    let id = q[head];
    let ghost pp = q0.subrange(0, head as int).to_set();
    let ghost pp1 = q0.subrange(0, head as int + 1).to_set();
    proof {
        q0.subrange(0, head as int).lemma_push_to_set_commute(id);
        assert(q0.subrange(0, head as int + 1) =~= q0.subrange(0, head as int).push(id));
        assert(pp1 == pp.insert(id));
        assert(!pp.contains(id)) by {
            if pp.contains(id) {
                let j = choose|j: int| 0 <= j < head && q0.subrange(0, head as int)[j] == id;
                assert(q0[j] == q0[head as int]);
            }
        }
        assert forall|s: OpId| #[trigger] dd.contains(s) implies indeg@[s] == in_count(edges@, s, pp1) + count_from(edges@.subrange(0, edges@.len() as int), id, s) by {
            lemma_in_count_step(edges@, s, pp, id);
            assert(edges@.subrange(0, edges@.len() as int) =~= edges@);
        }
    }
    // Release the edges leaving `id`.
    let mut k: usize = 0;
    while k < edges.len()
        invariant
            0 <= k <= edges@.len(),
            indeg@.dom() == dd,
            forall|s: OpId| #[trigger] dd.contains(s) ==> indeg@[s] == in_count(edges@, s, pp1) + count_from(edges@.subrange(k as int, edges@.len() as int), id, s),
            forall|j: int| 0 <= j < edges@.len() ==> dd.contains(#[trigger] edges@[j].dst()),
        decreases edges@.len() - k,
    {
        let ghost before = indeg@;
        let ghost e = edges@[k as int];
        proof {
            assert(edges@.subrange(k as int, edges@.len() as int) =~= seq![e] + edges@.subrange(k as int + 1, edges@.len() as int));
            assert(seq![e].drop_last() =~= Seq::<Edge>::empty());
            assert forall|s: OpId| #[trigger] dd.contains(s) implies before[s] == in_count(edges@, s, pp1) + count_from(edges@.subrange(k as int + 1, edges@.len() as int), id, s) + (if e.src() == id && e.dst() == s { 1int } else { 0int }) by {
                lemma_count_from_concat(seq![e], edges@.subrange(k as int + 1, edges@.len() as int), id, s);
                assert(count_from(Seq::<Edge>::empty(), id, s) == 0);
            }
        }
        if edges[k].src() == id {
            let d = edges[k].dst();
            assert(dd.contains(edges@[k as int].dst()));
            let c: usize = match indeg.get(&d) {
                Some(c) => *c,
                None => 0,
            };
            assert(c == before[d]);
            indeg.insert(d, c - 1);
            proof {
                assert(indeg@.dom() =~= dd);
            }
        }
        k = k + 1;
    }
    proof {
        assert forall|s: OpId| #[trigger] dd.contains(s) implies indeg@[s] == in_count(edges@, s, pp1) by {
            assert(edges@.subrange(edges@.len() as int, edges@.len() as int) =~= Seq::<Edge>::empty());
        }
    }
    let ghost indeg1 = indeg@;
    // Append the nodes that became ready, by increasing id.
    let mut j: usize = 0;
    while j < keys.len()
        invariant
            0 <= j <= keys@.len(),
            indeg@ == indeg1,
            head < q0.len(),
            q0[head as int] == id,
            !pp.contains(id),
            pp == q0.subrange(0, head as int).to_set(),
            pp1 == q0.subrange(0, head as int + 1).to_set(),
            kahn_inv(dd, edges@, q0, head as int, indeg0),
            indeg1.dom() == dd,
            forall|s: OpId| #[trigger] dd.contains(s) ==> indeg1[s] == in_count(edges@, s, pp1),
            strictly_sorted(keys@),
            forall|s: OpId| dd.contains(s) <==> keys@.contains(s),
            q@.subrange(0, q0.len() as int) == q0,
            q@.len() >= q0.len(),
            q@.no_duplicates(),
            forall|p: int| 0 <= p < q@.len() ==> dd.contains(#[trigger] q@[p]),
            forall|p: int| q0.len() <= p < q@.len() ==> (exists|jj: int| 0 <= jj < j && keys@[jj] == #[trigger] q@[p]),
            forall|s: OpId| #[trigger] dd.contains(s) ==> (q@.contains(s) <==> (q0.contains(s) || (indeg1[s] == 0 && has_edge(edges@, id, s) && exists|jj: int| 0 <= jj < j && keys@[jj] == s))),
            forall|p: int, kk: int|
                0 <= p < q@.len() && 0 <= kk < edges@.len() && #[trigger] edges@[kk].dst() == #[trigger] q@[p]
                    ==> 0 <= pos_of(q@, edges@[kk].src()) < p && pos_of(q@, edges@[kk].src()) <= head,
            forall|p: int| q0.len() <= p < q@.len() ==> last_src(q@, edges@, #[trigger] q@[p]) == head,
            forall|p: int| 0 <= p < q0.len() ==> last_src(q@, edges@, #[trigger] q@[p]) < head,
            forall|p: int, p2: int|
                0 <= p < p2 < q@.len() ==> key_lt(
                    last_src(q@, edges@, #[trigger] q@[p]),
                    q@[p],
                    last_src(q@, edges@, #[trigger] q@[p2]),
                    q@[p2],
                ),
        decreases keys@.len() - j,
    {
        let s = keys[j];
        assert(keys@.contains(s));
        let c: usize = match indeg.get(&s) {
            Some(c) => *c,
            None => 0,
        };
        if c == 0 && has_edge_exec(edges, id, s) {
            let ghost qb = q@;
            proof {
                let ke = choose|ke: int| 0 <= ke < edges@.len() && edges@[ke].src() == id && edges@[ke].dst() == s;
                lemma_count_from_pos(edges@, id, s, ke);
                lemma_in_count_step(edges@, s, pp, id);
                // s was not ready before this step
                assert(!q0.contains(s));
                assert(!qb.contains(s)) by {
                    if qb.contains(s) {
                        let p = choose|p: int| 0 <= p < qb.len() && qb[p] == s;
                        if p >= q0.len() {
                            let jj = choose|jj: int| 0 <= jj < j && keys@[jj] == qb[p];
                            assert(keys@[jj].0 < keys@[j as int].0);
                        } else {
                            assert(qb.subrange(0, q0.len() as int)[p] == s);
                        }
                    }
                }
                // every source of s is released
                lemma_in_count_zero(edges@, s, pp1);
                assert forall|kk: int| 0 <= kk < edges@.len() && #[trigger] edges@[kk].dst() == s implies 0 <= pos_of(qb, edges@[kk].src()) <= head by {
                    let src = edges@[kk].src();
                    assert(pp1.contains(src));
                    let jj = choose|jj: int| 0 <= jj < head + 1 && #[trigger] q0.subrange(0, head as int + 1)[jj] == src;
                    assert(qb[jj] == src);
                    lemma_pos_of_index(qb, jj);
                }
                // existing positions and keys are unchanged by the append
                assert forall|p: int| 0 <= p < qb.len() implies last_src(qb.push(s), edges@, #[trigger] qb[p]) == last_src(qb, edges@, qb[p]) by {
                    assert forall|kk: int| 0 <= kk < edges@.len() && #[trigger] edges@[kk].dst() == qb[p] implies edges@[kk].src() != s by {
                        lemma_pos_of_range(qb, edges@[kk].src());
                    }
                    lemma_last_src_push(qb, edges@, qb[p], s);
                }
                assert forall|x: OpId| x != s implies pos_of(qb.push(s), x) == pos_of(qb, x) by {
                    lemma_pos_of_push(qb, s, x);
                }
                // the new node's last source is q[head]
                lemma_last_src_push(qb, edges@, s, s);
                assert(pos_of(qb, id) == head) by {
                    assert(qb[head as int] == id);
                    lemma_pos_of_index(qb, head as int);
                }
                lemma_last_src_bound(qb, edges@, s, ke);
                lemma_last_src_witness(qb, edges@, s);
            }
            q.push(s);
            proof {
                let qn = q@;
                assert(qn == qb.push(s));
                assert(qn.subrange(0, q0.len() as int) =~= q0) by {
                    assert(qb.subrange(0, q0.len() as int) == q0);
                }
                assert(last_src(qn, edges@, s) == head);
                assert forall|x: OpId| #[trigger] dd.contains(x) implies (qn.contains(x) <==> (q0.contains(x) || (indeg1[x] == 0 && has_edge(edges@, id, x) && exists|jj: int| 0 <= jj < j + 1 && keys@[jj] == x))) by {
                    if x == s {
                        assert(qn[qb.len() as int] == s);
                    } else {
                        if qn.contains(x) {
                            let p = choose|p: int| 0 <= p < qn.len() && qn[p] == x;
                            assert(p < qb.len());
                            assert(qb[p] == x);
                        }
                        if qb.contains(x) {
                            let p = choose|p: int| 0 <= p < qb.len() && qb[p] == x;
                            assert(qn[p] == x);
                        }
                        if exists|jj: int| 0 <= jj < j + 1 && keys@[jj] == x {
                            let jj = choose|jj: int| 0 <= jj < j + 1 && keys@[jj] == x;
                            assert(jj != j);
                        }
                    }
                }
                assert forall|p: int| q0.len() <= p < qn.len() implies (exists|jj: int| 0 <= jj < j + 1 && keys@[jj] == #[trigger] qn[p]) by {
                    if p < qb.len() {
                        assert(qn[p] == qb[p]);
                        let jj = choose|jj: int| 0 <= jj < j && keys@[jj] == qb[p];
                        assert(keys@[jj] == qn[p]);
                    } else {
                        assert(keys@[j as int] == qn[p]);
                    }
                }
                assert forall|p: int, p2: int|
                    0 <= p < p2 < qn.len() implies key_lt(
                        last_src(qn, edges@, #[trigger] qn[p]),
                        qn[p],
                        last_src(qn, edges@, #[trigger] qn[p2]),
                        qn[p2],
                    ) by {
                    assert(qn[p] == qb[p]);
                    if p2 < qb.len() {
                        assert(qn[p2] == qb[p2]);
                    } else {
                        if p >= q0.len() {
                            let jj = choose|jj: int| 0 <= jj < j && keys@[jj] == qb[p];
                            assert(keys@[jj].0 < keys@[j as int].0);
                        } else {
                            assert(qb.subrange(0, q0.len() as int)[p] == qb[p]);
                        }
                    }
                }
                assert forall|p: int, kk: int|
                    0 <= p < qn.len() && 0 <= kk < edges@.len() && #[trigger] edges@[kk].dst() == #[trigger] qn[p]
                        implies 0 <= pos_of(qn, edges@[kk].src()) < p && pos_of(qn, edges@[kk].src()) <= head by {
                    lemma_pos_of_range(qb, edges@[kk].src());
                    if p < qb.len() {
                        assert(qn[p] == qb[p]);
                        lemma_pos_of_push(qb, s, edges@[kk].src());
                    } else {
                        lemma_pos_of_push(qb, s, edges@[kk].src());
                    }
                }
                assert(qn.no_duplicates()) by {
                    assert forall|a: int, b: int| 0 <= a < b < qn.len() implies qn[a] != qn[b] by {
                        if b == qb.len() {
                            assert(qn[a] == qb[a]);
                        } else {
                            assert(qn[a] == qb[a] && qn[b] == qb[b]);
                        }
                    }
                }
                assert forall|p: int| 0 <= p < q0.len() implies last_src(qn, edges@, #[trigger] qn[p]) < head by {
                    assert(qn[p] == qb[p]);
                }
                assert forall|p: int| q0.len() <= p < qn.len() implies last_src(qn, edges@, #[trigger] qn[p]) == head by {
                    if p < qb.len() {
                        assert(qn[p] == qb[p]);
                    }
                }
            }
        } else {
            proof {
                assert forall|x: OpId| #[trigger] dd.contains(x) implies (q@.contains(x) <==> (q0.contains(x) || (indeg1[x] == 0 && has_edge(edges@, id, x) && exists|jj: int| 0 <= jj < j + 1 && keys@[jj] == x))) by {
                    if exists|jj: int| 0 <= jj < j + 1 && keys@[jj] == x {
                        let jj = choose|jj: int| 0 <= jj < j + 1 && keys@[jj] == x;
                        if jj == j {
                            assert(x == s);
                        }
                    }
                }
                assert forall|p: int| q0.len() <= p < q@.len() implies (exists|jj: int| 0 <= jj < j + 1 && keys@[jj] == #[trigger] q@[p]) by {
                    let jj = choose|jj: int| 0 <= jj < j && keys@[jj] == q@[p];
                    assert(keys@[jj] == q@[p]);
                }
            }
        }
        j = j + 1;
    }
    proof {
        let qn = q@;
        assert(qn.subrange(0, head as int + 1) =~= q0.subrange(0, head as int + 1)) by {
            assert(qn.subrange(0, q0.len() as int) == q0);
        }
        assert forall|s: OpId| #[trigger] dd.contains(s) implies (indeg@[s] == 0 <==> qn.contains(s)) by {
            lemma_in_count_step(edges@, s, pp, id);
            if q0.contains(s) {
                assert(indeg0[s] == 0);
                assert(in_count(edges@, s, pp) == 0);
            }
            if indeg@[s] == 0 && !q0.contains(s) {
                assert(indeg0[s] != 0);
                assert(count_from(edges@, id, s) > 0);
                assert(has_edge(edges@, id, s)) by {
                    if !has_edge(edges@, id, s) {
                        lemma_count_from_none(edges@, id, s);
                    }
                }
                assert(keys@.contains(s));
            }
        }
        assert forall|p: int, kk: int|
            0 <= p < qn.len() && 0 <= kk < edges@.len() && #[trigger] edges@[kk].dst() == #[trigger] qn[p]
                implies 0 <= pos_of(qn, edges@[kk].src()) < p && pos_of(qn, edges@[kk].src()) < head + 1 by {
        }
    }
}

proof fn lemma_count_from_none(edges: Seq<Edge>, a: OpId, s: OpId)
    requires
        !has_edge(edges, a, s),
    ensures
        count_from(edges, a, s) == 0,
    decreases edges.len(),
{
    if edges.len() > 0 {
        assert(!has_edge(edges.drop_last(), a, s)) by {
            if has_edge(edges.drop_last(), a, s) {
                let k = choose|k: int| 0 <= k < edges.drop_last().len() && edges.drop_last()[k].src() == a && edges.drop_last()[k].dst() == s;
                assert(edges[k] == edges.drop_last()[k]);
            }
        }
        lemma_count_from_none(edges.drop_last(), a, s);
        assert(edges[edges.len() - 1] == edges.last());
    }
}

proof fn lemma_last_src_none(q: Seq<OpId>, edges: Seq<Edge>, s: OpId)
    requires
        forall|k: int| 0 <= k < edges.len() ==> #[trigger] edges[k].dst() != s,
    ensures
        last_src(q, edges, s) == -1,
{
    lemma_last_src_witness(q, edges, s);
}

proof fn lemma_last_src_same(q1: Seq<OpId>, q2: Seq<OpId>, edges: Seq<Edge>, s: OpId)
    requires
        forall|k: int| 0 <= k < edges.len() && #[trigger] edges[k].dst() == s ==> pos_of(q1, edges[k].src()) == pos_of(q2, edges[k].src()),
    ensures
        last_src(q1, edges, s) == last_src(q2, edges, s),
    decreases edges.len(),
{
    if edges.len() > 0 {
        assert forall|k: int| 0 <= k < edges.drop_last().len() && #[trigger] edges.drop_last()[k].dst() == s implies pos_of(q1, edges.drop_last()[k].src()) == pos_of(q2, edges.drop_last()[k].src()) by {
            assert(edges.drop_last()[k] == edges[k]);
        }
        lemma_last_src_same(q1, q2, edges.drop_last(), s);
        assert(edges[edges.len() - 1] == edges.last());
    }
}

/// Two Kahn orders that agree on their first `n` nodes: the `n`-th node of
/// the first occurs in the second, not before `n`, with the same last
/// source.
proof fn lemma_crossover(ops: Set<OpId>, edges: Seq<Edge>, qa: Seq<OpId>, qb: Seq<OpId>, n: int)
    requires
        kahn_order(ops, edges, qa),
        kahn_order(ops, edges, qb),
        0 <= n < qa.len(),
        n <= qb.len(),
        qa.subrange(0, n) == qb.subrange(0, n),
    ensures
        qb.contains(qa[n]),
        pos_of(qb, qa[n]) >= n,
        last_src(qa, edges, qa[n]) == last_src(qb, edges, qa[n]),
{
    let x = qa[n];
    assert forall|k: int| 0 <= k < edges.len() && #[trigger] edges[k].dst() == x implies pos_of(qa, edges[k].src()) == pos_of(qb, edges[k].src()) && qb.contains(edges[k].src()) by {
        let src = edges[k].src();
        let j = pos_of(qa, src);
        assert(0 <= j < n);
        lemma_pos_of_range(qa, src);
        assert(qa.subrange(0, n)[j] == src);
        assert(qb[j] == qb.subrange(0, n)[j]);
        lemma_pos_of_index(qb, j);
    }
    assert(kahn_domain(ops, edges).contains(x));
    assert(qb.contains(x));
    lemma_pos_of_range(qb, x);
    if pos_of(qb, x) < n {
        let j = pos_of(qb, x);
        assert(qb.subrange(0, n)[j] == x);
        assert(qa[j] == qa.subrange(0, n)[j]);
    }
    lemma_last_src_same(qa, qb, edges, x);
}

proof fn lemma_kahn_agree_at(ops: Set<OpId>, edges: Seq<Edge>, q1: Seq<OpId>, q2: Seq<OpId>, n: int)
    requires
        kahn_order(ops, edges, q1),
        kahn_order(ops, edges, q2),
        0 <= n <= q1.len(),
        n <= q2.len(),
        q1.subrange(0, n) == q2.subrange(0, n),
        n < q1.len() || n < q2.len(),
    ensures
        n < q1.len(),
        n < q2.len(),
        q1[n] == q2[n],
{
    if n == q1.len() {
        lemma_crossover(ops, edges, q2, q1, n);
        lemma_pos_of_range(q1, q2[n]);
    } else if n == q2.len() {
        lemma_crossover(ops, edges, q1, q2, n);
        lemma_pos_of_range(q2, q1[n]);
    } else if q1[n] != q2[n] {
        let x = q1[n];
        let y = q2[n];
        lemma_crossover(ops, edges, q1, q2, n);
        lemma_crossover(ops, edges, q2, q1, n);
        lemma_pos_of_range(q2, x);
        lemma_pos_of_range(q1, y);
        let p2 = pos_of(q2, x);
        let p1 = pos_of(q1, y);
        assert(p1 > n);
        assert(p2 > n);
        assert(key_lt(last_src(q1, edges, q1[n]), q1[n], last_src(q1, edges, q1[p1]), q1[p1]));
        assert(key_lt(last_src(q2, edges, q2[n]), q2[n], last_src(q2, edges, q2[p2]), q2[p2]));
    }
}

proof fn lemma_kahn_agree_from(ops: Set<OpId>, edges: Seq<Edge>, q1: Seq<OpId>, q2: Seq<OpId>, n: int)
    requires
        kahn_order(ops, edges, q1),
        kahn_order(ops, edges, q2),
        0 <= n <= q1.len(),
        n <= q2.len(),
        q1.subrange(0, n) == q2.subrange(0, n),
    ensures
        q1 == q2,
    decreases q1.len() - n,
{
    if n == q1.len() && n == q2.len() {
        assert(q1 =~= q1.subrange(0, n));
        assert(q2 =~= q2.subrange(0, n));
    } else {
        lemma_kahn_agree_at(ops, edges, q1, q2, n);
        assert(q1.subrange(0, n + 1) =~= q1.subrange(0, n).push(q1[n]));
        assert(q2.subrange(0, n + 1) =~= q2.subrange(0, n).push(q2[n]));
        lemma_kahn_agree_from(ops, edges, q1, q2, n + 1);
    }
}

/// Kahn's order is determined by the ops and the edges: any two sequences
/// that satisfy `kahn_order` for the same ops and edges are equal.
pub proof fn lemma_kahn_order_unique(ops: Set<OpId>, edges: Seq<Edge>, q1: Seq<OpId>, q2: Seq<OpId>)
    requires
        kahn_order(ops, edges, q1),
        kahn_order(ops, edges, q2),
    ensures
        q1 == q2,
{
    assert(q1.subrange(0, 0) =~= q2.subrange(0, 0));
    lemma_kahn_agree_from(ops, edges, q1, q2, 0);
}

/// The nodes of `ids` and of `edges` in the order in which Kahn's
/// algorithm takes them (see `kahn_order`).
fn kahn(ids: &Vec<OpId>, edges: &Vec<Edge>) -> (q: Vec<OpId>)
    ensures
        kahn_order(ids@.to_set(), edges@, q@),
{
    let mut indeg = build_indeg(ids, edges);
    let keys = indeg.keys();
    let ghost dd = kahn_domain(ids@.to_set(), edges@);
    proof {
        assert forall|j: int| 0 <= j < edges@.len() implies dd.contains(#[trigger] edges@[j].dst()) by {
            assert(edges@[j].dst() == edges@[j].dst());
        }
    }
    // The initial queue: the nodes without entering edges, by increasing id.
    let mut q: Vec<OpId> = Vec::new();
    let mut j: usize = 0;
    while j < keys.len()
        invariant
            0 <= j <= keys@.len(),
            strictly_sorted(keys@),
            forall|s: OpId| indeg@.contains_key(s) <==> keys@.contains(s),
            indeg@.dom() == dd,
            forall|s: OpId| #[trigger] indeg@.contains_key(s) ==> indeg@[s] == in_count(edges@, s, Set::empty()),
            strictly_sorted(q@),
            forall|p: int| 0 <= p < q@.len() ==> exists|jj: int| 0 <= jj < j && keys@[jj] == #[trigger] q@[p],
            forall|p: int| 0 <= p < q@.len() ==> dd.contains(#[trigger] q@[p]) && indeg@[q@[p]] == 0,
            forall|s: OpId| #[trigger] dd.contains(s) ==> (q@.contains(s) <==> (indeg@[s] == 0 && exists|jj: int| 0 <= jj < j && keys@[jj] == s)),
        decreases keys@.len() - j,
    {
        let s = keys[j];
        assert(keys@.contains(s));
        let c: usize = match indeg.get(&s) {
            Some(c) => *c,
            None => 0,
        };
        let ghost qb = q@;
        if c == 0 {
            q.push(s);
            proof {
                assert forall|a: int, b: int| 0 <= a < b < q@.len() implies q@[a].0 < q@[b].0 by {
                    if b == qb.len() {
                        let jj = choose|jj: int| 0 <= jj < j && keys@[jj] == #[trigger] qb[a];
                        assert(keys@[jj].0 < keys@[j as int].0);
                    }
                }
                assert forall|x: OpId| #[trigger] dd.contains(x) implies (q@.contains(x) <==> (indeg@[x] == 0 && exists|jj: int| 0 <= jj < j + 1 && keys@[jj] == x)) by {
                    if x == s {
                        assert(q@[qb.len() as int] == s);
                    } else {
                        if q@.contains(x) {
                            let p = choose|p: int| 0 <= p < q@.len() && q@[p] == x;
                            assert(qb[p] == x);
                        }
                        if qb.contains(x) {
                            let p = choose|p: int| 0 <= p < qb.len() && qb[p] == x;
                            assert(q@[p] == x);
                        }
                    }
                }
                assert forall|p: int| 0 <= p < q@.len() implies exists|jj: int| 0 <= jj < j + 1 && keys@[jj] == #[trigger] q@[p] by {
                    if p < qb.len() {
                        let jj = choose|jj: int| 0 <= jj < j && keys@[jj] == #[trigger] qb[p];
                        assert(keys@[jj] == q@[p]);
                    } else {
                        assert(keys@[j as int] == q@[p]);
                    }
                }
            }
        } else {
            proof {
                assert forall|x: OpId| #[trigger] dd.contains(x) implies (q@.contains(x) <==> (indeg@[x] == 0 && exists|jj: int| 0 <= jj < j + 1 && keys@[jj] == x)) by {
                    if exists|jj: int| 0 <= jj < j + 1 && keys@[jj] == x {
                        let jj = choose|jj: int| 0 <= jj < j + 1 && keys@[jj] == x;
                        if jj == j {
                            assert(x == s);
                        }
                    }
                }
                assert forall|p: int| 0 <= p < q@.len() implies exists|jj: int| 0 <= jj < j + 1 && keys@[jj] == #[trigger] q@[p] by {
                    let jj = choose|jj: int| 0 <= jj < j && keys@[jj] == #[trigger] q@[p];
                    assert(keys@[jj] == q@[p]);
                }
            }
        }
        j = j + 1;
    }
    proof {
        assert(q@.subrange(0, 0).to_set() =~= Set::<OpId>::empty());
        assert forall|p: int, k: int|
            0 <= p < q@.len() && 0 <= k < edges@.len() && #[trigger] edges@[k].dst() == #[trigger] q@[p]
                implies 0 <= pos_of(q@, edges@[k].src()) < p && pos_of(q@, edges@[k].src()) < 0 by {
            lemma_in_count_zero(edges@, q@[p], Set::empty());
        }
        assert forall|p: int| 0 <= p < q@.len() implies last_src(q@, edges@, #[trigger] q@[p]) == -1 by {
            lemma_in_count_zero(edges@, q@[p], Set::empty());
            lemma_last_src_none(q@, edges@, q@[p]);
        }
        assert forall|s: OpId| #[trigger] dd.contains(s) implies (indeg@[s] == 0 <==> q@.contains(s)) by {
            assert(keys@.contains(s));
            let jj = choose|jj: int| 0 <= jj < keys@.len() && keys@[jj] == s;
        }
        assert(kahn_inv(dd, edges@, q@, 0, indeg@));
        assert(keys@.no_duplicates()) by {
            assert forall|a: int, b: int| 0 <= a < b < keys@.len() implies keys@[a] != keys@[b] by {
                assert(keys@[a].0 < keys@[b].0);
            }
        }
        lemma_nodup_subset_len(q@, keys@);
    }
    // Take the queue in order, releasing edges and appending ready nodes.
    let mut head: usize = 0;
    while head < q.len()
        invariant
            kahn_inv(dd, edges@, q@, head as int, indeg@),
            strictly_sorted(keys@),
            forall|s: OpId| dd.contains(s) <==> keys@.contains(s),
            forall|j: int| 0 <= j < edges@.len() ==> dd.contains(#[trigger] edges@[j].dst()),
            q@.len() <= keys@.len(),
        decreases keys@.len() - head,
    {
        kahn_step(&mut q, head, &mut indeg, &keys, edges, Ghost(dd));
        head = head + 1;
        proof {
            assert(keys@.no_duplicates()) by {
                assert forall|a: int, b: int| 0 <= a < b < keys@.len() implies keys@[a] != keys@[b] by {
                    assert(keys@[a].0 < keys@[b].0);
                }
            }
            lemma_nodup_subset_len(q@, keys@);
        }
    }
    proof {
        assert(q@.subrange(0, head as int) =~= q@);
        assert forall|s: OpId|
            kahn_domain(ids@.to_set(), edges@).contains(s) && (forall|k: int|
                0 <= k < edges@.len() && #[trigger] edges@[k].dst() == s ==> q@.contains(edges@[k].src()))
            implies q@.contains(s) by {
            lemma_in_count_zero(edges@, s, q@.to_set());
        }
    }
    q
}

/// `m` (or empty metadata) with both tokens set.
pub open spec fn with_tokens(m: Option<OpMeta>, tin: u32, tout: u32) -> OpMeta {
    match m {
        Some(m) => OpMeta { token_in: Some(TokenId(tin)), token_out: Some(TokenId(tout)), ..m },
        None => OpMeta {
            backend: None,
            token_in: Some(TokenId(tin)),
            token_out: Some(TokenId(tout)),
            source_hint: None,
        },
    }
}

/// The metadata after tokens are assigned along `q`: each node of `q` gets
/// token_out = its 1-based position and token_in = the largest token_out
/// among the sources of its entering edges (0 if none); other entries are
/// kept.
pub open spec fn tokened_meta(meta: Map<OpId, OpMeta>, edges: Seq<Edge>, q: Seq<OpId>) -> Map<OpId, OpMeta> {
    Map::new(
        |k: OpId| meta.contains_key(k) || q.contains(k),
        |k: OpId|
            if q.contains(k) {
                with_tokens(
                    if meta.contains_key(k) { Some(meta[k]) } else { None },
                    (last_src(q, edges, k) + 1) as u32,
                    (pos_of(q, k) + 1) as u32,
                )
            } else {
                meta[k]
            },
    )
}

/// `tokened_meta` with only the first `n` nodes of `q` tokened.
spec fn tokened_prefix(meta: Map<OpId, OpMeta>, edges: Seq<Edge>, q: Seq<OpId>, n: int) -> Map<OpId, OpMeta> {
    Map::new(
        |k: OpId| meta.contains_key(k) || q.subrange(0, n).contains(k),
        |k: OpId|
            if q.subrange(0, n).contains(k) {
                with_tokens(
                    if meta.contains_key(k) { Some(meta[k]) } else { None },
                    (last_src(q, edges, k) + 1) as u32,
                    (pos_of(q, k) + 1) as u32,
                )
            } else {
                meta[k]
            },
    )
}

/// The ids of `ids` that do not occur in `q`, in the order of `ids`.
pub open spec fn left_out(ids: Seq<OpId>, q: Seq<OpId>) -> Seq<OpId>
    decreases ids.len(),
{
    if ids.len() == 0 {
        Seq::empty()
    } else if q.contains(ids.last()) {
        left_out(ids.drop_last(), q)
    } else {
        left_out(ids.drop_last(), q).push(ids.last())
    }
}

/// `g` is `f` with its ops ordered and tokened: `g.order` is Kahn's order
/// of the ops and edges of `f` and holds as many nodes as `f` has ops; the
/// metadata carries the tokens along that order; name, ops and edges are
/// kept.
pub open spec fn tokens_assigned(f: Function, g: Function) -> bool {
    &&& kahn_order(f.ops@.dom(), f.edges@, g.order@)
    &&& g.order@.len() == f.ops.ids().len()
    &&& f.ops.ids().len() <= u32::MAX
    &&& g.name == f.name
    &&& g.ops == f.ops
    &&& g.edges == f.edges
    &&& g.meta@ == tokened_meta(f.meta@, f.edges@, g.order@)
}

/// Kahn's order of the ops and edges of `f` holds as many nodes as `f` has
/// ops.
pub open spec fn orders_all(f: Function) -> bool {
    forall|q: Seq<OpId>| #[trigger] kahn_order(f.ops@.dom(), f.edges@, q) ==> q.len() == f.ops.ids().len()
}

proof fn lemma_assigned_orders_all(f: Function, g: Function)
    requires
        tokens_assigned(f, g),
    ensures
        orders_all(f),
{
    assert forall|q: Seq<OpId>| #[trigger] kahn_order(f.ops@.dom(), f.edges@, q) implies q.len() == f.ops.ids().len() by {
        lemma_kahn_order_unique(f.ops@.dom(), f.edges@, q, g.order@);
    }
}

/// Kahn's algorithm cannot order `f`: its order has fewer (or more) nodes
/// than `f` has ops, and `cycle` lists, by increasing id, the ops it left
/// out.
pub open spec fn cycle_of(f: Function, cycle: Seq<OpId>) -> bool {
    exists|q: Seq<OpId>|
        kahn_order(f.ops@.dom(), f.edges@, q) && q.len() != f.ops.ids().len() && cycle == left_out(
            f.ops.ids(),
            q,
        )
}

/// The ops of `ids` that `q` leaves out, in order.
fn collect_left_out(ids: &Vec<OpId>, q: &Vec<OpId>) -> (r: Vec<OpId>)
    ensures
        r@ == left_out(ids@, q@),
{
    let mut r: Vec<OpId> = Vec::new();
    let mut i: usize = 0;
    while i < ids.len()
        invariant
            0 <= i <= ids@.len(),
            r@ == left_out(ids@.subrange(0, i as int), q@),
        decreases ids@.len() - i,
    {
        let x = ids[i];
        let mut found = false;
        let mut j: usize = 0;
        while j < q.len()
            invariant
                0 <= j <= q@.len(),
                found == (exists|jj: int| 0 <= jj < j && q@[jj] == x),
            decreases q@.len() - j,
        {
            if q[j] == x {
                found = true;
            }
            j = j + 1;
        }
        assert(ids@.subrange(0, i as int + 1).drop_last() =~= ids@.subrange(0, i as int));
        if !found {
            r.push(x);
        }
        i = i + 1;
    }
    assert(ids@.subrange(0, i as int) =~= ids@);
    r
}

/// The largest token_out among the sources of the edges entering `id`
/// (0 if none), read from `tok`, which holds the tokens of `q[..i]`.
fn max_pred_token(edges: &Vec<Edge>, tok: &IdMap<u32>, id: OpId, Ghost(q): Ghost<Seq<OpId>>, Ghost(i): Ghost<int>) -> (m: u32)
    requires
        q.no_duplicates(),
        0 <= i < q.len() <= u32::MAX,
        q[i] == id,
        forall|x: OpId| #[trigger] tok@.contains_key(x) <==> q.subrange(0, i).contains(x),
        forall|x: OpId| #[trigger] tok@.contains_key(x) ==> tok@[x] == pos_of(q, x) + 1,
        forall|k: int| 0 <= k < edges@.len() && #[trigger] edges@[k].dst() == id ==> 0 <= pos_of(q, edges@[k].src()) < i,
    ensures
        m == last_src(q, edges@, id) + 1,
{
    let mut m: u32 = 0;
    let mut k: usize = 0;
    while k < edges.len()
        invariant
            0 <= k <= edges@.len(),
            q.no_duplicates(),
            0 <= i < q.len() <= u32::MAX,
            q[i] == id,
            forall|x: OpId| #[trigger] tok@.contains_key(x) <==> q.subrange(0, i).contains(x),
            forall|x: OpId| #[trigger] tok@.contains_key(x) ==> tok@[x] == pos_of(q, x) + 1,
            forall|kk: int| 0 <= kk < edges@.len() && #[trigger] edges@[kk].dst() == id ==> 0 <= pos_of(q, edges@[kk].src()) < i,
            m == last_src(q, edges@.subrange(0, k as int), id) + 1,
        decreases edges@.len() - k,
    {
        assert(edges@.subrange(0, k as int + 1).drop_last() =~= edges@.subrange(0, k as int));
        assert(edges@.subrange(0, k as int + 1).last() == edges@[k as int]);
        if edges[k].dst() == id {
            let src = edges[k].src();
            proof {
                assert(edges@[k as int].dst() == id);
                let ps = pos_of(q, edges@[k as int].src());
                lemma_pos_of_range(q, src);
                assert(0 <= ps < i);
                assert(q.subrange(0, i)[ps] == src);
            }
            match tok.get(&src) {
                Some(t) => {
                    if *t > m {
                        m = *t;
                    }
                },
                None => {
                    assert(false);
                },
            }
        }
        k = k + 1;
    }
    assert(edges@.subrange(0, k as int) =~= edges@);
    m
}

/// Orders the ops of `f` by Kahn's algorithm and assigns their tokens.
/// When the order does not hold as many nodes as `f` has ops, `f` is left
/// as it was and the error lists the ops left out.
pub fn assign_tokens_in(f: &mut Function) -> (r: Result<(), IrError>)
    requires
        old(f).ops.ids().len() <= u32::MAX,
    ensures
        r is Ok <==> orders_all(*old(f)),
        r is Ok ==> tokens_assigned(*old(f), *final(f)),
        r matches Err(e) ==> *final(f) == *old(f) && (e matches IrError::TokenGraphCycle { cycle } && cycle_of(*old(f), cycle@)),
{
    let ids = f.ops.keys();
    let q = kahn(&ids, &f.edges);
    proof {
        assert(ids@.to_set() =~= f.ops@.dom());
    }
    if q.len() != ids.len() {
        let cycle = collect_left_out(&ids, &q);
        proof {
            assert(kahn_order(f.ops@.dom(), f.edges@, q@));
        }
        return Err(IrError::TokenGraphCycle { cycle });
    }
    let ghost meta0 = f.meta@;
    let ghost edges = f.edges@;
    let mut tok: IdMap<u32> = IdMap::new();
    let mut i: usize = 0;
    while i < q.len()
        invariant
            0 <= i <= q@.len(),
            q@.len() <= u32::MAX,
            kahn_order(f.ops@.dom(), edges, q@),
            f.edges@ == edges,
            f.name == old(f).name,
            f.ops == old(f).ops,
            f.edges == old(f).edges,
            f.order == old(f).order,
            forall|x: OpId| #[trigger] tok@.contains_key(x) <==> q@.subrange(0, i as int).contains(x),
            forall|x: OpId| #[trigger] tok@.contains_key(x) ==> tok@[x] == pos_of(q@, x) + 1,
            f.meta@ == tokened_prefix(meta0, edges, q@, i as int),
        decreases q@.len() - i,
    {
        let id = q[i];
        let ghost qi = q@.subrange(0, i as int);
        proof {
            assert forall|k: int| 0 <= k < edges.len() && #[trigger] edges[k].dst() == id implies 0 <= pos_of(q@, edges[k].src()) < i by {
                assert(q@[i as int] == id);
            }
        }
        let m = max_pred_token(&f.edges, &tok, id, Ghost(q@), Ghost(i as int));
        let this_tok: u32 = (i as u32) + 1;
        tok.insert(id, this_tok);
        let new_meta = match f.meta.remove(&id) {
            Some(mm) => OpMeta { token_in: Some(TokenId(m)), token_out: Some(TokenId(this_tok)), ..mm },
            None => OpMeta {
                backend: None,
                token_in: Some(TokenId(m)),
                token_out: Some(TokenId(this_tok)),
                source_hint: None,
            },
        };
        f.meta.insert(id, new_meta);
        proof {
            let qn = q@.subrange(0, i as int + 1);
            assert(qn =~= qi.push(id));
            lemma_pos_of_index(q@, i as int);
            assert(!qi.contains(id)) by {
                if qi.contains(id) {
                    let jj = choose|jj: int| 0 <= jj < qi.len() && qi[jj] == id;
                    assert(q@[jj] == q@[i as int]);
                }
            }
            assert forall|x: OpId| #[trigger] tok@.contains_key(x) <==> qn.contains(x) by {
                if qn.contains(x) && x != id {
                    let jj = choose|jj: int| 0 <= jj < qn.len() && qn[jj] == x;
                    assert(qi[jj] == x);
                }
                if qi.contains(x) {
                    let jj = choose|jj: int| 0 <= jj < qi.len() && qi[jj] == x;
                    assert(qn[jj] == x);
                }
                if x == id {
                    assert(qn[i as int] == x);
                }
            }
            assert forall|x: OpId| #[trigger] qn.contains(x) <==> (qi.contains(x) || x == id) by {
                if qn.contains(x) && x != id {
                    let jj = choose|jj: int| 0 <= jj < qn.len() && qn[jj] == x;
                    assert(qi[jj] == x);
                }
                if qi.contains(x) {
                    let jj = choose|jj: int| 0 <= jj < qi.len() && qi[jj] == x;
                    assert(qn[jj] == x);
                }
                if x == id {
                    assert(qn[i as int] == x);
                }
            }
            assert(f.meta@ =~= tokened_prefix(meta0, edges, q@, i as int + 1));
        }
        i = i + 1;
    }
    proof {
        assert(q@.subrange(0, i as int) =~= q@);
        assert(f.meta@ =~= tokened_meta(meta0, edges, q@));
    }
    f.order = q;
    proof {
        lemma_assigned_orders_all(*old(f), *f);
    }
    Ok(())
}

/// The `p`-th op of the order gets token_out `p + 1`.
pub proof fn lemma_token_out_is_position(f: Function, g: Function, p: int)
    requires
        tokens_assigned(f, g),
        0 <= p < g.order@.len(),
    ensures
        g.meta@.contains_key(g.order@[p]),
        g.meta@[g.order@[p]].token_out == Some(TokenId((p + 1) as u32)),
{
    let q = g.order@;
    assert(q.contains(q[p]));
    lemma_pos_of_index(q, p);
}

/// Distinct ordered ops get distinct token_out values.
pub proof fn lemma_token_out_distinct(f: Function, g: Function, p1: int, p2: int)
    requires
        tokens_assigned(f, g),
        0 <= p1 < g.order@.len(),
        0 <= p2 < g.order@.len(),
        p1 != p2,
    ensures
        g.order@[p1] != g.order@[p2],
        g.meta@[g.order@[p1]].token_out != g.meta@[g.order@[p2]].token_out,
{
    lemma_token_out_is_position(f, g, p1);
    lemma_token_out_is_position(f, g, p2);
}

/// Tokens follow the edges: for an edge whose target was ordered, the
/// source was ordered too, its token_out is at most the target's token_in,
/// and the target's token_in is below its token_out.
pub proof fn lemma_tokens_follow_edges(f: Function, g: Function, k: int)
    requires
        tokens_assigned(f, g),
        0 <= k < f.edges@.len(),
        g.order@.contains(f.edges@[k].dst()),
    ensures
        g.order@.contains(f.edges@[k].src()),
        g.meta@[f.edges@[k].src()].token_out is Some,
        g.meta@[f.edges@[k].dst()].token_in is Some,
        g.meta@[f.edges@[k].dst()].token_out is Some,
        g.meta@[f.edges@[k].src()].token_out.unwrap().0 <= g.meta@[f.edges@[k].dst()].token_in.unwrap().0,
        g.meta@[f.edges@[k].dst()].token_in.unwrap().0 < g.meta@[f.edges@[k].dst()].token_out.unwrap().0,
{
    let q = g.order@;
    let edges = f.edges@;
    let src = edges[k].src();
    let dst = edges[k].dst();
    let p = choose|p: int| 0 <= p < q.len() && q[p] == dst;
    lemma_pos_of_index(q, p);
    assert(edges[k].dst() == q[p]);
    lemma_pos_of_range(q, src);
    let ps = pos_of(q, src);
    assert(0 <= ps < p);
    assert(q.contains(src));
    lemma_last_src_bound(q, edges, dst, k);
    lemma_last_src_witness(q, edges, dst);
    let ls = last_src(q, edges, dst);
    if ls != -1 {
        let kk = choose|kk: int| 0 <= kk < edges.len() && edges[kk].dst() == dst && ls == pos_of(q, edges[kk].src());
        assert(edges[kk].dst() == q[p]);
    }
    assert(ps <= ls < p);
}

/// The assign_tokens pass.
pub struct AssignTokens;

/// How the pass fails on `f`: with more ops than a `u32` token can number,
/// a `PassFailed` of this pass on no particular op; otherwise with the ops
/// Kahn's order leaves out.
pub open spec fn fails_with(f: Function, e: IrError) -> bool {
    if f.ops.ids().len() > u32::MAX {
        e matches IrError::PassFailed { pass, node, .. } && pass@ == "assign_tokens"@ && node is None
    } else {
        &&& !orders_all(f)
        &&& e matches IrError::TokenGraphCycle { cycle } && cycle_of(f, cycle@)
    }
}

impl Pass for AssignTokens {
    /// What a run does: see `run`.
    open spec fn runs_to(&self, before: Module, after: Module, r: Result<(), IrError>) -> bool {
        &&& (after.symbols == before.symbols)
        &&& (after.functions@.len() == before.functions@.len())
        &&& (r is Ok ==> forall|i: int| 0 <= i < before.functions@.len() ==> tokens_assigned(
                    #[trigger] before.functions@[i],
                    after.functions@[i],
            ))
        &&& (r matches Err(e) ==> exists|j: int|
                    0 <= j < before.functions@.len()
                    && (forall|i: int| 0 <= i < j ==> tokens_assigned(#[trigger] before.functions@[i], after.functions@[i]))
                    && (forall|i: int| j <= i < before.functions@.len() ==> #[trigger] after.functions@[i] == before.functions@[i])
                    && fails_with(before.functions@[j], e))
        &&& (r is Ok <==> forall|i: int| 0 <= i < before.functions@.len() ==> (#[trigger] before.functions@[i]).ops.ids().len() <= u32::MAX && orders_all(before.functions@[i]))
    }

    fn name(&self) -> (r: &'static str)
        ensures
            r@ == "assign_tokens"@,
    {
        "assign_tokens"
    }

    /// Orders and tokens every function in turn, stopping at the first
    /// that cannot be ordered; the functions before it keep their tokens.
    fn run(&mut self, module: &mut Module) -> (r: Result<(), IrError>)
        ensures
            final(module).symbols == old(module).symbols,
            final(module).functions@.len() == old(module).functions@.len(),
            r is Ok ==> forall|i: int| 0 <= i < old(module).functions@.len() ==> tokens_assigned(
                #[trigger] old(module).functions@[i],
                final(module).functions@[i],
            ),
            r matches Err(e) ==> exists|j: int|
                0 <= j < old(module).functions@.len()
                && (forall|i: int| 0 <= i < j ==> tokens_assigned(#[trigger] old(module).functions@[i], final(module).functions@[i]))
                && (forall|i: int| j <= i < old(module).functions@.len() ==> #[trigger] final(module).functions@[i] == old(module).functions@[i])
                && fails_with(old(module).functions@[j], e),
            r is Ok <==> forall|i: int| 0 <= i < old(module).functions@.len() ==> (#[trigger] old(module).functions@[i]).ops.ids().len() <= u32::MAX && orders_all(old(module).functions@[i]),
    {
        let n = module.functions.len();
        let mut i: usize = 0;
        while i < n
            invariant
                0 <= i <= n,
                n == module.functions@.len(),
                n == old(module).functions@.len(),
                module.symbols == old(module).symbols,
                forall|j: int| 0 <= j < i ==> tokens_assigned(#[trigger] old(module).functions@[j], module.functions@[j]),
                forall|j: int| i <= j < n ==> #[trigger] module.functions@[j] == old(module).functions@[j],
            decreases n - i,
        {
            let count = module.functions[i].ops.len();
            if count as u64 > 0xffff_ffffu64 {
                let e = IrError::PassFailed {
                    pass: "assign_tokens",
                    node: None,
                    msg: "more ops than tokens can number".to_string(),
                };
                proof {
                    reveal_strlit("assign_tokens");
                    assert(module.functions@[i as int] == old(module).functions@[i as int]);
                }
                return Err(e);
            }
            let res = assign_tokens_in(&mut module.functions[i]);
            match res {
                Ok(()) => {},
                Err(e) => {
                    proof {
                        assert(module.functions@[i as int] == old(module).functions@[i as int]);
                    }
                    return Err(e);
                },
            }
            i = i + 1;
        }
        proof {
            assert forall|j: int| 0 <= j < old(module).functions@.len() implies (#[trigger] old(module).functions@[j]).ops.ids().len() <= u32::MAX && orders_all(old(module).functions@[j]) by {
                lemma_assigned_orders_all(old(module).functions@[j], module.functions@[j]);
            }
        }
        Ok(())
    }
}


} // verus!
