//! validate_against_rtlmap: diffs a SlugIR function against a pipeline
//! rtlmap (the oracle): which nodes are missing or extra, which carry the
//! wrong IP, and which token edges are missing or extra.
//!
//! Ops are matched to rtlmap nodes through their source hints. Everything
//! is walked in a fixed order (ops by id, oracle entries as listed), so the
//! diff is deterministic; each list names a node or an edge once.

use vstd::prelude::*;
use vstd::string::*;

use super::super::error::{IrError, RtlmapDiff};
use super::super::idmap::{strictly_sorted, IdMap};
use super::super::graph::Edge;
use super::super::module::{Function, Module};
use super::super::op::OpMeta;
use super::super::pass::Pass;
use super::super::types::{lemma_catalog_name_injective, spec_all_ips, spec_catalog_name, IpId, OpId};

verus! {

/// A pipeline rtlmap: named nodes with their selected IP, and the channels
/// between them.
#[derive(Debug)]
pub struct PipelineRtlmap {
    pub name: String,
    pub nodes: Vec<PipelineNode>,
    pub edges: Vec<PipelineEdge>,
}

/// One node of a pipeline rtlmap.
#[derive(Debug)]
pub struct PipelineNode {
    pub node_id: String,
    pub op: String,
    pub selected_ip: String,
}

/// One channel of a pipeline rtlmap.
#[derive(Debug)]
pub struct PipelineEdge {
    pub from: String,
    pub to: String,
    pub channel: String,
}

/// Whether two strings hold the same characters.
fn str_eq(a: &str, b: &str) -> (r: bool)
    ensures
        r == (a@ == b@),
{
    String::from_str(a) == String::from_str(b)
}

/// Maps a Gemma IP catalog name (e.g. "systolic_array_16x16") to its IP.
pub fn parse_ip_id(name: &str) -> (r: Option<IpId>)
    ensures
        r matches Some(ip) ==> spec_catalog_name(ip) == name@,
        r is None <==> (forall|ip: IpId| spec_catalog_name(ip) != name@),
        forall|ip: IpId| spec_catalog_name(ip) == name@ ==> r == Some(ip),
{
    let all = IpId::all();
    let mut i: usize = 0;
    while i < all.len()
        invariant
            0 <= i <= all@.len(),
            all@ == spec_all_ips(),
            forall|j: int| 0 <= j < i ==> spec_catalog_name(#[trigger] all@[j]) != name@,
        decreases all@.len() - i,
    {
        let ip = all[i];
        if str_eq(ip.catalog_name(), name) {
            proof {
                assert forall|ip2: IpId| spec_catalog_name(ip2) == name@ implies Some(ip) == Some(ip2) by {
                    lemma_catalog_name_injective(ip, ip2);
                }
            }
            return Some(ip);
        }
        i = i + 1;
    }
    proof {
        assert forall|ip: IpId| spec_catalog_name(ip) != name@ by {
            let j: int = match ip {
                IpId::SystolicArray4x4 => 0,
                IpId::SystolicArray16x16 => 1,
                IpId::SystolicArray32x32 => 2,
                IpId::NpuArrayV4SeedG => 3,
                IpId::NpuClusterV4 => 4,
                IpId::NoCMesh => 5,
                IpId::GemmIp => 6,
                IpId::PtxEmulationCore => 7,
                IpId::SlugCxl4x4 => 8,
            };
            assert(all@[j] == ip);
        }
    }
    None
}

/// The characters of each string.
pub open spec fn strs(v: Seq<String>) -> Seq<Seq<char>> {
    v.map_values(|s: String| s@)
}

/// The characters of each pair of strings.
pub open spec fn str_pairs(v: Seq<(String, String)>) -> Seq<(Seq<char>, Seq<char>)> {
    v.map_values(|p: (String, String)| (p.0@, p.1@))
}

/// The node named by hint `h`: the value of the first entry of `hints`
/// whose key is `h`.
pub open spec fn hint_lookup(hints: Seq<(String, String)>, h: Seq<char>) -> Option<Seq<char>>
    decreases hints.len(),
{
    if hints.len() == 0 {
        None
    } else {
        match hint_lookup(hints.drop_last(), h) {
            Some(n) => Some(n),
            None => if hints.last().0@ == h {
                Some(hints.last().1@)
            } else {
                None
            },
        }
    }
}

/// The node that op `id` is matched to: the node its source hint names.
pub open spec fn op_node(meta: Map<OpId, OpMeta>, hints: Seq<(String, String)>, id: OpId) -> Option<Seq<char>> {
    if meta.contains_key(id) {
        match meta[id].source_hint {
            Some(h) => hint_lookup(hints, h@),
            None => None,
        }
    } else {
        None
    }
}

/// The ops of `ids` matched to a node, each with its node, in order.
pub open spec fn matched_ops(meta: Map<OpId, OpMeta>, hints: Seq<(String, String)>, ids: Seq<OpId>) -> Seq<(OpId, Seq<char>)>
    decreases ids.len(),
{
    if ids.len() == 0 {
        Seq::empty()
    } else {
        let r = matched_ops(meta, hints, ids.drop_last());
        match op_node(meta, hints, ids.last()) {
            Some(n) => r.push((ids.last(), n)),
            None => r,
        }
    }
}

/// The op that stands for node `n`: of the ops matched to it, the last.
pub open spec fn node_op(pairs: Seq<(OpId, Seq<char>)>, n: Seq<char>) -> Option<OpId>
    decreases pairs.len(),
{
    if pairs.len() == 0 {
        None
    } else if pairs.last().1 == n {
        Some(pairs.last().0)
    } else {
        node_op(pairs.drop_last(), n)
    }
}

/// The first occurrence of each element of `s` that is not in `excl`, in
/// order.
pub open spec fn firsts_outside<A>(s: Seq<A>, excl: Set<A>) -> Seq<A>
    decreases s.len(),
{
    if s.len() == 0 {
        Seq::empty()
    } else {
        let r = firsts_outside(s.drop_last(), excl);
        if excl.contains(s.last()) || s.drop_last().contains(s.last()) {
            r
        } else {
            r.push(s.last())
        }
    }
}

/// The IP an op's metadata selects, by catalog name, or "<unassigned>".
pub open spec fn ip_name(m: OpMeta) -> Seq<char> {
    match m.backend {
        Some(b) => spec_catalog_name(b.0),
        None => "<unassigned>"@,
    }
}

/// The node ids of the oracle's nodes, in order.
pub open spec fn node_ids(nodes: Seq<PipelineNode>) -> Seq<Seq<char>> {
    nodes.map_values(|n: PipelineNode| n.node_id@)
}

/// For each oracle node whose op selects another IP: (node id, the IP the
/// oracle selects, the IP the op selects), in oracle order.
pub open spec fn wrong_ips(nodes: Seq<PipelineNode>, meta: Map<OpId, OpMeta>, pairs: Seq<(OpId, Seq<char>)>) -> Seq<(Seq<char>, Seq<char>, Seq<char>)>
    decreases nodes.len(),
{
    if nodes.len() == 0 {
        Seq::empty()
    } else {
        let r = wrong_ips(nodes.drop_last(), meta, pairs);
        let n = nodes.last();
        match node_op(pairs, n.node_id@) {
            Some(op) => if ip_name(meta[op]) != n.selected_ip@ {
                r.push((n.node_id@, n.selected_ip@, ip_name(meta[op])))
            } else {
                r
            },
            None => r,
        }
    }
}

/// The oracle's token channels, as (from, to), in order.
pub open spec fn oracle_token_edges(edges: Seq<PipelineEdge>) -> Seq<(Seq<char>, Seq<char>)>
    decreases edges.len(),
{
    if edges.len() == 0 {
        Seq::empty()
    } else {
        let r = oracle_token_edges(edges.drop_last());
        if edges.last().channel@ == "token"@ {
            r.push((edges.last().from@, edges.last().to@))
        } else {
            r
        }
    }
}

/// The oracle edges a diff compares are exactly its token channels: a
/// (from, to) pair is among them when, and only when, some oracle edge of
/// channel "token" runs from `from` to `to`; an edge of any other channel
/// added to the oracle changes nothing.
pub proof fn lemma_oracle_token_edges(edges: Seq<PipelineEdge>, e: PipelineEdge, from: Seq<char>, to: Seq<char>)
    ensures
        oracle_token_edges(edges).contains((from, to)) <==> exists|i: int|
            0 <= i < edges.len() && edges[i].channel@ == "token"@ && edges[i].from@ == from && edges[i].to@ == to,
        e.channel@ != "token"@ ==> oracle_token_edges(edges.push(e)) == oracle_token_edges(edges),
    decreases edges.len(),
{
    assert(edges.push(e).drop_last() =~= edges);
    if edges.len() > 0 {
        let init = edges.drop_last();
        lemma_oracle_token_edges(init, e, from, to);
        let r = oracle_token_edges(init);
        if oracle_token_edges(edges).contains((from, to)) {
            if r.contains((from, to)) {
                let i = choose|i: int|
                    0 <= i < init.len() && init[i].channel@ == "token"@ && init[i].from@ == from && init[i].to@ == to;
                assert(edges[i] == init[i]);
            } else {
                let k = choose|k: int| 0 <= k < oracle_token_edges(edges).len() && oracle_token_edges(edges)[k] == (from, to);
                assert(k == r.len());
                assert(edges[edges.len() - 1] == edges.last());
            }
        }
        if exists|i: int| 0 <= i < edges.len() && edges[i].channel@ == "token"@ && edges[i].from@ == from && edges[i].to@ == to {
            let i = choose|i: int|
                0 <= i < edges.len() && edges[i].channel@ == "token"@ && edges[i].from@ == from && edges[i].to@ == to;
            if i < edges.len() - 1 {
                assert(init[i] == edges[i]);
                let k = choose|k: int| 0 <= k < r.len() && r[k] == (from, to);
                if edges.last().channel@ == "token"@ {
                    assert(r.push((edges.last().from@, edges.last().to@))[k] == (from, to));
                }
            } else {
                assert(edges.last() == edges[i]);
                assert(oracle_token_edges(edges) == r.push((from, to)));
                assert(oracle_token_edges(edges)[r.len() as int] == (from, to));
            }
        }
    }
}

proof fn lemma_firsts_outside_within<A>(s: Seq<A>, excl: Set<A>, x: A)
    ensures
        firsts_outside(s, excl).contains(x) ==> s.contains(x) && !excl.contains(x),
    decreases s.len(),
{
    if s.len() > 0 {
        lemma_firsts_outside_within(s.drop_last(), excl, x);
        let r = firsts_outside(s.drop_last(), excl);
        if firsts_outside(s, excl).contains(x) {
            if r.contains(x) {
                let i = choose|i: int| 0 <= i < s.drop_last().len() && s.drop_last()[i] == x;
                assert(s[i] == x);
            } else {
                let k = choose|k: int| 0 <= k < firsts_outside(s, excl).len() && firsts_outside(s, excl)[k] == x;
                assert(k == r.len());
                assert(s[s.len() - 1] == x);
            }
        }
    }
}

/// Every edge a diff reports as missing is a token channel of the oracle,
/// from one node to another, that the function's edges between matched ops
/// do not have.
pub proof fn lemma_missing_edges_are_token_channels(
    f: Function,
    oracle: PipelineRtlmap,
    hints: Seq<(String, String)>,
    p: (Seq<char>, Seq<char>),
)
    ensures
        firsts_outside(oracle_token_edges(oracle.edges@), matched_edges(f.edges@, f.meta@, hints).to_set()).contains(p) ==> {
            &&& exists|i: int|
                0 <= i < oracle.edges@.len() && oracle.edges@[i].channel@ == "token"@ && oracle.edges@[i].from@ == p.0
                    && oracle.edges@[i].to@ == p.1
            &&& !matched_edges(f.edges@, f.meta@, hints).contains(p)
        },
{
    let e = oracle.edges@;
    let ae = matched_edges(f.edges@, f.meta@, hints);
    lemma_firsts_outside_within(oracle_token_edges(e), ae.to_set(), p);
    if e.len() > 0 {
        lemma_oracle_token_edges(e, e[0], p.0, p.1);
    }
}

/// The function's edges between matched ops, as (node, node), in order.
pub open spec fn matched_edges(edges: Seq<Edge>, meta: Map<OpId, OpMeta>, hints: Seq<(String, String)>) -> Seq<(Seq<char>, Seq<char>)>
    decreases edges.len(),
{
    if edges.len() == 0 {
        Seq::empty()
    } else {
        let r = matched_edges(edges.drop_last(), meta, hints);
        match (op_node(meta, hints, edges.last().src()), op_node(meta, hints, edges.last().dst())) {
            (Some(s), Some(d)) => r.push((s, d)),
            _ => r,
        }
    }
}

/// One message per edge: `prefix`, the source node, " -> ", the target.
pub open spec fn edge_msgs(prefix: Seq<char>, es: Seq<(Seq<char>, Seq<char>)>) -> Seq<Seq<char>> {
    es.map_values(|e: (Seq<char>, Seq<char>)| prefix + e.0 + " -> "@ + e.1)
}

/// `d` is the diff of `f` against `oracle` with hints `hints`.
pub open spec fn is_diff(f: Function, oracle: PipelineRtlmap, hints: Seq<(String, String)>, d: RtlmapDiff) -> bool {
    let pairs = matched_ops(f.meta@, hints, f.meta.ids());
    let actual = pairs.map_values(|p: (OpId, Seq<char>)| p.1);
    let oracle_ids = node_ids(oracle.nodes@);
    let oe = oracle_token_edges(oracle.edges@);
    let ae = matched_edges(f.edges@, f.meta@, hints);
    &&& strs(d.missing_nodes@) == firsts_outside(oracle_ids, actual.to_set())
    &&& strs(d.extra_nodes@) == firsts_outside(actual, oracle_ids.to_set())
    &&& d.wrong_ip@.map_values(|w: (String, String, String)| (w.0@, w.1@, w.2@)) == wrong_ips(oracle.nodes@, f.meta@, pairs)
    &&& strs(d.edge_diff@) == edge_msgs("missing token edge: "@, firsts_outside(oe, ae.to_set()))
        + edge_msgs("extra token edge: "@, firsts_outside(ae, oe.to_set()))
}

/// The characters of each (op, node) pair.
pub open spec fn op_strs(v: Seq<(OpId, String)>) -> Seq<(OpId, Seq<char>)> {
    v.map_values(|p: (OpId, String)| (p.0, p.1@))
}

/// The node named by hint `h` (first entry of `hints` with key `h`).
fn lookup_hint(hints: &Vec<(String, String)>, h: &String) -> (r: Option<String>)
    ensures
        match r {
            Some(n) => hint_lookup(hints@, h@) == Some(n@),
            None => hint_lookup(hints@, h@) is None,
        },
{
    let mut found: Option<String> = None;
    let mut i: usize = 0;
    while i < hints.len()
        invariant
            0 <= i <= hints@.len(),
            match found {
                Some(n) => hint_lookup(hints@.subrange(0, i as int), h@) == Some(n@),
                None => hint_lookup(hints@.subrange(0, i as int), h@) is None,
            },
        decreases hints@.len() - i,
    {
        assert(hints@.subrange(0, i as int + 1).drop_last() =~= hints@.subrange(0, i as int));
        assert(hints@.subrange(0, i as int + 1).last() == hints@[i as int]);
        if found.is_none() && hints[i].0 == *h {
            found = Some(hints[i].1.clone());
        }
        i = i + 1;
    }
    assert(hints@.subrange(0, i as int) =~= hints@);
    found
}

/// The node op `id` of `f` is matched to.
fn node_of_op(f: &Function, hints: &Vec<(String, String)>, id: OpId) -> (r: Option<String>)
    ensures
        match r {
            Some(n) => op_node(f.meta@, hints@, id) == Some(n@),
            None => op_node(f.meta@, hints@, id) is None,
        },
{
    match f.meta.get(&id) {
        Some(m) => match &m.source_hint {
            Some(h) => lookup_hint(hints, h),
            None => None,
        },
        None => None,
    }
}

/// The ops of `f` matched to a node, by increasing id, with their nodes.
fn matched_pairs(f: &Function, hints: &Vec<(String, String)>) -> (r: Vec<(OpId, String)>)
    ensures
        op_strs(r@) == matched_ops(f.meta@, hints@, f.meta.ids()),
{
    let ids = f.meta.keys();
    let mut r: Vec<(OpId, String)> = Vec::new();
    let mut i: usize = 0;
    while i < ids.len()
        invariant
            0 <= i <= ids@.len(),
            ids@ == f.meta.ids(),
            op_strs(r@) == matched_ops(f.meta@, hints@, ids@.subrange(0, i as int)),
        decreases ids@.len() - i,
    {
        let id = ids[i];
        assert(ids@.subrange(0, i as int + 1).drop_last() =~= ids@.subrange(0, i as int));
        assert(ids@.subrange(0, i as int + 1).last() == id);
        let ghost before = r@;
        match node_of_op(f, hints, id) {
            Some(n) => {
                r.push((id, n));
                assert(op_strs(r@) =~= op_strs(before).push((id, r@.last().1@)));
            },
            None => {},
        }
        i = i + 1;
    }
    assert(ids@.subrange(0, i as int) =~= ids@);
    r
}

/// The op that stands for node `n` (the last pair naming it).
fn op_of_node(pairs: &Vec<(OpId, String)>, n: &String) -> (r: Option<OpId>)
    ensures
        r == node_op(op_strs(pairs@), n@),
{
    let mut found: Option<OpId> = None;
    let mut i: usize = 0;
    while i < pairs.len()
        invariant
            0 <= i <= pairs@.len(),
            found == node_op(op_strs(pairs@.subrange(0, i as int)), n@),
        decreases pairs@.len() - i,
    {
        assert(op_strs(pairs@.subrange(0, i as int + 1)).drop_last() =~= op_strs(pairs@.subrange(0, i as int)));
        assert(op_strs(pairs@.subrange(0, i as int + 1)).last() == (pairs@[i as int].0, pairs@[i as int].1@));
        if pairs[i].1 == *n {
            found = Some(pairs[i].0);
        }
        i = i + 1;
    }
    assert(pairs@.subrange(0, i as int) =~= pairs@);
    found
}

/// Whether `x` occurs among the first `end` strings of `v`.
fn contains_str(v: &Vec<String>, end: usize, x: &String) -> (r: bool)
    requires
        end <= v@.len(),
    ensures
        r == strs(v@.subrange(0, end as int)).contains(x@),
{
    let mut i: usize = 0;
    while i < end
        invariant
            0 <= i <= end <= v@.len(),
            forall|j: int| 0 <= j < i ==> v@[j]@ != x@,
        decreases end - i,
    {
        if v[i] == *x {
            assert(strs(v@.subrange(0, end as int))[i as int] == x@);
            return true;
        }
        i = i + 1;
    }
    proof {
        if strs(v@.subrange(0, end as int)).contains(x@) {
            let j = choose|j: int| 0 <= j < end && strs(v@.subrange(0, end as int))[j] == x@;
            assert(v@[j]@ == x@);
        }
    }
    false
}

/// Whether `x` occurs among the first `end` pairs of `v`.
fn contains_pair(v: &Vec<(String, String)>, end: usize, x: &(String, String)) -> (r: bool)
    requires
        end <= v@.len(),
    ensures
        r == str_pairs(v@.subrange(0, end as int)).contains((x.0@, x.1@)),
{
    let mut i: usize = 0;
    while i < end
        invariant
            0 <= i <= end <= v@.len(),
            forall|j: int| 0 <= j < i ==> (v@[j].0@, v@[j].1@) != (x.0@, x.1@),
        decreases end - i,
    {
        if v[i].0 == x.0 && v[i].1 == x.1 {
            assert(str_pairs(v@.subrange(0, end as int))[i as int] == (x.0@, x.1@));
            return true;
        }
        i = i + 1;
    }
    proof {
        if str_pairs(v@.subrange(0, end as int)).contains((x.0@, x.1@)) {
            let j = choose|j: int| 0 <= j < end && str_pairs(v@.subrange(0, end as int))[j] == (x.0@, x.1@);
            assert((v@[j].0@, v@[j].1@) == (x.0@, x.1@));
        }
    }
    false
}

/// The first occurrence of each string of `s` not in `excl`, in order.
fn firsts_outside_strs(s: &Vec<String>, excl: &Vec<String>) -> (r: Vec<String>)
    ensures
        strs(r@) == firsts_outside(strs(s@), strs(excl@).to_set()),
{
    let mut r: Vec<String> = Vec::new();
    let mut i: usize = 0;
    while i < s.len()
        invariant
            0 <= i <= s@.len(),
            strs(r@) == firsts_outside(strs(s@.subrange(0, i as int)), strs(excl@).to_set()),
        decreases s@.len() - i,
    {
        let ghost pre = strs(s@.subrange(0, i as int + 1));
        assert(pre.drop_last() =~= strs(s@.subrange(0, i as int)));
        assert(pre.last() == s@[i as int]@);
        assert(strs(excl@.subrange(0, excl@.len() as int)) =~= strs(excl@));
        let in_excl = contains_str(excl, excl.len(), &s[i]);
        let earlier = contains_str(s, i, &s[i]);
        if !in_excl && !earlier {
            let ghost before = r@;
            r.push(s[i].clone());
            assert(strs(r@) =~= strs(before).push(s@[i as int]@));
        }
        i = i + 1;
    }
    assert(s@.subrange(0, i as int) =~= s@);
    r
}

/// The first occurrence of each pair of `s` not in `excl`, in order.
fn firsts_outside_pairs(s: &Vec<(String, String)>, excl: &Vec<(String, String)>) -> (r: Vec<(String, String)>)
    ensures
        str_pairs(r@) == firsts_outside(str_pairs(s@), str_pairs(excl@).to_set()),
{
    let mut r: Vec<(String, String)> = Vec::new();
    let mut i: usize = 0;
    while i < s.len()
        invariant
            0 <= i <= s@.len(),
            str_pairs(r@) == firsts_outside(str_pairs(s@.subrange(0, i as int)), str_pairs(excl@).to_set()),
        decreases s@.len() - i,
    {
        let ghost pre = str_pairs(s@.subrange(0, i as int + 1));
        assert(pre.drop_last() =~= str_pairs(s@.subrange(0, i as int)));
        assert(pre.last() == (s@[i as int].0@, s@[i as int].1@));
        assert(str_pairs(excl@.subrange(0, excl@.len() as int)) =~= str_pairs(excl@));
        let in_excl = contains_pair(excl, excl.len(), &s[i]);
        let earlier = contains_pair(s, i, &s[i]);
        if !in_excl && !earlier {
            let ghost before = r@;
            r.push((s[i].0.clone(), s[i].1.clone()));
            assert(str_pairs(r@) =~= str_pairs(before).push((s@[i as int].0@, s@[i as int].1@)));
        }
        i = i + 1;
    }
    assert(s@.subrange(0, i as int) =~= s@);
    r
}

proof fn lemma_matched_in_meta(meta: Map<OpId, OpMeta>, hints: Seq<(String, String)>, ids: Seq<OpId>, k: int)
    requires
        0 <= k < matched_ops(meta, hints, ids).len(),
    ensures
        meta.contains_key(matched_ops(meta, hints, ids)[k].0),
    decreases ids.len(),
{
    if ids.len() > 0 {
        let r = matched_ops(meta, hints, ids.drop_last());
        if k < r.len() {
            lemma_matched_in_meta(meta, hints, ids.drop_last(), k);
        }
    }
}

proof fn lemma_node_op_in(pairs: Seq<(OpId, Seq<char>)>, n: Seq<char>)
    requires
        node_op(pairs, n) is Some,
    ensures
        exists|k: int| 0 <= k < pairs.len() && pairs[k].0 == node_op(pairs, n)->0,
    decreases pairs.len(),
{
    if pairs.last().1 != n {
        lemma_node_op_in(pairs.drop_last(), n);
        let k = choose|k: int| 0 <= k < pairs.drop_last().len() && pairs.drop_last()[k].0 == node_op(pairs.drop_last(), n)->0;
        assert(pairs[k] == pairs.drop_last()[k]);
    } else {
        assert(pairs[pairs.len() - 1] == pairs.last());
    }
}

/// The catalog name of the IP `m` selects, or "<unassigned>".
fn ip_name_of(m: &OpMeta) -> (r: String)
    ensures
        r@ == ip_name(*m),
{
    match m.backend {
        Some(b) => String::from_str(b.0.catalog_name()),
        None => String::from_str("<unassigned>"),
    }
}

/// The (node, oracle IP, actual IP) of each oracle node whose op selects
/// another IP.
fn collect_wrong_ips(f: &Function, oracle: &PipelineRtlmap, pairs: &Vec<(OpId, String)>, Ghost(hints): Ghost<Seq<(String, String)>>) -> (r: Vec<(String, String, String)>)
    requires
        op_strs(pairs@) == matched_ops(f.meta@, hints, f.meta.ids()),
    ensures
        r@.map_values(|w: (String, String, String)| (w.0@, w.1@, w.2@)) == wrong_ips(oracle.nodes@, f.meta@, op_strs(pairs@)),
{
    let mut r: Vec<(String, String, String)> = Vec::new();
    let mut i: usize = 0;
    while i < oracle.nodes.len()
        invariant
            0 <= i <= oracle.nodes@.len(),
            op_strs(pairs@) == matched_ops(f.meta@, hints, f.meta.ids()),
            r@.map_values(|w: (String, String, String)| (w.0@, w.1@, w.2@)) == wrong_ips(oracle.nodes@.subrange(0, i as int), f.meta@, op_strs(pairs@)),
        decreases oracle.nodes@.len() - i,
    {
        let node = &oracle.nodes[i];
        assert(oracle.nodes@.subrange(0, i as int + 1).drop_last() =~= oracle.nodes@.subrange(0, i as int));
        assert(oracle.nodes@.subrange(0, i as int + 1).last() == *node);
        let ghost before = r@;
        match op_of_node(pairs, &node.node_id) {
            Some(op) => {
                proof {
                    lemma_node_op_in(op_strs(pairs@), node.node_id@);
                    let k = choose|k: int| 0 <= k < op_strs(pairs@).len() && op_strs(pairs@)[k].0 == op;
                    lemma_matched_in_meta(f.meta@, hints, f.meta.ids(), k);
                }
                match f.meta.get(&op) {
                    Some(m) => {
                        let actual = ip_name_of(m);
                        if !(actual == node.selected_ip) {
                            r.push((node.node_id.clone(), node.selected_ip.clone(), actual));
                            assert(r@.map_values(|w: (String, String, String)| (w.0@, w.1@, w.2@)) =~= before.map_values(|w: (String, String, String)| (w.0@, w.1@, w.2@)).push((node.node_id@, node.selected_ip@, ip_name(f.meta@[op]))));
                        }
                    },
                    None => {
                        assert(false);
                    },
                }
            },
            None => {},
        }
        i = i + 1;
    }
    assert(oracle.nodes@.subrange(0, i as int) =~= oracle.nodes@);
    r
}

/// The oracle's token channels, as (from, to).
fn collect_oracle_edges(oracle: &PipelineRtlmap) -> (r: Vec<(String, String)>)
    ensures
        str_pairs(r@) == oracle_token_edges(oracle.edges@),
{
    let token = String::from_str("token");
    let mut r: Vec<(String, String)> = Vec::new();
    let mut i: usize = 0;
    while i < oracle.edges.len()
        invariant
            0 <= i <= oracle.edges@.len(),
            token@ == "token"@,
            str_pairs(r@) == oracle_token_edges(oracle.edges@.subrange(0, i as int)),
        decreases oracle.edges@.len() - i,
    {
        let e = &oracle.edges[i];
        assert(oracle.edges@.subrange(0, i as int + 1).drop_last() =~= oracle.edges@.subrange(0, i as int));
        assert(oracle.edges@.subrange(0, i as int + 1).last() == *e);
        if e.channel == token {
            let ghost before = r@;
            r.push((e.from.clone(), e.to.clone()));
            assert(str_pairs(r@) =~= str_pairs(before).push((e.from@, e.to@)));
        }
        i = i + 1;
    }
    assert(oracle.edges@.subrange(0, i as int) =~= oracle.edges@);
    r
}

/// The edges of `f` between matched ops, as (node, node).
fn collect_matched_edges(f: &Function, hints: &Vec<(String, String)>) -> (r: Vec<(String, String)>)
    ensures
        str_pairs(r@) == matched_edges(f.edges@, f.meta@, hints@),
{
    let mut r: Vec<(String, String)> = Vec::new();
    let mut i: usize = 0;
    while i < f.edges.len()
        invariant
            0 <= i <= f.edges@.len(),
            str_pairs(r@) == matched_edges(f.edges@.subrange(0, i as int), f.meta@, hints@),
        decreases f.edges@.len() - i,
    {
        let e = f.edges[i];
        assert(f.edges@.subrange(0, i as int + 1).drop_last() =~= f.edges@.subrange(0, i as int));
        assert(f.edges@.subrange(0, i as int + 1).last() == e);
        let s = node_of_op(f, hints, e.src());
        let d = node_of_op(f, hints, e.dst());
        match (s, d) {
            (Some(s), Some(d)) => {
                let ghost before = r@;
                r.push((s, d));
                assert(str_pairs(r@) =~= str_pairs(before).push((s@, d@)));
            },
            _ => {},
        }
        i = i + 1;
    }
    assert(f.edges@.subrange(0, i as int) =~= f.edges@);
    r
}

/// Appends, for each edge of `es`, `prefix`, its source, " -> " and its
/// target.
fn push_edge_msgs(out: &mut Vec<String>, prefix: &str, es: &Vec<(String, String)>)
    ensures
        strs(final(out)@) == strs(old(out)@) + edge_msgs(prefix@, str_pairs(es@)),
{
    let ghost start = strs(out@);
    let mut i: usize = 0;
    while i < es.len()
        invariant
            0 <= i <= es@.len(),
            strs(out@) == start + edge_msgs(prefix@, str_pairs(es@.subrange(0, i as int))),
        decreases es@.len() - i,
    {
        let mut msg = String::from_str(prefix);
        msg.append(es[i].0.as_str());
        msg.append(" -> ");
        msg.append(es[i].1.as_str());
        let ghost before = out@;
        out.push(msg);
        assert(strs(out@) =~= strs(before).push(msg@));
        assert(edge_msgs(prefix@, str_pairs(es@.subrange(0, i as int + 1))) =~= edge_msgs(prefix@, str_pairs(es@.subrange(0, i as int))).push(prefix@ + es@[i as int].0@ + " -> "@ + es@[i as int].1@));
        i = i + 1;
    }
    assert(es@.subrange(0, i as int) =~= es@);
}

/// The diff of `f` against `oracle`, matching ops to nodes through `hints`.
fn diff_function(f: &Function, oracle: &PipelineRtlmap, hints: &Vec<(String, String)>) -> (d: RtlmapDiff)
    ensures
        is_diff(*f, *oracle, hints@, d),
{
    let pairs = matched_pairs(f, hints);
    // Node presence.
    let mut actual: Vec<String> = Vec::new();
    let mut i: usize = 0;
    while i < pairs.len()
        invariant
            0 <= i <= pairs@.len(),
            strs(actual@) == op_strs(pairs@).subrange(0, i as int).map_values(|p: (OpId, Seq<char>)| p.1),
        decreases pairs@.len() - i,
    {
        let ghost before = actual@;
        assert(op_strs(pairs@).len() == pairs@.len());
        assert(strs(before).len() == before.len());
        assert(before.len() == i);
        let n = pairs[i].1.clone();
        actual.push(n);
        assert forall|k: int| 0 <= k < i + 1 implies #[trigger] strs(actual@)[k] == op_strs(pairs@).subrange(0, i as int + 1).map_values(|p: (OpId, Seq<char>)| p.1)[k] by {
            if k < i {
                assert(strs(actual@)[k] == strs(before)[k]);
                assert(op_strs(pairs@).subrange(0, i as int).map_values(|p: (OpId, Seq<char>)| p.1)[k] == op_strs(pairs@)[k].1);
            }
        }
        assert(strs(actual@) =~= op_strs(pairs@).subrange(0, i as int + 1).map_values(|p: (OpId, Seq<char>)| p.1));
        i = i + 1;
    }
    assert(op_strs(pairs@).subrange(0, i as int) =~= op_strs(pairs@));
    let mut oracle_ids: Vec<String> = Vec::new();
    let mut j: usize = 0;
    while j < oracle.nodes.len()
        invariant
            0 <= j <= oracle.nodes@.len(),
            strs(oracle_ids@) == node_ids(oracle.nodes@.subrange(0, j as int)),
        decreases oracle.nodes@.len() - j,
    {
        let ghost before = oracle_ids@;
        assert(strs(before).len() == before.len());
        assert(before.len() == j);
        let n = oracle.nodes[j].node_id.clone();
        oracle_ids.push(n);
        assert forall|k: int| 0 <= k < j + 1 implies #[trigger] strs(oracle_ids@)[k] == node_ids(oracle.nodes@.subrange(0, j as int + 1))[k] by {
            if k < j {
                assert(strs(oracle_ids@)[k] == strs(before)[k]);
                assert(node_ids(oracle.nodes@.subrange(0, j as int))[k] == oracle.nodes@[k].node_id@);
            }
        }
        assert(strs(oracle_ids@) =~= node_ids(oracle.nodes@.subrange(0, j as int + 1)));
        j = j + 1;
    }
    assert(oracle.nodes@.subrange(0, j as int) =~= oracle.nodes@);
    let missing_nodes = firsts_outside_strs(&oracle_ids, &actual);
    let extra_nodes = firsts_outside_strs(&actual, &oracle_ids);
    // Per-node IP.
    let wrong_ip = collect_wrong_ips(f, oracle, &pairs, Ghost(hints@));
    // Token edges.
    let oracle_edges = collect_oracle_edges(oracle);
    let actual_edges = collect_matched_edges(f, hints);
    let missing_edges = firsts_outside_pairs(&oracle_edges, &actual_edges);
    let extra_edges = firsts_outside_pairs(&actual_edges, &oracle_edges);
    let mut edge_diff: Vec<String> = Vec::new();
    push_edge_msgs(&mut edge_diff, "missing token edge: ", &missing_edges);
    push_edge_msgs(&mut edge_diff, "extra token edge: ", &extra_edges);
    proof {
        reveal_strlit("missing token edge: ");
        reveal_strlit("extra token edge: ");
        assert(strs(Seq::<String>::empty()) =~= Seq::<Seq<char>>::empty());
    }
    RtlmapDiff { missing_nodes, extra_nodes, wrong_ip, edge_diff }
}

/// The first function of `fs` named `name`.
pub open spec fn first_named(fs: Seq<Function>, name: Seq<char>) -> Option<Function>
    decreases fs.len(),
{
    if fs.len() == 0 {
        None
    } else {
        match first_named(fs.drop_last(), name) {
            Some(f) => Some(f),
            None => if fs.last().name@ == name {
                Some(fs.last())
            } else {
                None
            },
        }
    }
}

/// The diff records no difference.
pub open spec fn diff_empty(d: RtlmapDiff) -> bool {
    d.missing_nodes@.len() == 0 && d.extra_nodes@.len() == 0 && d.wrong_ip@.len() == 0 && d.edge_diff@.len() == 0
}

/// Checks one function of a module against a pipeline rtlmap.
pub struct ValidateAgainstRtlmap {
    pub oracle: PipelineRtlmap,
    pub function_name: String,
    /// Maps source hints attached to ops to rtlmap node ids; where a hint
    /// occurs twice, the first entry counts.
    pub node_id_of_hint: Vec<(String, String)>,
}

impl Pass for ValidateAgainstRtlmap {
    /// What a run does: see `run`.
    open spec fn runs_to(&self, before: Module, after: Module, r: Result<(), IrError>) -> bool {
        &&& (after == before)
        &&& (match first_named(before.functions@, self.function_name@) {
                    None => r matches Err(IrError::PassFailed { pass, node, msg })
                        && pass@ == "validate_against_rtlmap"@ && node is None
                        && msg@ == "function "@ + self.function_name@ + " not found"@,
                    Some(f) => match r {
                        Ok(()) => exists|d: RtlmapDiff| is_diff(f, self.oracle, self.node_id_of_hint@, d) && diff_empty(d),
                        Err(e) => e matches IrError::OracleMismatch { diff } && is_diff(f, self.oracle, self.node_id_of_hint@, diff) && !diff_empty(diff),
                    },
                })
    }

    fn name(&self) -> (r: &'static str)
        ensures
            r@ == "validate_against_rtlmap"@,
    {
        "validate_against_rtlmap"
    }

    /// Leaves the module as it is. Fails when no function bears the name,
    /// or with the diff when the first function that does differs from the
    /// oracle.
    fn run(&mut self, module: &mut Module) -> (r: Result<(), IrError>)
        ensures
            *final(module) == *old(module),
            *final(self) == *old(self),
            match first_named(old(module).functions@, old(self).function_name@) {
                None => r matches Err(IrError::PassFailed { pass, node, msg })
                    && pass@ == "validate_against_rtlmap"@ && node is None
                    && msg@ == "function "@ + old(self).function_name@ + " not found"@,
                Some(f) => match r {
                    Ok(()) => exists|d: RtlmapDiff| is_diff(f, old(self).oracle, old(self).node_id_of_hint@, d) && diff_empty(d),
                    Err(e) => e matches IrError::OracleMismatch { diff } && is_diff(f, old(self).oracle, old(self).node_id_of_hint@, diff) && !diff_empty(diff),
                },
            },
    {
        let mut found: Option<usize> = None;
        let mut i: usize = 0;
        while i < module.functions.len()
            invariant
                0 <= i <= module.functions@.len(),
                *module == *old(module),
                *self == *old(self),
                match found {
                    Some(k) => k < i && first_named(module.functions@.subrange(0, i as int), self.function_name@) == Some(module.functions@[k as int]),
                    None => first_named(module.functions@.subrange(0, i as int), self.function_name@) is None,
                },
            decreases module.functions@.len() - i,
        {
            assert(module.functions@.subrange(0, i as int + 1).drop_last() =~= module.functions@.subrange(0, i as int));
            assert(module.functions@.subrange(0, i as int + 1).last() == module.functions@[i as int]);
            if found.is_none() && module.functions[i].name == self.function_name {
                found = Some(i);
            }
            i = i + 1;
        }
        assert(module.functions@.subrange(0, i as int) =~= module.functions@);
        match found {
            None => {
                let mut msg = String::from_str("function ");
                msg.append(self.function_name.as_str());
                msg.append(" not found");
                proof {
                    reveal_strlit("validate_against_rtlmap");
                    assert(msg@ == "function "@ + old(self).function_name@ + " not found"@);
                    assert(first_named(old(module).functions@, old(self).function_name@) is None);
                }
                let e = IrError::PassFailed { pass: "validate_against_rtlmap", node: None, msg };
                assert(e matches IrError::PassFailed { pass, node, msg }
                    && pass@ == "validate_against_rtlmap"@ && node is None);
                Err(e)
            },
            Some(k) => {
                let diff = diff_function(&module.functions[k], &self.oracle, &self.node_id_of_hint);
                assert(first_named(old(module).functions@, old(self).function_name@) == Some(module.functions@[k as int]));
                assert(is_diff(module.functions@[k as int], self.oracle, self.node_id_of_hint@, diff));
                if !diff.is_empty() {
                    Err(IrError::OracleMismatch { diff })
                } else {
                    assert(diff_empty(diff));
                    assert(exists|d: RtlmapDiff| is_diff(module.functions@[k as int], self.oracle, self.node_id_of_hint@, d) && diff_empty(d));
                    Ok(())
                }
            },
        }
    }
}

} // verus!




