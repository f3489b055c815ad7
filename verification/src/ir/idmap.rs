//! A map keyed by `OpId`, kept as a vector sorted by id. Walking it visits
//! the ids in increasing order, which the passes rely on for determinism.

use vstd::prelude::*;

use super::types::OpId;

verus! {

/// Ids strictly increasing: sorted and without repeats.
pub open spec fn strictly_sorted(s: Seq<OpId>) -> bool {
    forall|i: int, j: int| 0 <= i < j < s.len() ==> s[i].0 < s[j].0
}

/// A finite map from `OpId` to `V`, ordered by id.
#[derive(Debug, PartialEq)]
pub struct IdMap<V> {
    entries: Vec<(OpId, V)>,
}

/// The ids of an entry sequence.
pub open spec fn seq_ids<V>(s: Seq<(OpId, V)>) -> Seq<OpId> {
    s.map_values(|e: (OpId, V)| e.0)
}

/// Position of `k` in an entry sequence (meaningful when present).
pub open spec fn seq_index_of<V>(s: Seq<(OpId, V)>, k: OpId) -> int {
    choose|i: int| 0 <= i < s.len() && s[i].0 == k
}

/// The map that an entry sequence denotes.
pub open spec fn seq_view<V>(s: Seq<(OpId, V)>) -> Map<OpId, V> {
    Map::new(
        |k: OpId| exists|i: int| 0 <= i < s.len() && s[i].0 == k,
        |k: OpId| s[seq_index_of(s, k)].1,
    )
}

proof fn lemma_seq_entry<V>(s: Seq<(OpId, V)>, i: int)
    requires
        strictly_sorted(seq_ids(s)),
        0 <= i < s.len(),
    ensures
        seq_view(s).contains_key(s[i].0),
        seq_view(s)[s[i].0] == s[i].1,
        seq_ids(s)[i] == s[i].0,
{
    let k = s[i].0;
    assert(seq_ids(s)[i] == k);
    let j = seq_index_of(s, k);
    assert(0 <= j < s.len() && s[j].0 == k);
    if j != i {
        assert(seq_ids(s)[j] == k);
        if j < i {
            assert(seq_ids(s)[j].0 < seq_ids(s)[i].0);
        } else {
            assert(seq_ids(s)[i].0 < seq_ids(s)[j].0);
        }
    }
}

proof fn lemma_seq_insert<V>(s: Seq<(OpId, V)>, p: int, k: OpId, v: V)
    requires
        strictly_sorted(seq_ids(s)),
        0 <= p <= s.len(),
        forall|j: int| 0 <= j < p ==> s[j].0.0 < k.0,
        forall|j: int| p <= j < s.len() ==> k.0 < s[j].0.0,
    ensures
        strictly_sorted(seq_ids(s.insert(p, (k, v)))),
        seq_view(s.insert(p, (k, v))) == seq_view(s).insert(k, v),
        seq_ids(s.insert(p, (k, v))) == seq_ids(s).insert(p, k),
{
    let t = s.insert(p, (k, v));
    assert(seq_ids(t) =~= seq_ids(s).insert(p, k));
    assert(strictly_sorted(seq_ids(t))) by {
        assert forall|i: int, j: int| 0 <= i < j < seq_ids(t).len() implies seq_ids(t)[i].0 < seq_ids(t)[j].0 by {
            if j < p {
            } else if j == p {
            } else if i < p {
            } else if i == p {
            } else {
                assert(seq_ids(t)[i] == seq_ids(s)[i - 1]);
                assert(seq_ids(t)[j] == seq_ids(s)[j - 1]);
            }
        }
    }
    assert forall|x: OpId| #![trigger seq_view(t).contains_key(x)] seq_view(t).contains_key(x) <==> seq_view(s).insert(k, v).contains_key(x) by {
        if seq_view(t).contains_key(x) {
            let j = choose|j: int| 0 <= j < t.len() && t[j].0 == x;
            if j < p { lemma_seq_entry(s, j); } else if j > p { lemma_seq_entry(s, j - 1); }
        }
        if seq_view(s).contains_key(x) {
            let j = choose|j: int| 0 <= j < s.len() && s[j].0 == x;
            if j < p { assert(t[j] == s[j]); } else { assert(t[j + 1] == s[j]); }
        }
        if x == k { assert(t[p].0 == k); }
    }
    assert forall|x: OpId| #[trigger] seq_view(t).contains_key(x) implies seq_view(t)[x] == seq_view(s).insert(k, v)[x] by {
        let j = choose|j: int| 0 <= j < t.len() && t[j].0 == x;
        lemma_seq_entry(t, j);
        if j < p {
            assert(t[j] == s[j]);
            assert(s[j].0.0 < k.0);
            lemma_seq_entry(s, j);
            assert(seq_view(s).insert(k, v)[x] == seq_view(s)[x]);
        } else if j > p {
            assert(t[j] == s[j - 1]);
            assert(k.0 < s[j - 1].0.0);
            lemma_seq_entry(s, j - 1);
            assert(seq_view(s).insert(k, v)[x] == seq_view(s)[x]);
        } else {
            assert(t[j] == (k, v));
        }
    }
    assert(seq_view(t) =~= seq_view(s).insert(k, v));
}

proof fn lemma_seq_replace<V>(s: Seq<(OpId, V)>, p: int, v: V)
    requires
        strictly_sorted(seq_ids(s)),
        0 <= p < s.len(),
    ensures
        strictly_sorted(seq_ids(s.update(p, (s[p].0, v)))),
        seq_view(s.update(p, (s[p].0, v))) == seq_view(s).insert(s[p].0, v),
        seq_ids(s.update(p, (s[p].0, v))) == seq_ids(s),
{
    let k = s[p].0;
    let t = s.update(p, (k, v));
    assert(seq_ids(t) =~= seq_ids(s));
    assert forall|x: OpId| #![trigger seq_view(t).contains_key(x)] seq_view(t).contains_key(x) <==> seq_view(s).insert(k, v).contains_key(x) by {
        if seq_view(t).contains_key(x) {
            let j = choose|j: int| 0 <= j < t.len() && t[j].0 == x;
            lemma_seq_entry(s, j);
        }
        if seq_view(s).contains_key(x) {
            let j = choose|j: int| 0 <= j < s.len() && s[j].0 == x;
            assert(t[j].0 == x);
        }
        if x == k { assert(t[p].0 == k); }
    }
    assert forall|x: OpId| #[trigger] seq_view(t).contains_key(x) implies seq_view(t)[x] == seq_view(s).insert(k, v)[x] by {
        let j = choose|j: int| 0 <= j < t.len() && t[j].0 == x;
        lemma_seq_entry(t, j);
        lemma_seq_entry(s, j);
        if j != p {
            assert(seq_ids(s)[j] == x && seq_ids(s)[p] == k);
            if j < p { assert(seq_ids(s)[j].0 < seq_ids(s)[p].0); } else { assert(seq_ids(s)[p].0 < seq_ids(s)[j].0); }
            assert(t[j] == s[j]);
        }
    }
    assert(seq_view(t) =~= seq_view(s).insert(k, v));
}

proof fn lemma_seq_remove<V>(s: Seq<(OpId, V)>, p: int)
    requires
        strictly_sorted(seq_ids(s)),
        0 <= p < s.len(),
    ensures
        strictly_sorted(seq_ids(s.remove(p))),
        seq_view(s.remove(p)) == seq_view(s).remove(s[p].0),
        seq_ids(s.remove(p)) == seq_ids(s).remove(p),
{
    let k = s[p].0;
    let t = s.remove(p);
    assert(seq_ids(t) =~= seq_ids(s).remove(p));
    assert(strictly_sorted(seq_ids(t))) by {
        assert forall|i: int, j: int| 0 <= i < j < seq_ids(t).len() implies seq_ids(t)[i].0 < seq_ids(t)[j].0 by {
            if j < p {
            } else if i < p {
                assert(seq_ids(t)[j] == seq_ids(s)[j + 1]);
            } else {
                assert(seq_ids(t)[i] == seq_ids(s)[i + 1]);
                assert(seq_ids(t)[j] == seq_ids(s)[j + 1]);
            }
        }
    }
    assert forall|x: OpId| #![trigger seq_view(t).contains_key(x)] seq_view(t).contains_key(x) <==> seq_view(s).remove(k).contains_key(x) by {
        if seq_view(t).contains_key(x) {
            let j = choose|j: int| 0 <= j < t.len() && t[j].0 == x;
            if j < p {
                lemma_seq_entry(s, j);
                assert(seq_ids(s)[j].0 < seq_ids(s)[p].0);
            } else {
                lemma_seq_entry(s, j + 1);
                assert(seq_ids(s)[p].0 < seq_ids(s)[j + 1].0);
            }
        }
        if seq_view(s).remove(k).contains_key(x) {
            let j = choose|j: int| 0 <= j < s.len() && s[j].0 == x;
            if j < p { assert(t[j] == s[j]); } else { assert(j != p); assert(t[j - 1] == s[j]); }
        }
    }
    assert forall|x: OpId| #[trigger] seq_view(t).contains_key(x) implies seq_view(t)[x] == seq_view(s).remove(k)[x] by {
        let j = choose|j: int| 0 <= j < t.len() && t[j].0 == x;
        lemma_seq_entry(t, j);
        if j < p { lemma_seq_entry(s, j); } else { lemma_seq_entry(s, j + 1); }
    }
    assert(seq_view(t) =~= seq_view(s).remove(k));
}

impl<V> IdMap<V> {
    /// The ids present, in increasing order.
    pub closed spec fn ids(&self) -> Seq<OpId> {
        seq_ids(self.entries@)
    }

    #[verifier::type_invariant]
    spec fn sorted_inv(&self) -> bool {
        strictly_sorted(self.ids())
    }

    /// The map as a mathematical map.
    pub closed spec fn view(&self) -> Map<OpId, V> {
        seq_view(self.entries@)
    }

    proof fn lemma_entry(&self, i: int)
        requires
            self.sorted_inv(),
            0 <= i < self.entries@.len(),
        ensures
            self.view().contains_key(self.entries@[i].0),
            self.view()[self.entries@[i].0] == self.entries@[i].1,
            self.ids()[i] == self.entries@[i].0,
    {
        lemma_seq_entry(self.entries@, i);
    }

    /// An empty map.
    pub fn new() -> (r: Self)
        ensures
            r.view() == Map::<OpId, V>::empty(),
            r.ids() == Seq::<OpId>::empty(),
    {
        let r = IdMap { entries: Vec::new() };
        assert(r.view() =~= Map::<OpId, V>::empty());
        assert(r.ids() =~= Seq::<OpId>::empty());
        r
    }

    /// Number of entries.
    pub fn len(&self) -> (r: usize)
        ensures
            r == self.ids().len(),
    {
        self.entries.len()
    }

    /// The ids present, in increasing order.
    pub fn keys(&self) -> (r: Vec<OpId>)
        ensures
            r@ == self.ids(),
            strictly_sorted(r@),
            forall|k: OpId| self.view().contains_key(k) <==> r@.contains(k),
    {
        proof { use_type_invariant(self); }
        let mut r: Vec<OpId> = Vec::new();
        let mut i: usize = 0;
        while i < self.entries.len()
            invariant
                0 <= i <= self.entries@.len(),
                r@ == self.ids().subrange(0, i as int),
            decreases self.entries@.len() - i,
        {
            r.push(self.entries[i].0);
            i = i + 1;
            assert(r@ =~= self.ids().subrange(0, i as int));
        }
        assert(r@ =~= self.ids());
        assert forall|k: OpId| self.view().contains_key(k) <==> r@.contains(k) by {
            if self.view().contains_key(k) {
                let j = seq_index_of(self.entries@, k);
                self.lemma_entry(j);
                assert(r@[j] == k);
            }
            if r@.contains(k) {
                let j = choose|j: int| 0 <= j < r@.len() && r@[j] == k;
                self.lemma_entry(j);
            }
        }
        r
    }

    /// Position of `k` in the entries, if present.
    fn find(&self, k: OpId) -> (r: Option<usize>)
        ensures
            r matches Some(i) ==> i < self.entries@.len() && self.entries@[i as int].0 == k,
            r is None ==> !self.view().contains_key(k),
    {
        let mut i: usize = 0;
        while i < self.entries.len()
            invariant
                0 <= i <= self.entries@.len(),
                forall|j: int| 0 <= j < i ==> self.entries@[j].0 != k,
            decreases self.entries@.len() - i,
        {
            if self.entries[i].0 == k {
                return Some(i);
            }
            i = i + 1;
        }
        None
    }

    /// Whether `k` is present.
    pub fn contains_key(&self, k: &OpId) -> (r: bool)
        ensures
            r == self.view().contains_key(*k),
    {
        proof { use_type_invariant(self); }
        match self.find(*k) {
            Some(i) => {
                proof { self.lemma_entry(i as int); }
                true
            },
            None => false,
        }
    }

    /// The value at `k`, if present.
    pub fn get(&self, k: &OpId) -> (r: Option<&V>)
        ensures
            r matches Some(v) ==> self.view().contains_key(*k) && *v == self.view()[*k],
            r is None ==> !self.view().contains_key(*k),
    {
        proof { use_type_invariant(self); }
        match self.find(*k) {
            Some(i) => {
                proof { self.lemma_entry(i as int); }
                Some(&self.entries[i].1)
            },
            None => None,
        }
    }
    /// Sets the value at `k`; returns the value it replaced, if any.
    pub fn insert(&mut self, k: OpId, v: V) -> (r: Option<V>)
        ensures
            final(self).view() == old(self).view().insert(k, v),
            old(self).view().contains_key(k) ==> r == Some(old(self).view()[k]),
            !old(self).view().contains_key(k) ==> r is None,
    {
        proof { use_type_invariant(&*self); }
        let mut entries: Vec<(OpId, V)> = Vec::new();
        std::mem::swap(&mut entries, &mut self.entries);
        let ghost s = entries@;
        assert(seq_view(s) == old(self).view());
        let mut p: usize = 0;
        while p < entries.len() && entries[p].0.0 < k.0
            invariant
                0 <= p <= entries@.len(),
                entries@ == s,
                strictly_sorted(seq_ids(s)),
                forall|j: int| 0 <= j < p ==> s[j].0.0 < k.0,
            decreases entries@.len() - p,
        {
            p = p + 1;
        }
        assert forall|j: int| p < j < s.len() implies k.0 < s[j].0.0 by {
            assert(seq_ids(s)[p as int].0 < seq_ids(s)[j].0);
        }
        if p < entries.len() && entries[p].0.0 == k.0 {
            proof {
                lemma_seq_entry(s, p as int);
                lemma_seq_replace(s, p as int, v);
            }
            let (old_k, old_v) = entries.remove(p);
            entries.insert(p, (old_k, v));
            assert(entries@ =~= s.update(p as int, (s[p as int].0, v)));
            self.entries = entries;
            Some(old_v)
        } else {
            proof {
                lemma_seq_insert(s, p as int, k, v);
                assert forall|j: int| 0 <= j < s.len() implies s[j].0 != k by {
                    if j >= p { assert(k.0 < s[j].0.0); }
                }
            }
            entries.insert(p, (k, v));
            self.entries = entries;
            None
        }
    }

    /// Removes `k`; returns its value, if it was present.
    pub fn remove(&mut self, k: &OpId) -> (r: Option<V>)
        ensures
            final(self).view() == old(self).view().remove(*k),
            old(self).view().contains_key(*k) ==> r == Some(old(self).view()[*k]),
            !old(self).view().contains_key(*k) ==> r is None,
    {
        proof { use_type_invariant(&*self); }
        match self.find(*k) {
            None => {
                assert(self.view() =~= old(self).view().remove(*k));
                None
            },
            Some(p) => {
                let mut entries: Vec<(OpId, V)> = Vec::new();
                std::mem::swap(&mut entries, &mut self.entries);
                let ghost s = entries@;
                proof {
                    lemma_seq_entry(s, p as int);
                    lemma_seq_remove(s, p as int);
                }
                let (_, v) = entries.remove(p);
                self.entries = entries;
                Some(v)
            },
        }
    }
}

impl<V: Clone> Clone for IdMap<V> {
    /// A copy with the same ids (values are cloned one by one).
    fn clone(&self) -> (r: Self)
        ensures
            r.ids() == self.ids(),
    {
        proof { use_type_invariant(self); }
        let mut entries: Vec<(OpId, V)> = Vec::new();
        let mut i: usize = 0;
        while i < self.entries.len()
            invariant
                0 <= i <= self.entries@.len(),
                entries@.len() == i,
                forall|j: int| 0 <= j < i ==> entries@[j].0 == self.entries@[j].0,
            decreases self.entries@.len() - i,
        {
            let v = self.entries[i].1.clone();
            entries.push((self.entries[i].0, v));
            i = i + 1;
        }
        assert(entries@.map_values(|e: (OpId, V)| e.0) =~= self.ids());
        let r = IdMap { entries };
        r
    }
}

} // verus!
