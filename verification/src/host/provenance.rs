//! Provenance coverage of a recording: how many records carry each label,
//! and how many carry none.

use vstd::prelude::*;

use super::replay::{record_views, CxlReplayRecord, RecordView};

verus! {

/// Number of records of `rs` labelled `label`.
pub open spec fn label_count(rs: Seq<RecordView>, label: Seq<char>) -> nat
    decreases rs.len(),
{
    if rs.len() == 0 {
        0
    } else {
        label_count(rs.drop_last(), label) + if rs.last().provenance == Some(label) {
            1nat
        } else {
            0nat
        }
    }
}

/// Number of records of `rs` without a label.
pub open spec fn uncovered_count(rs: Seq<RecordView>) -> nat
    decreases rs.len(),
{
    if rs.len() == 0 {
        0
    } else {
        uncovered_count(rs.drop_last()) + if rs.last().provenance is None {
            1nat
        } else {
            0nat
        }
    }
}

/// The labels of `rs`, each once, in the order they first occur.
pub open spec fn first_labels(rs: Seq<RecordView>) -> Seq<Seq<char>>
    decreases rs.len(),
{
    if rs.len() == 0 {
        Seq::empty()
    } else {
        let prev = first_labels(rs.drop_last());
        match rs.last().provenance {
            Some(l) => if prev.contains(l) {
                prev
            } else {
                prev.push(l)
            },
            None => prev,
        }
    }
}

/// A label occurs in `rs` exactly when it is among its first labels, the
/// first labels are distinct, and no count exceeds the number of records.
proof fn lemma_first_labels(rs: Seq<RecordView>)
    ensures
        forall|l: Seq<char>| #[trigger] label_count(rs, l) > 0 <==> first_labels(rs).contains(l),
        forall|i: int, j: int| 0 <= i < j < first_labels(rs).len() ==> first_labels(rs)[i] != first_labels(rs)[j],
        forall|l: Seq<char>| #[trigger] label_count(rs, l) <= rs.len(),
        uncovered_count(rs) <= rs.len(),
    decreases rs.len(),
{
    if rs.len() > 0 {
        let prev = rs.drop_last();
        lemma_first_labels(prev);
        let fp = first_labels(prev);
        assert forall|l: Seq<char>| #[trigger] label_count(rs, l) > 0 <==> first_labels(rs).contains(l) by {
            assert(label_count(prev, l) > 0 <==> fp.contains(l));
            match rs.last().provenance {
                Some(m) => {
                    if !fp.contains(m) {
                        assert(fp.push(m)[fp.len() as int] == m);
                        if fp.push(m).contains(l) {
                            let k = choose|k: int| 0 <= k < fp.push(m).len() && fp.push(m)[k] == l;
                            if k < fp.len() {
                                assert(fp[k] == l);
                            }
                        }
                        if fp.contains(l) {
                            let k = choose|k: int| 0 <= k < fp.len() && fp[k] == l;
                            assert(fp.push(m)[k] == l);
                        }
                    }
                },
                None => {},
            }
        }
        assert forall|l: Seq<char>| #[trigger] label_count(rs, l) <= rs.len() by {
            assert(label_count(prev, l) <= prev.len());
        }
    }
}

/// How many records of `records` carry each label (the labels in the
/// order they first occur), and how many carry none.
pub fn provenance_counts(records: &Vec<CxlReplayRecord>) -> (r: (Vec<(String, u64)>, u64))
    ensures
        r.0@.len() == first_labels(record_views(records@)).len(),
        forall|i: int| 0 <= i < r.0@.len() ==> (#[trigger] r.0@[i]).0@ == first_labels(record_views(records@))[i],
        forall|i: int|
            0 <= i < r.0@.len() ==> (#[trigger] r.0@[i]).1 == label_count(record_views(records@), r.0@[i].0@),
        r.1 == uncovered_count(record_views(records@)),
{
    let ghost rs = record_views(records@);
    let mut labels: Vec<(String, u64)> = Vec::new();
    let mut uncovered: u64 = 0;
    let mut i: usize = 0;
    while i < records.len()
        invariant
            0 <= i <= records@.len(),
            rs == record_views(records@),
            labels@.len() == first_labels(rs.subrange(0, i as int)).len(),
            forall|k: int| 0 <= k < labels@.len() ==> (#[trigger] labels@[k]).0@ == first_labels(rs.subrange(0, i as int))[k],
            forall|k: int|
                0 <= k < labels@.len() ==> (#[trigger] labels@[k]).1 == label_count(rs.subrange(0, i as int), labels@[k].0@),
            uncovered == uncovered_count(rs.subrange(0, i as int)),
        decreases records@.len() - i,
    {
        let ghost prev = rs.subrange(0, i as int);
        let ghost next = rs.subrange(0, i as int + 1);
        proof {
            assert(next.drop_last() =~= prev);
            assert(next.last() == records@[i as int]@);
            lemma_first_labels(prev);
            lemma_first_labels(next);
        }
        match &records[i].provenance {
            None => {
                uncovered = uncovered + 1;
                proof {
                    assert forall|k: int| 0 <= k < labels@.len() implies (#[trigger] labels@[k]).1 == label_count(next, labels@[k].0@) by {}
                }
            },
            Some(l) => {
                let mut j: usize = 0;
                let mut found = false;
                while j < labels.len()
                    invariant_except_break
                        !found,
                    invariant
                        0 <= j <= labels@.len(),
                        forall|k: int| 0 <= k < j ==> (#[trigger] labels@[k]).0@ != l@,
                    ensures
                        found ==> j < labels@.len() && labels@[j as int].0@ == l@,
                        !found ==> forall|k: int| 0 <= k < labels@.len() ==> (#[trigger] labels@[k]).0@ != l@,
                    decreases labels@.len() - j,
                {
                    if labels[j].0 == *l {
                        found = true;
                        break;
                    }
                    j = j + 1;
                }
                let ghost fp = first_labels(prev);
                if found {
                    assert(fp[j as int] == l@);
                    assert(fp.contains(l@));
                    assert(label_count(next, l@) <= next.len());
                    let count = labels[j].1 + 1;
                    let key = labels[j].0.clone();
                    let ghost before = labels@;
                    labels.set(j, (key, count));
                    proof {
                        assert forall|k: int| 0 <= k < labels@.len() implies (#[trigger] labels@[k]).1 == label_count(next, labels@[k].0@) by {
                            if k != j {
                                assert(labels@[k] == before[k]);
                                assert(fp[k] != fp[j as int]);
                            }
                        }
                        assert forall|k: int| 0 <= k < labels@.len() implies (#[trigger] labels@[k]).0@ == first_labels(next)[k] by {
                            if k != j {
                                assert(labels@[k] == before[k]);
                            }
                        }
                    }
                } else {
                    assert(!fp.contains(l@)) by {
                        if fp.contains(l@) {
                            let k = choose|k: int| 0 <= k < fp.len() && fp[k] == l@;
                            assert(labels@[k].0@ == l@);
                        }
                    }
                    assert(label_count(prev, l@) == 0);
                    let ghost before = labels@;
                    labels.push((l.clone(), 1));
                    proof {
                        assert(first_labels(next) == fp.push(l@));
                        assert forall|k: int| 0 <= k < labels@.len() implies (#[trigger] labels@[k]).1 == label_count(next, labels@[k].0@) by {
                            if k < before.len() {
                                assert(labels@[k] == before[k]);
                                assert(fp[k] != l@);
                            }
                        }
                        assert forall|k: int| 0 <= k < labels@.len() implies (#[trigger] labels@[k]).0@ == first_labels(next)[k] by {
                            if k < before.len() {
                                assert(labels@[k] == before[k]);
                            }
                        }
                    }
                }
            },
        }
        i = i + 1;
    }
    proof {
        assert(rs.subrange(0, i as int) =~= rs);
    }
    (labels, uncovered)
}

} // verus!
