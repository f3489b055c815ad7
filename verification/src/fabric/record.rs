//! What a fabric recording keeps of a module: the backend each op chose.

use vstd::prelude::*;

use crate::ir::idmap::IdMap;
use crate::ir::module::{Function, Module};
use crate::ir::types::{BackendChoice, OpId};

verus! {

/// The backends the ops of `f` chose.
pub open spec fn function_choices(f: Function) -> Map<OpId, BackendChoice> {
    Map::new(|id: OpId| f.meta@.contains_key(id) && f.meta@[id].backend is Some, |id: OpId| f.meta@[id].backend->0)
}

/// The backends the ops of `fs` chose; where two functions share an id,
/// the later one counts.
pub open spec fn module_choices(fs: Seq<Function>) -> Map<OpId, BackendChoice>
    decreases fs.len(),
{
    if fs.len() == 0 {
        Map::empty()
    } else {
        module_choices(fs.drop_last()).union_prefer_right(function_choices(fs.last()))
    }
}

/// The backend each op of `m` chose.
pub fn backend_choices(m: &Module) -> (r: IdMap<BackendChoice>)
    ensures
        r@ == module_choices(m.functions@),
{
    let mut r: IdMap<BackendChoice> = IdMap::new();
    let mut i: usize = 0;
    assert(m.functions@.subrange(0, 0) =~= Seq::<Function>::empty());
    while i < m.functions.len()
        invariant
            0 <= i <= m.functions@.len(),
            r@ == module_choices(m.functions@.subrange(0, i as int)),
        decreases m.functions@.len() - i,
    {
        let f = &m.functions[i];
        let ids = f.meta.keys();
        let ghost base = r@;
        let mut j: usize = 0;
        while j < ids.len()
            invariant
                0 <= j <= ids@.len(),
                forall|k: OpId| f.meta@.contains_key(k) <==> ids@.contains(k),
                r@ == base.union_prefer_right(function_choices(*f).restrict(ids@.subrange(0, j as int).to_set())),
            decreases ids@.len() - j,
        {
            let id = ids[j];
            let ghost prev = r@;
            proof {
                ids@.subrange(0, j as int).lemma_push_to_set_commute(id);
                assert(ids@.subrange(0, j as int + 1) =~= ids@.subrange(0, j as int).push(id));
            }
            match f.meta.get(&id) {
                Some(meta) => match meta.backend {
                    Some(b) => {
                        r.insert(id, b);
                    },
                    None => {},
                },
                None => {},
            }
            proof {
                assert(r@ =~= base.union_prefer_right(function_choices(*f).restrict(ids@.subrange(0, j as int + 1).to_set())));
            }
            j = j + 1;
        }
        proof {
            assert(ids@.subrange(0, j as int) =~= ids@);
            assert(function_choices(*f).restrict(ids@.to_set()) =~= function_choices(*f));
            assert(m.functions@.subrange(0, i as int + 1).drop_last() =~= m.functions@.subrange(0, i as int));
        }
        i = i + 1;
    }
    assert(m.functions@.subrange(0, i as int) =~= m.functions@);
    r
}

} // verus!
