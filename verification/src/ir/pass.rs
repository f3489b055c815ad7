//! The pass interface. Passes mutate a Module in place.

use vstd::prelude::*;

use super::error::IrError;
use super::module::Module;

verus! {

/// A SlugIR pass: named, deterministic, runs to completion or errors.
pub trait Pass {
    /// Whether this pass, run on `before`, may leave `after` and answer
    /// `r`. A pass that does not say promises nothing.
    closed spec fn runs_to(&self, before: Module, after: Module, r: Result<(), IrError>) -> bool {
        true
    }

    /// The pass name.
    fn name(&self) -> &'static str;

    /// Runs the pass on `module`.
    fn run(&mut self, module: &mut Module) -> (r: Result<(), IrError>)
        ensures
            old(self).runs_to(*old(module), *final(module), r),
    ;
}

/// `ms` are the modules a run of the first `k` passes of `ps` goes
/// through, from `before` to `after`: each pass runs on what the one
/// before left; every one but the last succeeds, and the last answers `r`
/// when `r` is an error.
pub open spec fn run_chain(ps: Seq<&mut dyn Pass>, ms: Seq<Module>, k: int, before: Module, after: Module, r: Result<(), IrError>) -> bool {
    &&& 0 <= k <= ps.len()
    &&& ms.len() == k + 1
    &&& ms[0] == before
    &&& ms[k] == after
    &&& (r is Ok ==> k == ps.len())
    &&& (r is Err ==> k >= 1)
    &&& forall|i: int|
        0 <= i < k ==> (*ps[i]).runs_to(ms[i], ms[i + 1], if i == k - 1 && r is Err { r } else { Ok(()) })
}

/// Running `ps` in order on `before` leaves `after` and answers `r`: the
/// passes run one after the other, each on what the one before left; the
/// run stops at the first failure, whose error is `r`, and `r` is `Ok`
/// when every pass ran and succeeded.
pub open spec fn passes_run_to(ps: Seq<&mut dyn Pass>, before: Module, after: Module, r: Result<(), IrError>) -> bool {
    exists|ms: Seq<Module>, k: int| #[trigger] run_chain(ps, ms, k, before, after, r)
}

/// Runs `passes` on `module` in order, stopping at the first error.
pub fn run_passes(module: &mut Module, passes: &mut [&mut dyn Pass]) -> (r: Result<(), IrError>)
    ensures
        passes_run_to(old(passes)@, *old(module), *final(module), r),
{
    let ghost ps = passes@;
    let ghost mut ms: Seq<Module> = seq![*module];
    let mut i: usize = 0;
    let n = passes.len();
    while i < n
        invariant
            0 <= i <= n,
            n == passes@.len(),
            ps == old(passes)@,
            n == ps.len(),
            ms.len() == i + 1,
            ms[0] == *old(module),
            ms[i as int] == *module,
            forall|k: int| 0 <= k < i ==> (*ps[k]).runs_to(ms[k], ms[k + 1], Ok(())),
            forall|k: int| i <= k < n ==> passes@[k] == ps[k],
        decreases n - i,
    {
        let ghost m0 = *module;
        let p = &mut passes[i];
        let res = p.run(module);
        let ghost prev = ms;
        proof {
            assert((*ps[i as int]).runs_to(m0, *module, res));
            ms = ms.push(*module);
            assert forall|k: int| 0 <= k < i implies (*ps[k]).runs_to(ms[k], ms[k + 1], Ok(())) by {
                assert(ms[k] == prev[k] && ms[k + 1] == prev[k + 1]);
            }
        }
        if res.is_err() {
            proof {
                assert(run_chain(ps, ms, i + 1, *old(module), *module, res));
            }
            return res;
        }
        proof {
            assert(ms[i as int] == m0);
            assert(res is Ok);
            assert(res == Ok::<(), IrError>(res->Ok_0));
            assert(res == Ok::<(), IrError>(()));
        }
        i = i + 1;
    }
    proof {
        assert(run_chain(ps, ms, n as int, *old(module), *module, Ok::<(), IrError>(())));
    }
    Ok(())
}

} // verus!
