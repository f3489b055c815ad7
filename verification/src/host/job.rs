//! A 4x4 GEMM job and its result.

use vstd::prelude::*;

verus! {

/// Two 4x4 byte matrices to multiply.
#[derive(Debug, Clone, PartialEq, Eq)]
pub struct GemmJob {
    pub a: [[u8; 4]; 4],
    pub b: [[u8; 4]; 4],
}

/// The product and what running it took.
#[derive(Debug, Clone, PartialEq, Eq)]
pub struct GemmResult {
    pub c: [[u32; 4]; 4],
    pub cycles: u64,
    pub flits_sent: u64,
    pub flits_received: u64,
}

impl GemmJob {
    /// Entry `(r, k)` of `a`.
    pub open spec fn a_at(&self, r: int, k: int) -> u8 {
        self.a@[r]@[k]
    }

    /// Entry `(k, c)` of `b`.
    pub open spec fn b_at(&self, k: int, c: int) -> u8 {
        self.b@[k]@[c]
    }
}

/// Entry `(r, c)` of the product `a * b`.
pub open spec fn product_at(job: GemmJob, r: int, c: int) -> int {
    job.a_at(r, 0) * job.b_at(0, c) + job.a_at(r, 1) * job.b_at(1, c) + job.a_at(r, 2) * job.b_at(2, c)
        + job.a_at(r, 3) * job.b_at(3, c)
}

/// Entry `(r, c)` of a 4x4 matrix of words.
pub open spec fn cell(m: [[u32; 4]; 4], r: int, c: int) -> u32 {
    m@[r]@[c]
}

} // verus!
