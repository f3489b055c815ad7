//! Core identifiers and value types of SlugIR.

use vstd::prelude::*;

verus! {

/// Identifier of a backend IP; matches the vendored Gemma IP names.
#[derive(Debug, Clone, Copy, PartialEq, Eq, Hash, Structural)]
pub enum IpId {
    SystolicArray4x4,
    SystolicArray16x16,
    SystolicArray32x32,
    NpuArrayV4SeedG,
    NpuClusterV4,
    NoCMesh,
    GemmIp,
    PtxEmulationCore,
    SlugCxl4x4,
}

/// The catalog name of an IP.
pub open spec fn spec_catalog_name(ip: IpId) -> Seq<char> {
    match ip {
        IpId::SystolicArray4x4 => "systolic_array_4x4"@,
        IpId::SystolicArray16x16 => "systolic_array_16x16"@,
        IpId::SystolicArray32x32 => "systolic_array_32x32"@,
        IpId::NpuArrayV4SeedG => "npu_array_v4_seed_g"@,
        IpId::NpuClusterV4 => "npu_cluster_v4"@,
        IpId::NoCMesh => "noc_mesh"@,
        IpId::GemmIp => "gemm_ip"@,
        IpId::PtxEmulationCore => "ptx_emulation_core"@,
        IpId::SlugCxl4x4 => "slugcxl_4x4"@,
    }
}

/// No two IPs share a catalog name.
pub proof fn lemma_catalog_name_injective(a: IpId, b: IpId)
    requires
        spec_catalog_name(a) == spec_catalog_name(b),
    ensures
        a == b,
{
    reveal_strlit("systolic_array_4x4");
    reveal_strlit("systolic_array_16x16");
    reveal_strlit("systolic_array_32x32");
    reveal_strlit("npu_array_v4_seed_g");
    reveal_strlit("npu_cluster_v4");
    reveal_strlit("noc_mesh");
    reveal_strlit("gemm_ip");
    reveal_strlit("ptx_emulation_core");
    reveal_strlit("slugcxl_4x4");
    if a != b {
        let sa = spec_catalog_name(a);
        let sb = spec_catalog_name(b);
        assert(sa.len() == sb.len());
        assert(sa[0] == sb[0]);
        assert(sa[15] == sb[15]);
        assert(sa[16] == sb[16]);
    }
}

/// Every IP, in catalog order.
pub open spec fn spec_all_ips() -> Seq<IpId> {
    seq![
        IpId::SystolicArray4x4,
        IpId::SystolicArray16x16,
        IpId::SystolicArray32x32,
        IpId::NpuArrayV4SeedG,
        IpId::NpuClusterV4,
        IpId::NoCMesh,
        IpId::GemmIp,
        IpId::PtxEmulationCore,
        IpId::SlugCxl4x4,
    ]
}

impl IpId {
    /// The Gemma catalog name of this IP.
    pub fn catalog_name(self) -> (r: &'static str)
        ensures
            r@ == spec_catalog_name(self),
    {
        match self {
            IpId::SystolicArray4x4 => "systolic_array_4x4",
            IpId::SystolicArray16x16 => "systolic_array_16x16",
            IpId::SystolicArray32x32 => "systolic_array_32x32",
            IpId::NpuArrayV4SeedG => "npu_array_v4_seed_g",
            IpId::NpuClusterV4 => "npu_cluster_v4",
            IpId::NoCMesh => "noc_mesh",
            IpId::GemmIp => "gemm_ip",
            IpId::PtxEmulationCore => "ptx_emulation_core",
            IpId::SlugCxl4x4 => "slugcxl_4x4",
        }
    }

    /// Every IP, in catalog order.
    pub fn all() -> (r: Vec<IpId>)
        ensures
            r@ == spec_all_ips(),
    {
        let mut v: Vec<IpId> = Vec::new();
        v.push(IpId::SystolicArray4x4);
        v.push(IpId::SystolicArray16x16);
        v.push(IpId::SystolicArray32x32);
        v.push(IpId::NpuArrayV4SeedG);
        v.push(IpId::NpuClusterV4);
        v.push(IpId::NoCMesh);
        v.push(IpId::GemmIp);
        v.push(IpId::PtxEmulationCore);
        v.push(IpId::SlugCxl4x4);
        assert(v@ =~= spec_all_ips());
        v
    }

    /// Whether the IP runs on the CPU rather than on RTL.
    #[verifier::allow_in_spec]
    pub fn is_cpu_backed(self) -> bool
        returns
            self is PtxEmulationCore,
    {
        matches!(self, IpId::PtxEmulationCore)
    }
}

/// Backend choice produced by `select_backend`; always an IP.
#[derive(Debug, Clone, Copy, PartialEq, Eq, Hash, Structural)]
pub struct BackendChoice(pub IpId);

/// Stable identifier of an operation inside a Function.
#[derive(Debug, Clone, Copy, PartialEq, Eq, Hash, PartialOrd, Ord, Structural)]
pub struct OpId(pub u32);

/// Identifier of a token (assigned by `assign_tokens`).
#[derive(Debug, Clone, Copy, PartialEq, Eq, Hash, PartialOrd, Ord, Structural)]
pub struct TokenId(pub u32);

/// Byte offset into the host memory buffer.
pub type Addr = u64;

/// Primitive data type of a tensor or operand.
#[derive(Debug, Clone, Copy, PartialEq, Eq, Hash, Structural)]
pub enum Dtype {
    U8,
    I8,
    U16,
    I16,
    U32,
    I32,
    U64,
    I64,
    F16,
    BF16,
    F32,
    F64,
}

/// The product of the dimensions in `dims`.
pub open spec fn dims_product(dims: Seq<u32>) -> nat
    decreases dims.len(),
{
    if dims.len() == 0 {
        1
    } else {
        dims_product(dims.drop_last()) * (dims.last() as nat)
    }
}

/// Shape of a tensor tile (up to four dimensions in v1).
#[derive(Debug, Clone, PartialEq, Eq, Hash)]
pub struct Shape(pub Vec<u32>);

impl Shape {
    /// Number of dimensions.
    pub fn rank(&self) -> (r: usize)
        ensures
            r == self.0@.len(),
    {
        self.0.len()
    }

    /// Number of elements: the product of the dimensions (1 for rank 0).
    pub fn num_elements(&self) -> (r: u64)
        requires
            forall|k: int| 0 <= k <= self.0@.len() ==> #[trigger] dims_product(self.0@.subrange(0, k)) <= u64::MAX,
        ensures
            r == dims_product(self.0@),
    {
        let mut acc: u64 = 1;
        let mut i: usize = 0;
        while i < self.0.len()
            invariant
                0 <= i <= self.0@.len(),
                acc == dims_product(self.0@.subrange(0, i as int)),
                forall|k: int| 0 <= k <= self.0@.len() ==> #[trigger] dims_product(self.0@.subrange(0, k)) <= u64::MAX,
            decreases self.0@.len() - i,
        {
            proof {
                assert(dims_product(self.0@.subrange(0, i as int + 1)) <= u64::MAX);
                assert(self.0@.subrange(0, i as int + 1).drop_last() =~= self.0@.subrange(0, i as int));
            }
            acc = acc * (self.0[i] as u64);
            i = i + 1;
        }
        assert(self.0@.subrange(0, i as int) =~= self.0@);
        acc
    }
}

} // verus!
