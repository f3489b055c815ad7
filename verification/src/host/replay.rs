//! Replay recording at the CXL boundary of the GEMM endpoint: one record
//! per FLIT that crosses it, with the payload captured as a hash, a delta
//! against zeros, or in full, and the validation of two recordings against
//! each other.
//!
//! The recorder sees CXL messages and workload hints only, never the state
//! inside the IP.

use vstd::prelude::*;
use vstd::string::*;

use crate::ir::types::IpId;
use crate::wire::encode::{encode, spec_encode};
use crate::wire::flit::{u64_le, FLIT_BYTES};
use crate::wire::msg::{CxlMsg, M2SReqOp, M2SRwDOp, MsgClass};
use super::dispatch::u32_le;
use super::job::{cell, GemmResult};

verus! {

broadcast use vstd::array::group_array_axioms;

/// How much of each payload a recording keeps.
#[derive(Debug, Clone, Copy, PartialEq, Eq, Structural)]
pub enum CxlRecordMode {
    Validation,
    Delta,
    Full,
}

/// Which way a FLIT crosses the boundary.
#[derive(Debug, Clone, Copy, PartialEq, Eq, Structural)]
pub enum CxlDirection {
    HostToDevice,
    DeviceToHost,
}

/// One side of the boundary.
#[derive(Debug, Clone, Copy, PartialEq, Eq, Structural)]
pub enum CxlEndpoint {
    Host,
    Device(IpId),
}

/// The CXL transaction a message belongs to.
#[derive(Debug, Clone, Copy, PartialEq, Eq, Hash, Structural)]
pub enum CxlTransactionClass {
    CxlMemRead,
    CxlMemWrite,
    CxlMemWritePartial,
    CxlMemEviction,
    CxlMemData,
    CxlCompletion,
    CxlCacheRequest,
    CxlCacheResponse,
    CxlSnoopRequest,
    CxlSnoopResponse,
}

/// What a record keeps of a payload.
#[derive(Debug, Clone, PartialEq, Eq)]
pub enum PayloadCapture {
    /// The message carries no payload.
    Empty,
    Hash64(u64),
    Delta { baseline_hash: u64, changed_bytes: Vec<(u8, u8)> },
    Full(Vec<u8>),
}

/// A payload capture as a mathematical value.
pub enum PayloadView {
    Empty,
    Hash64(u64),
    Delta { baseline_hash: u64, changed_bytes: Seq<(u8, u8)> },
    Full(Seq<u8>),
}

impl View for PayloadCapture {
    type V = PayloadView;

    open spec fn view(&self) -> PayloadView {
        match self {
            PayloadCapture::Empty => PayloadView::Empty,
            PayloadCapture::Hash64(h) => PayloadView::Hash64(*h),
            PayloadCapture::Delta { baseline_hash, changed_bytes } => PayloadView::Delta {
                baseline_hash: *baseline_hash,
                changed_bytes: changed_bytes@,
            },
            PayloadCapture::Full(bytes) => PayloadView::Full(bytes@),
        }
    }
}

/// The FNV-1a offset basis.
pub const FNV_OFFSET: u64 = 0xcbf2_9ce4_8422_2325;

/// The FNV-1a prime.
pub const FNV_PRIME: u64 = 0x0000_0100_0000_01B3;

/// The 64-bit FNV-1a hash of `bytes`.
pub open spec fn fnv1a(bytes: Seq<u8>) -> u64
    decreases bytes.len(),
{
    if bytes.len() == 0 {
        FNV_OFFSET
    } else {
        (fnv1a(bytes.drop_last()) ^ (bytes.last() as u64)).wrapping_mul(FNV_PRIME)
    }
}

/// The 64-bit FNV-1a hash of `bytes`.
pub fn stable_hash64(bytes: &[u8]) -> (h: u64)
    ensures
        h == fnv1a(bytes@),
{
    let mut hash: u64 = FNV_OFFSET;
    let mut i: usize = 0;
    while i < bytes.len()
        invariant
            0 <= i <= bytes@.len(),
            hash == fnv1a(bytes@.subrange(0, i as int)),
        decreases bytes@.len() - i,
    {
        assert(bytes@.subrange(0, i as int + 1).drop_last() =~= bytes@.subrange(0, i as int));
        hash = hash ^ (bytes[i] as u64);
        hash = hash.wrapping_mul(FNV_PRIME);
        i = i + 1;
    }
    assert(bytes@.subrange(0, i as int) =~= bytes@);
    hash
}

/// Thirty-two zero bytes: the delta baseline.
pub open spec fn zero_payload() -> Seq<u8> {
    Seq::new(32, |i: int| 0u8)
}

/// The (index, byte) pairs of the nonzero bytes of `bytes`, in order.
pub open spec fn nonzero_bytes(bytes: Seq<u8>) -> Seq<(u8, u8)>
    decreases bytes.len(),
{
    if bytes.len() == 0 {
        Seq::empty()
    } else if bytes.last() == 0 {
        nonzero_bytes(bytes.drop_last())
    } else {
        nonzero_bytes(bytes.drop_last()).push(((bytes.len() - 1) as u8, bytes.last()))
    }
}

/// What mode `mode` keeps of `payload`.
pub open spec fn spec_capture(mode: CxlRecordMode, payload: Option<Seq<u8>>) -> PayloadView {
    match payload {
        None => PayloadView::Empty,
        Some(bytes) => match mode {
            CxlRecordMode::Validation => PayloadView::Hash64(fnv1a(bytes)),
            CxlRecordMode::Delta => PayloadView::Delta {
                baseline_hash: fnv1a(zero_payload()),
                changed_bytes: nonzero_bytes(bytes),
            },
            CxlRecordMode::Full => PayloadView::Full(bytes),
        },
    }
}

/// Bytes a capture takes: 8 for a hash, 8 plus 2 per changed byte for a
/// delta, the payload length in full.
pub open spec fn spec_captured_bytes(p: PayloadView) -> int {
    match p {
        PayloadView::Empty => 0,
        PayloadView::Hash64(_) => 8,
        PayloadView::Delta { changed_bytes, .. } => 8 + 2 * (changed_bytes.len() as int),
        PayloadView::Full(bytes) => bytes.len() as int,
    }
}

impl PayloadCapture {
    /// Captures `payload` as `mode` asks.
    pub fn from_payload(mode: CxlRecordMode, payload: Option<&[u8]>) -> (r: PayloadCapture)
        ensures
            r@ == spec_capture(mode, match payload {
                Some(b) => Some(b@),
                None => None,
            }),
    {
        let bytes = match payload {
            Some(b) => b,
            None => return PayloadCapture::Empty,
        };
        match mode {
            CxlRecordMode::Validation => PayloadCapture::Hash64(stable_hash64(bytes)),
            CxlRecordMode::Delta => {
                let mut changed_bytes: Vec<(u8, u8)> = Vec::new();
                let mut i: usize = 0;
                while i < bytes.len()
                    invariant
                        0 <= i <= bytes@.len(),
                        changed_bytes@ == nonzero_bytes(bytes@.subrange(0, i as int)),
                    decreases bytes@.len() - i,
                {
                    assert(bytes@.subrange(0, i as int + 1).drop_last() =~= bytes@.subrange(0, i as int));
                    if bytes[i] != 0 {
                        changed_bytes.push((i as u8, bytes[i]));
                    }
                    i = i + 1;
                }
                assert(bytes@.subrange(0, i as int) =~= bytes@);
                let zeros = [0u8; 32];
                assert(zeros@ =~= zero_payload());
                PayloadCapture::Delta { baseline_hash: stable_hash64(zeros.as_slice()), changed_bytes }
            },
            CxlRecordMode::Full => {
                let mut v: Vec<u8> = Vec::new();
                let mut i: usize = 0;
                while i < bytes.len()
                    invariant
                        0 <= i <= bytes@.len(),
                        v@ == bytes@.subrange(0, i as int),
                    decreases bytes@.len() - i,
                {
                    v.push(bytes[i]);
                    i = i + 1;
                    assert(v@ =~= bytes@.subrange(0, i as int));
                }
                assert(bytes@.subrange(0, i as int) =~= bytes@);
                PayloadCapture::Full(v)
            },
        }
    }

    /// Bytes this capture takes.
    pub fn captured_bytes(&self) -> (r: u64)
        requires
            spec_captured_bytes(self@) <= u64::MAX,
        ensures
            r == spec_captured_bytes(self@),
    {
        match self {
            PayloadCapture::Empty => 0,
            PayloadCapture::Hash64(_) => 8,
            PayloadCapture::Delta { changed_bytes, .. } => 8 + (changed_bytes.len() as u64) * 2,
            PayloadCapture::Full(bytes) => bytes.len() as u64,
        }
    }
}

/// The recording policy: what to keep and which endpoint is recorded.
#[derive(Debug, Clone, PartialEq, Eq)]
pub struct CxlRecordPolicy {
    pub mode: CxlRecordMode,
    pub endpoint: IpId,
}

impl CxlRecordPolicy {
    /// The policy for the GEMM endpoint (slugcxl_4x4) in `mode`.
    pub fn gemm(mode: CxlRecordMode) -> (r: CxlRecordPolicy)
        ensures
            r.mode == mode,
            r.endpoint == IpId::SlugCxl4x4,
    {
        CxlRecordPolicy { mode, endpoint: IpId::SlugCxl4x4 }
    }
}

/// The transaction class of a message.
#[verifier::allow_in_spec]
pub fn classify(msg: &CxlMsg) -> CxlTransactionClass
    returns
        match msg {
            CxlMsg::M2SReq { opcode: M2SReqOp::MemInv, .. } => CxlTransactionClass::CxlCacheRequest,
            CxlMsg::M2SReq { .. } => CxlTransactionClass::CxlMemRead,
            CxlMsg::M2SRwD { opcode: M2SRwDOp::MemWr, .. } => CxlTransactionClass::CxlMemWrite,
            CxlMsg::M2SRwD { opcode: M2SRwDOp::MemWrPtl, .. } => CxlTransactionClass::CxlMemWritePartial,
            CxlMsg::M2SRwD { .. } => CxlTransactionClass::CxlMemEviction,
            CxlMsg::S2MDRS { .. } => CxlTransactionClass::CxlMemData,
            CxlMsg::S2MNDR { .. } => CxlTransactionClass::CxlCompletion,
            CxlMsg::D2HReq { .. } => CxlTransactionClass::CxlCacheRequest,
            CxlMsg::D2HResp { .. } => CxlTransactionClass::CxlCacheResponse,
            CxlMsg::H2DReq { .. } => CxlTransactionClass::CxlSnoopRequest,
            CxlMsg::H2DResp { .. } => CxlTransactionClass::CxlSnoopResponse,
        },
{
    match msg {
        CxlMsg::M2SReq { opcode: M2SReqOp::MemInv, .. } => CxlTransactionClass::CxlCacheRequest,
        CxlMsg::M2SReq { .. } => CxlTransactionClass::CxlMemRead,
        CxlMsg::M2SRwD { opcode: M2SRwDOp::MemWr, .. } => CxlTransactionClass::CxlMemWrite,
        CxlMsg::M2SRwD { opcode: M2SRwDOp::MemWrPtl, .. } => CxlTransactionClass::CxlMemWritePartial,
        CxlMsg::M2SRwD { .. } => CxlTransactionClass::CxlMemEviction,
        CxlMsg::S2MDRS { .. } => CxlTransactionClass::CxlMemData,
        CxlMsg::S2MNDR { .. } => CxlTransactionClass::CxlCompletion,
        CxlMsg::D2HReq { .. } => CxlTransactionClass::CxlCacheRequest,
        CxlMsg::D2HResp { .. } => CxlTransactionClass::CxlCacheResponse,
        CxlMsg::H2DReq { .. } => CxlTransactionClass::CxlSnoopRequest,
        CxlMsg::H2DResp { .. } => CxlTransactionClass::CxlSnoopResponse,
    }
}

/// The name of a message's opcode.
#[verifier::allow_in_spec]
pub fn opcode_name(msg: &CxlMsg) -> &'static str
    returns
        match msg {
            CxlMsg::M2SReq { opcode, .. } => opcode.name(),
            CxlMsg::M2SRwD { opcode, .. } => opcode.name(),
            CxlMsg::S2MDRS { opcode, .. } => opcode.name(),
            CxlMsg::S2MNDR { opcode, .. } => opcode.name(),
            CxlMsg::D2HReq { opcode, .. } => opcode.name(),
            CxlMsg::D2HResp { opcode, .. } => opcode.name(),
            CxlMsg::H2DReq { opcode, .. } => opcode.name(),
            CxlMsg::H2DResp { opcode, .. } => opcode.name(),
        },
{
    match msg {
        CxlMsg::M2SReq { opcode, .. } => opcode.name(),
        CxlMsg::M2SRwD { opcode, .. } => opcode.name(),
        CxlMsg::S2MDRS { opcode, .. } => opcode.name(),
        CxlMsg::S2MNDR { opcode, .. } => opcode.name(),
        CxlMsg::D2HReq { opcode, .. } => opcode.name(),
        CxlMsg::D2HResp { opcode, .. } => opcode.name(),
        CxlMsg::H2DReq { opcode, .. } => opcode.name(),
        CxlMsg::H2DResp { opcode, .. } => opcode.name(),
    }
}

/// The payload a message carries, if any.
pub open spec fn spec_payload(msg: CxlMsg) -> Option<Seq<u8>> {
    match msg {
        CxlMsg::M2SRwD { data, .. } => Some(data@),
        CxlMsg::S2MDRS { data, .. } => Some(data@),
        CxlMsg::D2HResp { data: Some(d), .. } => Some(d@),
        _ => None,
    }
}

/// The payload a message carries, if any.
pub fn payload_bytes(msg: &CxlMsg) -> (r: Option<&[u8]>)
    ensures
        match r {
            Some(b) => spec_payload(*msg) == Some(b@),
            None => spec_payload(*msg) is None,
        },
{
    match msg {
        CxlMsg::M2SRwD { data, .. } => Some(data.as_slice()),
        CxlMsg::S2MDRS { data, .. } => Some(data.as_slice()),
        CxlMsg::D2HResp { data: Some(d), .. } => Some(d.as_slice()),
        _ => None,
    }
}

/// The address a message carries, if its class has one.
#[verifier::allow_in_spec]
pub fn address(msg: &CxlMsg) -> Option<u64>
    returns
        match msg {
            CxlMsg::M2SReq { addr, .. } => Some(*addr),
            CxlMsg::M2SRwD { addr, .. } => Some(*addr),
            CxlMsg::D2HReq { addr, .. } => Some(*addr),
            CxlMsg::H2DReq { addr, .. } => Some(*addr),
            _ => None,
        },
{
    match msg {
        CxlMsg::M2SReq { addr, .. } => Some(*addr),
        CxlMsg::M2SRwD { addr, .. } => Some(*addr),
        CxlMsg::D2HReq { addr, .. } => Some(*addr),
        CxlMsg::H2DReq { addr, .. } => Some(*addr),
        _ => None,
    }
}

/// The GEMM phase of request `i`: 0 loading A, 1 loading B, 2 compute,
/// 3 readback.
#[verifier::allow_in_spec]
pub fn gemm_epoch(request_index: usize) -> u64
    returns
        if request_index <= 15 {
            0u64
        } else if request_index <= 31 {
            1u64
        } else if request_index == 32 {
            2u64
        } else {
            3u64
        },
{
    if request_index <= 15 {
        0
    } else if request_index <= 31 {
        1
    } else if request_index == 32 {
        2
    } else {
        3
    }
}

/// The provenance label of request `i`'s phase.
pub open spec fn spec_provenance(request_index: int) -> Seq<char> {
    if request_index <= 15 {
        "gemm.load_a"@
    } else if request_index <= 31 {
        "gemm.load_b"@
    } else if request_index == 32 {
        "gemm.compute"@
    } else {
        "gemm.readback"@
    }
}

/// The provenance label of request `i`'s phase.
pub fn provenance_label(request_index: usize) -> (r: Option<String>)
    ensures
        r matches Some(s) && s@ == spec_provenance(request_index as int),
{
    let label = if request_index <= 15 {
        "gemm.load_a"
    } else if request_index <= 31 {
        "gemm.load_b"
    } else if request_index == 32 {
        "gemm.compute"
    } else {
        "gemm.readback"
    };
    Some(String::from_str(label))
}

/// The bytes a result commits to: the 16 entries of `c` row-major as
/// little-endian words, then cycles, FLITs sent and FLITs received as
/// little-endian 64-bit words.
pub open spec fn commitment_bytes(r: GemmResult) -> Seq<u8> {
    Seq::new(16, |i: int| u32_le(cell(r.c, i / 4, i % 4))).flatten() + u64_le(r.cycles) + u64_le(r.flits_sent)
        + u64_le(r.flits_received)
}

fn push_u32_le(out: &mut Vec<u8>, x: u32)
    ensures
        final(out)@ == old(out)@ + u32_le(x),
{
    out.push((x & 0xff) as u8);
    out.push(((x >> 8u32) & 0xff) as u8);
    out.push(((x >> 16u32) & 0xff) as u8);
    out.push((x >> 24u32) as u8);
    assert(out@ =~= old(out)@ + u32_le(x));
}

fn push_u64_le(out: &mut Vec<u8>, x: u64)
    ensures
        final(out)@ == old(out)@ + u64_le(x),
{
    out.push((x & 0xff) as u8);
    out.push(((x >> 8u64) & 0xff) as u8);
    out.push(((x >> 16u64) & 0xff) as u8);
    out.push(((x >> 24u64) & 0xff) as u8);
    out.push(((x >> 32u64) & 0xff) as u8);
    out.push(((x >> 40u64) & 0xff) as u8);
    out.push(((x >> 48u64) & 0xff) as u8);
    out.push((x >> 56u64) as u8);
    assert(out@ =~= old(out)@ + u64_le(x));
}

/// The hash a result commits to.
pub fn result_commitment(result: &GemmResult) -> (h: u64)
    ensures
        h == fnv1a(commitment_bytes(*result)),
{
    let mut bytes: Vec<u8> = Vec::new();
    let ghost cells = Seq::new(16, |i: int| u32_le(cell(result.c, i / 4, i % 4)));
    let mut i: usize = 0;
    while i < 16
        invariant
            0 <= i <= 16,
            cells == Seq::new(16, |i: int| u32_le(cell(result.c, i / 4, i % 4))),
            bytes@ == cells.subrange(0, i as int).flatten(),
        decreases 16 - i,
    {
        let ghost before = bytes@;
        push_u32_le(&mut bytes, result.c[i / 4][i % 4]);
        proof {
            cells.subrange(0, i as int).lemma_flatten_push(cells[i as int]);
            assert(cells.subrange(0, i as int + 1) =~= cells.subrange(0, i as int).push(cells[i as int]));
        }
        i = i + 1;
    }
    assert(cells.subrange(0, 16) =~= cells);
    push_u64_le(&mut bytes, result.cycles);
    push_u64_le(&mut bytes, result.flits_sent);
    push_u64_le(&mut bytes, result.flits_received);
    stable_hash64(bytes.as_slice())
}

/// The hash of a message's FLIT.
pub fn flit_commitment(msg: &CxlMsg) -> (h: u64)
    ensures
        h == fnv1a(spec_encode(*msg)),
{
    let flit = encode(msg);
    stable_hash64(flit.as_slice())
}

/// One FLIT crossing the boundary.
#[derive(Debug, Clone, PartialEq, Eq)]
pub struct CxlReplayRecord {
    pub sequence: u64,
    pub source: CxlEndpoint,
    pub destination: CxlEndpoint,
    pub epoch: u64,
    pub direction: CxlDirection,
    pub transaction_class: CxlTransactionClass,
    pub msg_class: MsgClass,
    pub opcode: String,
    pub tag: u16,
    pub address: Option<u64>,
    pub dependencies: Vec<u16>,
    pub fence: bool,
    pub payload: PayloadCapture,
    pub provenance: Option<String>,
}

/// A replay record as a mathematical value.
pub struct RecordView {
    pub sequence: u64,
    pub source: CxlEndpoint,
    pub destination: CxlEndpoint,
    pub epoch: u64,
    pub direction: CxlDirection,
    pub transaction_class: CxlTransactionClass,
    pub msg_class: MsgClass,
    pub opcode: Seq<char>,
    pub tag: u16,
    pub address: Option<u64>,
    pub dependencies: Seq<u16>,
    pub fence: bool,
    pub payload: PayloadView,
    pub provenance: Option<Seq<char>>,
}

impl View for CxlReplayRecord {
    type V = RecordView;

    open spec fn view(&self) -> RecordView {
        RecordView {
            sequence: self.sequence,
            source: self.source,
            destination: self.destination,
            epoch: self.epoch,
            direction: self.direction,
            transaction_class: self.transaction_class,
            msg_class: self.msg_class,
            opcode: self.opcode@,
            tag: self.tag,
            address: self.address,
            dependencies: self.dependencies@,
            fence: self.fence,
            payload: self.payload@,
            provenance: match self.provenance {
                Some(p) => Some(p@),
                None => None,
            },
        }
    }
}

/// The records of a sequence, as values.
pub open spec fn record_views(rs: Seq<CxlReplayRecord>) -> Seq<RecordView> {
    rs.map_values(|r: CxlReplayRecord| r@)
}

/// Totals over a recording.
#[derive(Debug, Clone, PartialEq, Eq)]
pub struct CxlReplaySummary {
    pub record_count: u64,
    pub epoch_count: u64,
    pub application_flit_bytes: u64,
    pub replay_record_bytes: u64,
    pub payload_capture_bytes: u64,
    pub hash_payload_records: u64,
    pub delta_payload_records: u64,
    pub full_payload_records: u64,
}

impl Default for CxlReplaySummary {
    /// All totals zero.
    fn default() -> (r: Self)
        ensures
            r.record_count == 0 && r.epoch_count == 0 && r.application_flit_bytes == 0 && r.replay_record_bytes == 0
                && r.payload_capture_bytes == 0 && r.hash_payload_records == 0 && r.delta_payload_records == 0
                && r.full_payload_records == 0,
    {
        CxlReplaySummary {
            record_count: 0,
            epoch_count: 0,
            application_flit_bytes: 0,
            replay_record_bytes: 0,
            payload_capture_bytes: 0,
            hash_payload_records: 0,
            delta_payload_records: 0,
            full_payload_records: 0,
        }
    }
}

/// A recording: its policy, its records, the commitment of the run's
/// result and the totals.
#[derive(Debug, Clone, PartialEq, Eq)]
pub struct CxlReplayArtifact {
    pub policy: CxlRecordPolicy,
    pub records: Vec<CxlReplayRecord>,
    pub final_result_commitment: u64,
    pub summary: CxlReplaySummary,
}

/// The outcome of comparing two recordings.
#[derive(Debug, Clone, PartialEq, Eq)]
pub struct CxlReplayValidation {
    pub records_compared: usize,
    pub record_count_matches: bool,
    pub record_mismatches: usize,
    pub final_commitment_matches: bool,
}

/// A GEMM run with its recording.
#[derive(Debug, Clone)]
pub struct CxlRecordedRun {
    pub result: GemmResult,
    pub artifact: CxlReplayArtifact,
}

/// Number of positions below `k` at which `a` and `b` differ.
pub open spec fn count_differences(a: Seq<RecordView>, b: Seq<RecordView>, k: int) -> nat
    decreases k,
{
    if k <= 0 {
        0
    } else {
        count_differences(a, b, k - 1) + if a[k - 1] == b[k - 1] {
            0nat
        } else {
            1nat
        }
    }
}

fn payloads_equal(a: &PayloadCapture, b: &PayloadCapture) -> (r: bool)
    ensures
        r == (a@ == b@),
{
    match (a, b) {
        (PayloadCapture::Empty, PayloadCapture::Empty) => true,
        (PayloadCapture::Hash64(x), PayloadCapture::Hash64(y)) => *x == *y,
        (PayloadCapture::Delta { baseline_hash: h1, changed_bytes: c1 }, PayloadCapture::Delta { baseline_hash: h2, changed_bytes: c2 }) => {
            if *h1 != *h2 || c1.len() != c2.len() {
                return false;
            }
            let mut i: usize = 0;
            while i < c1.len()
                invariant
                    0 <= i <= c1@.len(),
                    c1@.len() == c2@.len(),
                    a@ == (PayloadView::Delta { baseline_hash: *h1, changed_bytes: c1@ }),
                    b@ == (PayloadView::Delta { baseline_hash: *h2, changed_bytes: c2@ }),
                    forall|j: int| 0 <= j < i ==> c1@[j] == c2@[j],
                decreases c1@.len() - i,
            {
                if c1[i].0 != c2[i].0 || c1[i].1 != c2[i].1 {
                    assert(c1@[i as int] != c2@[i as int]);
                    assert(c1@ != c2@);
                    return false;
                }
                i = i + 1;
            }
            assert(c1@ =~= c2@);
            true
        },
        (PayloadCapture::Full(x), PayloadCapture::Full(y)) => {
            if x.len() != y.len() {
                return false;
            }
            let mut i: usize = 0;
            while i < x.len()
                invariant
                    0 <= i <= x@.len(),
                    x@.len() == y@.len(),
                    a@ == PayloadView::Full(x@),
                    b@ == PayloadView::Full(y@),
                    forall|j: int| 0 <= j < i ==> x@[j] == y@[j],
                decreases x@.len() - i,
            {
                if x[i] != y[i] {
                    assert(x@[i as int] != y@[i as int]);
                    assert(x@ != y@);
                    return false;
                }
                i = i + 1;
            }
            assert(x@ =~= y@);
            true
        },
        _ => false,
    }
}

fn records_equal(a: &CxlReplayRecord, b: &CxlReplayRecord) -> (r: bool)
    ensures
        r == (a@ == b@),
{
    if a.sequence != b.sequence || a.source != b.source || a.destination != b.destination || a.epoch != b.epoch
        || a.direction != b.direction || a.transaction_class != b.transaction_class || a.msg_class != b.msg_class
        || !(a.opcode == b.opcode) || a.tag != b.tag || a.fence != b.fence {
        return false;
    }
    let same_address = match (a.address, b.address) {
        (Some(x), Some(y)) => x == y,
        (None, None) => true,
        _ => false,
    };
    if !same_address {
        return false;
    }
    if a.dependencies.len() != b.dependencies.len() {
        return false;
    }
    let mut i: usize = 0;
    while i < a.dependencies.len()
        invariant
            0 <= i <= a.dependencies@.len(),
            a.dependencies@.len() == b.dependencies@.len(),
            forall|j: int| 0 <= j < i ==> a.dependencies@[j] == b.dependencies@[j],
        decreases a.dependencies@.len() - i,
    {
        if a.dependencies[i] != b.dependencies[i] {
            return false;
        }
        i = i + 1;
    }
    assert(a.dependencies@ =~= b.dependencies@);
    if !payloads_equal(&a.payload, &b.payload) {
        return false;
    }
    match (&a.provenance, &b.provenance) {
        (Some(x), Some(y)) => *x == *y,
        (None, None) => true,
        _ => false,
    }
}

/// `v` is the comparison of `x` with `y`: how many positions both have,
/// whether the counts match, how many positions differ (records one has
/// beyond the other count as differing), and whether the result
/// commitments match.
pub open spec fn is_validation_of(x: CxlReplayArtifact, y: CxlReplayArtifact, v: CxlReplayValidation) -> bool {
    let n1 = x.records@.len();
    let n2 = y.records@.len();
    &&& v.records_compared == if n1 <= n2 { n1 } else { n2 }
    &&& v.record_count_matches == (n1 == n2)
    &&& v.record_mismatches == count_differences(record_views(x.records@), record_views(y.records@), v.records_compared as int)
        + if n1 <= n2 { n2 - n1 } else { n1 - n2 }
    &&& v.final_commitment_matches == (x.final_result_commitment == y.final_result_commitment)
}

proof fn lemma_count_differences_zero(a: Seq<RecordView>, b: Seq<RecordView>, k: int)
    requires
        0 <= k,
    ensures
        count_differences(a, b, k) == 0 <==> forall|i: int| 0 <= i < k ==> a[i] == b[i],
    decreases k,
{
    if k > 0 {
        lemma_count_differences_zero(a, b, k - 1);
    }
}

/// Validation is exact: two recordings validate as equivalent exactly when
/// they hold equal records, position by position, and the same result
/// commitment.
pub proof fn lemma_validation_exact(x: CxlReplayArtifact, y: CxlReplayArtifact, v: CxlReplayValidation)
    requires
        is_validation_of(x, y, v),
    ensures
        (v.record_count_matches && v.record_mismatches == 0 && v.final_commitment_matches) <==> (record_views(x.records@)
            == record_views(y.records@) && x.final_result_commitment == y.final_result_commitment),
{
    let a = record_views(x.records@);
    let b = record_views(y.records@);
    lemma_count_differences_zero(a, b, v.records_compared as int);
    assert(a.len() == x.records@.len());
    assert(b.len() == y.records@.len());
    if v.record_count_matches && v.record_mismatches == 0 {
        assert(a =~= b);
    }
}

proof fn lemma_count_differences_symmetric(a: Seq<RecordView>, b: Seq<RecordView>, k: int)
    ensures
        count_differences(a, b, k) == count_differences(b, a, k),
    decreases k,
{
    if k > 0 {
        lemma_count_differences_symmetric(a, b, k - 1);
    }
}

/// A recording always validates as equivalent against itself.
pub proof fn lemma_validation_reflexive(x: CxlReplayArtifact, v: CxlReplayValidation)
    requires
        is_validation_of(x, x, v),
    ensures
        v.record_count_matches,
        v.record_mismatches == 0,
        v.final_commitment_matches,
        v.records_compared == x.records@.len(),
{
    lemma_count_differences_zero(record_views(x.records@), record_views(x.records@), v.records_compared as int);
}

/// Validation does not depend on which recording is compared with which.
pub proof fn lemma_validation_symmetric(x: CxlReplayArtifact, y: CxlReplayArtifact, v: CxlReplayValidation, w: CxlReplayValidation)
    requires
        is_validation_of(x, y, v),
        is_validation_of(y, x, w),
    ensures
        v == w,
{
    lemma_count_differences_symmetric(record_views(x.records@), record_views(y.records@), v.records_compared as int);
}

/// A payload of at least 8 bytes costs a validation (hash) capture no more
/// than a delta or a full capture, and strictly less than a full capture
/// once it is longer than 8 bytes; a message without payload costs nothing
/// in any mode.
pub proof fn lemma_capture_sizes_ordered(payload: Option<Seq<u8>>)
    ensures
        payload matches Some(bytes) && bytes.len() >= 8 ==> spec_captured_bytes(spec_capture(CxlRecordMode::Validation, payload))
            <= spec_captured_bytes(spec_capture(CxlRecordMode::Delta, payload)),
        payload matches Some(bytes) && bytes.len() >= 8 ==> spec_captured_bytes(spec_capture(CxlRecordMode::Validation, payload))
            <= spec_captured_bytes(spec_capture(CxlRecordMode::Full, payload)),
        payload matches Some(bytes) && bytes.len() > 8 ==> spec_captured_bytes(spec_capture(CxlRecordMode::Validation, payload))
            < spec_captured_bytes(spec_capture(CxlRecordMode::Full, payload)),
        payload is None ==> spec_captured_bytes(spec_capture(CxlRecordMode::Validation, payload)) == 0
            && spec_captured_bytes(spec_capture(CxlRecordMode::Delta, payload)) == 0
            && spec_captured_bytes(spec_capture(CxlRecordMode::Full, payload)) == 0,
{
}

impl CxlReplayArtifact {
    /// Compares this recording with `other` record by record: how many
    /// positions both have, whether the counts match, how many positions
    /// differ (records one has beyond the other count as differing), and
    /// whether the result commitments match.
    pub fn validate_equivalent(&self, other: &Self) -> (v: CxlReplayValidation)
        ensures
            is_validation_of(*self, *other, v),
    {
        let n1 = self.records.len();
        let n2 = other.records.len();
        let compared = if n1 <= n2 { n1 } else { n2 };
        let mut mismatches: usize = 0;
        let mut i: usize = 0;
        while i < compared
            invariant
                0 <= i <= compared,
                compared <= self.records@.len(),
                compared <= other.records@.len(),
                mismatches <= i,
                mismatches == count_differences(record_views(self.records@), record_views(other.records@), i as int),
            decreases compared - i,
        {
            if !records_equal(&self.records[i], &other.records[i]) {
                mismatches = mismatches + 1;
            }
            i = i + 1;
        }
        let extra = if n1 <= n2 { n2 - n1 } else { n1 - n2 };
        CxlReplayValidation {
            records_compared: compared,
            record_count_matches: n1 == n2,
            record_mismatches: mismatches + extra,
            final_commitment_matches: self.final_result_commitment == other.final_result_commitment,
        }
    }
}

/// The tag after `t`, wrapping past the largest.
pub open spec fn next_tag(t: u16) -> u16 {
    if t == 0xffff {
        0
    } else {
        (t + 1) as u16
    }
}

/// The records of `rs` with the first one's tag moved to the next tag.
pub open spec fn first_tag_bumped(rs: Seq<RecordView>) -> Seq<RecordView> {
    rs.update(0, RecordView { tag: next_tag(rs[0].tag), ..rs[0] })
}

impl CxlReplayArtifact {
    /// Moves the tag of the first record, if there is one, to the next tag
    /// (wrapping): the recording tampered in one field.
    pub fn bump_first_tag(&mut self)
        ensures
            final(self).policy == old(self).policy,
            final(self).final_result_commitment == old(self).final_result_commitment,
            final(self).summary == old(self).summary,
            old(self).records@.len() == 0 ==> final(self).records@ == old(self).records@,
            old(self).records@.len() > 0 ==> record_views(final(self).records@) == first_tag_bumped(record_views(old(self).records@)),
    {
        if self.records.len() > 0 {
            let ghost before = self.records@;
            let mut r = self.records.remove(0);
            r.tag = if r.tag == 0xffff { 0 } else { r.tag + 1 };
            self.records.insert(0, r);
            proof {
                assert(self.records@ =~= before.update(0, r));
                assert(record_views(self.records@) =~= first_tag_bumped(record_views(before)));
            }
        }
    }
}

/// A recording whose first record's tag was moved never validates as
/// equivalent to the recording it came from.
pub proof fn lemma_tampered_recording_detected(x: CxlReplayArtifact, y: CxlReplayArtifact, v: CxlReplayValidation)
    requires
        x.records@.len() > 0,
        record_views(y.records@) == first_tag_bumped(record_views(x.records@)),
        is_validation_of(x, y, v),
    ensures
        !(v.record_count_matches && v.record_mismatches == 0 && v.final_commitment_matches),
{
    lemma_validation_exact(x, y, v);
    let a = record_views(x.records@);
    let b = record_views(y.records@);
    assert(b[0].tag == next_tag(a[0].tag));
    assert(a[0] != b[0]);
}

impl CxlReplayValidation {
    /// Same count, no differing record, same commitment.
    pub fn is_equivalent(&self) -> (r: bool)
        ensures
            r == (self.record_count_matches && self.record_mismatches == 0 && self.final_commitment_matches),
    {
        self.record_count_matches && self.record_mismatches == 0 && self.final_commitment_matches
    }
}

/// The endpoint a FLIT leaves from, and the one it reaches.
pub open spec fn spec_ends(policy: CxlRecordPolicy, direction: CxlDirection) -> (CxlEndpoint, CxlEndpoint) {
    match direction {
        CxlDirection::HostToDevice => (CxlEndpoint::Host, CxlEndpoint::Device(policy.endpoint)),
        CxlDirection::DeviceToHost => (CxlEndpoint::Device(policy.endpoint), CxlEndpoint::Host),
    }
}

/// The record of FLIT `msg` of request `request_index` crossing in
/// `direction`, as record number `sequence`, under `policy`, when the last
/// response recorded carried tag `last`: a request depends on that last
/// response, a response on its own tag; the compute write is a fence.
pub open spec fn spec_record(policy: CxlRecordPolicy, last: Option<u16>, sequence: u64, request_index: usize, direction: CxlDirection, msg: CxlMsg) -> RecordView {
    RecordView {
        sequence,
        source: spec_ends(policy, direction).0,
        destination: spec_ends(policy, direction).1,
        epoch: gemm_epoch(request_index),
        direction,
        transaction_class: classify(&msg),
        msg_class: msg.class(),
        opcode: opcode_name(&msg)@,
        tag: msg.tag(),
        address: address(&msg),
        dependencies: match direction {
            CxlDirection::HostToDevice => match last {
                Some(t) => seq![t],
                None => Seq::empty(),
            },
            CxlDirection::DeviceToHost => seq![msg.tag()],
        },
        fence: request_index == 32,
        payload: spec_capture(policy.mode, spec_payload(msg)),
        provenance: Some(spec_provenance(request_index as int)),
    }
}

/// The tag of the last response among the first `i` records of `rs`
/// (none when no response came before).
pub open spec fn last_response_before(rs: Seq<RecordView>, i: int) -> Option<u16>
    decreases i,
{
    if i <= 0 {
        None
    } else if rs[i - 1].direction is DeviceToHost {
        Some(rs[i - 1].tag)
    } else {
        last_response_before(rs, i - 1)
    }
}

/// Every response of `rs` depends on its own tag alone; every request
/// depends on the tag of the last response recorded before it, and on
/// nothing before the first response.
pub open spec fn dependencies_follow_responses(rs: Seq<RecordView>) -> bool {
    forall|i: int|
        0 <= i < rs.len() ==> (#[trigger] rs[i]).dependencies == match rs[i].direction {
            CxlDirection::DeviceToHost => seq![rs[i].tag],
            CxlDirection::HostToDevice => match last_response_before(rs, i) {
                Some(t) => seq![t],
                None => Seq::<u16>::empty(),
            },
        }
}

/// Recording a FLIT keeps the dependencies of a recording following its
/// responses: a recording whose requests depend on the last response
/// before them and whose responses depend on their own tags stays so when
/// the next record is the one the recorder makes, given the last response
/// recorded so far. The record carries the FLIT's tag and direction and its
/// position as sequence number, and runs from the host to the recorded
/// device for a request, the other way for a response.
pub proof fn lemma_recording_keeps_dependencies(
    rs: Seq<RecordView>,
    policy: CxlRecordPolicy,
    request_index: usize,
    direction: CxlDirection,
    msg: CxlMsg,
)
    requires
        dependencies_follow_responses(rs),
        rs.len() <= u64::MAX,
    ensures
        ({
            let r = spec_record(policy, last_response_before(rs, rs.len() as int), rs.len() as u64, request_index, direction, msg);
            let rs2 = rs.push(r);
            &&& r.tag == msg.tag()
            &&& r.direction == direction
            &&& r.sequence == rs.len()
            &&& direction is HostToDevice ==> r.source == CxlEndpoint::Host && r.destination == CxlEndpoint::Device(policy.endpoint)
            &&& direction is DeviceToHost ==> r.source == CxlEndpoint::Device(policy.endpoint) && r.destination == CxlEndpoint::Host
            &&& dependencies_follow_responses(rs2)
            &&& last_response_before(rs2, rs2.len() as int) == match direction {
                CxlDirection::DeviceToHost => Some(msg.tag()),
                CxlDirection::HostToDevice => last_response_before(rs, rs.len() as int),
            }
        }),
{
    let r = spec_record(policy, last_response_before(rs, rs.len() as int), rs.len() as u64, request_index, direction, msg);
    let rs2 = rs.push(r);
    assert forall|i: int| 0 <= i < rs.len() implies last_response_before(rs2, i) == last_response_before(rs, i) by {
        lemma_last_response_prefix(rs, rs2, i);
    }
    assert forall|i: int| 0 <= i < rs2.len() implies (#[trigger] rs2[i]).dependencies == match rs2[i].direction {
        CxlDirection::DeviceToHost => seq![rs2[i].tag],
        CxlDirection::HostToDevice => match last_response_before(rs2, i) {
            Some(t) => seq![t],
            None => Seq::<u16>::empty(),
        },
    } by {
        if i < rs.len() {
            assert(rs2[i] == rs[i]);
        } else {
            lemma_last_response_prefix(rs, rs2, i);
        }
    }
}

proof fn lemma_last_response_prefix(rs: Seq<RecordView>, rs2: Seq<RecordView>, i: int)
    requires
        0 <= i <= rs.len(),
        rs.len() <= rs2.len(),
        forall|j: int| 0 <= j < rs.len() ==> rs2[j] == rs[j],
    ensures
        last_response_before(rs2, i) == last_response_before(rs, i),
    decreases i,
{
    if i > 0 {
        lemma_last_response_prefix(rs, rs2, i - 1);
    }
}

/// Records the FLITs of a GEMM run as they cross the boundary.
pub struct CxlTraceRecorder {
    policy: CxlRecordPolicy,
    records: Vec<CxlReplayRecord>,
    last_response_tag: Option<u16>,
}

impl CxlTraceRecorder {
    /// The policy recorded under.
    pub closed spec fn policy(&self) -> CxlRecordPolicy {
        self.policy
    }

    /// The records so far.
    pub closed spec fn records(&self) -> Seq<RecordView> {
        record_views(self.records@)
    }

    /// The tag of the last response recorded.
    pub closed spec fn last_response_tag(&self) -> Option<u16> {
        self.last_response_tag
    }

    /// The records so far, to be measured before the recording is finished.
    pub fn record_list(&self) -> (r: &Vec<CxlReplayRecord>)
        ensures
            record_views(r@) == self.records(),
    {
        &self.records
    }

    /// An empty recording under `policy`.
    pub fn new(policy: CxlRecordPolicy) -> (r: CxlTraceRecorder)
        ensures
            r.policy() == policy,
            r.records() == Seq::<RecordView>::empty(),
            r.last_response_tag() is None,
            dependencies_follow_responses(r.records()),
            r.last_response_tag() == last_response_before(r.records(), r.records().len() as int),
    {
        let r = CxlTraceRecorder { policy, records: Vec::new(), last_response_tag: None };
        assert(r.records() =~= Seq::<RecordView>::empty());
        r
    }

    /// Records FLIT `msg` of request `request_index` crossing in
    /// `direction`.
    pub fn record_gemm_msg(&mut self, request_index: usize, direction: CxlDirection, msg: &CxlMsg)
        ensures
            final(self).policy() == old(self).policy(),
            final(self).records() == old(self).records().push(spec_record(
                old(self).policy(),
                old(self).last_response_tag(),
                old(self).records().len() as u64,
                request_index,
                direction,
                *msg,
            )),
            final(self).last_response_tag() == match direction {
                CxlDirection::HostToDevice => old(self).last_response_tag(),
                CxlDirection::DeviceToHost => Some(msg.tag()),
            },
            dependencies_follow_responses(old(self).records())
                && old(self).last_response_tag() == last_response_before(old(self).records(), old(self).records().len() as int)
                ==> dependencies_follow_responses(final(self).records())
                && final(self).last_response_tag() == last_response_before(final(self).records(), final(self).records().len() as int),
    {
        let sequence = self.records.len() as u64;
        let mut dependencies: Vec<u16> = Vec::new();
        match direction {
            CxlDirection::HostToDevice => match self.last_response_tag {
                Some(t) => dependencies.push(t),
                None => {},
            },
            CxlDirection::DeviceToHost => dependencies.push(msg.tag()),
        }
        let payload = PayloadCapture::from_payload(self.policy.mode, payload_bytes(msg));
        let (source, destination) = match direction {
            CxlDirection::HostToDevice => (CxlEndpoint::Host, CxlEndpoint::Device(self.policy.endpoint)),
            CxlDirection::DeviceToHost => (CxlEndpoint::Device(self.policy.endpoint), CxlEndpoint::Host),
        };
        let record = CxlReplayRecord {
            sequence,
            source,
            destination,
            epoch: gemm_epoch(request_index),
            direction,
            transaction_class: classify(msg),
            msg_class: msg.class(),
            opcode: String::from_str(opcode_name(msg)),
            tag: msg.tag(),
            address: address(msg),
            dependencies,
            fence: request_index == 32,
            payload,
            provenance: provenance_label(request_index),
        };
        let ghost before = self.records@;
        proof {
            if dependencies_follow_responses(record_views(before)) {
                lemma_recording_keeps_dependencies(record_views(before), self.policy, request_index, direction, *msg);
            }
        }
        let ghost expected = spec_record(self.policy, self.last_response_tag, sequence, request_index, direction, *msg);
        assert(record@.dependencies =~= expected.dependencies);
        assert(record@ == expected);
        self.records.push(record);
        assert(record_views(self.records@) =~= record_views(before).push(expected));
        match direction {
            CxlDirection::DeviceToHost => {
                self.last_response_tag = Some(msg.tag());
            },
            CxlDirection::HostToDevice => {},
        }
    }

    /// The recording, with the commitment of `result` and the totals;
    /// `record_bytes[i]` is the serialized size of record `i`, if known.
    pub fn finish(self, result: &GemmResult, record_bytes: &[Option<u64>]) -> (a: CxlReplayArtifact)
        requires
            summarizable(self.records(), record_bytes@),
        ensures
            a.policy == self.policy(),
            record_views(a.records@) == self.records(),
            a.final_result_commitment == fnv1a(commitment_bytes(*result)),
            is_summary_of(a.summary, self.records(), record_bytes@),
    {
        let final_result_commitment = result_commitment(result);
        let summary = summarize(&self.records, record_bytes);
        CxlReplayArtifact { policy: self.policy, records: self.records, final_result_commitment, summary }
    }
}

/// One more than the largest epoch of `rs` (0 when empty).
pub open spec fn epoch_span(rs: Seq<RecordView>) -> int
    decreases rs.len(),
{
    if rs.len() == 0 {
        0
    } else {
        let r = epoch_span(rs.drop_last());
        if rs.last().epoch + 1 > r {
            rs.last().epoch + 1
        } else {
            r
        }
    }
}

/// Payload bytes captured over `rs`.
pub open spec fn total_captured(rs: Seq<RecordView>) -> int
    decreases rs.len(),
{
    if rs.len() == 0 {
        0
    } else {
        total_captured(rs.drop_last()) + spec_captured_bytes(rs.last().payload)
    }
}

/// Number of records of `rs` whose payload capture is of the kind `kind`
/// (0 hash, 1 delta, 2 full).
pub open spec fn count_kind(rs: Seq<RecordView>, kind: int) -> int
    decreases rs.len(),
{
    if rs.len() == 0 {
        0
    } else {
        count_kind(rs.drop_last(), kind) + if (kind == 0 && rs.last().payload is Hash64) || (kind == 1
            && rs.last().payload is Delta) || (kind == 2 && rs.last().payload is Full) {
            1int
        } else {
            0int
        }
    }
}

/// The serialized sizes, an unknown size counting as one FLIT.
pub open spec fn total_record_bytes(sizes: Seq<Option<u64>>) -> int
    decreases sizes.len(),
{
    if sizes.len() == 0 {
        0
    } else {
        total_record_bytes(sizes.drop_last()) + match sizes.last() {
            Some(n) => n as int,
            None => 64int,
        }
    }
}

/// The totals of `rs` fit in 64 bits.
pub open spec fn summarizable(rs: Seq<RecordView>, sizes: Seq<Option<u64>>) -> bool {
    &&& sizes.len() == rs.len()
    &&& 64 * rs.len() <= u64::MAX
    &&& total_captured(rs) <= u64::MAX
    &&& total_record_bytes(sizes) <= u64::MAX
    &&& forall|i: int| 0 <= i < rs.len() ==> (#[trigger] rs[i]).epoch < u64::MAX
}

/// `s` holds the totals of `rs` with serialized sizes `sizes`.
pub open spec fn is_summary_of(s: CxlReplaySummary, rs: Seq<RecordView>, sizes: Seq<Option<u64>>) -> bool {
    &&& s.record_count == rs.len()
    &&& s.epoch_count == epoch_span(rs)
    &&& s.application_flit_bytes == 64 * rs.len()
    &&& s.replay_record_bytes == total_record_bytes(sizes)
    &&& s.payload_capture_bytes == total_captured(rs)
    &&& s.hash_payload_records == count_kind(rs, 0)
    &&& s.delta_payload_records == count_kind(rs, 1)
    &&& s.full_payload_records == count_kind(rs, 2)
}

proof fn lemma_totals_prefix(rs: Seq<RecordView>, sizes: Seq<Option<u64>>, k: int)
    requires
        0 <= k <= rs.len(),
        sizes.len() == rs.len(),
    ensures
        total_captured(rs.subrange(0, k)) <= total_captured(rs),
        total_record_bytes(sizes.subrange(0, k)) <= total_record_bytes(sizes),
        0 <= total_captured(rs.subrange(0, k)),
        0 <= count_kind(rs.subrange(0, k), 0) <= k,
        0 <= count_kind(rs.subrange(0, k), 1) <= k,
        0 <= count_kind(rs.subrange(0, k), 2) <= k,
        0 <= epoch_span(rs.subrange(0, k)),
    decreases rs.len() - k,
{
    lemma_counts_bounded(rs.subrange(0, k));
    if k < rs.len() {
        lemma_totals_prefix(rs, sizes, k + 1);
        assert(rs.subrange(0, k + 1).drop_last() =~= rs.subrange(0, k));
        assert(sizes.subrange(0, k + 1).drop_last() =~= sizes.subrange(0, k));
    } else {
        assert(rs.subrange(0, k) =~= rs);
        assert(sizes.subrange(0, k) =~= sizes);
        lemma_counts_bounded(rs);
    }
}

proof fn lemma_counts_bounded(rs: Seq<RecordView>)
    ensures
        0 <= total_captured(rs),
        0 <= count_kind(rs, 0) <= rs.len(),
        0 <= count_kind(rs, 1) <= rs.len(),
        0 <= count_kind(rs, 2) <= rs.len(),
        0 <= epoch_span(rs),
    decreases rs.len(),
{
    if rs.len() > 0 {
        lemma_counts_bounded(rs.drop_last());
    }
}

/// The totals of `records`.
pub fn summarize(records: &Vec<CxlReplayRecord>, record_bytes: &[Option<u64>]) -> (s: CxlReplaySummary)
    requires
        summarizable(record_views(records@), record_bytes@),
    ensures
        is_summary_of(s, record_views(records@), record_bytes@),
{
    let ghost rs = record_views(records@);
    let n = records.len();
    let mut summary = CxlReplaySummary::default();
    summary.record_count = n as u64;
    summary.application_flit_bytes = (n as u64) * (FLIT_BYTES as u64);
    let mut span: u64 = 0;
    let mut i: usize = 0;
    while i < n
        invariant
            0 <= i <= n,
            n == records@.len(),
            rs == record_views(records@),
            summarizable(rs, record_bytes@),
            summary.record_count == n,
            summary.application_flit_bytes == 64 * n,
            span == epoch_span(rs.subrange(0, i as int)),
            summary.payload_capture_bytes == total_captured(rs.subrange(0, i as int)),
            summary.replay_record_bytes == total_record_bytes(record_bytes@.subrange(0, i as int)),
            summary.hash_payload_records == count_kind(rs.subrange(0, i as int), 0),
            summary.delta_payload_records == count_kind(rs.subrange(0, i as int), 1),
            summary.full_payload_records == count_kind(rs.subrange(0, i as int), 2),
        decreases n - i,
    {
        let record = &records[i];
        proof {
            lemma_totals_prefix(rs, record_bytes@, i as int + 1);
            lemma_totals_prefix(rs, record_bytes@, i as int);
            assert(rs.subrange(0, i as int + 1).drop_last() =~= rs.subrange(0, i as int));
            assert(rs.subrange(0, i as int + 1).last() == record@);
            assert(record_bytes@.subrange(0, i as int + 1).drop_last() =~= record_bytes@.subrange(0, i as int));
            assert(rs[i as int].epoch < u64::MAX);
        }
        if record.epoch + 1 > span {
            span = record.epoch + 1;
        }
        let captured = record.payload.captured_bytes();
        summary.payload_capture_bytes = summary.payload_capture_bytes + captured;
        match record.payload {
            PayloadCapture::Hash64(_) => summary.hash_payload_records = summary.hash_payload_records + 1,
            PayloadCapture::Delta { .. } => summary.delta_payload_records = summary.delta_payload_records + 1,
            PayloadCapture::Full(_) => summary.full_payload_records = summary.full_payload_records + 1,
            PayloadCapture::Empty => {},
        }
        let size = match record_bytes[i] {
            Some(b) => b,
            None => FLIT_BYTES as u64,
        };
        summary.replay_record_bytes = summary.replay_record_bytes + size;
        i = i + 1;
    }
    proof {
        assert(rs.subrange(0, i as int) =~= rs);
        assert(record_bytes@.subrange(0, i as int) =~= record_bytes@);
    }
    summary.epoch_count = span;
    summary
}

/// Parses a record mode name: "validation", "delta" or "full".
pub fn parse_cxl_record_mode(mode: &str) -> (r: Result<CxlRecordMode, String>)
    ensures
        mode@ == "validation"@ ==> r == Ok::<CxlRecordMode, String>(CxlRecordMode::Validation),
        mode@ == "delta"@ ==> r == Ok::<CxlRecordMode, String>(CxlRecordMode::Delta),
        mode@ == "full"@ ==> r == Ok::<CxlRecordMode, String>(CxlRecordMode::Full),
        mode@ != "validation"@ && mode@ != "delta"@ && mode@ != "full"@ ==> (r matches Err(msg)
            && msg@ == "unknown CXL record mode `"@ + mode@ + "`; expected validation, delta, or full"@),
{
    proof {
        reveal_strlit("validation");
        reveal_strlit("delta");
        reveal_strlit("full");
        assert("delta"@.len() == 5 && "validation"@.len() == 10 && "full"@.len() == 4);
        assert("delta"@ != "validation"@);
        assert("full"@ != "validation"@ && "full"@ != "delta"@);
    }
    let m = String::from_str(mode);
    if m == String::from_str("validation") {
        Ok(CxlRecordMode::Validation)
    } else if m == String::from_str("delta") {
        Ok(CxlRecordMode::Delta)
    } else if m == String::from_str("full") {
        Ok(CxlRecordMode::Full)
    } else {
        let mut msg = String::from_str("unknown CXL record mode `");
        msg.append(mode);
        msg.append("`; expected validation, delta, or full");
        Err(msg)
    }
}

} // verus!




