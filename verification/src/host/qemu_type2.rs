//! QEMU Type-2 artifacts: the request FLITs a GEMM sends, what it should
//! produce, and the check of a captured response stream against them.

use vstd::prelude::*;
use vstd::string::*;

use crate::wire::decode::{decode, decodes_to, spec_decode_error};
use crate::wire::encode::{encode, spec_encode};
use crate::wire::flit::FLIT_BYTES;
use crate::wire::msg::{CxlMsg, S2MDRSOp, S2MNDROp};
use super::dispatch::{build_gemm_dispatch_stream, is_dispatch_msg, STREAM_LEN};
use super::error::HostError;
use super::job::{cell, product_at, GemmJob};
use super::result::{acc_value, decode_results, is_mem_data, resp_data};
use super::text::{decimal, push_decimal};

verus! {

broadcast use vstd::array::group_array_axioms;

/// What a GEMM job sends and should produce.
#[derive(Debug, Clone, PartialEq, Eq)]
pub struct QemuType2Expected {
    pub workload: String,
    pub request_count: usize,
    pub flit_bytes: usize,
    pub request_tags: Vec<u16>,
    pub expected_c: [[u32; 4]; 4],
}

/// The outcome of checking a response stream.
#[derive(Debug, Clone, PartialEq, Eq)]
pub struct QemuType2Summary {
    pub status: String,
    pub request_count: usize,
    pub response_count: usize,
    pub tag_mismatches: usize,
    pub dispatch_failures: usize,
    pub result_c: [[u32; 4]; 4],
    pub expected_c: [[u32; 4]; 4],
    pub requests_path: String,
    pub responses_path: String,
}

/// The product matrix `a * b` of `job`.
pub open spec fn is_product(m: [[u32; 4]; 4], job: GemmJob) -> bool {
    forall|r: int, c: int| 0 <= r < 4 && 0 <= c < 4 ==> #[trigger] cell(m, r, c) == product_at(job, r, c)
}

/// Every entry of `m` is zero.
pub open spec fn is_zero_matrix(m: [[u32; 4]; 4]) -> bool {
    forall|r: int, c: int| 0 <= r < 4 && 0 <= c < 4 ==> #[trigger] cell(m, r, c) == 0
}

/// The product `a * b` of the job's matrices.
pub fn matmul(job: &GemmJob) -> (out: [[u32; 4]; 4])
    ensures
        is_product(out, *job),
{
    let mut out: [[u32; 4]; 4] = [[0, 0, 0, 0], [0, 0, 0, 0], [0, 0, 0, 0], [0, 0, 0, 0]];
    let mut r: usize = 0;
    while r < 4
        invariant
            0 <= r <= 4,
            forall|i: int, c: int| 0 <= i < r && 0 <= c < 4 ==> #[trigger] cell(out, i, c) == product_at(*job, i, c),
        decreases 4 - r,
    {
        let mut row: [u32; 4] = [0, 0, 0, 0];
        let mut c: usize = 0;
        while c < 4
            invariant
                0 <= r < 4,
                0 <= c <= 4,
                forall|j: int| 0 <= j < c ==> #[trigger] row@[j] == product_at(*job, r as int, j),
            decreases 4 - c,
        {
            let mut sum: u32 = 0;
            let mut k: usize = 0;
            while k < 4
                invariant
                    0 <= r < 4,
                    0 <= c < 4,
                    0 <= k <= 4,
                    sum <= 65025 * k,
                    sum == (if k > 0 { job.a_at(r as int, 0) * job.b_at(0, c as int) } else { 0 })
                        + (if k > 1 { job.a_at(r as int, 1) * job.b_at(1, c as int) } else { 0 })
                        + (if k > 2 { job.a_at(r as int, 2) * job.b_at(2, c as int) } else { 0 })
                        + (if k > 3 { job.a_at(r as int, 3) * job.b_at(3, c as int) } else { 0 }),
                decreases 4 - k,
            {
                let x = job.a[r][k] as u32;
                let y = job.b[k][c] as u32;
                assert(x * y <= 65025) by (nonlinear_arith)
                    requires
                        x <= 255,
                        y <= 255,
                ;
                sum = sum + x * y;
                k = k + 1;
            }
            row[c] = sum;
            c = c + 1;
        }
        let ghost before = out;
        out[r] = row;
        proof {
            assert forall|i: int, cc: int| 0 <= i < r + 1 && 0 <= cc < 4 implies #[trigger] cell(out, i, cc) == product_at(*job, i, cc) by {
                if i < r {
                    assert(cell(before, i, cc) == product_at(*job, i, cc));
                }
            }
        }
        r = r + 1;
    }
    out
}

/// What `job` sends (its dispatch stream tagged from 0) and should produce.
pub fn expected_for_job(job: &GemmJob) -> (r: QemuType2Expected)
    ensures
        r.workload@ == "slugcxl_gemm_4x4"@,
        r.request_count == STREAM_LEN,
        r.flit_bytes == FLIT_BYTES,
        r.request_tags@.len() == STREAM_LEN,
        forall|i: int| 0 <= i < STREAM_LEN ==> #[trigger] r.request_tags@[i] == i as u16,
        is_product(r.expected_c, *job),
{
    let stream = build_gemm_dispatch_stream(job, 0);
    let mut tags: Vec<u16> = Vec::new();
    let mut i: usize = 0;
    while i < stream.len()
        invariant
            0 <= i <= stream@.len(),
            stream@.len() == STREAM_LEN,
            forall|j: int| 0 <= j < STREAM_LEN ==> (#[trigger] stream@[j]).tag() == ((0 + j) % 0x1_0000) as u16,
            tags@.len() == i,
            forall|j: int| 0 <= j < i ==> #[trigger] tags@[j] == j as u16,
        decreases stream@.len() - i,
    {
        tags.push(stream[i].tag());
        i = i + 1;
    }
    QemuType2Expected {
        workload: String::from_str("slugcxl_gemm_4x4"),
        request_count: stream.len(),
        flit_bytes: FLIT_BYTES,
        request_tags: tags,
        expected_c: matmul(job),
    }
}

/// The FLITs of `ms`, one after the other.
pub open spec fn encoded_stream(ms: Seq<CxlMsg>) -> Seq<u8>
    decreases ms.len(),
{
    if ms.len() == 0 {
        Seq::empty()
    } else {
        encoded_stream(ms.drop_last()) + spec_encode(ms.last())
    }
}

/// The request FLITs of `job` (its dispatch stream tagged from 0), one
/// after the other.
pub fn request_bytes(job: &GemmJob) -> (bytes: Vec<u8>)
    ensures
        exists|ms: Seq<CxlMsg>| ms.len() == STREAM_LEN && (forall|i: int| 0 <= i < STREAM_LEN ==> is_dispatch_msg(#[trigger] ms[i], *job, 0, i)) && bytes@ == encoded_stream(ms),
{
    let stream = build_gemm_dispatch_stream(job, 0);
    let mut bytes: Vec<u8> = Vec::new();
    let mut i: usize = 0;
    while i < stream.len()
        invariant
            0 <= i <= stream@.len(),
            bytes@ == encoded_stream(stream@.subrange(0, i as int)),
        decreases stream@.len() - i,
    {
        let flit = encode(&stream[i]);
        let ghost before = bytes@;
        let mut k: usize = 0;
        while k < FLIT_BYTES
            invariant
                0 <= k <= 64,
                flit@.len() == 64,
                bytes@ == before + flit@.subrange(0, k as int),
            decreases 64 - k,
        {
            bytes.push(flit[k]);
            k = k + 1;
            assert(bytes@ =~= before + flit@.subrange(0, k as int));
        }
        assert(flit@.subrange(0, 64) =~= flit@);
        assert(stream@.subrange(0, i as int + 1).drop_last() =~= stream@.subrange(0, i as int));
        i = i + 1;
    }
    assert(stream@.subrange(0, i as int) =~= stream@);
    bytes
}

/// The `i`-th 64-byte chunk of `bytes`.
pub open spec fn chunk(bytes: Seq<u8>, i: int) -> Seq<u8> {
    bytes.subrange(64 * i, 64 * i + 64)
}

/// `ds` is what the chunks of `bytes` decode to, in order.
pub open spec fn decodes_all(bytes: Seq<u8>, ds: Seq<CxlMsg>) -> bool {
    &&& bytes.len() == 64 * ds.len()
    &&& forall|i: int| 0 <= i < ds.len() ==> decodes_to(chunk(bytes, i), #[trigger] ds[i])
}

/// Response `m` at position `idx` is what the stream expects there: a
/// completion for the 33 writes, a data response for the reads.
pub open spec fn response_accepted(m: CxlMsg, idx: int) -> bool {
    ||| (m matches CxlMsg::S2MNDR { opcode: S2MNDROp::Cmp, .. } && idx < 33)
    ||| (is_mem_data(m) && idx >= 33)
}

/// Number of responses whose tag differs from that of the request at the
/// same position (responses beyond the requests are not counted).
pub open spec fn count_tag_mismatches(ds: Seq<CxlMsg>, reqs: Seq<CxlMsg>) -> nat
    decreases ds.len(),
{
    if ds.len() == 0 {
        0
    } else {
        let idx = ds.len() - 1;
        count_tag_mismatches(ds.drop_last(), reqs) + if idx < reqs.len() && ds.last().tag() != reqs[idx].tag() {
            1nat
        } else {
            0nat
        }
    }
}

/// Number of responses that are not what their position expects.
pub open spec fn count_failures(ds: Seq<CxlMsg>) -> nat
    decreases ds.len(),
{
    if ds.len() == 0 {
        0
    } else {
        count_failures(ds.drop_last()) + if response_accepted(ds.last(), ds.len() - 1) {
            0nat
        } else {
            1nat
        }
    }
}

/// The data responses at read positions, in order.
pub open spec fn read_responses(ds: Seq<CxlMsg>) -> Seq<CxlMsg>
    decreases ds.len(),
{
    if ds.len() == 0 {
        Seq::empty()
    } else if is_mem_data(ds.last()) && ds.len() - 1 >= 33 {
        read_responses(ds.drop_last()).push(ds.last())
    } else {
        read_responses(ds.drop_last())
    }
}

/// The result matrix read from the responses: the decoded accumulators
/// when exactly 16 data responses came back, zeros otherwise.
pub open spec fn result_from(ds: Seq<CxlMsg>, m: [[u32; 4]; 4]) -> bool {
    if read_responses(ds).len() == 16 {
        forall|i: int| 0 <= i < 16 ==> #[trigger] cell(m, i / 4, i % 4) == acc_value(resp_data(read_responses(ds)[i]))
    } else {
        is_zero_matrix(m)
    }
}

/// `s` is the summary of responses `ds` to the requests `reqs` of `job`.
pub open spec fn is_summary(s: QemuType2Summary, job: GemmJob, reqs: Seq<CxlMsg>, ds: Seq<CxlMsg>, requests_path: Seq<char>, responses_path: Seq<char>) -> bool {
    &&& s.request_count == reqs.len()
    &&& s.response_count == ds.len()
    &&& s.tag_mismatches == count_tag_mismatches(ds, reqs)
    &&& s.dispatch_failures == count_failures(ds)
    &&& result_from(ds, s.result_c)
    &&& is_product(s.expected_c, job)
    &&& s.status@ == (if ds.len() == reqs.len() && s.tag_mismatches == 0 && s.dispatch_failures == 0 && s.result_c == s.expected_c {
        "pass"@
    } else {
        "fail"@
    })
    &&& s.requests_path@ == requests_path
    &&& s.responses_path@ == responses_path
}

/// `s` summarizes the response FLITs `bytes` of `job`: the responses
/// they decode to, checked against the dispatch stream tagged from 0.
pub open spec fn summarizes(s: QemuType2Summary, job: GemmJob, bytes: Seq<u8>, requests_path: Seq<char>, responses_path: Seq<char>) -> bool {
    exists|reqs: Seq<CxlMsg>, ds: Seq<CxlMsg>|
        reqs.len() == STREAM_LEN && (forall|i: int| 0 <= i < STREAM_LEN ==> is_dispatch_msg(#[trigger] reqs[i], job, 0, i))
            && decodes_all(bytes, ds) && is_summary(s, job, reqs, ds, requests_path, responses_path)
}

/// The chunk at `k` is the first that does not decode.
pub open spec fn first_undecodable(bytes: Seq<u8>, k: int) -> bool {
    &&& 0 <= k < bytes.len() / 64
    &&& forall|i: int| 0 <= i < k ==> spec_decode_error(#[trigger] chunk(bytes, i)) is None
    &&& spec_decode_error(chunk(bytes, k)) is Some
}

/// Response `m` at position `idx` is what a correct endpoint answers to
/// `req`: it carries the request's tag, it is a completion for a write and
/// a data response for a read, and a read's accumulator is the product
/// cell it reads.
pub open spec fn correct_response(m: CxlMsg, req: CxlMsg, job: GemmJob, idx: int) -> bool {
    &&& m.tag() == req.tag()
    &&& response_accepted(m, idx)
    &&& idx >= 33 ==> acc_value(resp_data(m)) == product_at(job, (idx - 33) / 4, (idx - 33) % 4)
}

proof fn lemma_no_tag_mismatch(ds: Seq<CxlMsg>, reqs: Seq<CxlMsg>)
    ensures
        count_tag_mismatches(ds, reqs) == 0 <==> forall|i: int|
            0 <= i < ds.len() && i < reqs.len() ==> (#[trigger] ds[i]).tag() == reqs[i].tag(),
    decreases ds.len(),
{
    if ds.len() > 0 {
        lemma_no_tag_mismatch(ds.drop_last(), reqs);
        assert forall|i: int| 0 <= i < ds.len() - 1 implies ds.drop_last()[i] == ds[i] by {}
    }
}

proof fn lemma_no_failure(ds: Seq<CxlMsg>)
    ensures
        count_failures(ds) == 0 <==> forall|i: int| 0 <= i < ds.len() ==> response_accepted(#[trigger] ds[i], i),
    decreases ds.len(),
{
    if ds.len() > 0 {
        lemma_no_failure(ds.drop_last());
        assert forall|i: int| 0 <= i < ds.len() - 1 implies ds.drop_last()[i] == ds[i] by {}
    }
}

proof fn lemma_reads_of_accepted(ds: Seq<CxlMsg>, k: int)
    requires
        0 <= k <= ds.len(),
        forall|i: int| 0 <= i < k ==> response_accepted(#[trigger] ds[i], i),
    ensures
        read_responses(ds.subrange(0, k)) == if k <= 33 {
            Seq::<CxlMsg>::empty()
        } else {
            ds.subrange(33, k)
        },
    decreases k,
{
    if k > 0 {
        lemma_reads_of_accepted(ds, k - 1);
        let p = ds.subrange(0, k);
        assert(p.drop_last() =~= ds.subrange(0, k - 1));
        assert(p.last() == ds[k - 1]);
        assert(response_accepted(ds[k - 1], k - 1));
        if k > 33 {
            assert(ds.subrange(33, k - 1).push(ds[k - 1]) =~= ds.subrange(33, k));
        }
    }
}

/// A response stream passes exactly when it is the stream of a correct
/// endpoint: one response per request, each with the request's tag, a
/// completion for every write and a data response for every read, whose
/// accumulators are the cells of the product.
pub proof fn lemma_pass_exactly_when_correct(
    s: QemuType2Summary,
    job: GemmJob,
    reqs: Seq<CxlMsg>,
    ds: Seq<CxlMsg>,
    requests_path: Seq<char>,
    responses_path: Seq<char>,
)
    requires
        is_summary(s, job, reqs, ds, requests_path, responses_path),
        reqs.len() == STREAM_LEN,
    ensures
        s.status@ == "pass"@ <==> (ds.len() == STREAM_LEN && forall|i: int|
            0 <= i < STREAM_LEN ==> #[trigger] correct_response(ds[i], reqs[i], job, i)),
{
    reveal_strlit("pass");
    reveal_strlit("fail");
    assert("pass"@[0] != "fail"@[0]);
    lemma_no_tag_mismatch(ds, reqs);
    lemma_no_failure(ds);
    let all_correct = ds.len() == STREAM_LEN && forall|i: int|
        0 <= i < STREAM_LEN ==> #[trigger] correct_response(ds[i], reqs[i], job, i);
    if ds.len() == STREAM_LEN && s.tag_mismatches == 0 && s.dispatch_failures == 0 {
        lemma_reads_of_accepted(ds, 49);
        assert(ds.subrange(0, 49) =~= ds);
        let reads = read_responses(ds);
        assert(reads =~= ds.subrange(33, 49));
        assert(reads.len() == 16);
        assert forall|i: int| 0 <= i < 16 implies #[trigger] cell(s.result_c, i / 4, i % 4) == acc_value(resp_data(ds[33 + i])) by {
            assert(reads[i] == ds[33 + i]);
        }
        if s.result_c == s.expected_c {
            assert forall|i: int| 0 <= i < STREAM_LEN implies #[trigger] correct_response(ds[i], reqs[i], job, i) by {
                if i >= 33 {
                    let j = i - 33;
                    assert(cell(s.result_c, j / 4, j % 4) == acc_value(resp_data(ds[33 + j])));
                    assert(cell(s.expected_c, j / 4, j % 4) == product_at(job, j / 4, j % 4));
                }
            }
        } else {
            if all_correct {
                assert forall|r: int, c: int| 0 <= r < 4 && 0 <= c < 4 implies #[trigger] cell(s.result_c, r, c) == cell(s.expected_c, r, c) by {
                    let i = 4 * r + c;
                    assert(i / 4 == r && i % 4 == c);
                    assert(correct_response(ds[33 + i], reqs[33 + i], job, 33 + i));
                    assert(cell(s.result_c, i / 4, i % 4) == acc_value(resp_data(ds[33 + i])));
                }
                assert forall|r: int| 0 <= r < 4 implies s.result_c@[r]@ =~= s.expected_c@[r]@ by {
                    assert forall|c: int| 0 <= c < 4 implies s.result_c@[r]@[c] == s.expected_c@[r]@[c] by {
                        assert(cell(s.result_c, r, c) == cell(s.expected_c, r, c));
                    }
                }
                assert(s.result_c@ =~= s.expected_c@) by {
                    assert forall|r: int| 0 <= r < 4 implies s.result_c@[r] == s.expected_c@[r] by {
                        assert(s.result_c@[r]@ =~= s.expected_c@[r]@);
                        assert(s.result_c@[r] =~= s.expected_c@[r]);
                    }
                }
                assert(s.result_c =~= s.expected_c);
            }
        }
    } else {
        if all_correct {
            assert forall|i: int| 0 <= i < ds.len() && i < reqs.len() implies (#[trigger] ds[i]).tag() == reqs[i].tag() by {
                assert(correct_response(ds[i], reqs[i], job, i));
            }
            assert forall|i: int| 0 <= i < ds.len() implies response_accepted(#[trigger] ds[i], i) by {
                assert(correct_response(ds[i], reqs[i], job, i));
            }
        }
    }
}

fn matrices_equal(x: &[[u32; 4]; 4], y: &[[u32; 4]; 4]) -> (r: bool)
    ensures
        r == (*x == *y),
{
    let mut r: usize = 0;
    while r < 4
        invariant
            0 <= r <= 4,
            forall|i: int| 0 <= i < r ==> #[trigger] x[i] == y[i],
        decreases 4 - r,
    {
        let mut c: usize = 0;
        while c < 4
            invariant
                0 <= r < 4,
                0 <= c <= 4,
                forall|j: int| 0 <= j < c ==> #[trigger] x@[r as int]@[j] == y@[r as int]@[j],
            decreases 4 - c,
        {
            if x[r][c] != y[r][c] {
                return false;
            }
            c = c + 1;
        }
        assert(x[r as int] =~= y[r as int]);
        r = r + 1;
    }
    assert(*x =~= *y);
    true
}

/// Checks a captured response stream of `job` (its FLITs, one after the
/// other) against the requests: counts tag mismatches and unexpected
/// responses, decodes the result matrix from the read responses, and
/// passes when every request got the right response and the product came
/// back. Fails when the length is not a whole number of FLITs, or at the
/// first FLIT that does not decode.
pub fn summarize_responses(job: &GemmJob, bytes: &[u8], requests_path: String, responses_path: String) -> (r: Result<QemuType2Summary, HostError>)
    ensures
        bytes@.len() % 64 != 0 ==> (r matches Err(HostError::DispatchFailed { tag, reason }) && tag == 0
            && reason@ == "responses.bin length must be a multiple of 64, got "@ + decimal(bytes@.len())),
        bytes@.len() % 64 == 0 && (exists|k: int| first_undecodable(bytes@, k)) ==> exists|k: int|
            first_undecodable(bytes@, k) && r == Err::<QemuType2Summary, HostError>(HostError::WireDecode(spec_decode_error(chunk(bytes@, k))->0)),
        bytes@.len() % 64 == 0 && !(exists|k: int| first_undecodable(bytes@, k)) ==> (r matches Ok(s)
            && summarizes(s, *job, bytes@, requests_path@, responses_path@)),
{
    if bytes.len() % FLIT_BYTES != 0 {
        let mut reason = String::from_str("responses.bin length must be a multiple of 64, got ");
        push_decimal(&mut reason, bytes.len() as u64);
        return Err(HostError::DispatchFailed { tag: 0, reason });
    }
    let ghost rp = requests_path@;
    let ghost sp = responses_path@;
    let blen = bytes.len();
    let response_count = blen / FLIT_BYTES;
    let requests = build_gemm_dispatch_stream(job, 0);
    let mut decoded: Vec<CxlMsg> = Vec::new();
    let mut i: usize = 0;
    while i < response_count
        invariant
            0 <= i <= response_count,
            response_count == bytes@.len() / 64,
            blen == bytes@.len(),
            bytes@.len() % 64 == 0,
            decoded@.len() == i,
            forall|j: int| 0 <= j < i ==> decodes_to(chunk(bytes@, j), #[trigger] decoded@[j]),
            forall|j: int| 0 <= j < i ==> spec_decode_error(#[trigger] chunk(bytes@, j)) is None,
        decreases response_count - i,
    {
        let mut flit = [0u8; 64];
        let mut k: usize = 0;
        while k < FLIT_BYTES
            invariant
                0 <= i < response_count,
                response_count == bytes@.len() / 64,
                blen == bytes@.len(),
                bytes@.len() % 64 == 0,
                0 <= k <= 64,
                forall|j: int| 0 <= j < k ==> flit@[j] == bytes@[64 * i + j],
            decreases 64 - k,
        {
            assert(64 * i + k < bytes@.len()) by (nonlinear_arith)
                requires
                    i < response_count,
                    response_count == bytes@.len() / 64,
                    k < 64,
            ;
            flit[k] = bytes[64 * i + k];
            k = k + 1;
        }
        assert(64 * i + 64 <= bytes@.len()) by (nonlinear_arith)
            requires
                i < response_count,
                response_count == bytes@.len() / 64,
        ;
        assert(flit@ =~= chunk(bytes@, i as int));
        match decode(&flit) {
            Ok(m) => {
                decoded.push(m);
            },
            Err(e) => {
                proof {
                    assert(first_undecodable(bytes@, i as int));
                }
                return Err(HostError::WireDecode(e));
            },
        }
        i = i + 1;
    }
    proof {
        assert(!(exists|k: int| first_undecodable(bytes@, k)));
    }
    let mut tag_mismatches: usize = 0;
    let mut dispatch_failures: usize = 0;
    let mut reads: Vec<CxlMsg> = Vec::new();
    let mut idx: usize = 0;
    while idx < decoded.len()
        invariant
            0 <= idx <= decoded@.len(),
            requests@.len() == STREAM_LEN,
            tag_mismatches == count_tag_mismatches(decoded@.subrange(0, idx as int), requests@),
            dispatch_failures == count_failures(decoded@.subrange(0, idx as int)),
            reads@ == read_responses(decoded@.subrange(0, idx as int)),
            tag_mismatches <= idx,
            dispatch_failures <= idx,
        decreases decoded@.len() - idx,
    {
        let response = &decoded[idx];
        let ghost pre = decoded@.subrange(0, idx as int + 1);
        assert(pre.drop_last() =~= decoded@.subrange(0, idx as int));
        assert(pre.last() == *response);
        if idx < requests.len() {
            if response.tag() != requests[idx].tag() {
                tag_mismatches = tag_mismatches + 1;
            }
        }
        match response {
            CxlMsg::S2MNDR { opcode: S2MNDROp::Cmp, .. } if idx < 33 => {},
            CxlMsg::S2MDRS { tag, opcode: S2MDRSOp::MemData, data } if idx >= 33 => {
                reads.push(CxlMsg::S2MDRS { tag: *tag, opcode: S2MDRSOp::MemData, data: *data });
            },
            _ => {
                dispatch_failures = dispatch_failures + 1;
            },
        }
        idx = idx + 1;
    }
    assert(decoded@.subrange(0, idx as int) =~= decoded@);
    let result_c: [[u32; 4]; 4] = if reads.len() == 16 {
        proof {
            lemma_read_responses_data(decoded@);
        }
        match decode_results(reads.as_slice()) {
            Ok(c) => c,
            Err(e) => {
                proof {
                    assert(false);
                }
                return Err(e);
            },
        }
    } else {
        [[0, 0, 0, 0], [0, 0, 0, 0], [0, 0, 0, 0], [0, 0, 0, 0]]
    };
    let expected_c = matmul(job);
    let pass = response_count == requests.len() && tag_mismatches == 0 && dispatch_failures == 0
        && matrices_equal(&result_c, &expected_c);
    let status = if pass {
        String::from_str("pass")
    } else {
        String::from_str("fail")
    };
    let s = QemuType2Summary {
        status,
        request_count: requests.len(),
        response_count,
        tag_mismatches,
        dispatch_failures,
        result_c,
        expected_c,
        requests_path,
        responses_path,
    };
    proof {
        assert(bytes@.len() == 64 * decoded@.len());
        assert(decodes_all(bytes@, decoded@));
        assert(result_from(decoded@, s.result_c));
        assert(is_summary(s, *job, requests@, decoded@, s.requests_path@, s.responses_path@));
        assert(requests@.len() == STREAM_LEN);
        assert(forall|i: int| 0 <= i < STREAM_LEN ==> is_dispatch_msg(#[trigger] requests@[i], *job, 0, i));
        assert(summarizes(s, *job, bytes@, rp, sp));
    }
    Ok(s)
}

proof fn lemma_read_responses_data(ds: Seq<CxlMsg>)
    ensures
        forall|i: int| 0 <= i < read_responses(ds).len() ==> is_mem_data(#[trigger] read_responses(ds)[i]),
    decreases ds.len(),
{
    if ds.len() > 0 {
        lemma_read_responses_data(ds.drop_last());
        let r = read_responses(ds.drop_last());
        assert forall|i: int| 0 <= i < read_responses(ds).len() implies is_mem_data(#[trigger] read_responses(ds)[i]) by {
            if i < r.len() {
                assert(read_responses(ds)[i] == r[i]);
            }
        }
    }
}

/// The summary as CSV: a header line and one line of values.
pub fn summary_csv(summary: &QemuType2Summary) -> (r: String)
    ensures
        r@ == "status,request_count,response_count,tag_mismatches,dispatch_failures\n"@ + summary.status@ + ","@
            + decimal(summary.request_count as nat) + ","@ + decimal(summary.response_count as nat) + ","@
            + decimal(summary.tag_mismatches as nat) + ","@ + decimal(summary.dispatch_failures as nat) + "\n"@,
{
    let mut r = String::from_str("status,request_count,response_count,tag_mismatches,dispatch_failures\n");
    r.append(summary.status.as_str());
    r.append(",");
    push_decimal(&mut r, summary.request_count as u64);
    r.append(",");
    push_decimal(&mut r, summary.response_count as u64);
    r.append(",");
    push_decimal(&mut r, summary.tag_mismatches as u64);
    r.append(",");
    push_decimal(&mut r, summary.dispatch_failures as u64);
    r.append("\n");
    r
}

} // verus!

