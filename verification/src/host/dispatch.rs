//! The 49-message CXL dispatch stream of a 4x4 GEMM on the
//! systolic_array_4x4 wrapper.
//!
//! Token layout of the wrapper:
//!   bit 2        load_valid
//!   bit 3        load_matrix_sel (0 = A, 1 = B)
//!   bits 11:4    load_addr (0..15)
//!   bits 19:12   load_data (one byte of A or B)
//!   bit 20       compute_valid
//!   bit 21       read_valid
//!   bits 29:22   read_addr

use vstd::prelude::*;

use crate::wire::msg::{CxlMsg, M2SReqOp, M2SRwDOp};
use super::job::GemmJob;

verus! {

/// The address every dispatch goes to.
pub const DISPATCH_ADDR: u64 = 0x2000;

/// Number of messages in the dispatch stream.
pub const STREAM_LEN: usize = 49;

/// The load token: load_valid, the matrix select bit, the element address
/// and its byte.
pub open spec fn spec_load_token(sel: u8, addr: u8, data: u8) -> u32 {
    (4 + 8 * (sel % 2) + 16 * addr + 4096 * data) as u32
}

/// The compute token: compute_valid alone.
pub open spec fn spec_compute_token() -> u32 {
    0x10_0000
}

/// The read token: read_valid and the element address.
pub open spec fn spec_read_token(addr: u8) -> u32 {
    (0x20_0000 + 0x40_0000 * addr) as u32
}

/// The four little-endian bytes of `x`.
pub open spec fn u32_le(x: u32) -> Seq<u8> {
    seq![(x & 0xff) as u8, ((x >> 8u32) & 0xff) as u8, ((x >> 16u32) & 0xff) as u8, (x >> 24u32) as u8]
}

/// A data field carrying `token` in its first four bytes, zeros after.
pub open spec fn token_data(token: u32) -> Seq<u8> {
    u32_le(token) + Seq::new(28, |i: int| 0u8)
}

fn make_load_token(sel: u8, addr: u8, data: u8) -> (t: u32)
    ensures
        t == spec_load_token(sel, addr, data),
        (t >> 2u32) & 1 == 1,
        (t >> 3u32) & 1 == (sel & 1) as u32,
        (t >> 4u32) & 0xff == addr as u32,
        (t >> 12u32) & 0xff == data as u32,
        (t >> 20u32) == 0,
        t & 3 == 0,
{
    let mut t: u32 = 0;
    t = t | (1u32 << 2u32);
    t = t | (((sel as u32) & 1) << 3u32);
    t = t | (((addr as u32) & 0xFF) << 4u32);
    t = t | (((data as u32) & 0xFF) << 12u32);
    assert(t == (4 + 8 * ((sel as u32) % 2) + 16 * (addr as u32) + 4096 * (data as u32)) as u32
        && (t >> 2u32) & 1 == 1 && (t >> 3u32) & 1 == (sel & 1) as u32 && (t >> 4u32) & 0xff == addr as u32
        && (t >> 12u32) & 0xff == data as u32 && (t >> 20u32) == 0 && t & 3 == 0) by (bit_vector)
        requires
            t == (((0u32 | (1u32 << 2u32)) | (((sel as u32) & 1) << 3u32)) | (((addr as u32) & 0xFF) << 4u32)) | (((data as u32) & 0xFF) << 12u32),
    ;
    t
}

fn make_compute_token() -> (t: u32)
    ensures
        t == spec_compute_token(),
        (t >> 20u32) & 1 == 1,
        t == 1u32 << 20u32,
{
    assert((1u32 << 20u32) == 0x10_0000u32 && ((0x10_0000u32 >> 20u32) & 1) == 1) by (bit_vector);
    1u32 << 20u32
}

fn make_read_token(addr: u8) -> (t: u32)
    ensures
        t == spec_read_token(addr),
        (t >> 21u32) & 1 == 1,
        (t >> 22u32) & 0xff == addr as u32,
        t & 0x1f_ffff == 0,
        (t >> 30u32) == 0,
{
    let mut t: u32 = 0;
    t = t | (1u32 << 21u32);
    t = t | (((addr as u32) & 0xFF) << 22u32);
    assert(t == (0x20_0000 + 0x40_0000 * (addr as u32)) as u32 && (t >> 21u32) & 1 == 1
        && (t >> 22u32) & 0xff == addr as u32 && t & 0x1f_ffff == 0 && (t >> 30u32) == 0) by (bit_vector)
        requires
            t == (0u32 | (1u32 << 21u32)) | (((addr as u32) & 0xFF) << 22u32),
    ;
    t
}

fn pack_token_into_data(token: u32) -> (data: [u8; 32])
    ensures
        data@ == token_data(token),
{
    let mut data = [0u8; 32];
    let ghost zeros = data@;
    data[0] = (token & 0xff) as u8;
    data[1] = ((token >> 8u32) & 0xff) as u8;
    data[2] = ((token >> 16u32) & 0xff) as u8;
    data[3] = (token >> 24u32) as u8;
    assert(data@ =~= token_data(token));
    data
}

/// The tag of the `i`-th message of a stream starting at `first_tag`.
pub open spec fn stream_tag(first_tag: u16, i: int) -> u16 {
    ((first_tag + i) % 0x1_0000) as u16
}

/// The `i`-th message of the dispatch stream of `job` (0..49): sixteen
/// writes loading A row-major, sixteen loading B, one compute write, then
/// sixteen reads with the read token in the high half of the address.
pub open spec fn is_dispatch_msg(m: CxlMsg, job: GemmJob, first_tag: u16, i: int) -> bool {
    if i < 32 {
        let sel: u8 = if i < 16 { 0 } else { 1 };
        let j = i % 16;
        let byte = if i < 16 { job.a_at(j / 4, j % 4) } else { job.b_at(j / 4, j % 4) };
        m matches CxlMsg::M2SRwD { tag, opcode, addr, data } && tag == stream_tag(first_tag, i)
            && opcode == M2SRwDOp::MemWr && addr == DISPATCH_ADDR && data@ == token_data(
            spec_load_token(sel, j as u8, byte),
        )
    } else if i == 32 {
        m matches CxlMsg::M2SRwD { tag, opcode, addr, data } && tag == stream_tag(first_tag, i)
            && opcode == M2SRwDOp::MemWr && addr == DISPATCH_ADDR && data@ == token_data(
            spec_compute_token(),
        )
    } else {
        m == CxlMsg::M2SReq {
            tag: stream_tag(first_tag, i),
            opcode: M2SReqOp::MemRd,
            addr: (DISPATCH_ADDR + 0x1_0000_0000 * spec_read_token((i - 33) as u8)) as u64,
        }
    }
}

/// Builds the 49-message dispatch stream of `job`, tagging messages
/// sequentially (wrapping) from `first_tag`.
pub fn build_gemm_dispatch_stream(job: &GemmJob, first_tag: u16) -> (out: Vec<CxlMsg>)
    ensures
        out@.len() == STREAM_LEN,
        forall|i: int| 0 <= i < STREAM_LEN ==> is_dispatch_msg(#[trigger] out@[i], *job, first_tag, i),
        forall|i: int| 0 <= i < STREAM_LEN ==> (#[trigger] out@[i]).tag() == stream_tag(first_tag, i),
{
    let mut out: Vec<CxlMsg> = Vec::new();
    let mut tag = first_tag;
    // Loads of A, then of B.
    let mut phase: usize = 0;
    while phase < 2
        invariant
            0 <= phase <= 2,
            out@.len() == 16 * phase,
            tag == stream_tag(first_tag, out@.len() as int),
            forall|i: int| 0 <= i < out@.len() ==> is_dispatch_msg(#[trigger] out@[i], *job, first_tag, i),
        decreases 2 - phase,
    {
        let mut k: usize = 0;
        while k < 16
            invariant
                0 <= phase < 2,
                0 <= k <= 16,
                out@.len() == 16 * phase + k,
                tag == stream_tag(first_tag, out@.len() as int),
                forall|i: int| 0 <= i < out@.len() ==> is_dispatch_msg(#[trigger] out@[i], *job, first_tag, i),
            decreases 16 - k,
        {
            let row = k / 4;
            let col = k % 4;
            let byte = if phase == 0 { job.a[row][col] } else { job.b[row][col] };
            let sel: u8 = if phase == 0 { 0 } else { 1 };
            let token = make_load_token(sel, k as u8, byte);
            let ghost before = out@;
            out.push(CxlMsg::M2SRwD { tag, opcode: M2SRwDOp::MemWr, addr: DISPATCH_ADDR, data: pack_token_into_data(token) });
            proof {
                let i = before.len() as int;
                assert(i % 16 == k);
                assert(i < 16 <==> phase == 0);
                assert(is_dispatch_msg(out@[i], *job, first_tag, i));
                assert forall|j: int| 0 <= j < out@.len() implies is_dispatch_msg(#[trigger] out@[j], *job, first_tag, j) by {
                    if j < i {
                        assert(out@[j] == before[j]);
                    }
                }
            }
            tag = tag.wrapping_add(1);
            k = k + 1;
        }
        phase = phase + 1;
    }
    // Compute.
    let ghost before = out@;
    out.push(CxlMsg::M2SRwD { tag, opcode: M2SRwDOp::MemWr, addr: DISPATCH_ADDR, data: pack_token_into_data(make_compute_token()) });
    proof {
        assert forall|j: int| 0 <= j < out@.len() implies is_dispatch_msg(#[trigger] out@[j], *job, first_tag, j) by {
            if j < 32 {
                assert(out@[j] == before[j]);
            }
        }
    }
    tag = tag.wrapping_add(1);
    // Reads: the read token rides in address bits 63:32.
    let mut a: u8 = 0;
    while a < 16
        invariant
            0 <= a <= 16,
            out@.len() == 33 + a,
            tag == stream_tag(first_tag, out@.len() as int),
            forall|i: int| 0 <= i < out@.len() ==> is_dispatch_msg(#[trigger] out@[i], *job, first_tag, i),
        decreases 16 - a,
    {
        let token = make_read_token(a);
        let combined_addr = DISPATCH_ADDR | ((token as u64) << 32u64);
        assert(combined_addr == (DISPATCH_ADDR + 0x1_0000_0000 * token) as u64) by (bit_vector)
            requires
                combined_addr == 0x2000u64 | ((token as u64) << 32u64),
                DISPATCH_ADDR == 0x2000u64,
        ;
        let ghost before = out@;
        out.push(CxlMsg::M2SReq { tag, opcode: M2SReqOp::MemRd, addr: combined_addr });
        proof {
            assert forall|j: int| 0 <= j < out@.len() implies is_dispatch_msg(#[trigger] out@[j], *job, first_tag, j) by {
                if j < before.len() {
                    assert(out@[j] == before[j]);
                }
            }
        }
        tag = tag.wrapping_add(1);
        a = a + 1;
    }
    proof {
        assert forall|i: int| 0 <= i < STREAM_LEN implies (#[trigger] out@[i]).tag() == stream_tag(first_tag, i) by {
            assert(is_dispatch_msg(out@[i], *job, first_tag, i));
        }
    }
    out
}

} // verus!
