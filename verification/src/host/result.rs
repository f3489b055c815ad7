//! Decoding the 16 read responses into the result matrix.

use vstd::prelude::*;
use vstd::string::*;

use crate::wire::msg::{CxlMsg, S2MDRSOp};
use super::error::HostError;
use super::job::cell;
use super::text::{decimal, push_decimal};

verus! {

/// A read response carrying data.
pub open spec fn is_mem_data(m: CxlMsg) -> bool {
    m matches CxlMsg::S2MDRS { opcode: S2MDRSOp::MemData, .. }
}

/// The data bytes of a response (empty for other classes).
pub open spec fn resp_data(m: CxlMsg) -> Seq<u8> {
    match m {
        CxlMsg::S2MDRS { data, .. } => data@,
        _ => Seq::empty(),
    }
}

/// The accumulator a read response carries: its first three data bytes,
/// little-endian.
pub open spec fn acc_value(data: Seq<u8>) -> u32 {
    (data[0] + 256 * data[1] + 65536 * data[2]) as u32
}

/// The first `n` responses all carry data.
pub open spec fn all_mem_data(rs: Seq<CxlMsg>, n: int) -> bool {
    forall|i: int| 0 <= i < n ==> is_mem_data(#[trigger] rs[i])
}

/// Why a response that should carry data is refused.
pub open spec fn reject_reason(m: CxlMsg) -> Seq<char> {
    match m {
        CxlMsg::S2MNDR { opcode, .. } => "expected S2MDRS, got S2MNDR "@ + opcode.name()@,
        _ => "unexpected response class: "@ + m.class().name()@,
    }
}

/// The error for refusing response `m`.
pub open spec fn is_reject_error(e: HostError, m: CxlMsg) -> bool {
    e matches HostError::DispatchFailed { tag, reason } && tag == m.tag() && reason@ == reject_reason(m)
}

/// The error for a response count other than 16.
pub open spec fn is_count_error(e: HostError, n: nat) -> bool {
    e matches HostError::DispatchFailed { tag, reason } && tag == 0 && reason@ == "expected 16 responses, got "@ + decimal(n)
}

fn reject_error(m: &CxlMsg) -> (e: HostError)
    ensures
        is_reject_error(e, *m),
{
    match m {
        CxlMsg::S2MNDR { opcode, tag } => {
            let mut reason = String::from_str("expected S2MDRS, got S2MNDR ");
            reason.append(opcode.name());
            HostError::DispatchFailed { tag: *tag, reason }
        },
        other => {
            let mut reason = String::from_str("unexpected response class: ");
            reason.append(other.class().name());
            HostError::DispatchFailed { tag: other.tag(), reason }
        },
    }
}

/// Given the 16 read responses in address order (0..15), the 4x4 result
/// matrix, row-major. Fails on a count other than 16, or at the first
/// response that is not an S2MDRS MemData.
pub fn decode_results(responses: &[CxlMsg]) -> (r: Result<[[u32; 4]; 4], HostError>)
    ensures
        responses@.len() != 16 ==> (r matches Err(e) && is_count_error(e, responses@.len())),
        responses@.len() == 16 && all_mem_data(responses@, 16) ==> (r matches Ok(c) && forall|i: int|
            0 <= i < 16 ==> cell(c, i / 4, i % 4) == acc_value(resp_data(#[trigger] responses@[i]))),
        responses@.len() == 16 && !all_mem_data(responses@, 16) ==> exists|k: int|
            0 <= k < 16 && all_mem_data(responses@, k) && !is_mem_data(responses@[k]) && (r matches Err(e)
                && is_reject_error(e, responses@[k])),
{
    if responses.len() != 16 {
        let mut reason = String::from_str("expected 16 responses, got ");
        push_decimal(&mut reason, responses.len() as u64);
        return Err(HostError::DispatchFailed { tag: 0, reason });
    }
    let mut c: [[u32; 4]; 4] = [[0, 0, 0, 0], [0, 0, 0, 0], [0, 0, 0, 0], [0, 0, 0, 0]];
    let mut i: usize = 0;
    while i < 16
        invariant
            0 <= i <= 16,
            responses@.len() == 16,
            all_mem_data(responses@, i as int),
            forall|j: int| 0 <= j < i ==> cell(c, j / 4, j % 4) == acc_value(resp_data(#[trigger] responses@[j])),
        decreases 16 - i,
    {
        match &responses[i] {
            CxlMsg::S2MDRS { opcode: S2MDRSOp::MemData, data, .. } => {
                let b0 = data[0] as u32;
                let b1 = data[1] as u32;
                let b2 = data[2] as u32;
                let v = b0 | (b1 << 8u32) | (b2 << 16u32);
                assert(v == b0 + 256 * b1 + 65536 * b2) by (bit_vector)
                    requires
                        v == b0 | (b1 << 8u32) | (b2 << 16u32),
                        b0 < 256,
                        b1 < 256,
                        b2 < 256,
                ;
                let ghost before = c;
                let mut row = c[i / 4];
                row[i % 4] = v;
                c[i / 4] = row;
                proof {
                    assert forall|j: int| 0 <= j < i + 1 implies cell(c, j / 4, j % 4) == acc_value(resp_data(#[trigger] responses@[j])) by {
                        if j < i {
                            assert(cell(before, j / 4, j % 4) == acc_value(resp_data(responses@[j])));
                            if j / 4 == i / 4 {
                                assert(j % 4 != i % 4);
                            }
                        }
                    }
                }
            },
            other => {
                let e = reject_error(other);
                return Err(e);
            },
        }
        i = i + 1;
    }
    Ok(c)
}

} // verus!
