//! The CPU-backed ptx_emulation_core. It does not compute the opcodes:
//! it charges a fixed cycle cost per opcode kind and leaves host memory
//! as it is.

use vstd::prelude::*;

use crate::backend::dispatch::DispatchCmd;

verus! {

/// The cycle cost of an emulated opcode: 4 for the transcendentals
/// (17..=23), nothing for the control-flow sentinel 254, 1 for anything
/// else (bit ops 1..=13, abs/min/max 14..=16, unknown opcodes).
#[verifier::allow_in_spec]
pub fn cycle_cost(opcode: u32) -> u64
    returns
        if 17 <= opcode <= 23 {
            4u64
        } else if opcode == 254 {
            0u64
        } else {
            1u64
        },
{
    if 17 <= opcode && opcode <= 23 {
        4
    } else if opcode == 254 {
        0
    } else {
        1
    }
}

/// Runs a command on the emulation core: its cycle cost; host memory is
/// left unchanged.
pub fn execute(cmd: &DispatchCmd, host_mem: &mut [u8]) -> (r: u64)
    ensures
        r == cycle_cost(cmd.opcode),
        final(host_mem)@ == old(host_mem)@,
{
    cycle_cost(cmd.opcode)
}

} // verus!
