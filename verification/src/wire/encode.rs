//! FLIT encoder.

use vstd::prelude::*;

use super::flit::{flit_layout, FlitBytes, OFFSET_ADDR, OFFSET_DATA, OFFSET_TAG};
use super::msg::CxlMsg;

verus! {

/// Header byte: class nibble high, opcode nibble low.
pub open spec fn header_byte(class_nibble: u8, opcode: u8) -> u8 {
    ((class_nibble << 4u8) | (opcode & 0x0fu8)) as u8
}

/// The FLIT that `encode` produces for `m`.
pub open spec fn spec_encode(m: CxlMsg) -> Seq<u8> {
    flit_layout(header_byte(m.class().nibble(), m.opcode_code()), m.tag(), m.addr_field(), m.data_field())
}

/// The opcode nibble of `msg`.
fn opcode_of(msg: &CxlMsg) -> (r: u8)
    ensures
        r == msg.opcode_code(),
{
    match msg {
        CxlMsg::M2SReq { opcode, .. } => opcode.code(),
        CxlMsg::M2SRwD { opcode, .. } => opcode.code(),
        CxlMsg::S2MDRS { opcode, .. } => opcode.code(),
        CxlMsg::S2MNDR { opcode, .. } => opcode.code(),
        CxlMsg::D2HReq { opcode, .. } => opcode.code(),
        CxlMsg::D2HResp { opcode, .. } => opcode.code(),
        CxlMsg::H2DReq { opcode, .. } => opcode.code(),
        CxlMsg::H2DResp { opcode, .. } => opcode.code(),
    }
}

/// The address field of `msg` (0 for classes without one).
fn addr_of(msg: &CxlMsg) -> (r: u64)
    ensures
        r == msg.addr_field(),
{
    match msg {
        CxlMsg::M2SReq { addr, .. } => *addr,
        CxlMsg::M2SRwD { addr, .. } => *addr,
        CxlMsg::D2HReq { addr, .. } => *addr,
        CxlMsg::H2DReq { addr, .. } => *addr,
        _ => 0,
    }
}

/// Copies `data` into bytes 11..43 of `flit`, leaving the rest unchanged.
fn put_data(flit: &mut [u8; 64], data: &[u8; 32])
    ensures
        final(flit)@ == old(flit)@.subrange(0, 11) + data@ + old(flit)@.subrange(43, 64),
{
    let ghost before = flit@;
    let mut i: usize = 0;
    while i < 32
        invariant
            0 <= i <= 32,
            flit@.len() == 64,
            forall|j: int| 0 <= j < 11 ==> flit@[j] == before[j],
            forall|j: int| 43 <= j < 64 ==> flit@[j] == before[j],
            forall|j: int| 0 <= j < i ==> flit@[11 + j] == data@[j],
        decreases 32 - i,
    {
        flit[OFFSET_DATA + i] = data[i];
        i = i + 1;
    }
    assert(flit@ =~= before.subrange(0, 11) + data@ + before.subrange(43, 64));
}

/// Encodes `msg` into one FLIT. Classes without an address carry zero
/// address bytes; classes without data (and a D2HResp without data) carry
/// zero data bytes; the reserved tail is zero.
pub fn encode(msg: &CxlMsg) -> (flit: FlitBytes)
    ensures
        flit@ == spec_encode(*msg),
{
    let mut flit = [0u8; 64];
    let class = msg.class().nibble();
    let opcode = opcode_of(msg);
    let tag = msg.tag();
    let addr = addr_of(msg);
    flit[0] = (class << 4u8) | (opcode & 0x0Fu8);
    flit[OFFSET_TAG] = (tag & 0xff) as u8;
    flit[OFFSET_TAG + 1] = (tag >> 8u16) as u8;
    flit[OFFSET_ADDR] = (addr & 0xff) as u8;
    flit[OFFSET_ADDR + 1] = ((addr >> 8u64) & 0xff) as u8;
    flit[OFFSET_ADDR + 2] = ((addr >> 16u64) & 0xff) as u8;
    flit[OFFSET_ADDR + 3] = ((addr >> 24u64) & 0xff) as u8;
    flit[OFFSET_ADDR + 4] = ((addr >> 32u64) & 0xff) as u8;
    flit[OFFSET_ADDR + 5] = ((addr >> 40u64) & 0xff) as u8;
    flit[OFFSET_ADDR + 6] = ((addr >> 48u64) & 0xff) as u8;
    flit[OFFSET_ADDR + 7] = (addr >> 56u64) as u8;
    let ghost zeros = Seq::new(32, |i: int| 0u8);
    assert(flit@.subrange(11, 43) =~= zeros);
    match msg {
        CxlMsg::M2SRwD { data, .. } => put_data(&mut flit, data),
        CxlMsg::S2MDRS { data, .. } => put_data(&mut flit, data),
        CxlMsg::D2HResp { data: Some(d), .. } => put_data(&mut flit, d),
        _ => {},
    }
    assert(flit@ =~= spec_encode(*msg));
    flit
}

} // verus!
