//! FLIT byte layout (a documented v1 layout, not the CXL 2.0/3.0 one):
//!
//!   byte 0     : class (high nibble) | opcode (low nibble)
//!   bytes 1-2  : tag (little-endian u16)
//!   bytes 3-10 : addr (little-endian u64)
//!   bytes 11-42: data (32 bytes; meaningful for RwD / DRS / D2HResp)
//!   bytes 43-63: reserved; must be zero

use vstd::prelude::*;

verus! {

/// Size of one FLIT in bytes.
pub const FLIT_BYTES: usize = 64;

/// One FLIT.
pub type FlitBytes = [u8; 64];

/// Offset of the tag field.
pub const OFFSET_TAG: usize = 1;

/// Offset of the address field.
pub const OFFSET_ADDR: usize = 3;

/// Offset of the data field.
pub const OFFSET_DATA: usize = 11;

/// Offset of the reserved tail.
pub const OFFSET_RESERVED: usize = 43;

/// Length of the data field.
pub const DATA_BYTES: usize = 32;

/// The two little-endian bytes of `x`.
pub open spec fn u16_le(x: u16) -> Seq<u8> {
    seq![(x & 0xff) as u8, (x >> 8u16) as u8]
}

/// The eight little-endian bytes of `x`.
pub open spec fn u64_le(x: u64) -> Seq<u8> {
    seq![
        (x & 0xff) as u8,
        ((x >> 8u64) & 0xff) as u8,
        ((x >> 16u64) & 0xff) as u8,
        ((x >> 24u64) & 0xff) as u8,
        ((x >> 32u64) & 0xff) as u8,
        ((x >> 40u64) & 0xff) as u8,
        ((x >> 48u64) & 0xff) as u8,
        (x >> 56u64) as u8,
    ]
}

/// The value of two little-endian bytes.
pub open spec fn le_u16(b0: u8, b1: u8) -> u16 {
    (b0 as u16) | ((b1 as u16) << 8u16)
}

/// The value of eight little-endian bytes starting at `s[k]`.
pub open spec fn le_u64_at(s: Seq<u8>, k: int) -> u64 {
    (s[k] as u64) | ((s[k + 1] as u64) << 8u64) | ((s[k + 2] as u64) << 16u64) | ((s[k
        + 3] as u64) << 24u64) | ((s[k + 4] as u64) << 32u64) | ((s[k + 5] as u64) << 40u64)
        | ((s[k + 6] as u64) << 48u64) | ((s[k + 7] as u64) << 56u64)
}

/// Twenty-one zero bytes: the reserved tail.
pub open spec fn reserved_zeros() -> Seq<u8> {
    Seq::new(21, |i: int| 0u8)
}

/// The FLIT with the given fields.
pub open spec fn flit_layout(header: u8, tag: u16, addr: u64, data: Seq<u8>) -> Seq<u8> {
    seq![header] + u16_le(tag) + u64_le(addr) + data + reserved_zeros()
}

} // verus!
