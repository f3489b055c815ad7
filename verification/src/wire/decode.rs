//! FLIT decoder, and the laws that tie it to the encoder.

use vstd::prelude::*;

use super::encode::{header_byte, spec_encode};
use super::error::WireError;
use super::flit::{flit_layout, le_u16, le_u64_at, u16_le, u64_le, FlitBytes, OFFSET_DATA, OFFSET_RESERVED};
use super::msg::{
    CxlMsg, D2HReqOp, D2HRespOp, H2DReqOp, H2DRespOp, M2SReqOp, M2SRwDOp, MsgClass, S2MDRSOp,
    S2MNDROp,
};

verus! {

broadcast use vstd::array::group_array_axioms;

/// Thirty-two zero bytes.
pub open spec fn zeros32() -> Seq<u8> {
    Seq::new(32, |i: int| 0u8)
}

/// Classes whose FLIT carries an address.
pub open spec fn class_has_addr(c: MsgClass) -> bool {
    c is M2SReq || c is M2SRwD || c is D2HReq || c is H2DReq
}

/// Classes whose FLIT carries data.
pub open spec fn class_has_data(c: MsgClass) -> bool {
    c is M2SRwD || c is S2MDRS || c is D2HResp
}

/// Whether `o` is an opcode nibble of class `c`.
pub open spec fn opcode_known(c: MsgClass, o: u8) -> bool {
    match c {
        MsgClass::M2SReq => M2SReqOp::from_code(o) is Some,
        MsgClass::M2SRwD => M2SRwDOp::from_code(o) is Some,
        MsgClass::S2MDRS => S2MDRSOp::from_code(o) is Some,
        MsgClass::S2MNDR => S2MNDROp::from_code(o) is Some,
        MsgClass::D2HReq => D2HReqOp::from_code(o) is Some,
        MsgClass::D2HResp => D2HRespOp::from_code(o) is Some,
        MsgClass::H2DReq => H2DReqOp::from_code(o) is Some,
        MsgClass::H2DResp => H2DRespOp::from_code(o) is Some,
    }
}

/// Whether all reserved bytes (43..64) are zero.
pub open spec fn reserved_clear(f: Seq<u8>) -> bool {
    forall|i: int| 43 <= i < 64 ==> f[i] == 0
}

/// The error `decode` reports for `f`, or `None` when `f` decodes.
/// Reserved bytes are checked first, then the class, then the opcode.
pub open spec fn spec_decode_error(f: Seq<u8>) -> Option<WireError> {
    if !reserved_clear(f) {
        Some(WireError::ReservedBitsSet)
    } else {
        match MsgClass::from_nibble(f[0] >> 4u8) {
            None => Some(WireError::UnknownClass(f[0] >> 4u8)),
            Some(c) => if opcode_known(c, f[0] & 0x0fu8) {
                None
            } else {
                Some(WireError::UnknownOpcode(f[0] & 0x0fu8, c))
            },
        }
    }
}

/// `f` with the fields that its class does not carry set to zero.
pub open spec fn canonical_flit(f: Seq<u8>) -> Seq<u8> {
    let c = MsgClass::from_nibble(f[0] >> 4u8).unwrap();
    flit_layout(
        f[0],
        le_u16(f[1], f[2]),
        if class_has_addr(c) { le_u64_at(f, 3) } else { 0 },
        if class_has_data(c) { f.subrange(11, 43) } else { zeros32() },
    )
}

/// `m` is what `decode` returns for `f`: `f` decodes, `m` encodes to the
/// canonical form of `f`, and a decoded D2HResp always carries data.
pub open spec fn decodes_to(f: Seq<u8>, m: CxlMsg) -> bool {
    &&& f.len() == 64
    &&& spec_decode_error(f) is None
    &&& spec_encode(m) == canonical_flit(f)
    &&& (m matches CxlMsg::D2HResp { data, .. } ==> data is Some)
}

/// `d` is `m` as it comes back from the wire: equal to `m`, except that a
/// D2HResp without data comes back with 32 zero data bytes.
pub open spec fn wire_equiv(d: CxlMsg, m: CxlMsg) -> bool {
    match m {
        CxlMsg::D2HResp { tag, opcode, data: None } => d matches CxlMsg::D2HResp {
            tag: t2,
            opcode: o2,
            data: Some(z),
        } && t2 == tag && o2 == opcode && z@ == zeros32(),
        _ => d == m,
    }
}

proof fn lemma_header_split(x: u8)
    ensures
        header_byte(x >> 4u8, x & 0x0fu8) == x,
{
    assert((((x >> 4u8) << 4u8) | ((x & 0x0fu8) & 0x0fu8)) as u8 == x) by (bit_vector);
}

proof fn lemma_header_parts(c: u8, o: u8)
    requires
        1 <= c <= 8,
        o <= 15,
    ensures
        header_byte(c, o) >> 4u8 == c,
        header_byte(c, o) & 0x0fu8 == o,
{
    assert((((c << 4u8) | (o & 0x0fu8)) as u8) >> 4u8 == c) by (bit_vector)
        requires
            1 <= c <= 8,
            o <= 15,
    ;
    assert((((c << 4u8) | (o & 0x0fu8)) as u8) & 0x0fu8 == o) by (bit_vector)
        requires
            o <= 15,
    ;
}

proof fn lemma_u16_le_round_trip(t: u16)
    ensures
        le_u16(u16_le(t)[0], u16_le(t)[1]) == t,
{
    assert(((((t & 0xff) as u8) as u16) | ((((t >> 8u16) as u8) as u16) << 8u16)) == t)
        by (bit_vector);
}

proof fn lemma_u64_le_round_trip(a: u64)
    ensures
        le_u64_at(u64_le(a), 0) == a,
{
    let s = u64_le(a);
    assert(le_u64_at(s, 0) == (((a & 0xff) as u8) as u64) | (((((a >> 8u64) & 0xff) as u8) as u64)
        << 8u64) | (((((a >> 16u64) & 0xff) as u8) as u64) << 16u64) | (((((a >> 24u64) & 0xff) as u8)
        as u64) << 24u64) | (((((a >> 32u64) & 0xff) as u8) as u64) << 32u64) | (((((a >> 40u64)
        & 0xff) as u8) as u64) << 40u64) | (((((a >> 48u64) & 0xff) as u8) as u64) << 48u64) | ((((a
        >> 56u64) as u8) as u64) << 56u64));
    assert((((a & 0xff) as u8) as u64) | (((((a >> 8u64) & 0xff) as u8) as u64) << 8u64) | (((((a
        >> 16u64) & 0xff) as u8) as u64) << 16u64) | (((((a >> 24u64) & 0xff) as u8) as u64)
        << 24u64) | (((((a >> 32u64) & 0xff) as u8) as u64) << 32u64) | (((((a >> 40u64) & 0xff)
        as u8) as u64) << 40u64) | (((((a >> 48u64) & 0xff) as u8) as u64) << 48u64) | ((((a
        >> 56u64) as u8) as u64) << 56u64) == a) by (bit_vector);
}

proof fn lemma_flit_layout(h: u8, t: u16, a: u64, d: Seq<u8>)
    requires
        d.len() == 32,
    ensures
        flit_layout(h, t, a, d).len() == 64,
        flit_layout(h, t, a, d)[0] == h,
        flit_layout(h, t, a, d)[1] == u16_le(t)[0],
        flit_layout(h, t, a, d)[2] == u16_le(t)[1],
        forall|i: int| 0 <= i < 8 ==> flit_layout(h, t, a, d)[3 + i] == u64_le(a)[i],
        flit_layout(h, t, a, d).subrange(11, 43) == d,
        reserved_clear(flit_layout(h, t, a, d)),
{
    let f = flit_layout(h, t, a, d);
    assert(f.subrange(11, 43) =~= d);
}

proof fn lemma_msg_fields(m: CxlMsg)
    ensures
        1 <= m.class().nibble() <= 8,
        m.opcode_code() <= 15,
        opcode_known(m.class(), m.opcode_code()),
        m.data_field().len() == 32,
        !class_has_addr(m.class()) ==> m.addr_field() == 0,
        !class_has_data(m.class()) ==> m.data_field() == zeros32(),
        MsgClass::from_nibble(m.class().nibble()) == Some(m.class()),
{
    match m {
        CxlMsg::M2SReq { opcode, .. } => { match opcode { M2SReqOp::MemRd => {}, M2SReqOp::MemRdData => {}, M2SReqOp::MemInv => {} } },
        CxlMsg::M2SRwD { opcode, .. } => { match opcode { M2SRwDOp::MemWr => {}, M2SRwDOp::MemWrPtl => {}, M2SRwDOp::MemClnEvct => {} } },
        CxlMsg::S2MDRS { opcode, .. } => { match opcode { S2MDRSOp::MemData => {}, S2MDRSOp::MemDataNxm => {} } },
        CxlMsg::S2MNDR { opcode, .. } => { match opcode { S2MNDROp::Cmp => {}, S2MNDROp::CmpS => {}, S2MNDROp::CmpE => {}, S2MNDROp::CmpI => {}, S2MNDROp::MemPassDirty => {}, S2MNDROp::DispatchFailed => {} } },
        CxlMsg::D2HReq { opcode, .. } => { match opcode { D2HReqOp::RdShared => {}, D2HReqOp::RdOwn => {}, D2HReqOp::Inval => {} } },
        CxlMsg::D2HResp { opcode, data, .. } => {
            match opcode { D2HRespOp::RspIFwdM => {}, D2HRespOp::RspSFwdM => {}, D2HRespOp::RspV => {} }
            match data { Some(d) => {}, None => { assert(m.data_field() =~= zeros32()); } }
        },
        CxlMsg::H2DReq { opcode, .. } => { match opcode { H2DReqOp::SnpData => {}, H2DReqOp::SnpInv => {}, H2DReqOp::SnpCur => {} } },
        CxlMsg::H2DResp { opcode, .. } => { match opcode { H2DRespOp::GoWritePull => {}, H2DRespOp::GoErr => {}, H2DRespOp::Go => {} } },
    }
}

/// Every FLIT that `encode` produces decodes, and is already canonical.
pub proof fn lemma_encode_decodes(m: CxlMsg)
    ensures
        spec_encode(m).len() == 64,
        spec_decode_error(spec_encode(m)) is None,
        canonical_flit(spec_encode(m)) == spec_encode(m),
{
    lemma_msg_fields(m);
    let c = m.class().nibble();
    let o = m.opcode_code();
    let h = header_byte(c, o);
    let f = spec_encode(m);
    lemma_header_parts(c, o);
    lemma_flit_layout(h, m.tag(), m.addr_field(), m.data_field());
    lemma_u16_le_round_trip(m.tag());
    lemma_u64_le_round_trip(m.addr_field());
    assert(le_u64_at(f, 3) == le_u64_at(u64_le(m.addr_field()), 0));
    assert(canonical_flit(f) =~= f);
}

/// Two messages with the same encoding have the same class, opcode, tag,
/// address field and data field.
proof fn lemma_encode_fields_injective(a: CxlMsg, b: CxlMsg)
    requires
        spec_encode(a) == spec_encode(b),
    ensures
        a.class() == b.class(),
        a.opcode_code() == b.opcode_code(),
        a.tag() == b.tag(),
        a.addr_field() == b.addr_field(),
        a.data_field() == b.data_field(),
{
    lemma_msg_fields(a);
    lemma_msg_fields(b);
    lemma_header_parts(a.class().nibble(), a.opcode_code());
    lemma_header_parts(b.class().nibble(), b.opcode_code());
    let fa = spec_encode(a);
    lemma_flit_layout(header_byte(a.class().nibble(), a.opcode_code()), a.tag(), a.addr_field(), a.data_field());
    lemma_flit_layout(header_byte(b.class().nibble(), b.opcode_code()), b.tag(), b.addr_field(), b.data_field());
    lemma_u16_le_round_trip(a.tag());
    lemma_u16_le_round_trip(b.tag());
    lemma_u64_le_round_trip(a.addr_field());
    lemma_u64_le_round_trip(b.addr_field());
    assert(u64_le(a.addr_field()) =~= u64_le(b.addr_field())) by {
        assert forall|i: int| 0 <= i < 8 implies u64_le(a.addr_field())[i] == u64_le(b.addr_field())[i] by {
            assert(fa[3 + i] == u64_le(a.addr_field())[i]);
        }
    }
    assert(MsgClass::from_nibble(a.class().nibble()) == Some(a.class()));
    assert(MsgClass::from_nibble(b.class().nibble()) == Some(b.class()));
}

/// Decoding an encoded message gives the message back (a D2HResp without
/// data comes back with 32 zero data bytes).
pub proof fn lemma_decode_encode(m: CxlMsg, d: CxlMsg)
    requires
        decodes_to(spec_encode(m), d),
    ensures
        wire_equiv(d, m),
{
    lemma_encode_decodes(m);
    lemma_encode_fields_injective(d, m);
    lemma_msg_fields(m);
    lemma_msg_fields(d);
    match m {
        CxlMsg::M2SReq { opcode, .. } => { match opcode { M2SReqOp::MemRd => {}, M2SReqOp::MemRdData => {}, M2SReqOp::MemInv => {} } },
        CxlMsg::M2SRwD { opcode, data, .. } => {
            match opcode { M2SRwDOp::MemWr => {}, M2SRwDOp::MemWrPtl => {}, M2SRwDOp::MemClnEvct => {} }
            if let CxlMsg::M2SRwD { data: d2, .. } = d { assert(d2 =~= data); }
        },
        CxlMsg::S2MDRS { opcode, data, .. } => {
            match opcode { S2MDRSOp::MemData => {}, S2MDRSOp::MemDataNxm => {} }
            if let CxlMsg::S2MDRS { data: d2, .. } = d { assert(d2 =~= data); }
        },
        CxlMsg::S2MNDR { opcode, .. } => { match opcode { S2MNDROp::Cmp => {}, S2MNDROp::CmpS => {}, S2MNDROp::CmpE => {}, S2MNDROp::CmpI => {}, S2MNDROp::MemPassDirty => {}, S2MNDROp::DispatchFailed => {} } },
        CxlMsg::D2HReq { opcode, .. } => { match opcode { D2HReqOp::RdShared => {}, D2HReqOp::RdOwn => {}, D2HReqOp::Inval => {} } },
        CxlMsg::D2HResp { opcode, data, .. } => {
            match opcode { D2HRespOp::RspIFwdM => {}, D2HRespOp::RspSFwdM => {}, D2HRespOp::RspV => {} }
            if let CxlMsg::D2HResp { data: Some(d2), .. } = d {
                if let Some(x) = data { assert(d2 =~= x); }
            }
        },
        CxlMsg::H2DReq { opcode, .. } => { match opcode { H2DReqOp::SnpData => {}, H2DReqOp::SnpInv => {}, H2DReqOp::SnpCur => {} } },
        CxlMsg::H2DResp { opcode, .. } => { match opcode { H2DRespOp::GoWritePull => {}, H2DRespOp::GoErr => {}, H2DRespOp::Go => {} } },
    }
}

/// Decoding is a function: a FLIT decodes to at most one message.
pub proof fn lemma_decodes_to_unique(f: Seq<u8>, m1: CxlMsg, m2: CxlMsg)
    requires
        decodes_to(f, m1),
        decodes_to(f, m2),
    ensures
        m1 == m2,
{
    lemma_encode_decodes(m1);
    assert(decodes_to(spec_encode(m1), m2));
    lemma_decode_encode(m1, m2);
}

/// Re-encoding a decoded FLIT whose unused fields are zero gives the FLIT
/// back.
pub proof fn lemma_encode_decode(f: Seq<u8>, d: CxlMsg)
    requires
        decodes_to(f, d),
        canonical_flit(f) == f,
    ensures
        spec_encode(d) == f,
{
}

/// Decodes one FLIT. Fails when a reserved byte is nonzero, when the class
/// nibble names no class, or when the opcode nibble names no opcode of the
/// class, in that order of checking. Fields that the class does not carry
/// are ignored; a D2HResp always decodes with data.
pub fn decode(flit: &FlitBytes) -> (r: Result<CxlMsg, WireError>)
    ensures
        r matches Ok(m) ==> decodes_to(flit@, m),
        r matches Err(e) ==> spec_decode_error(flit@) == Some(e),
{
    let ghost f = flit@;
    let mut i: usize = OFFSET_RESERVED;
    while i < 64
        invariant
            43 <= i <= 64,
            f == flit@,
            forall|j: int| 43 <= j < i ==> f[j] == 0,
        decreases 64 - i,
    {
        if flit[i] != 0 {
            return Err(WireError::ReservedBitsSet);
        }
        i = i + 1;
    }
    assert(reserved_clear(f));
    let class_nibble = flit[0] >> 4u8;
    let opcode_nibble = flit[0] & 0x0Fu8;
    let class = match MsgClass::from_nibble(class_nibble) {
        Some(c) => c,
        None => return Err(WireError::UnknownClass(class_nibble)),
    };
    let tag: u16 = (flit[1] as u16) | ((flit[2] as u16) << 8u16);
    let addr: u64 = (flit[3] as u64) | ((flit[4] as u64) << 8u64) | ((flit[5] as u64) << 16u64)
        | ((flit[6] as u64) << 24u64) | ((flit[7] as u64) << 32u64) | ((flit[8] as u64) << 40u64)
        | ((flit[9] as u64) << 48u64) | ((flit[10] as u64) << 56u64);
    let mut data = [0u8; 32];
    let mut k: usize = 0;
    while k < 32
        invariant
            0 <= k <= 32,
            f == flit@,
            forall|j: int| 0 <= j < k ==> data@[j] == f[11 + j],
        decreases 32 - k,
    {
        data[k] = flit[OFFSET_DATA + k];
        k = k + 1;
    }
    assert(data@ =~= f.subrange(11, 43));
    assert(tag == le_u16(f[1], f[2]));
    assert(addr == le_u64_at(f, 3));
    proof {
        lemma_header_split(f[0]);
    }
    let r = match class {
        MsgClass::M2SReq => match M2SReqOp::from_code(opcode_nibble) {
            Some(opcode) => CxlMsg::M2SReq { tag, opcode, addr },
            None => return Err(WireError::UnknownOpcode(opcode_nibble, class)),
        },
        MsgClass::M2SRwD => match M2SRwDOp::from_code(opcode_nibble) {
            Some(opcode) => CxlMsg::M2SRwD { tag, opcode, addr, data },
            None => return Err(WireError::UnknownOpcode(opcode_nibble, class)),
        },
        MsgClass::S2MDRS => match S2MDRSOp::from_code(opcode_nibble) {
            Some(opcode) => CxlMsg::S2MDRS { tag, opcode, data },
            None => return Err(WireError::UnknownOpcode(opcode_nibble, class)),
        },
        MsgClass::S2MNDR => match S2MNDROp::from_code(opcode_nibble) {
            Some(opcode) => CxlMsg::S2MNDR { tag, opcode },
            None => return Err(WireError::UnknownOpcode(opcode_nibble, class)),
        },
        MsgClass::D2HReq => match D2HReqOp::from_code(opcode_nibble) {
            Some(opcode) => CxlMsg::D2HReq { tag, opcode, addr },
            None => return Err(WireError::UnknownOpcode(opcode_nibble, class)),
        },
        MsgClass::D2HResp => match D2HRespOp::from_code(opcode_nibble) {
            Some(opcode) => CxlMsg::D2HResp { tag, opcode, data: Some(data) },
            None => return Err(WireError::UnknownOpcode(opcode_nibble, class)),
        },
        MsgClass::H2DReq => match H2DReqOp::from_code(opcode_nibble) {
            Some(opcode) => CxlMsg::H2DReq { tag, opcode, addr },
            None => return Err(WireError::UnknownOpcode(opcode_nibble, class)),
        },
        MsgClass::H2DResp => match H2DRespOp::from_code(opcode_nibble) {
            Some(opcode) => CxlMsg::H2DResp { tag, opcode },
            None => return Err(WireError::UnknownOpcode(opcode_nibble, class)),
        },
    };
    assert(spec_encode(r) =~= canonical_flit(f));
    Ok(r)
}

} // verus!
