use slugarch::wire::decode::decode;
use slugarch::wire::encode::encode;
use slugarch::wire::error::WireError;
use slugarch::wire::msg::{
    CxlMsg, D2HReqOp, D2HRespOp, H2DReqOp, H2DRespOp, M2SReqOp, M2SRwDOp, MsgClass, S2MDRSOp, S2MNDROp,
};

#[test]
fn round_trip_m2s_req() {
    let msg = CxlMsg::M2SReq { tag: 0x1234, opcode: M2SReqOp::MemRd, addr: 0x2000 };
    assert_eq!(decode(&encode(&msg)).unwrap(), msg);
}

#[test]
fn round_trip_m2s_rwd() {
    let mut data = [0u8; 32];
    data[0] = 0xDE;
    data[1] = 0xAD;
    data[2] = 0xBE;
    data[3] = 0xEF;
    let msg = CxlMsg::M2SRwD { tag: 0xABCD, opcode: M2SRwDOp::MemWr, addr: 0x2000, data };
    assert_eq!(decode(&encode(&msg)).unwrap(), msg);
}

#[test]
fn round_trip_s2m_drs() {
    let mut data = [0u8; 32];
    data[0] = 0x11;
    data[1] = 0x22;
    data[2] = 0x33;
    let msg = CxlMsg::S2MDRS { tag: 0x5555, opcode: S2MDRSOp::MemData, data };
    assert_eq!(decode(&encode(&msg)).unwrap(), msg);
}

#[test]
fn round_trip_s2m_ndr_dispatch_failed() {
    let msg = CxlMsg::S2MNDR { tag: 0x42, opcode: S2MNDROp::DispatchFailed };
    assert_eq!(decode(&encode(&msg)).unwrap(), msg);
}

#[test]
fn reserved_bits_rejected() {
    let msg = CxlMsg::S2MNDR { tag: 0, opcode: S2MNDROp::Cmp };
    let mut flit = encode(&msg);
    flit[50] = 0xFF;
    assert_eq!(decode(&flit), Err(WireError::ReservedBitsSet));
}

#[test]
fn unknown_class_rejected() {
    let mut flit = [0u8; 64];
    flit[0] = 0xF0;
    assert_eq!(decode(&flit), Err(WireError::UnknownClass(0xF)));
}

#[test]
fn unknown_opcode_rejected() {
    let mut flit = [0u8; 64];
    flit[0] = 0x1E;
    match decode(&flit) {
        Err(WireError::UnknownOpcode(0xE, MsgClass::M2SReq)) => {}
        other => panic!("unexpected: {:?}", other),
    }
}

#[test]
fn m2s_rwd_encodes_class_and_opcode_in_byte_0() {
    let msg = CxlMsg::M2SRwD { tag: 0, opcode: M2SRwDOp::MemWr, addr: 0, data: [0; 32] };
    let flit = encode(&msg);
    assert_eq!(flit[0], 0x20);
}

#[test]
fn tag_encodes_little_endian_bytes_1_and_2() {
    let msg = CxlMsg::S2MNDR { tag: 0xABCD, opcode: S2MNDROp::Cmp };
    let flit = encode(&msg);
    assert_eq!(flit[1], 0xCD);
    assert_eq!(flit[2], 0xAB);
}

#[test]
fn addr_encodes_little_endian_bytes_3_to_10() {
    let msg = CxlMsg::M2SRwD { tag: 0, opcode: M2SRwDOp::MemWr, addr: 0x1122_3344_5566_7788, data: [0; 32] };
    let flit = encode(&msg);
    assert_eq!(flit[3], 0x88);
    assert_eq!(flit[10], 0x11);
}

#[test]
fn data_encodes_bytes_11_to_42() {
    let mut data = [0u8; 32];
    data[0] = 0xDE;
    data[31] = 0xAD;
    let msg = CxlMsg::M2SRwD { tag: 0, opcode: M2SRwDOp::MemWr, addr: 0, data };
    let flit = encode(&msg);
    assert_eq!(flit[11], 0xDE);
    assert_eq!(flit[42], 0xAD);
}

#[test]
fn reserved_bytes_43_to_63_are_zero() {
    let msg = CxlMsg::M2SRwD { tag: 0xFFFF, opcode: M2SRwDOp::MemWr, addr: !0, data: [0xFF; 32] };
    let flit = encode(&msg);
    for b in &flit[43..64] {
        assert_eq!(*b, 0);
    }
}

#[test]
fn wire_decode_preserves_mismatched_tags_distinctly() {
    let out = CxlMsg::M2SRwD { tag: 0x42, opcode: M2SRwDOp::MemWr, addr: 0x2000, data: [0; 32] };
    let back = CxlMsg::S2MNDR { tag: 0x99, opcode: S2MNDROp::Cmp };
    let out_flit = encode(&out);
    let back_flit = encode(&back);
    let out_dec = decode(&out_flit).unwrap();
    let back_dec = decode(&back_flit).unwrap();
    assert_ne!(out_dec.tag(), back_dec.tag());
    assert_eq!(out_dec.tag(), 0x42);
    assert_eq!(back_dec.tag(), 0x99);
}

fn all_messages() -> Vec<CxlMsg> {
    let mut data = [0u8; 32];
    for (i, b) in data.iter_mut().enumerate() {
        *b = (i as u8).wrapping_mul(7).wrapping_add(3);
    }
    vec![
        CxlMsg::M2SReq { tag: 1, opcode: M2SReqOp::MemRd, addr: u64::MAX },
        CxlMsg::M2SReq { tag: 2, opcode: M2SReqOp::MemRdData, addr: 7 },
        CxlMsg::M2SReq { tag: 3, opcode: M2SReqOp::MemInv, addr: 0 },
        CxlMsg::M2SRwD { tag: 4, opcode: M2SRwDOp::MemWr, addr: 0x1234, data },
        CxlMsg::M2SRwD { tag: 5, opcode: M2SRwDOp::MemWrPtl, addr: 0x5678, data },
        CxlMsg::M2SRwD { tag: 6, opcode: M2SRwDOp::MemClnEvct, addr: 9, data },
        CxlMsg::S2MDRS { tag: 7, opcode: S2MDRSOp::MemData, data },
        CxlMsg::S2MDRS { tag: 8, opcode: S2MDRSOp::MemDataNxm, data },
        CxlMsg::S2MNDR { tag: 9, opcode: S2MNDROp::Cmp },
        CxlMsg::S2MNDR { tag: 10, opcode: S2MNDROp::CmpS },
        CxlMsg::S2MNDR { tag: 11, opcode: S2MNDROp::CmpE },
        CxlMsg::S2MNDR { tag: 12, opcode: S2MNDROp::CmpI },
        CxlMsg::S2MNDR { tag: 13, opcode: S2MNDROp::MemPassDirty },
        CxlMsg::S2MNDR { tag: 14, opcode: S2MNDROp::DispatchFailed },
        CxlMsg::D2HReq { tag: 15, opcode: D2HReqOp::RdShared, addr: 1 },
        CxlMsg::D2HReq { tag: 16, opcode: D2HReqOp::RdOwn, addr: 2 },
        CxlMsg::D2HReq { tag: 17, opcode: D2HReqOp::Inval, addr: 3 },
        CxlMsg::D2HResp { tag: 18, opcode: D2HRespOp::RspIFwdM, data: Some(data) },
        CxlMsg::D2HResp { tag: 19, opcode: D2HRespOp::RspSFwdM, data: Some(data) },
        CxlMsg::D2HResp { tag: 20, opcode: D2HRespOp::RspV, data: Some(data) },
        CxlMsg::H2DReq { tag: 21, opcode: H2DReqOp::SnpData, addr: 4 },
        CxlMsg::H2DReq { tag: 22, opcode: H2DReqOp::SnpInv, addr: 5 },
        CxlMsg::H2DReq { tag: 23, opcode: H2DReqOp::SnpCur, addr: 6 },
        CxlMsg::H2DResp { tag: 24, opcode: H2DRespOp::GoWritePull },
        CxlMsg::H2DResp { tag: 25, opcode: H2DRespOp::GoErr },
        CxlMsg::H2DResp { tag: 0xFFFF, opcode: H2DRespOp::Go },
    ]
}

#[test]
fn every_variant_round_trips() {
    for msg in all_messages() {
        assert_eq!(decode(&encode(&msg)).unwrap(), msg);
    }
}

#[test]
fn d2h_resp_without_data_comes_back_with_zero_data() {
    let msg = CxlMsg::D2HResp { tag: 3, opcode: D2HRespOp::RspV, data: None };
    let back = decode(&encode(&msg)).unwrap();
    assert_eq!(back, CxlMsg::D2HResp { tag: 3, opcode: D2HRespOp::RspV, data: Some([0; 32]) });
}

#[test]
fn reencoding_a_decoded_flit_gives_it_back() {
    for msg in all_messages() {
        let flit = encode(&msg);
        assert_eq!(encode(&decode(&flit).unwrap()), flit);
    }
}

#[test]
fn fields_a_class_does_not_carry_are_ignored() {
    let msg = CxlMsg::S2MNDR { tag: 0x77, opcode: S2MNDROp::CmpE };
    let mut flit = encode(&msg);
    flit[5] = 0xAA;
    flit[20] = 0xBB;
    assert_eq!(decode(&flit).unwrap(), msg);
}

#[test]
fn reserved_bits_are_checked_before_the_class() {
    let mut flit = [0u8; 64];
    flit[0] = 0xF0;
    flit[63] = 1;
    assert_eq!(decode(&flit), Err(WireError::ReservedBitsSet));
}

#[test]
fn class_and_opcode_names() {
    assert_eq!(MsgClass::S2MDRS.name(), "S2MDRS");
    assert_eq!(S2MNDROp::MemPassDirty.name(), "MemPassDirty");
    assert_eq!(MsgClass::from_nibble(0x4), Some(MsgClass::S2MNDR));
    assert_eq!(MsgClass::from_nibble(0x9), None);
    assert_eq!(CxlMsg::H2DResp { tag: 9, opcode: H2DRespOp::Go }.class(), MsgClass::H2DResp);
}
