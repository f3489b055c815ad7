//! CXL message types. Covers .mem Req/RwD/DRS/NDR and the .cache D2H/H2D
//! envelopes. Every variant is encodable and decodable.

use vstd::prelude::*;

verus! {

/// Message class, carried in the high nibble of FLIT byte 0.
#[derive(Debug, Clone, Copy, PartialEq, Eq, Structural)]
pub enum MsgClass {
    M2SReq,
    M2SRwD,
    S2MDRS,
    S2MNDR,
    D2HReq,
    D2HResp,
    H2DReq,
    H2DResp,
}

impl MsgClass {
    /// The variant's name.
    #[verifier::allow_in_spec]
    pub fn name(self) -> &'static str
        returns
            match self {
                MsgClass::M2SReq => "M2SReq",
                MsgClass::M2SRwD => "M2SRwD",
                MsgClass::S2MDRS => "S2MDRS",
                MsgClass::S2MNDR => "S2MNDR",
                MsgClass::D2HReq => "D2HReq",
                MsgClass::D2HResp => "D2HResp",
                MsgClass::H2DReq => "H2DReq",
                MsgClass::H2DResp => "H2DResp",
            },
    {
        match self {
            MsgClass::M2SReq => "M2SReq",
            MsgClass::M2SRwD => "M2SRwD",
            MsgClass::S2MDRS => "S2MDRS",
            MsgClass::S2MNDR => "S2MNDR",
            MsgClass::D2HReq => "D2HReq",
            MsgClass::D2HResp => "D2HResp",
            MsgClass::H2DReq => "H2DReq",
            MsgClass::H2DResp => "H2DResp",
        }
    }

    /// The class nibble on the wire.
    #[verifier::allow_in_spec]
    pub fn nibble(self) -> u8
        returns
            match self {
                MsgClass::M2SReq => 0x1u8,
                MsgClass::M2SRwD => 0x2u8,
                MsgClass::S2MDRS => 0x3u8,
                MsgClass::S2MNDR => 0x4u8,
                MsgClass::D2HReq => 0x5u8,
                MsgClass::D2HResp => 0x6u8,
                MsgClass::H2DReq => 0x7u8,
                MsgClass::H2DResp => 0x8u8,
            },
    {
        match self {
            MsgClass::M2SReq => 0x1,
            MsgClass::M2SRwD => 0x2,
            MsgClass::S2MDRS => 0x3,
            MsgClass::S2MNDR => 0x4,
            MsgClass::D2HReq => 0x5,
            MsgClass::D2HResp => 0x6,
            MsgClass::H2DReq => 0x7,
            MsgClass::H2DResp => 0x8,
        }
    }

    /// The class whose nibble is `n`, if any.
    #[verifier::allow_in_spec]
    pub fn from_nibble(n: u8) -> Option<MsgClass>
        returns
            match n {
                0x1 => Some(MsgClass::M2SReq),
                0x2 => Some(MsgClass::M2SRwD),
                0x3 => Some(MsgClass::S2MDRS),
                0x4 => Some(MsgClass::S2MNDR),
                0x5 => Some(MsgClass::D2HReq),
                0x6 => Some(MsgClass::D2HResp),
                0x7 => Some(MsgClass::H2DReq),
                0x8 => Some(MsgClass::H2DResp),
                _ => None,
            },
    {
        match n {
            0x1 => Some(MsgClass::M2SReq),
            0x2 => Some(MsgClass::M2SRwD),
            0x3 => Some(MsgClass::S2MDRS),
            0x4 => Some(MsgClass::S2MNDR),
            0x5 => Some(MsgClass::D2HReq),
            0x6 => Some(MsgClass::D2HResp),
            0x7 => Some(MsgClass::H2DReq),
            0x8 => Some(MsgClass::H2DResp),
            _ => None,
        }
    }
}

/// M2S request opcodes.
#[derive(Debug, Clone, Copy, PartialEq, Eq, Structural)]
pub enum M2SReqOp {
    MemRd,
    MemRdData,
    MemInv,
}

impl M2SReqOp {
    /// The variant's name.
    #[verifier::allow_in_spec]
    pub fn name(self) -> &'static str
        returns
            match self {
                M2SReqOp::MemRd => "MemRd",
                M2SReqOp::MemRdData => "MemRdData",
                M2SReqOp::MemInv => "MemInv",
            },
    {
        match self {
            M2SReqOp::MemRd => "MemRd",
            M2SReqOp::MemRdData => "MemRdData",
            M2SReqOp::MemInv => "MemInv",
        }
    }

    /// The opcode nibble on the wire.
    #[verifier::allow_in_spec]
    pub fn code(self) -> u8
        returns
            match self {
                M2SReqOp::MemRd => 0x0u8,
                M2SReqOp::MemRdData => 0x1u8,
                M2SReqOp::MemInv => 0x2u8,
            },
    {
        match self {
            M2SReqOp::MemRd => 0x0,
            M2SReqOp::MemRdData => 0x1,
            M2SReqOp::MemInv => 0x2,
        }
    }

    /// The opcode whose nibble is `n`, if any.
    #[verifier::allow_in_spec]
    pub fn from_code(n: u8) -> Option<M2SReqOp>
        returns
            match n {
                0x0 => Some(M2SReqOp::MemRd),
                0x1 => Some(M2SReqOp::MemRdData),
                0x2 => Some(M2SReqOp::MemInv),
                _ => None,
            },
    {
        match n {
            0x0 => Some(M2SReqOp::MemRd),
            0x1 => Some(M2SReqOp::MemRdData),
            0x2 => Some(M2SReqOp::MemInv),
            _ => None,
        }
    }
}

/// M2S request-with-data opcodes.
#[derive(Debug, Clone, Copy, PartialEq, Eq, Structural)]
pub enum M2SRwDOp {
    MemWr,
    MemWrPtl,
    MemClnEvct,
}

impl M2SRwDOp {
    /// The variant's name.
    #[verifier::allow_in_spec]
    pub fn name(self) -> &'static str
        returns
            match self {
                M2SRwDOp::MemWr => "MemWr",
                M2SRwDOp::MemWrPtl => "MemWrPtl",
                M2SRwDOp::MemClnEvct => "MemClnEvct",
            },
    {
        match self {
            M2SRwDOp::MemWr => "MemWr",
            M2SRwDOp::MemWrPtl => "MemWrPtl",
            M2SRwDOp::MemClnEvct => "MemClnEvct",
        }
    }

    /// The opcode nibble on the wire.
    #[verifier::allow_in_spec]
    pub fn code(self) -> u8
        returns
            match self {
                M2SRwDOp::MemWr => 0x0u8,
                M2SRwDOp::MemWrPtl => 0x1u8,
                M2SRwDOp::MemClnEvct => 0x2u8,
            },
    {
        match self {
            M2SRwDOp::MemWr => 0x0,
            M2SRwDOp::MemWrPtl => 0x1,
            M2SRwDOp::MemClnEvct => 0x2,
        }
    }

    /// The opcode whose nibble is `n`, if any.
    #[verifier::allow_in_spec]
    pub fn from_code(n: u8) -> Option<M2SRwDOp>
        returns
            match n {
                0x0 => Some(M2SRwDOp::MemWr),
                0x1 => Some(M2SRwDOp::MemWrPtl),
                0x2 => Some(M2SRwDOp::MemClnEvct),
                _ => None,
            },
    {
        match n {
            0x0 => Some(M2SRwDOp::MemWr),
            0x1 => Some(M2SRwDOp::MemWrPtl),
            0x2 => Some(M2SRwDOp::MemClnEvct),
            _ => None,
        }
    }
}

/// S2M data-response opcodes.
#[derive(Debug, Clone, Copy, PartialEq, Eq, Structural)]
pub enum S2MDRSOp {
    MemData,
    MemDataNxm,
}

impl S2MDRSOp {
    /// The variant's name.
    #[verifier::allow_in_spec]
    pub fn name(self) -> &'static str
        returns
            match self {
                S2MDRSOp::MemData => "MemData",
                S2MDRSOp::MemDataNxm => "MemDataNxm",
            },
    {
        match self {
            S2MDRSOp::MemData => "MemData",
            S2MDRSOp::MemDataNxm => "MemDataNxm",
        }
    }

    /// The opcode nibble on the wire.
    #[verifier::allow_in_spec]
    pub fn code(self) -> u8
        returns
            match self {
                S2MDRSOp::MemData => 0x0u8,
                S2MDRSOp::MemDataNxm => 0x1u8,
            },
    {
        match self {
            S2MDRSOp::MemData => 0x0,
            S2MDRSOp::MemDataNxm => 0x1,
        }
    }

    /// The opcode whose nibble is `n`, if any.
    #[verifier::allow_in_spec]
    pub fn from_code(n: u8) -> Option<S2MDRSOp>
        returns
            match n {
                0x0 => Some(S2MDRSOp::MemData),
                0x1 => Some(S2MDRSOp::MemDataNxm),
                _ => None,
            },
    {
        match n {
            0x0 => Some(S2MDRSOp::MemData),
            0x1 => Some(S2MDRSOp::MemDataNxm),
            _ => None,
        }
    }
}

/// S2M no-data-response opcodes.
#[derive(Debug, Clone, Copy, PartialEq, Eq, Structural)]
pub enum S2MNDROp {
    Cmp,
    CmpS,
    CmpE,
    CmpI,
    MemPassDirty,
    DispatchFailed,
}

impl S2MNDROp {
    /// The variant's name.
    #[verifier::allow_in_spec]
    pub fn name(self) -> &'static str
        returns
            match self {
                S2MNDROp::Cmp => "Cmp",
                S2MNDROp::CmpS => "CmpS",
                S2MNDROp::CmpE => "CmpE",
                S2MNDROp::CmpI => "CmpI",
                S2MNDROp::MemPassDirty => "MemPassDirty",
                S2MNDROp::DispatchFailed => "DispatchFailed",
            },
    {
        match self {
            S2MNDROp::Cmp => "Cmp",
            S2MNDROp::CmpS => "CmpS",
            S2MNDROp::CmpE => "CmpE",
            S2MNDROp::CmpI => "CmpI",
            S2MNDROp::MemPassDirty => "MemPassDirty",
            S2MNDROp::DispatchFailed => "DispatchFailed",
        }
    }

    /// The opcode nibble on the wire.
    #[verifier::allow_in_spec]
    pub fn code(self) -> u8
        returns
            match self {
                S2MNDROp::Cmp => 0x0u8,
                S2MNDROp::CmpS => 0x1u8,
                S2MNDROp::CmpE => 0x2u8,
                S2MNDROp::CmpI => 0x3u8,
                S2MNDROp::MemPassDirty => 0x4u8,
                S2MNDROp::DispatchFailed => 0xFu8,
            },
    {
        match self {
            S2MNDROp::Cmp => 0x0,
            S2MNDROp::CmpS => 0x1,
            S2MNDROp::CmpE => 0x2,
            S2MNDROp::CmpI => 0x3,
            S2MNDROp::MemPassDirty => 0x4,
            S2MNDROp::DispatchFailed => 0xF,
        }
    }

    /// The opcode whose nibble is `n`, if any.
    #[verifier::allow_in_spec]
    pub fn from_code(n: u8) -> Option<S2MNDROp>
        returns
            match n {
                0x0 => Some(S2MNDROp::Cmp),
                0x1 => Some(S2MNDROp::CmpS),
                0x2 => Some(S2MNDROp::CmpE),
                0x3 => Some(S2MNDROp::CmpI),
                0x4 => Some(S2MNDROp::MemPassDirty),
                0xF => Some(S2MNDROp::DispatchFailed),
                _ => None,
            },
    {
        match n {
            0x0 => Some(S2MNDROp::Cmp),
            0x1 => Some(S2MNDROp::CmpS),
            0x2 => Some(S2MNDROp::CmpE),
            0x3 => Some(S2MNDROp::CmpI),
            0x4 => Some(S2MNDROp::MemPassDirty),
            0xF => Some(S2MNDROp::DispatchFailed),
            _ => None,
        }
    }
}

/// D2H request opcodes.
#[derive(Debug, Clone, Copy, PartialEq, Eq, Structural)]
pub enum D2HReqOp {
    RdShared,
    RdOwn,
    Inval,
}

impl D2HReqOp {
    /// The variant's name.
    #[verifier::allow_in_spec]
    pub fn name(self) -> &'static str
        returns
            match self {
                D2HReqOp::RdShared => "RdShared",
                D2HReqOp::RdOwn => "RdOwn",
                D2HReqOp::Inval => "Inval",
            },
    {
        match self {
            D2HReqOp::RdShared => "RdShared",
            D2HReqOp::RdOwn => "RdOwn",
            D2HReqOp::Inval => "Inval",
        }
    }

    /// The opcode nibble on the wire.
    #[verifier::allow_in_spec]
    pub fn code(self) -> u8
        returns
            match self {
                D2HReqOp::RdShared => 0x0u8,
                D2HReqOp::RdOwn => 0x1u8,
                D2HReqOp::Inval => 0x2u8,
            },
    {
        match self {
            D2HReqOp::RdShared => 0x0,
            D2HReqOp::RdOwn => 0x1,
            D2HReqOp::Inval => 0x2,
        }
    }

    /// The opcode whose nibble is `n`, if any.
    #[verifier::allow_in_spec]
    pub fn from_code(n: u8) -> Option<D2HReqOp>
        returns
            match n {
                0x0 => Some(D2HReqOp::RdShared),
                0x1 => Some(D2HReqOp::RdOwn),
                0x2 => Some(D2HReqOp::Inval),
                _ => None,
            },
    {
        match n {
            0x0 => Some(D2HReqOp::RdShared),
            0x1 => Some(D2HReqOp::RdOwn),
            0x2 => Some(D2HReqOp::Inval),
            _ => None,
        }
    }
}

/// D2H response opcodes.
#[derive(Debug, Clone, Copy, PartialEq, Eq, Structural)]
pub enum D2HRespOp {
    RspIFwdM,
    RspSFwdM,
    RspV,
}

impl D2HRespOp {
    /// The variant's name.
    #[verifier::allow_in_spec]
    pub fn name(self) -> &'static str
        returns
            match self {
                D2HRespOp::RspIFwdM => "RspIFwdM",
                D2HRespOp::RspSFwdM => "RspSFwdM",
                D2HRespOp::RspV => "RspV",
            },
    {
        match self {
            D2HRespOp::RspIFwdM => "RspIFwdM",
            D2HRespOp::RspSFwdM => "RspSFwdM",
            D2HRespOp::RspV => "RspV",
        }
    }

    /// The opcode nibble on the wire.
    #[verifier::allow_in_spec]
    pub fn code(self) -> u8
        returns
            match self {
                D2HRespOp::RspIFwdM => 0x0u8,
                D2HRespOp::RspSFwdM => 0x1u8,
                D2HRespOp::RspV => 0x2u8,
            },
    {
        match self {
            D2HRespOp::RspIFwdM => 0x0,
            D2HRespOp::RspSFwdM => 0x1,
            D2HRespOp::RspV => 0x2,
        }
    }

    /// The opcode whose nibble is `n`, if any.
    #[verifier::allow_in_spec]
    pub fn from_code(n: u8) -> Option<D2HRespOp>
        returns
            match n {
                0x0 => Some(D2HRespOp::RspIFwdM),
                0x1 => Some(D2HRespOp::RspSFwdM),
                0x2 => Some(D2HRespOp::RspV),
                _ => None,
            },
    {
        match n {
            0x0 => Some(D2HRespOp::RspIFwdM),
            0x1 => Some(D2HRespOp::RspSFwdM),
            0x2 => Some(D2HRespOp::RspV),
            _ => None,
        }
    }
}

/// H2D request (snoop) opcodes.
#[derive(Debug, Clone, Copy, PartialEq, Eq, Structural)]
pub enum H2DReqOp {
    SnpData,
    SnpInv,
    SnpCur,
}

impl H2DReqOp {
    /// The variant's name.
    #[verifier::allow_in_spec]
    pub fn name(self) -> &'static str
        returns
            match self {
                H2DReqOp::SnpData => "SnpData",
                H2DReqOp::SnpInv => "SnpInv",
                H2DReqOp::SnpCur => "SnpCur",
            },
    {
        match self {
            H2DReqOp::SnpData => "SnpData",
            H2DReqOp::SnpInv => "SnpInv",
            H2DReqOp::SnpCur => "SnpCur",
        }
    }

    /// The opcode nibble on the wire.
    #[verifier::allow_in_spec]
    pub fn code(self) -> u8
        returns
            match self {
                H2DReqOp::SnpData => 0x0u8,
                H2DReqOp::SnpInv => 0x1u8,
                H2DReqOp::SnpCur => 0x2u8,
            },
    {
        match self {
            H2DReqOp::SnpData => 0x0,
            H2DReqOp::SnpInv => 0x1,
            H2DReqOp::SnpCur => 0x2,
        }
    }

    /// The opcode whose nibble is `n`, if any.
    #[verifier::allow_in_spec]
    pub fn from_code(n: u8) -> Option<H2DReqOp>
        returns
            match n {
                0x0 => Some(H2DReqOp::SnpData),
                0x1 => Some(H2DReqOp::SnpInv),
                0x2 => Some(H2DReqOp::SnpCur),
                _ => None,
            },
    {
        match n {
            0x0 => Some(H2DReqOp::SnpData),
            0x1 => Some(H2DReqOp::SnpInv),
            0x2 => Some(H2DReqOp::SnpCur),
            _ => None,
        }
    }
}

/// H2D response opcodes.
#[derive(Debug, Clone, Copy, PartialEq, Eq, Structural)]
pub enum H2DRespOp {
    GoWritePull,
    GoErr,
    Go,
}

impl H2DRespOp {
    /// The variant's name.
    #[verifier::allow_in_spec]
    pub fn name(self) -> &'static str
        returns
            match self {
                H2DRespOp::GoWritePull => "GoWritePull",
                H2DRespOp::GoErr => "GoErr",
                H2DRespOp::Go => "Go",
            },
    {
        match self {
            H2DRespOp::GoWritePull => "GoWritePull",
            H2DRespOp::GoErr => "GoErr",
            H2DRespOp::Go => "Go",
        }
    }

    /// The opcode nibble on the wire.
    #[verifier::allow_in_spec]
    pub fn code(self) -> u8
        returns
            match self {
                H2DRespOp::GoWritePull => 0x0u8,
                H2DRespOp::GoErr => 0x1u8,
                H2DRespOp::Go => 0x2u8,
            },
    {
        match self {
            H2DRespOp::GoWritePull => 0x0,
            H2DRespOp::GoErr => 0x1,
            H2DRespOp::Go => 0x2,
        }
    }

    /// The opcode whose nibble is `n`, if any.
    #[verifier::allow_in_spec]
    pub fn from_code(n: u8) -> Option<H2DRespOp>
        returns
            match n {
                0x0 => Some(H2DRespOp::GoWritePull),
                0x1 => Some(H2DRespOp::GoErr),
                0x2 => Some(H2DRespOp::Go),
                _ => None,
            },
    {
        match n {
            0x0 => Some(H2DRespOp::GoWritePull),
            0x1 => Some(H2DRespOp::GoErr),
            0x2 => Some(H2DRespOp::Go),
            _ => None,
        }
    }
}


/// A CXL message. The host runtime produces M2SReq and M2SRwD and consumes
/// S2MDRS and S2MNDR; the .cache envelopes are carried for completeness.
#[derive(Debug, Clone, PartialEq, Eq)]
pub enum CxlMsg {
    M2SReq { tag: u16, opcode: M2SReqOp, addr: u64 },
    M2SRwD { tag: u16, opcode: M2SRwDOp, addr: u64, data: [u8; 32] },
    S2MDRS { tag: u16, opcode: S2MDRSOp, data: [u8; 32] },
    S2MNDR { tag: u16, opcode: S2MNDROp },
    D2HReq { tag: u16, opcode: D2HReqOp, addr: u64 },
    D2HResp { tag: u16, opcode: D2HRespOp, data: Option<[u8; 32]> },
    H2DReq { tag: u16, opcode: H2DReqOp, addr: u64 },
    H2DResp { tag: u16, opcode: H2DRespOp },
}

impl CxlMsg {
    /// The class of this message.
    #[verifier::allow_in_spec]
    pub fn class(&self) -> MsgClass
        returns
            match self {
                CxlMsg::M2SReq { .. } => MsgClass::M2SReq,
                CxlMsg::M2SRwD { .. } => MsgClass::M2SRwD,
                CxlMsg::S2MDRS { .. } => MsgClass::S2MDRS,
                CxlMsg::S2MNDR { .. } => MsgClass::S2MNDR,
                CxlMsg::D2HReq { .. } => MsgClass::D2HReq,
                CxlMsg::D2HResp { .. } => MsgClass::D2HResp,
                CxlMsg::H2DReq { .. } => MsgClass::H2DReq,
                CxlMsg::H2DResp { .. } => MsgClass::H2DResp,
            },
    {
        match self {
            CxlMsg::M2SReq { .. } => MsgClass::M2SReq,
            CxlMsg::M2SRwD { .. } => MsgClass::M2SRwD,
            CxlMsg::S2MDRS { .. } => MsgClass::S2MDRS,
            CxlMsg::S2MNDR { .. } => MsgClass::S2MNDR,
            CxlMsg::D2HReq { .. } => MsgClass::D2HReq,
            CxlMsg::D2HResp { .. } => MsgClass::D2HResp,
            CxlMsg::H2DReq { .. } => MsgClass::H2DReq,
            CxlMsg::H2DResp { .. } => MsgClass::H2DResp,
        }
    }

    /// The transaction tag of this message.
    #[verifier::allow_in_spec]
    pub fn tag(&self) -> u16
        returns
            match self {
                CxlMsg::M2SReq { tag, .. } => *tag,
                CxlMsg::M2SRwD { tag, .. } => *tag,
                CxlMsg::S2MDRS { tag, .. } => *tag,
                CxlMsg::S2MNDR { tag, .. } => *tag,
                CxlMsg::D2HReq { tag, .. } => *tag,
                CxlMsg::D2HResp { tag, .. } => *tag,
                CxlMsg::H2DReq { tag, .. } => *tag,
                CxlMsg::H2DResp { tag, .. } => *tag,
            },
    {
        match self {
            CxlMsg::M2SReq { tag, .. } => *tag,
            CxlMsg::M2SRwD { tag, .. } => *tag,
            CxlMsg::S2MDRS { tag, .. } => *tag,
            CxlMsg::S2MNDR { tag, .. } => *tag,
            CxlMsg::D2HReq { tag, .. } => *tag,
            CxlMsg::D2HResp { tag, .. } => *tag,
            CxlMsg::H2DReq { tag, .. } => *tag,
            CxlMsg::H2DResp { tag, .. } => *tag,
        }
    }

    /// The opcode nibble of this message.
    pub open spec fn opcode_code(&self) -> u8 {
        match self {
            CxlMsg::M2SReq { opcode, .. } => opcode.code(),
            CxlMsg::M2SRwD { opcode, .. } => opcode.code(),
            CxlMsg::S2MDRS { opcode, .. } => opcode.code(),
            CxlMsg::S2MNDR { opcode, .. } => opcode.code(),
            CxlMsg::D2HReq { opcode, .. } => opcode.code(),
            CxlMsg::D2HResp { opcode, .. } => opcode.code(),
            CxlMsg::H2DReq { opcode, .. } => opcode.code(),
            CxlMsg::H2DResp { opcode, .. } => opcode.code(),
        }
    }

    /// The address field of this message; classes without one carry 0.
    pub open spec fn addr_field(&self) -> u64 {
        match self {
            CxlMsg::M2SReq { addr, .. } => *addr,
            CxlMsg::M2SRwD { addr, .. } => *addr,
            CxlMsg::D2HReq { addr, .. } => *addr,
            CxlMsg::H2DReq { addr, .. } => *addr,
            _ => 0,
        }
    }

    /// The 32 data bytes of this message; classes without data carry zeros.
    pub open spec fn data_field(&self) -> Seq<u8> {
        match self {
            CxlMsg::M2SRwD { data, .. } => data@,
            CxlMsg::S2MDRS { data, .. } => data@,
            CxlMsg::D2HResp { data: Some(d), .. } => d@,
            _ => Seq::new(32, |i: int| 0u8),
        }
    }
}

} // verus!
