use vstd::prelude::*;
use crate::errors::ParseError;

verus! {

/// The kernel's program types, in the kernel's numbering.
#[derive(Debug, Clone, Copy, PartialEq, Eq, Hash, Structural)]
pub enum ProgramType {
    Unspec,
    SocketFilter,
    Probe,
    Tc,
    SchedAct,
    Tracepoint,
    Xdp,
    PerfEvent,
    CgroupSkb,
    CgroupSock,
    LwtIn,
    LwtOut,
    LwtXmit,
    SockOps,
    SkSkb,
    CgroupDevice,
    SkMsg,
    RawTracepoint,
    CgroupSockAddr,
    LwtSeg6Local,
    LircMode2,
    SkReuseport,
    FlowDissector,
    CgroupSysctl,
    RawTracepointWritable,
    CgroupSockopt,
    Tracing,
    StructOps,
    Ext,
    Lsm,
    SkLookup,
    Syscall,
}

/// The number of program types the kernel defines.
pub const PROGRAM_TYPE_COUNT: u32 = 32;

impl ProgramType {
    /// The kernel's number for this type.
    pub open spec fn code(self) -> u32 {
        match self {
            ProgramType::Unspec => 0,
            ProgramType::SocketFilter => 1,
            ProgramType::Probe => 2,
            ProgramType::Tc => 3,
            ProgramType::SchedAct => 4,
            ProgramType::Tracepoint => 5,
            ProgramType::Xdp => 6,
            ProgramType::PerfEvent => 7,
            ProgramType::CgroupSkb => 8,
            ProgramType::CgroupSock => 9,
            ProgramType::LwtIn => 10,
            ProgramType::LwtOut => 11,
            ProgramType::LwtXmit => 12,
            ProgramType::SockOps => 13,
            ProgramType::SkSkb => 14,
            ProgramType::CgroupDevice => 15,
            ProgramType::SkMsg => 16,
            ProgramType::RawTracepoint => 17,
            ProgramType::CgroupSockAddr => 18,
            ProgramType::LwtSeg6Local => 19,
            ProgramType::LircMode2 => 20,
            ProgramType::SkReuseport => 21,
            ProgramType::FlowDissector => 22,
            ProgramType::CgroupSysctl => 23,
            ProgramType::RawTracepointWritable => 24,
            ProgramType::CgroupSockopt => 25,
            ProgramType::Tracing => 26,
            ProgramType::StructOps => 27,
            ProgramType::Ext => 28,
            ProgramType::Lsm => 29,
            ProgramType::SkLookup => 30,
            ProgramType::Syscall => 31,
        }
    }

    /// Maps a kernel type number to its type; numbers past the last are rejected.
    pub fn try_from(value: u32) -> (r: Result<ProgramType, ParseError>)
        ensures
            value < PROGRAM_TYPE_COUNT ==> (r matches Ok(t) && t.code() == value),
            value >= PROGRAM_TYPE_COUNT ==> (r matches Err(ParseError::InvalidProgramType { program }) && program == value),
    {
        match value {
            0 => Ok(ProgramType::Unspec),
            1 => Ok(ProgramType::SocketFilter),
            2 => Ok(ProgramType::Probe),
            3 => Ok(ProgramType::Tc),
            4 => Ok(ProgramType::SchedAct),
            5 => Ok(ProgramType::Tracepoint),
            6 => Ok(ProgramType::Xdp),
            7 => Ok(ProgramType::PerfEvent),
            8 => Ok(ProgramType::CgroupSkb),
            9 => Ok(ProgramType::CgroupSock),
            10 => Ok(ProgramType::LwtIn),
            11 => Ok(ProgramType::LwtOut),
            12 => Ok(ProgramType::LwtXmit),
            13 => Ok(ProgramType::SockOps),
            14 => Ok(ProgramType::SkSkb),
            15 => Ok(ProgramType::CgroupDevice),
            16 => Ok(ProgramType::SkMsg),
            17 => Ok(ProgramType::RawTracepoint),
            18 => Ok(ProgramType::CgroupSockAddr),
            19 => Ok(ProgramType::LwtSeg6Local),
            20 => Ok(ProgramType::LircMode2),
            21 => Ok(ProgramType::SkReuseport),
            22 => Ok(ProgramType::FlowDissector),
            23 => Ok(ProgramType::CgroupSysctl),
            24 => Ok(ProgramType::RawTracepointWritable),
            25 => Ok(ProgramType::CgroupSockopt),
            26 => Ok(ProgramType::Tracing),
            27 => Ok(ProgramType::StructOps),
            28 => Ok(ProgramType::Ext),
            29 => Ok(ProgramType::Lsm),
            30 => Ok(ProgramType::SkLookup),
            31 => Ok(ProgramType::Syscall),
            _ => Err(ParseError::InvalidProgramType { program: value }),
        }
    }
}

} // verus!
