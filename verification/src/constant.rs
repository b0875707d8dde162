//! Protocol constants: acknowledge codes, request bits and register maps of
//! the ARM Debug Interface.
use vstd::prelude::*;
use vstd::std_specs::convert::FromSpecImpl;

#[allow(non_snake_case)]
pub mod DpRegister;
#[allow(non_snake_case)]
pub mod Register;
#[allow(non_snake_case)]
pub mod AbortRegisterDef;
#[allow(non_snake_case)]
pub mod DebugSelectRegister;
#[allow(non_snake_case)]
pub mod DebugControlStatusDef;
#[allow(non_snake_case)]
pub mod AccessPortRegisterAddress;
#[allow(non_snake_case)]
pub mod APControlStatusWordDef;
#[allow(non_snake_case)]
pub mod CoreDebugRegisterAdrOffsets;

verus! {

pub const DELAY_SLOW_CYCLES: u32 = 3;

/// How many times a transfer is sent while the target keeps answering WAIT.
pub const MAX_SWD_RETRY: u32 = 10;

pub const MAX_TIMEOUT: u32 = 1000000;

/// The AP control/status word used for memory accesses, without the size field.
pub const CSW_VALUE: u32 = APControlStatusWordDef::CSW_RESERVED | APControlStatusWordDef::CSW_MSTRDBG
    | APControlStatusWordDef::CSW_HPROT | APControlStatusWordDef::CSW_DBGSTAT
    | APControlStatusWordDef::CSW_SADDRINC;

/// The answer of a target to an SWD request, or the verdict on the data it sent.
#[derive(PartialEq, Eq, Structural, Debug, Clone, Copy)]
pub enum DapResponse {
    /// An acknowledge code with no meaning in the protocol.
    DapUnknown(u8),
    DapTransferInvalid,
    DapTransferOk,
    DapTransferWait,
    DapTransferFault,
    DapTransferError,
    DapTransferMismatch,
}

/// The response that an acknowledge code stands for: codes 0, 1, 2, 4, 8 and 16
/// name a response, every other code is unknown.
pub open spec fn response_of_code(value: u8) -> DapResponse {
    if value == 0 {
        DapResponse::DapTransferInvalid
    } else if value == 1 {
        DapResponse::DapTransferOk
    } else if value == 2 {
        DapResponse::DapTransferWait
    } else if value == 4 {
        DapResponse::DapTransferFault
    } else if value == 8 {
        DapResponse::DapTransferError
    } else if value == 16 {
        DapResponse::DapTransferMismatch
    } else {
        DapResponse::DapUnknown(value)
    }
}

/// The code of a response; an unknown response keeps the code it was read with.
pub open spec fn code_of_response(r: DapResponse) -> u8 {
    match r {
        DapResponse::DapUnknown(v) => v,
        DapResponse::DapTransferInvalid => 0,
        DapResponse::DapTransferOk => 1,
        DapResponse::DapTransferWait => 2,
        DapResponse::DapTransferFault => 4,
        DapResponse::DapTransferError => 8,
        DapResponse::DapTransferMismatch => 16,
    }
}

impl From<u8> for DapResponse {
    fn from(value: u8) -> (r: Self) {
        match value {
            0 => DapResponse::DapTransferInvalid,
            1 => DapResponse::DapTransferOk,
            2 => DapResponse::DapTransferWait,
            4 => DapResponse::DapTransferFault,
            8 => DapResponse::DapTransferError,
            16 => DapResponse::DapTransferMismatch,
            val => DapResponse::DapUnknown(val),
        }
    }
}

impl FromSpecImpl<u8> for DapResponse {
    open spec fn obeys_from_spec() -> bool {
        true
    }

    open spec fn from_spec(v: u8) -> DapResponse {
        response_of_code(v)
    }
}

/// Decoding a code and encoding the response gives the code back, for every
/// code; so two different codes never decode to the same response.
pub proof fn lemma_response_code_round_trip(value: u8)
    ensures
        code_of_response(response_of_code(value)) == value,
{
}

/// A response read from a code holds the code it names: encoding a response
/// that did not come from an unknown code and decoding it gives it back.
pub proof fn lemma_response_round_trip(r: DapResponse)
    requires
        !(r matches DapResponse::DapUnknown(v) && (v == 0 || v == 1 || v == 2 || v == 4 || v == 8
            || v == 16)),
    ensures
        response_of_code(code_of_response(r)) == r,
{
}

pub type DapResult = Result<(), DapResponse>;

/// Bits of a transfer request as the CMSIS-DAP interface numbers them.
#[derive(PartialEq, Eq, Structural, Debug, Clone, Copy)]
pub enum DapTransfer {
    ApnDp,
    RnW,
    A2,
    A3,
    MatchValue,
    MatchMask,
}

impl DapTransfer {
    /// The bit that this flag sets in a request.
    pub fn mask(&self) -> (m: u8)
        ensures
            m == transfer_mask(*self),
    {
        match self {
            DapTransfer::ApnDp => 1,
            DapTransfer::RnW => 2,
            DapTransfer::A2 => 4,
            DapTransfer::A3 => 8,
            DapTransfer::MatchValue => 16,
            DapTransfer::MatchMask => 32,
        }
    }
}

/// Flag `k` of the request sets bit `k`.
pub open spec fn transfer_mask(t: DapTransfer) -> u8 {
    match t {
        DapTransfer::ApnDp => 1,
        DapTransfer::RnW => 2,
        DapTransfer::A2 => 4,
        DapTransfer::A3 => 8,
        DapTransfer::MatchValue => 16,
        DapTransfer::MatchMask => 32,
    }
}

} // verus!
