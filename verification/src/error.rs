use vstd::prelude::*;

use crate::constant::DapResponse;

verus! {

/// What can go wrong on an SWD link.
#[derive(Debug)]
pub enum SwdError<PinError> {
    /// The target answered a transfer with something other than OK, or the
    /// data it sent failed the parity check.
    DapResponse(DapResponse),
    /// Driving or sampling a pin failed.
    PinError(PinError),
    /// The arguments of the call cannot be sent (an empty block).
    IncorrectParams,
}

} // verus!
