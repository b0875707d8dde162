//! Fields of an SWD request byte.
use vstd::prelude::*;

verus! {

/// Access port (APnDP set).
pub const AP: u8 = 1;
/// Debug port (APnDP clear).
pub const DP: u8 = 0;
/// Read (RnW set).
pub const R: u8 = 2;
/// Write (RnW clear).
pub const W: u8 = 0;

/// The address bits A[3:2] of a register address, in their place in a request.
#[allow(non_snake_case)]
pub fn ADR(a: u8) -> (r: u8)
    ensures
        r == a & 0x0C,
{
    a & 0x0C
}

} // verus!
