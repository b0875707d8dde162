//! Debug port register addresses.
use vstd::prelude::*;

verus! {

pub const IDCODE: u8 = 0x00;     // IDCODE Register (SW Read only)
pub const ABORT: u8 = 0x00;      // Abort Register (SW Write only)
pub const CTRL_STAT: u8 = 0x04;  // Control & Status
pub const WCR: u8 = 0x04;        // Wire Control Register (SW Only)
pub const SELECT: u8 = 0x08;     // Select Register (JTAG R/W & SW W)
pub const RESEND: u8 = 0x08;     // Resend (SW Read Only)
pub const RDBUFF: u8 = 0x0C;     // Read Buffer (Read Only)

} // verus!
