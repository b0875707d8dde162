//! Debug port CTRL/STAT register bits.
use vstd::prelude::*;

verus! {

pub const ORUNDETECT: u32 = 0x00000001;    // Overrun Detect
pub const STICKYORUN: u32 = 0x00000002;    // Sticky Overrun
pub const TRNMODE: u32 = 0x0000000C;       // Transfer Mode Mask
pub const TRNNORMAL: u32 = 0x00000000;     // Transfer Mode: Normal
pub const TRNVERIFY: u32 = 0x00000004;     // Transfer Mode: Pushed Verify
pub const TRNCOMPARE: u32 = 0x00000008;    // Transfer Mode: Pushed Compare
pub const STICKYCMP: u32 = 0x00000010;     // Sticky Compare
pub const STICKYERR: u32 = 0x00000020;     // Sticky Error
pub const READOK: u32 = 0x00000040;        // Read OK (SW Only)
pub const WDATAERR: u32 = 0x00000080;      // Write Data Error (SW Only)
pub const MASKLANE: u32 = 0x00000F00;      // Mask Lane Mask
pub const MASKLANE0: u32 = 0x00000100;     // Mask Lane 0
pub const MASKLANE1: u32 = 0x00000200;     // Mask Lane 1
pub const MASKLANE2: u32 = 0x00000400;     // Mask Lane 2
pub const MASKLANE3: u32 = 0x00000800;     // Mask Lane 3
pub const TRNCNT: u32 = 0x001FF000;        // Transaction Counter Mask
pub const CDBGRSTREQ: u32 = 0x04000000;    // Debug Reset Request
pub const CDBGRSTACK: u32 = 0x08000000;    // Debug Reset Acknowledge
pub const CDBGPWRUPREQ: u32 = 0x10000000;  // Debug Power-up Request
pub const CDBGPWRUPACK: u32 = 0x20000000;  // Debug Power-up Acknowledge
pub const CSYSPWRUPREQ: u32 = 0x40000000;  // System Power-up Request
pub const CSYSPWRUPACK: u32 = 0x80000000;  // System Power-up Acknowledge

} // verus!
