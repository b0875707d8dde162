//! AP control and status word fields.
use vstd::prelude::*;

verus! {

pub const CSW_SIZE: u32 = 0x00000007;      // Access Size: Selection Mask
pub const CSW_SIZE8: u32 = 0x00000000;     // Access Size: 8-bit
pub const CSW_SIZE16: u32 = 0x00000001;    // Access Size: 16-bit
pub const CSW_SIZE32: u32 = 0x00000002;    // Access Size: 32-bit
pub const CSW_ADDRINC: u32 = 0x00000030;   // Auto Address Increment Mask
pub const CSW_NADDRINC: u32 = 0x00000000;  // No Address Increment
pub const CSW_SADDRINC: u32 = 0x00000010;  // Single Address Increment
pub const CSW_PADDRINC: u32 = 0x00000020;  // Packed Address Increment
pub const CSW_DBGSTAT: u32 = 0x00000040;   // Debug Status
pub const CSW_TINPROG: u32 = 0x00000080;   // Transfer in progress
pub const CSW_HPROT: u32 = 0x02000000;     // User/Privilege Control
pub const CSW_MSTRTYPE: u32 = 0x20000000;  // Master Type Mask
pub const CSW_MSTRCORE: u32 = 0x00000000;  // Master Type: Core
pub const CSW_MSTRDBG: u32 = 0x20000000;   // Master Type: Debug
pub const CSW_RESERVED: u32 = 0x01000000;  // Reserved Value

} // verus!
