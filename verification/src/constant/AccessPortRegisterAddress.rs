//! Access port register addresses.
use vstd::prelude::*;

verus! {

pub const AP_CSW: u8 = 0x00;  // Control and Status Word
pub const AP_TAR: u8 = 0x04;  // Transfer Address
pub const AP_DRW: u8 = 0x0C;  // Data Read/Write
pub const AP_BD0: u8 = 0x10;  // Banked Data 0
pub const AP_BD1: u8 = 0x14;  // Banked Data 1
pub const AP_BD2: u8 = 0x18;  // Banked Data 2
pub const AP_BD3: u8 = 0x1C;  // Banked Data 3
pub const AP_ROM: u8 = 0xF8;  // Debug ROM Address
pub const AP_IDR: u8 = 0xFC;  // Identification Register

} // verus!
