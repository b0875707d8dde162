//! Debug port SELECT register fields.
use vstd::prelude::*;

verus! {

pub const CTRLSEL: u32 = 0x00000001;    // CTRLSEL (SW Only)
pub const APBANKSEL: u32 = 0x000000F0;  // APBANKSEL Mask
pub const APSEL: u32 = 0xFF000000;      // APSEL Mask

} // verus!
