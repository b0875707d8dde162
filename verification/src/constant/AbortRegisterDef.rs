//! Abort register bits.
use vstd::prelude::*;

verus! {

pub const DAPABORT: u32 = 0x00000001;    // DAP Abort
pub const STKCMPCLR: u32 = 0x00000002;   // Clear STICKYCMP Flag (SW Only)
pub const STKERRCLR: u32 = 0x00000004;   // Clear STICKYERR Flag (SW Only)
pub const WDERRCLR: u32 = 0x00000008;    // Clear WDATAERR Flag (SW Only)
pub const ORUNERRCLR: u32 = 0x00000010;  // Clear STICKYORUN Flag (SW Only)

} // verus!
