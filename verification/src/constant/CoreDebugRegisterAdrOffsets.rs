//! Core debug register offsets.
use vstd::prelude::*;

verus! {

pub const DBG_OFS: u32 = 0x0DF0;       // Debug Register Offset inside NVIC
pub const DBG_HCSR_OFS: u32 = 0x00;    // Debug Halting Control & Status Register
pub const DBG_CRSR_OFS: u32 = 0x04;    // Debug Core Register Selector Register
pub const DBG_CRDR_OFS: u32 = 0x08;    // Debug Core Register Data Register
pub const DBG_EMCR_OFS: u32 = 0x0C;    // Debug Exception & Monitor Control Register

} // verus!
