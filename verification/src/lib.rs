//! Serial Wire Debug (SWD) host protocol.
//!
//! The library computes everything the protocol decides: the pin waveform of
//! each SWD primitive, the request/acknowledge/data framing of a transfer, and
//! the command programs of the debug-port driver with their retry and polling
//! rules. Driving real pins is left to the caller, which performs the pin
//! operations handed out here and feeds back the levels it sampled.
pub mod config;
pub mod constant;
pub mod dap;
pub mod error;
pub mod swd_driver;
