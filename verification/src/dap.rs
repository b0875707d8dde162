//! The SW-DP wire layer.
pub mod sw_dp;
