use vstd::prelude::*;

verus! {

/// Timing and framing parameters of an SWD link.
#[derive(Clone, Copy, Debug, PartialEq, Eq)]
pub struct SwdConfig {
    /// Clock speed of the host CPU, in MHz.
    pub clock_speed_mhz: u32,
    /// Number of turnaround clock cycles between host and target driving SWDIO.
    pub turnaround: u32,
    /// Number of idle clock cycles after a successful data phase.
    pub idle_cycles: u32,
    /// Wanted SWCLK frequency, in kHz.
    pub target_speed_khz: u32,
}

impl Default for SwdConfig {
    fn default() -> (c: Self)
        ensures
            c.clock_speed_mhz == 160,
            c.turnaround == 1,
            c.idle_cycles == 0,
            c.target_speed_khz == 4000,
    {
        Self { clock_speed_mhz: 160, turnaround: 1, idle_cycles: 0, target_speed_khz: 4000 }
    }
}

} // verus!
