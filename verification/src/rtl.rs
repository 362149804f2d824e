//! Radio configuration for Mode-S reception.  Opening the tuner and
//! reading from it are the driver's business, outside this library;
//! the fixed settings it must be given are stated here.

use vstd::prelude::*;

verus! {

/// Tuner settings: device index, sample rate in Hz, centre frequency
/// in Hz, and frequency correction in ppm.
pub struct RadioConfig {
    pub device_index: u8,
    pub sample_rate: u32,
    pub center_freq: u32,
    pub ppm: i32,
}

impl RadioConfig {
    /// The fixed Mode-S configuration: 2 MSPS at 1090 MHz with no
    /// frequency correction.
    pub fn mode_s(device_index: u8) -> (c: RadioConfig)
        ensures
            c.device_index == device_index,
            c.sample_rate == 2_000_000,
            c.center_freq == 1_090_000_000,
            c.ppm == 0,
    {
        RadioConfig { device_index, sample_rate: 2_000_000, center_freq: 1_090_000_000, ppm: 0 }
    }
}

} // verus!
