//! Units and fixed constants shared by the analysis stages.
//!
//! Frequencies are held in millihertz as unsigned integers, so that every
//! comparison the analysis makes is exact.

use vstd::prelude::*;

verus! {

/// Millihertz in one hertz.
pub const MILLI: u64 = 1000;

/// Lower edge of the detectable window, in hertz.
pub const LOWEST_DETECTABLE_HZ: u64 = 70;

/// Upper edge of the detectable window, in hertz.
pub const HIGHEST_DETECTABLE_HZ: u64 = 1000;

/// Whether a frequency in millihertz lies inside the detectable window.
pub open spec fn detectable(freq_mhz: int) -> bool {
    LOWEST_DETECTABLE_HZ * MILLI <= freq_mhz <= HIGHEST_DETECTABLE_HZ * MILLI
}

} // verus!
