//! Telemetry samples.

use vstd::prelude::*;
use crate::time::Timestamp;

verus! {

/// One telemetry reading.
///
/// The irradiance is carried as the 64-bit pattern of its binary
/// representation in kW/m^2. Nothing in this crate computes with it: a
/// measured value passes through unchanged, and a placeholder carries the
/// all-zero pattern, which is the value zero.
#[derive(Clone, Copy, Debug, PartialEq, Eq, Structural)]
pub struct Sample {
    pub timestamp: Timestamp,
    pub irradiance_bits: u64,
}

/// The bit pattern of an irradiance of zero.
pub const ZERO_IRRADIANCE_BITS: u64 = 0;

impl Sample {
    /// The placeholder that stands for an unmonitored second: zero irradiance
    /// at the whole second `secs`.
    pub open spec fn placeholder(secs: int) -> Sample {
        Sample { timestamp: Timestamp::at_second(secs), irradiance_bits: 0 }
    }

    /// The sample taken at `timestamp` with the irradiance pattern
    /// `irradiance_bits`.
    pub fn new(timestamp: Timestamp, irradiance_bits: u64) -> (s: Sample)
        ensures
            s == (Sample { timestamp, irradiance_bits }),
    {
        Sample { timestamp, irradiance_bits }
    }

    /// Makes the placeholder sample for the reading `timestamp`.
    pub fn synthetic(timestamp: Timestamp) -> (s: Sample)
        ensures
            s == (Sample { timestamp, irradiance_bits: 0 }),
    {
        Sample { timestamp, irradiance_bits: ZERO_IRRADIANCE_BITS }
    }

    /// Whether this sample carries the zero pattern, as every placeholder does.
    pub fn is_zero(&self) -> (r: bool)
        ensures
            r == (self.irradiance_bits == 0),
    {
        self.irradiance_bits == ZERO_IRRADIANCE_BITS
    }
}

} // verus!
