//! The peripheral clocks of the audio path.

use vstd::prelude::*;

verus! {

/// A clock of the audio path, named by its bit in the peripheral-clock
/// selection word.
pub enum PeripheralClock {
    I2S,
    RealTime,
    PLLI2S,
}

impl PeripheralClock {
    /// The bit that selects the clock.
    pub open spec fn mask(self) -> u32 {
        match self {
            PeripheralClock::I2S => 0x0000_0001,
            PeripheralClock::RealTime => 0x0000_0002,
            PeripheralClock::PLLI2S => 0x0000_0004,
        }
    }

    /// The bit that selects the clock.
    pub fn bits(self) -> (bits: u32)
        ensures
            bits == self.mask(),
    {
        match self {
            PeripheralClock::I2S => 0x0000_0001,
            PeripheralClock::RealTime => 0x0000_0002,
            PeripheralClock::PLLI2S => 0x0000_0004,
        }
    }
}

} // verus!
