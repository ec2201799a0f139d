//! An LED on a digital output.

use vstd::prelude::*;
use crate::capability::{DigitalOutput, PinCommand};

verus! {

/// An LED that is lit while its pin is asserted.
pub struct Led<PinT: DigitalOutput> {
    pin: PinT,
    commands: Ghost<Seq<PinCommand<PinT::Error>>>,
}

impl<T: DigitalOutput> View for Led<T> {
    type V = Seq<PinCommand<T::Error>>;

    /// Every command the LED has given its pin, oldest first.
    closed spec fn view(&self) -> Seq<PinCommand<T::Error>> {
        self.commands@
    }
}

impl<T: DigitalOutput> Led<T> {
    /// An LED on `pin`, which has not been commanded yet.
    pub fn new(pin: T) -> (led: Led<T>)
        ensures
            led@ == Seq::<PinCommand<T::Error>>::empty(),
    {
        Led { pin, commands: Ghost(Seq::empty()) }
    }

    /// Asserts the pin once and hands back the pin's answer.
    pub fn on(&mut self) -> (r: Result<(), T::Error>)
        ensures
            final(self)@ == old(self)@.push(PinCommand { high: true, answer: r }),
    {
        let r = self.pin.set_high();
        self.commands = Ghost(self.commands@.push(PinCommand { high: true, answer: r }));
        r
    }

    /// Deasserts the pin once and hands back the pin's answer.
    pub fn off(&mut self) -> (r: Result<(), T::Error>)
        ensures
            final(self)@ == old(self)@.push(PinCommand { high: false, answer: r }),
    {
        let r = self.pin.set_low();
        self.commands = Ghost(self.commands@.push(PinCommand { high: false, answer: r }));
        r
    }
}

} // verus!
