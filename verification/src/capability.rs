//! The hardware capabilities the rest of the crate is written against.
//!
//! A board crate implements these for its pins, its serial port and its I2C
//! bus. The methods carry no contract: a device may answer anything, and the
//! callers in this crate are proved for every answer. What a caller asked of
//! its device, and what the device answered, is kept as a ghost record made
//! of the types below; the contracts speak of those records.

use vstd::prelude::*;

verus! {

/// A digital input that can be sampled.
pub trait DigitalInput {
    /// What a failed read reports.
    type Error;

    /// Samples the pin: `true` when it is physically asserted.
    fn read_level(&self) -> Result<bool, Self::Error>;
}

/// A digital output that can be driven to either level.
pub trait DigitalOutput {
    /// What a failed write reports.
    type Error;

    /// Drives the pin to its asserted level.
    fn set_high(&mut self) -> Result<(), Self::Error>;

    /// Drives the pin to its deasserted level.
    fn set_low(&mut self) -> Result<(), Self::Error>;
}

/// A byte-oriented output stream.
pub trait ByteSink {
    /// What a failed write or flush reports.
    type Error;

    /// Hands one byte to the transport, returning once the transport has
    /// either taken it or failed. An implementation over a non-blocking port
    /// retries for as long as the port reports that it is busy.
    fn write_byte(&mut self, byte: u8) -> Result<(), Self::Error>;

    /// Asks the transport to drain whatever it still buffers.
    fn flush(&mut self) -> Result<(), Self::Error>;
}

/// A bus of devices with byte-wide registers.
pub trait RegisterBus {
    /// What a failed transfer reports.
    type Error;

    /// Reads the register `register` of the device at `device`.
    fn read_register(&mut self, device: u8, register: u8) -> Result<u8, Self::Error>;
}

/// One command given to a [`DigitalOutput`], with the pin's answer.
pub struct PinCommand<E> {
    /// The level asked for: `true` for asserted.
    pub high: bool,
    pub answer: Result<(), E>,
}

/// One request made of a [`ByteSink`], with the sink's answer.
pub enum Exchange<E> {
    /// A byte was offered.
    Write { byte: u8, answer: Result<(), E> },
    /// A flush was asked for.
    Flush { answer: Result<(), E> },
}

/// One read asked of a [`RegisterBus`], with the bus's answer.
pub struct RegisterRead<E> {
    pub device: u8,
    pub register: u8,
    pub answer: Result<u8, E>,
}

/// An answer that carries nothing and is no error is `Ok(())`.
pub proof fn lemma_bare_ok<E>(answer: Result<(), E>)
    ensures
        answer is Ok ==> answer == Ok::<(), E>(()),
{
    match answer {
        Ok(nothing) => {
            assert(nothing == ());
        },
        Err(_) => {},
    }
}

} // verus!
