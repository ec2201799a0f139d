//! Board support glue whose decisions are proved: a push-button debouncer,
//! an LED, a severity-filtered serial logger and the identification of a
//! CS43L22 audio codec.
//!
//! The hardware is reached through the small traits of [`capability`]. None of
//! them promises anything. Each type of this crate keeps a ghost record of
//! what it asked of its device and what the device answered, and every
//! contract says what the code did with those answers, whatever they were.
//!
//! The rules themselves are plain mathematics: [`debounce`] holds the
//! debouncing rule and what follows from it for whole sequences of samples,
//! [`line`] holds the form of a line on the wire and what a sink ends up
//! holding.

pub mod audio;
pub mod button;
pub mod capability;
pub mod cs43l22;
pub mod debounce;
pub mod led;
pub mod line;
pub mod serial_log;

pub use audio::PeripheralClock;
pub use button::{Button, Event, Event as ButtonEvent, SignalState, SWITCH_THRESHOLD};
pub use capability::{
    ByteSink, DigitalInput, DigitalOutput, Exchange, PinCommand, RegisterBus, RegisterRead,
};
pub use debounce::Debounce;
pub use led::Led;
pub use serial_log::{Level, SerialLogger};
