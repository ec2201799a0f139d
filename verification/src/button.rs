//! A push-button debouncer that counts consecutive contrary samples.

use vstd::prelude::*;
use crate::capability::DigitalInput;
use crate::debounce::{lemma_fed_one_more, Debounce};

verus! {

/// What one poll of a [`Button`] reports.
#[derive(Copy, Clone, Debug, PartialEq, Eq, Structural)]
pub enum Event {
    /// The settled level did not change.
    Idle,
    /// The button settled from [`SignalState::High`] to [`SignalState::Low`].
    Up,
    /// The button settled from [`SignalState::Low`] to [`SignalState::High`].
    Down,
}

/// A settled belief about the level of the input.
#[derive(Copy, Clone, Debug, PartialEq, Eq, Structural)]
pub enum SignalState {
    Low,
    High,
}

/// How many consecutive contrary samples it takes to change the settled level.
pub const SWITCH_THRESHOLD: u8 = 5;

/// The settled level and the count of contrary samples, with the samples
/// that led to them.
struct Settling {
    state: SignalState,
    contra_count: u8,
    samples: Ghost<Seq<bool>>,
}

impl Settling {
    #[verifier::type_invariant]
    spec fn follows_samples(self) -> bool {
        &&& self.contra_count < SWITCH_THRESHOLD
        &&& self.model() == Debounce::initial().after(self.samples@)
    }

    spec fn model(self) -> Debounce {
        Debounce { settled: self.state, run: self.contra_count as nat }
    }
}

/// A debounced push-button on a digital input.
pub struct Button<InputType: DigitalInput> {
    pin: InputType,
    settling: Settling,
    readings: Ghost<Seq<Result<bool, InputType::Error>>>,
}

impl<T: DigitalInput> View for Button<T> {
    type V = Debounce;

    closed spec fn view(&self) -> Debounce {
        self.settling.model()
    }
}

impl<T: DigitalInput> Button<T> {
    /// The input that the button samples.
    pub closed spec fn pin(self) -> T {
        self.pin
    }

    /// Every answer the input has given to a poll, oldest first.
    pub closed spec fn readings(self) -> Seq<Result<bool, T::Error>> {
        self.readings@
    }

    /// Every sample the debouncer has been fed, oldest first.
    pub closed spec fn samples(self) -> Seq<bool> {
        self.settling.samples@
    }

    /// Whether the button is what its samples make of a fresh debouncer.
    /// Every button is, at all times.
    pub open spec fn follows_samples(self) -> bool {
        &&& self@.wf()
        &&& self@ == Debounce::initial().after(self.samples())
    }

    /// A button on `pin`, settled `High` with no sample seen.
    pub fn new(pin: T) -> (button: Button<T>)
        ensures
            button@ == Debounce::initial(),
            button.pin() == pin,
            button.readings() == Seq::<Result<bool, T::Error>>::empty(),
            button.samples() == Seq::<bool>::empty(),
    {
        Button {
            pin,
            settling: Settling {
                state: SignalState::High,
                contra_count: 0,
                samples: Ghost(Seq::empty()),
            },
            readings: Ghost(Seq::empty()),
        }
    }

    /// Feeds one sample of the input to the debouncer.
    pub fn sample(&mut self, level: bool) -> (event: Event)
        ensures
            (final(self)@, event) == old(self)@.step(level),
            final(self).samples() == old(self).samples().push(level),
            event == Debounce::initial().event(
                final(self).samples(),
                old(self).samples().len() as int,
            ),
            old(self).follows_samples(),
            final(self).follows_samples(),
            final(self).pin() == old(self).pin(),
            final(self).readings() == old(self).readings(),
    {
        proof {
            use_type_invariant(&self.settling);
            lemma_fed_one_more(Debounce::initial(), self.settling.samples@, level);
        }
        let state = self.settling.state;
        let contra: u8 = match (state, level) {
            (SignalState::High, true) => 0,
            (SignalState::High, false) => self.settling.contra_count + 1,
            (SignalState::Low, false) => 0,
            (SignalState::Low, true) => self.settling.contra_count + 1,
        };
        let (state, contra_count, event) = match state {
            SignalState::High if contra >= SWITCH_THRESHOLD => (SignalState::Low, 0, Event::Up),
            SignalState::Low if contra >= SWITCH_THRESHOLD => (SignalState::High, 0, Event::Down),
            _ => (state, contra, Event::Idle),
        };
        self.settling = Settling {
            state,
            contra_count,
            samples: Ghost(self.settling.samples@.push(level)),
        };
        event
    }

    /// Reads the input once and feeds the sample to the debouncer. A read
    /// that fails is handed back as it came and leaves the debouncer as it
    /// was.
    pub fn poll(&mut self) -> (r: Result<Event, T::Error>)
        ensures
            final(self).readings().len() == old(self).readings().len() + 1,
            final(self).readings().drop_last() == old(self).readings(),
            (final(self)@, r) == old(self)@.hear(final(self).readings().last()),
            final(self).samples() == match final(self).readings().last() {
                Ok(level) => old(self).samples().push(level),
                Err(_) => old(self).samples(),
            },
            r matches Ok(event) ==> event == Debounce::initial().event(
                final(self).samples(),
                old(self).samples().len() as int,
            ),
            old(self).follows_samples(),
            final(self).follows_samples(),
            final(self).pin() == old(self).pin(),
    {
        proof {
            use_type_invariant(&self.settling);
        }
        let reading = self.pin.read_level();
        self.readings = Ghost(self.readings@.push(reading));
        assert(self.readings().drop_last() == old(self).readings());
        match reading {
            Ok(pin_is_high) => Ok(self.sample(pin_is_high)),
            Err(e) => Err(e),
        }
    }

    /// Whether the button is settled `Low`.
    pub fn is_up(&self) -> (up: bool)
        ensures
            up == (self@.settled == SignalState::Low),
    {
        self.settling.state == SignalState::Low
    }

    /// Whether the button is settled `High`.
    pub fn is_down(&self) -> (down: bool)
        ensures
            down == (self@.settled == SignalState::High),
    {
        self.settling.state == SignalState::High
    }
}

} // verus!
