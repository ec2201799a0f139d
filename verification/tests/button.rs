use rusty::{Button, ButtonEvent, DigitalInput, Event, SWITCH_THRESHOLD};
use std::cell::{Cell, RefCell};
use std::collections::VecDeque;
use std::rc::Rc;

/// An input that replays a script of readings, one per read, and counts the
/// reads.
struct ScriptedPin {
    readings: RefCell<VecDeque<Result<bool, u8>>>,
    reads: Rc<Cell<usize>>,
}

impl ScriptedPin {
    fn new(readings: &[Result<bool, u8>]) -> ScriptedPin {
        ScriptedPin {
            readings: RefCell::new(readings.iter().cloned().collect()),
            reads: Rc::new(Cell::new(0)),
        }
    }
}

impl DigitalInput for ScriptedPin {
    type Error = u8;

    fn read_level(&self) -> Result<bool, u8> {
        self.reads.set(self.reads.get() + 1);
        self.readings.borrow_mut().pop_front().expect("the script ran out of readings")
    }
}

const HIGH: Result<bool, u8> = Ok(true);
const LOW: Result<bool, u8> = Ok(false);

fn poll_all(button: &mut Button<ScriptedPin>, count: usize) -> Vec<Result<Event, u8>> {
    (0..count).map(|_| button.poll()).collect()
}

fn idle(count: usize) -> Vec<Result<Event, u8>> {
    vec![Ok(Event::Idle); count]
}

#[test]
fn threshold_is_five_samples() {
    assert_eq!(SWITCH_THRESHOLD, 5);
}

#[test]
fn new_button_is_settled_high() {
    let button = Button::new(ScriptedPin::new(&[]));
    assert!(button.is_down());
    assert!(!button.is_up());
}

#[test]
fn fifth_consecutive_low_reports_up() {
    let script = [HIGH, HIGH, LOW, LOW, LOW, LOW, LOW];
    let mut button = Button::new(ScriptedPin::new(&script));
    let events = poll_all(&mut button, script.len());
    let mut expected = idle(6);
    expected.push(Ok(Event::Up));
    assert_eq!(events, expected);
    assert!(button.is_up());
    assert!(!button.is_down());
}

#[test]
fn single_high_restarts_the_count() {
    let script = [LOW, LOW, LOW, LOW, HIGH, LOW, LOW, LOW, LOW, LOW];
    let mut button = Button::new(ScriptedPin::new(&script));
    let events = poll_all(&mut button, script.len());
    let mut expected = idle(9);
    expected.push(Ok(Event::Up));
    assert_eq!(events, expected);
    assert_eq!(events[8], Ok(Event::Idle));
    assert_eq!(events[9], Ok(Event::Up));
}

#[test]
fn four_contrary_samples_then_agreement_report_nothing() {
    let script = [LOW, LOW, LOW, LOW, HIGH];
    let mut button = Button::new(ScriptedPin::new(&script));
    assert_eq!(poll_all(&mut button, script.len()), idle(5));
    assert!(button.is_down());
    // The run was forgotten: it takes five more contrary samples, not one.
    for _ in 0..4 {
        assert_eq!(button.sample(false), Event::Idle);
    }
    assert_eq!(button.sample(false), Event::Up);
}

#[test]
fn first_event_is_up() {
    let mut button = Button::new(ScriptedPin::new(&[LOW; 5]));
    let events = poll_all(&mut button, 5);
    let first = events.iter().find(|event| **event != Ok(Event::Idle));
    assert_eq!(first, Some(&Ok(Event::Up)));
}

#[test]
fn high_samples_on_a_fresh_button_never_report() {
    let mut button = Button::new(ScriptedPin::new(&[HIGH; 12]));
    assert_eq!(poll_all(&mut button, 12), idle(12));
    assert!(button.is_down());
}

#[test]
fn events_alternate_between_up_and_down() {
    let mut button = Button::new(ScriptedPin::new(&[]));
    let mut events = Vec::new();
    for level in [false; 5].into_iter().chain([true; 5]).chain([false; 5]) {
        events.push(button.sample(level));
    }
    let reported: Vec<(usize, Event)> =
        events.into_iter().enumerate().filter(|(_, event)| *event != Event::Idle).collect();
    assert_eq!(reported, vec![(4, Event::Up), (9, Event::Down), (14, Event::Up)]);
    assert!(button.is_up());
}

#[test]
fn a_run_longer_than_the_threshold_reports_once() {
    let mut button = Button::new(ScriptedPin::new(&[]));
    let events: Vec<Event> = (0..9).map(|_| button.sample(false)).collect();
    let mut expected = vec![Event::Idle; 9];
    expected[4] = Event::Up;
    assert_eq!(events, expected);
}

#[test]
fn down_is_reported_on_the_fifth_high_after_settling_low() {
    let mut button = Button::new(ScriptedPin::new(&[]));
    for _ in 0..5 {
        button.sample(false);
    }
    assert!(button.is_up());
    let events: Vec<Event> = [true, true, false, true, true, true, true, true]
        .into_iter()
        .map(|level| button.sample(level))
        .collect();
    let mut expected = vec![Event::Idle; 8];
    expected[7] = Event::Down;
    assert_eq!(events, expected);
    assert!(button.is_down());
}

#[test]
fn failed_read_is_handed_back_and_changes_nothing() {
    let script = [LOW, LOW, Err(7), LOW, LOW, LOW];
    let mut button = Button::new(ScriptedPin::new(&script));
    let events = poll_all(&mut button, script.len());
    assert_eq!(
        events,
        vec![
            Ok(Event::Idle),
            Ok(Event::Idle),
            Err(7),
            Ok(Event::Idle),
            Ok(Event::Idle),
            Ok(Event::Up),
        ]
    );
}

#[test]
fn failed_read_keeps_the_settled_level() {
    let mut button = Button::new(ScriptedPin::new(&[Err(1), Err(2)]));
    assert_eq!(button.poll(), Err(1));
    assert!(button.is_down());
    assert_eq!(button.poll(), Err(2));
    assert!(button.is_down());
}

#[test]
fn poll_reads_the_pin_once() {
    let pin = ScriptedPin::new(&[HIGH, LOW, Err(3)]);
    let reads = pin.reads.clone();
    let mut button = Button::new(pin);
    button.poll().unwrap();
    assert_eq!(reads.get(), 1);
    button.poll().unwrap();
    assert_eq!(reads.get(), 2);
    button.poll().unwrap_err();
    assert_eq!(reads.get(), 3);
}

#[test]
fn queries_do_not_read_the_pin() {
    let pin = ScriptedPin::new(&[]);
    let reads = pin.reads.clone();
    let button = Button::new(pin);
    assert!(button.is_down());
    assert!(!button.is_up());
    assert_eq!(reads.get(), 0);
}

#[test]
fn sample_and_poll_agree() {
    let levels = [false, false, true, false, false, false, false, false, true, true];
    let script: Vec<Result<bool, u8>> = levels.iter().map(|level| Ok(*level)).collect();
    let mut polled = Button::new(ScriptedPin::new(&script));
    let mut sampled = Button::new(ScriptedPin::new(&[]));
    for level in levels {
        assert_eq!(polled.poll(), Ok(sampled.sample(level)));
        assert_eq!(polled.is_up(), sampled.is_up());
    }
}

#[test]
fn button_event_is_the_event_type() {
    let event: ButtonEvent = Event::Down;
    assert_eq!(event, Event::Down);
    assert_ne!(event, Event::Up);
    assert_ne!(event, Event::Idle);
}
