use rusty::{DigitalOutput, Led};
use std::cell::RefCell;
use std::rc::Rc;

/// An output that records the levels it is driven to and fails on request.
struct RecordingPin {
    driven: Rc<RefCell<Vec<bool>>>,
    fail_with: Option<u8>,
}

impl DigitalOutput for RecordingPin {
    type Error = u8;

    fn set_high(&mut self) -> Result<(), u8> {
        self.driven.borrow_mut().push(true);
        match self.fail_with {
            Some(code) => Err(code),
            None => Ok(()),
        }
    }

    fn set_low(&mut self) -> Result<(), u8> {
        self.driven.borrow_mut().push(false);
        match self.fail_with {
            Some(code) => Err(code),
            None => Ok(()),
        }
    }
}

#[test]
fn new_led_leaves_the_pin_alone() {
    let driven = Rc::new(RefCell::new(Vec::new()));
    let _led = Led::new(RecordingPin { driven: driven.clone(), fail_with: None });
    assert!(driven.borrow().is_empty());
}

#[test]
fn on_asserts_the_pin_once() {
    let driven = Rc::new(RefCell::new(Vec::new()));
    let mut led = Led::new(RecordingPin { driven: driven.clone(), fail_with: None });
    assert_eq!(led.on(), Ok(()));
    assert_eq!(*driven.borrow(), vec![true]);
}

#[test]
fn off_deasserts_the_pin_once() {
    let driven = Rc::new(RefCell::new(Vec::new()));
    let mut led = Led::new(RecordingPin { driven: driven.clone(), fail_with: None });
    assert_eq!(led.off(), Ok(()));
    assert_eq!(*driven.borrow(), vec![false]);
}

#[test]
fn commands_reach_the_pin_in_order() {
    let driven = Rc::new(RefCell::new(Vec::new()));
    let mut led = Led::new(RecordingPin { driven: driven.clone(), fail_with: None });
    led.on().unwrap();
    led.off().unwrap();
    led.off().unwrap();
    led.on().unwrap();
    assert_eq!(*driven.borrow(), vec![true, false, false, true]);
}

#[test]
fn pin_failure_is_handed_back() {
    let driven = Rc::new(RefCell::new(Vec::new()));
    let mut led = Led::new(RecordingPin { driven: driven.clone(), fail_with: Some(9) });
    assert_eq!(led.on(), Err(9));
    assert_eq!(led.off(), Err(9));
    assert_eq!(*driven.borrow(), vec![true, false]);
}
