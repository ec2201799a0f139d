use rusty::cs43l22::{identify_chip, Driver, DriverError, Register, Revision};
use rusty::{DigitalOutput, RegisterBus};
use std::cell::RefCell;
use std::rc::Rc;

/// What the bus and the reset line were asked to do, in order.
#[derive(Debug, PartialEq, Clone)]
enum Asked {
    Reset(bool),
    Read { device: u8, register: u8 },
}

type Trace = Rc<RefCell<Vec<Asked>>>;

struct FakeBus {
    trace: Trace,
    answer: Result<u8, ()>,
}

impl RegisterBus for FakeBus {
    type Error = ();

    fn read_register(&mut self, device: u8, register: u8) -> Result<u8, ()> {
        self.trace.borrow_mut().push(Asked::Read { device, register });
        self.answer
    }
}

struct FakeResetLine {
    trace: Trace,
    fails: bool,
}

impl DigitalOutput for FakeResetLine {
    type Error = ();

    fn set_high(&mut self) -> Result<(), ()> {
        self.trace.borrow_mut().push(Asked::Reset(true));
        if self.fails { Err(()) } else { Ok(()) }
    }

    fn set_low(&mut self) -> Result<(), ()> {
        self.trace.borrow_mut().push(Asked::Reset(false));
        if self.fails { Err(()) } else { Ok(()) }
    }
}

type BringUp = Result<Driver<FakeBus, FakeResetLine>, DriverError>;

fn bring_up(answer: Result<u8, ()>) -> (BringUp, Trace) {
    let trace: Trace = Rc::new(RefCell::new(Vec::new()));
    let bus = FakeBus { trace: trace.clone(), answer };
    let line = FakeResetLine { trace: trace.clone(), fails: false };
    (Driver::init(bus, 0x4a, line), trace)
}

#[test]
fn chip_id_register_is_at_address_one() {
    assert_eq!(Register::ChipId.addr(), 0x01);
}

#[test]
fn revision_codes_zero_to_three_are_known() {
    assert_eq!(Revision::from_u8(0b000), Some(Revision::A0));
    assert_eq!(Revision::from_u8(0b001), Some(Revision::A1));
    assert_eq!(Revision::from_u8(0b010), Some(Revision::B0));
    assert_eq!(Revision::from_u8(0b011), Some(Revision::B1));
}

#[test]
fn every_other_revision_code_is_unknown() {
    for val in 4..=255u8 {
        assert_eq!(Revision::from_u8(val), None, "code {val}");
    }
}

#[test]
fn identify_chip_reads_the_four_known_revisions() {
    assert!(matches!(identify_chip(0xE0), Ok(Revision::A0)));
    assert!(matches!(identify_chip(0xE1), Ok(Revision::A1)));
    assert!(matches!(identify_chip(0xE2), Ok(Revision::B0)));
    assert!(matches!(identify_chip(0xE3), Ok(Revision::B1)));
}

#[test]
fn identify_chip_rejects_unknown_revisions_of_the_codec() {
    for register in 0xE4..=0xE7u8 {
        let outcome = identify_chip(register);
        assert!(matches!(outcome, Err(DriverError::Value)), "register {register:#x}");
    }
}

#[test]
fn identify_chip_rejects_every_other_device() {
    for register in (0x00..=0xDFu8).chain(0xE8..=0xFFu8) {
        let outcome = identify_chip(register);
        assert!(matches!(outcome, Err(DriverError::ChipId)), "register {register:#x}");
    }
}

#[test]
fn init_releases_reset_then_reads_the_chip_id() {
    let (driver, trace) = bring_up(Ok(0xE3));
    assert!(driver.is_ok());
    assert_eq!(
        *trace.borrow(),
        vec![Asked::Reset(true), Asked::Read { device: 0x4a, register: 0x01 }]
    );
}

#[test]
fn init_reports_a_failed_transfer() {
    let (driver, trace) = bring_up(Err(()));
    assert!(matches!(driver, Err(DriverError::Comm)));
    assert_eq!(trace.borrow().len(), 2);
}

#[test]
fn init_reports_a_foreign_device() {
    let (driver, _) = bring_up(Ok(0x00));
    assert!(matches!(driver, Err(DriverError::ChipId)));
    let (driver, _) = bring_up(Ok(0xF8));
    assert!(matches!(driver, Err(DriverError::ChipId)));
}

#[test]
fn init_reports_an_unknown_revision() {
    let (driver, _) = bring_up(Ok(0xE4));
    assert!(matches!(driver, Err(DriverError::Value)));
    let (driver, _) = bring_up(Ok(0xE7));
    assert!(matches!(driver, Err(DriverError::Value)));
}

#[test]
fn init_does_not_mind_a_failing_reset_line() {
    let trace: Trace = Rc::new(RefCell::new(Vec::new()));
    let bus = FakeBus { trace: trace.clone(), answer: Ok(0xE1) };
    let line = FakeResetLine { trace: trace.clone(), fails: true };
    assert!(Driver::init(bus, 0x4a, line).is_ok());
    assert_eq!(
        *trace.borrow(),
        vec![Asked::Reset(true), Asked::Read { device: 0x4a, register: 0x01 }]
    );
}

#[test]
fn power_off_and_on_drive_the_reset_line() {
    let (driver, trace) = bring_up(Ok(0xE0));
    let mut driver = driver.unwrap();
    trace.borrow_mut().clear();
    driver.power_off();
    driver.power_on();
    driver.power_off();
    assert_eq!(*trace.borrow(), vec![Asked::Reset(false), Asked::Reset(true), Asked::Reset(false)]);
}

#[test]
fn chip_id_asks_the_bus_each_time() {
    let (driver, trace) = bring_up(Ok(0xE2));
    let mut driver = driver.unwrap();
    trace.borrow_mut().clear();
    assert!(matches!(driver.chip_id(), Ok(Revision::B0)));
    assert!(matches!(driver.chip_id(), Ok(Revision::B0)));
    assert_eq!(
        *trace.borrow(),
        vec![
            Asked::Read { device: 0x4a, register: 0x01 },
            Asked::Read { device: 0x4a, register: 0x01 },
        ]
    );
}
