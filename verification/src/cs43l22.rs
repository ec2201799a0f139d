//! Bring-up of a CS43L22 audio codec: its reset line and its identity.

use vstd::prelude::*;
use crate::capability::{DigitalOutput, PinCommand, RegisterBus, RegisterRead};

verus! {

/// The codec registers that the driver knows.
#[derive(Clone, Copy, Debug)]
pub enum Register {
    ChipId,
}

impl Register {
    /// The address of the register in the codec's register map.
    pub open spec fn spec_addr(self) -> u8 {
        match self {
            Register::ChipId => 0x01,
        }
    }

    /// The address of the register in the codec's register map.
    pub fn addr(self) -> (a: u8)
        ensures
            a == self.spec_addr(),
    {
        match self {
            Register::ChipId => 0x01,
        }
    }
}

/// The silicon revisions of the codec.
#[derive(Clone, Copy, Debug, PartialEq, Eq, Structural)]
pub enum Revision {
    A0,
    A1,
    B0,
    B1,
}

impl Revision {
    /// The number that stands for the revision in the chip-ID register.
    pub open spec fn code(self) -> u8 {
        match self {
            Revision::A0 => 0,
            Revision::A1 => 1,
            Revision::B0 => 2,
            Revision::B1 => 3,
        }
    }

    /// The revision that `val` stands for, if it stands for one.
    pub open spec fn with_code(val: u8) -> Option<Revision> {
        if val == 0 {
            Some(Revision::A0)
        } else if val == 1 {
            Some(Revision::A1)
        } else if val == 2 {
            Some(Revision::B0)
        } else if val == 3 {
            Some(Revision::B1)
        } else {
            None
        }
    }

    /// The revision that `val` stands for, if it stands for one.
    pub fn from_u8(val: u8) -> (r: Option<Revision>)
        ensures
            r == Revision::with_code(val),
    {
        match val {
            0 => Some(Revision::A0),
            1 => Some(Revision::A1),
            2 => Some(Revision::B0),
            3 => Some(Revision::B1),
            _ => None,
        }
    }

    /// `with_code` undoes `code`, and finds a revision for no other number.
    pub proof fn lemma_code_round_trip(val: u8)
        ensures
            Revision::with_code(val) matches Some(revision) ==> revision.code() == val,
            Revision::with_code(val) is Some <==> val <= 3,
            forall|revision: Revision| #[trigger]
                Revision::with_code(revision.code()) == Some(revision),
    {
    }
}

/// Why the codec could not be brought up.
#[derive(Debug)]
pub enum DriverError {
    /// The bus transfer failed.
    Comm,
    /// The device that answered is not a CS43L22.
    ChipId,
    /// The device is a CS43L22 of a revision this driver does not know.
    Value,
}

/// The bits of the chip-ID register that name the device.
pub const CHIP_ID_MASK: u8 = 0xF8;

/// What the device bits of a CS43L22 read as.
pub const CHIP_ID_CS43L22: u8 = 0xE0;

/// The bits of the chip-ID register that name the revision.
pub const REVISION_MASK: u8 = 0x07;

/// What the contents of the chip-ID register say about the device. A
/// CS43L22 reads as `0xE0` plus the code of its revision, so `0xE0` to `0xE3`
/// are the four known revisions, `0xE4` to `0xE7` are a CS43L22 of an unknown
/// revision, and every other value is another device.
pub open spec fn identify(register: u8) -> Result<Revision, DriverError> {
    if register < 0xE0 || register > 0xE7 {
        Err(DriverError::ChipId)
    } else {
        match Revision::with_code((register - 0xE0) as u8) {
            Some(revision) => Ok(revision),
            None => Err(DriverError::Value),
        }
    }
}

/// What an answer to a read of the chip-ID register says about the device:
/// a byte that came back is identified, a transfer that failed is a
/// communication error.
pub open spec fn chip_id_outcome<E>(answer: Result<u8, E>) -> Result<Revision, DriverError> {
    match answer {
        Ok(register) => identify(register),
        Err(_) => Err(DriverError::Comm),
    }
}

/// The chip-ID register by its fields: the device bits of a CS43L22 are
/// `CHIP_ID_CS43L22`, and its revision bits are the code of the revision.
pub proof fn lemma_identify_by_fields(register: u8)
    ensures
        register & CHIP_ID_MASK == CHIP_ID_CS43L22 <==> identify(register) != Err::<
            Revision,
            DriverError,
        >(DriverError::ChipId),
        register & CHIP_ID_MASK == CHIP_ID_CS43L22 ==> identify(register) == (
        match Revision::with_code(register & REVISION_MASK) {
            Some(revision) => Ok::<Revision, DriverError>(revision),
            None => Err(DriverError::Value),
        }),
{
    assert(register & 0xF8 == 0xE0 <==> 0xE0 <= register <= 0xE7) by (bit_vector);
    assert(0xE0 <= register <= 0xE7 ==> register & 0x07 == (register - 0xE0) as u8)
        by (bit_vector);
}

/// Identifies the device from the contents of its chip-ID register.
pub fn identify_chip(register: u8) -> (r: Result<Revision, DriverError>)
    ensures
        r == identify(register),
{
    proof {
        lemma_identify_by_fields(register);
    }
    if (register & CHIP_ID_MASK) != CHIP_ID_CS43L22 {
        return Err(DriverError::ChipId);
    }
    match Revision::from_u8(register & REVISION_MASK) {
        Some(revision) => Ok(revision),
        None => Err(DriverError::Value),
    }
}

/// A CS43L22 behind an I2C bus, with its reset line.
pub struct Driver<I2CT: RegisterBus, ResetPinT: DigitalOutput> {
    i2c: I2CT,
    addr: u8,
    reset_pin: ResetPinT,
    reads: Ghost<Seq<RegisterRead<I2CT::Error>>>,
    resets: Ghost<Seq<PinCommand<ResetPinT::Error>>>,
}

impl<I2CT: RegisterBus, ResetPinT: DigitalOutput> Driver<I2CT, ResetPinT> {
    /// The bus address of the codec.
    pub closed spec fn address(self) -> u8 {
        self.addr
    }

    /// Every register read the driver has asked of the bus, oldest first.
    pub closed spec fn reads(self) -> Seq<RegisterRead<I2CT::Error>> {
        self.reads@
    }

    /// Every command the driver has given the reset line, oldest first.
    pub closed spec fn resets(self) -> Seq<PinCommand<ResetPinT::Error>> {
        self.resets@
    }

    /// Takes the codec at `addr` out of reset and identifies it: the reset
    /// line is asserted once, then the chip-ID register is read once. The
    /// driver is handed out only for a CS43L22 of a known revision.
    pub fn init(i2c: I2CT, addr: u8, reset_pin: ResetPinT) -> (r: Result<
        Driver<I2CT, ResetPinT>,
        DriverError,
    >)
        ensures
            match r {
                Ok(driver) => {
                    &&& driver.address() == addr
                    &&& driver.resets().len() == 1
                    &&& driver.resets()[0].high
                    &&& driver.reads().len() == 1
                    &&& driver.reads()[0].device == addr
                    &&& driver.reads()[0].register == Register::ChipId.spec_addr()
                    &&& chip_id_outcome(driver.reads()[0].answer) is Ok
                },
                Err(e) => exists|answer: Result<u8, I2CT::Error>| #[trigger]
                    chip_id_outcome(answer) == Err::<Revision, DriverError>(e),
            },
    {
        let mut d = Driver {
            i2c,
            addr,
            reset_pin,
            reads: Ghost(Seq::empty()),
            resets: Ghost(Seq::empty()),
        };
        d.power_on();
        match d.chip_id() {
            Ok(_) => Ok(d),
            Err(e) => {
                assert(chip_id_outcome(d.reads().last().answer) == Err::<Revision, DriverError>(e));
                Err(e)
            },
        }
    }

    /// Releases the codec from reset by asserting its reset line once. The
    /// line's answer is not looked at.
    pub fn power_on(&mut self)
        ensures
            final(self).resets().len() == old(self).resets().len() + 1,
            final(self).resets().drop_last() == old(self).resets(),
            final(self).resets().last().high,
            final(self).reads() == old(self).reads(),
            final(self).address() == old(self).address(),
    {
        let r = self.reset_pin.set_high();
        self.resets = Ghost(self.resets@.push(PinCommand { high: true, answer: r }));
        assert(self.resets().drop_last() == old(self).resets());
    }

    /// Holds the codec in reset by deasserting its reset line once. The
    /// line's answer is not looked at.
    pub fn power_off(&mut self)
        ensures
            final(self).resets().len() == old(self).resets().len() + 1,
            final(self).resets().drop_last() == old(self).resets(),
            !final(self).resets().last().high,
            final(self).reads() == old(self).reads(),
            final(self).address() == old(self).address(),
    {
        let r = self.reset_pin.set_low();
        self.resets = Ghost(self.resets@.push(PinCommand { high: false, answer: r }));
        assert(self.resets().drop_last() == old(self).resets());
    }

    /// Reads the chip-ID register once and identifies the device from the
    /// answer.
    pub fn chip_id(&mut self) -> (r: Result<Revision, DriverError>)
        ensures
            final(self).reads().len() == old(self).reads().len() + 1,
            final(self).reads().drop_last() == old(self).reads(),
            final(self).reads().last().device == old(self).address(),
            final(self).reads().last().register == Register::ChipId.spec_addr(),
            r == chip_id_outcome(final(self).reads().last().answer),
            final(self).resets() == old(self).resets(),
            final(self).address() == old(self).address(),
    {
        let register = Register::ChipId.addr();
        let answer = self.i2c.read_register(self.addr, register);
        self.reads = Ghost(self.reads@.push(RegisterRead { device: self.addr, register, answer }));
        assert(self.reads().drop_last() == old(self).reads());
        match answer {
            Ok(register) => identify_chip(register),
            Err(_) => Err(DriverError::Comm),
        }
    }
}

} // verus!
