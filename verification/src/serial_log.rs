//! A severity-filtered logger that writes one line per record to a byte sink.

use vstd::prelude::*;
use vstd::string::StringSliceAdditionalSpecFns;
use crate::capability::{lemma_bare_ok, ByteSink, Exchange};
use crate::line::{lemma_written_one_more, sending, wire, written, Ending, CR, LF};

verus! {

/// The severity of a record, from the gravest to the most verbose.
#[derive(Clone, Copy, Debug, PartialEq, Eq, Structural)]
pub enum Level {
    Error,
    Warn,
    Info,
    Debug,
    Trace,
}

impl Level {
    /// The severity as a number: the graver the level, the greater.
    pub open spec fn severity(self) -> nat {
        match self {
            Level::Error => 5,
            Level::Warn => 4,
            Level::Info => 3,
            Level::Debug => 2,
            Level::Trace => 1,
        }
    }

    /// The severity as a number: the graver the level, the greater.
    pub fn number(self) -> (n: u8)
        ensures
            n == self.severity(),
    {
        match self {
            Level::Error => 5,
            Level::Warn => 4,
            Level::Info => 3,
            Level::Debug => 2,
            Level::Trace => 1,
        }
    }
}

/// Whether a logger with the floor `floor` lets a record of `level` through:
/// the record must be at least as grave as the floor.
pub open spec fn admits(floor: Level, level: Level) -> bool {
    level.severity() >= floor.severity()
}

/// Copies `text` into a `heapless::String` of capacity `N` with that type's
/// `TryFrom<&str>` and hands back the bytes that the buffer then holds. The
/// conversion appends all of `text` to an empty buffer where the buffer has
/// room for it and fails otherwise, so the bytes come back exactly when
/// `text` is at most `N` bytes long, and they are the bytes of `text`.
#[verifier::external_body]
fn bounded_line<const N: usize>(text: &str) -> (line: Option<Vec<u8>>)
    ensures
        line is Some <==> text.spec_bytes().len() <= N,
        line matches Some(bytes) ==> bytes@ == text.spec_bytes(),
{
    match heapless::String::<N>::try_from(text) {
        Ok(buffer) => Some(buffer.as_bytes().to_vec()),
        Err(()) => None,
    }
}

/// A logger that copies each record into a buffer of `N` bytes and writes it
/// as one line to a serial port.
pub struct SerialLogger<SerialT: ByteSink, const N: usize> {
    loglevel: Level,
    serial_port: SerialT,
    exchanges: Ghost<Seq<Exchange<SerialT::Error>>>,
}

impl<SerialT: ByteSink, const N: usize> SerialLogger<SerialT, N> {
    /// The severity floor: records below it are dropped.
    pub closed spec fn floor(self) -> Level {
        self.loglevel
    }

    /// Every exchange the logger has had with its port, oldest first.
    pub closed spec fn exchanges(self) -> Seq<Exchange<SerialT::Error>> {
        self.exchanges@
    }

    /// The port that the logger writes to.
    pub closed spec fn port(self) -> SerialT {
        self.serial_port
    }

    /// A logger on `serial_port` that lets through the records that are at
    /// least as grave as `loglevel`.
    pub fn new(serial_port: SerialT, loglevel: Level) -> (logger: SerialLogger<SerialT, N>)
        ensures
            logger.floor() == loglevel,
            logger.port() == serial_port,
            logger.exchanges() == Seq::<Exchange<SerialT::Error>>::empty(),
    {
        SerialLogger { loglevel, serial_port, exchanges: Ghost(Seq::empty()) }
    }

    /// Whether a record of `level` is let through.
    pub fn enabled(&self, level: Level) -> (on: bool)
        ensures
            on == admits(self.floor(), level),
    {
        level.number() >= self.loglevel.number()
    }

    /// Offers one byte to the port.
    fn put(&mut self, byte: u8) -> (r: Result<(), SerialT::Error>)
        ensures
            final(self).floor() == old(self).floor(),
            final(self).exchanges() == old(self).exchanges().push(
                Exchange::Write { byte, answer: r },
            ),
    {
        let r = self.serial_port.write_byte(byte);
        self.exchanges = Ghost(self.exchanges@.push(Exchange::Write { byte, answer: r }));
        r
    }

    /// Writes `buffer` to the port as one line: its bytes in order, then CR
    /// and LF. The first byte that the port refuses ends the line, and the
    /// port's error is handed back.
    pub fn writeln(&mut self, buffer: &[u8]) -> (r: Result<(), SerialT::Error>)
        ensures
            final(self).floor() == old(self).floor(),
            r is Ok ==> final(self).exchanges() == old(self).exchanges() + written::<
                SerialT::Error,
            >(wire(buffer@)),
            r matches Err(error) ==> ({
                let taken = final(self).exchanges().len() - old(self).exchanges().len() - 1;
                &&& 0 <= taken < wire(buffer@).len()
                &&& final(self).exchanges() == old(self).exchanges() + sending(
                    wire(buffer@),
                    Ending::Refused { taken, error },
                )
            }),
    {
        let ghost line = wire(buffer@);
        let mut i: usize = 0;
        while i < buffer.len()
            invariant
                0 <= i <= buffer.len(),
                line == wire(buffer@),
                self.floor() == old(self).floor(),
                self.exchanges() == old(self).exchanges() + written::<SerialT::Error>(
                    line.take(i as int),
                ),
            decreases buffer.len() - i,
        {
            let r = self.put(buffer[i]);
            proof {
                lemma_bare_ok(r);
                lemma_written_one_more::<SerialT::Error>(line, i as int);
            }
            if r.is_err() {
                assert(self.exchanges() == old(self).exchanges() + sending(
                    line,
                    Ending::Refused { taken: i as int, error: r->Err_0 },
                ));
                return r;
            }
            assert(self.exchanges() == old(self).exchanges() + written::<SerialT::Error>(
                line.take(i + 1),
            ));
            i = i + 1;
        }
        let ghost n = buffer@.len() as int;
        let r = self.put(CR);
        proof {
            lemma_bare_ok(r);
            lemma_written_one_more::<SerialT::Error>(line, n);
        }
        if r.is_err() {
            assert(self.exchanges() == old(self).exchanges() + sending(
                line,
                Ending::Refused { taken: n, error: r->Err_0 },
            ));
            return r;
        }
        assert(self.exchanges() == old(self).exchanges() + written::<SerialT::Error>(
            line.take(n + 1),
        ));
        let r = self.put(LF);
        proof {
            lemma_bare_ok(r);
            lemma_written_one_more::<SerialT::Error>(line, n + 1);
        }
        if r.is_err() {
            assert(self.exchanges() == old(self).exchanges() + sending(
                line,
                Ending::Refused { taken: n + 1, error: r->Err_0 },
            ));
            return r;
        }
        assert(line.take(n + 2) == line);
        r
    }

    /// Writes `message` as one line if `level` is let through and the message
    /// fits the line buffer. A record that is dropped leaves the logger and
    /// its port untouched; a port that refuses a byte ends the line there.
    /// Neither is reported.
    pub fn log(&mut self, level: Level, message: &str)
        ensures
            final(self).floor() == old(self).floor(),
            !admits(old(self).floor(), level) || message.spec_bytes().len() > N ==> *final(self)
                == *old(self),
            admits(old(self).floor(), level) && message.spec_bytes().len() <= N ==> exists|
                ending: Ending<SerialT::Error>,
            |
                {
                    &&& ending.of(wire(message.spec_bytes()))
                    &&& final(self).exchanges() == old(self).exchanges() + #[trigger] sending(
                        wire(message.spec_bytes()),
                        ending,
                    )
                },
    {
        if self.enabled(level) {
            match bounded_line::<N>(message) {
                Some(buffer) => {
                    let r = self.writeln(buffer.as_slice());
                    proof {
                        let line = wire(message.spec_bytes());
                        let ending = match r {
                            Ok(_) => Ending::Whole,
                            Err(error) => Ending::Refused {
                                taken: self.exchanges().len() - old(self).exchanges().len() - 1,
                                error,
                            },
                        };
                        assert(ending.of(line));
                        assert(self.exchanges() == old(self).exchanges() + sending(line, ending));
                    }
                },
                None => {},
            }
        }
    }

    /// Asks the port once to drain what it buffers. The port's answer is not
    /// looked at.
    pub fn flush(&mut self)
        ensures
            final(self).floor() == old(self).floor(),
            final(self).exchanges().len() == old(self).exchanges().len() + 1,
            final(self).exchanges().drop_last() == old(self).exchanges(),
            final(self).exchanges().last() is Flush,
    {
        let r = self.serial_port.flush();
        self.exchanges = Ghost(self.exchanges@.push(Exchange::Flush { answer: r }));
        assert(self.exchanges().drop_last() == old(self).exchanges());
    }
}

} // verus!
