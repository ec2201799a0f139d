//! Lines on the wire as mathematics: the bytes that carry a line, the
//! exchanges of sending them to a sink that may refuse, and what the sink
//! holds afterwards.

use vstd::prelude::*;
use crate::capability::Exchange;

verus! {

/// Carriage return, the first byte of the line terminator.
pub const CR: u8 = 0x0D;

/// Line feed, the second byte of the line terminator.
pub const LF: u8 = 0x0A;

/// The bytes that carry one line on the wire: the text, then CR and LF.
pub open spec fn wire(text: Seq<u8>) -> Seq<u8> {
    text + seq![CR, LF]
}

/// One accepted write for each of `bytes`, in order.
pub open spec fn written<E>(bytes: Seq<u8>) -> Seq<Exchange<E>> {
    Seq::new(bytes.len(), |i: int| Exchange::Write { byte: bytes[i], answer: Ok(()) })
}

/// How the sending of a sequence of bytes ended.
pub enum Ending<E> {
    /// The sink took every byte.
    Whole,
    /// The sink took the first `taken` bytes and refused the next with
    /// `error`.
    Refused { taken: int, error: E },
}

impl<E> Ending<E> {
    /// Whether the sending of `bytes` can end this way: a refusal needs a
    /// byte to refuse.
    pub open spec fn of(self, bytes: Seq<u8>) -> bool {
        match self {
            Ending::Whole => true,
            Ending::Refused { taken, .. } => 0 <= taken < bytes.len(),
        }
    }

    /// How many of `bytes` the sink took.
    pub open spec fn taken(self, bytes: Seq<u8>) -> int {
        match self {
            Ending::Whole => bytes.len() as int,
            Ending::Refused { taken, .. } => taken,
        }
    }
}

/// The exchanges of sending `bytes` in order to a sink until the sending
/// ends: an accepted write for each byte taken and, where the sink refused, the
/// refused write of the next byte. Nothing is offered after a refusal.
pub open spec fn sending<E>(bytes: Seq<u8>, ending: Ending<E>) -> Seq<Exchange<E>> {
    match ending {
        Ending::Whole => written(bytes),
        Ending::Refused { taken, error } => written(bytes.take(taken)).push(
            Exchange::Write { byte: bytes[taken], answer: Err(error) },
        ),
    }
}

/// The bytes that a sink has taken in the course of `exchanges`, in order.
pub open spec fn delivered<E>(exchanges: Seq<Exchange<E>>) -> Seq<u8>
    decreases exchanges.len(),
{
    if exchanges.len() == 0 {
        Seq::empty()
    } else {
        let earlier = delivered(exchanges.drop_last());
        match exchanges.last() {
            Exchange::Write { byte, answer: Ok(_) } => earlier.push(byte),
            _ => earlier,
        }
    }
}

/// One line sent to a sink: its text, and how the sending of its wire form
/// ended.
pub struct Sent<E> {
    pub text: Seq<u8>,
    pub ending: Ending<E>,
}

impl<E> Sent<E> {
    /// The ending is one that the sending of this line can have.
    pub open spec fn wf(self) -> bool {
        self.ending.of(wire(self.text))
    }

    /// The exchanges of sending the line.
    pub open spec fn exchanges(self) -> Seq<Exchange<E>> {
        sending(wire(self.text), self.ending)
    }

    /// The bytes of the line that the sink took.
    pub open spec fn arrived(self) -> Seq<u8> {
        wire(self.text).take(self.ending.taken(wire(self.text)))
    }
}

/// The exchanges of sending the lines one after another.
pub open spec fn sending_all<E>(lines: Seq<Sent<E>>) -> Seq<Exchange<E>>
    decreases lines.len(),
{
    if lines.len() == 0 {
        Seq::empty()
    } else {
        sending_all(lines.drop_last()) + lines.last().exchanges()
    }
}

/// How many bytes the sink took of the first `count` lines.
pub open spec fn arrived_before<E>(lines: Seq<Sent<E>>, count: int) -> int
    decreases count,
{
    if count <= 0 {
        0
    } else {
        arrived_before(lines, count - 1) + lines[count - 1].arrived().len()
    }
}

/// What a sink holds after more exchanges is what it held, then what the
/// further exchanges delivered.
pub proof fn lemma_delivered_concat<E>(earlier: Seq<Exchange<E>>, later: Seq<Exchange<E>>)
    ensures
        delivered(earlier + later) == delivered(earlier) + delivered(later),
    decreases later.len(),
{
    if later.len() == 0 {
        assert(earlier + later == earlier);
    } else {
        lemma_delivered_concat(earlier, later.drop_last());
        assert((earlier + later).drop_last() == earlier + later.drop_last());
    }
}

/// One more accepted write extends what was written by one byte.
pub proof fn lemma_written_one_more<E>(bytes: Seq<u8>, count: int)
    requires
        0 <= count < bytes.len(),
    ensures
        written::<E>(bytes.take(count + 1)) == written::<E>(bytes.take(count)).push(
            Exchange::Write { byte: bytes[count], answer: Ok(()) },
        ),
{
}

/// Accepted writes deliver the bytes written.
proof fn lemma_delivered_written<E>(bytes: Seq<u8>)
    ensures
        delivered(written::<E>(bytes)) == bytes,
    decreases bytes.len(),
{
    if bytes.len() > 0 {
        lemma_delivered_written::<E>(bytes.drop_last());
        assert(written::<E>(bytes).drop_last() == written::<E>(bytes.drop_last()));
    }
}

/// Sending delivers the bytes that the sink took, in their order, and nothing
/// else: a refused byte leaves no trace.
pub proof fn law_sending_delivers_what_was_taken<E>(
    before: Seq<Exchange<E>>,
    bytes: Seq<u8>,
    ending: Ending<E>,
)
    requires
        ending.of(bytes),
    ensures
        delivered(before + sending(bytes, ending)) == delivered(before) + bytes.take(
            ending.taken(bytes),
        ),
{
    lemma_delivered_concat(before, sending(bytes, ending));
    match ending {
        Ending::Whole => {
            lemma_delivered_written::<E>(bytes);
            assert(bytes.take(bytes.len() as int) == bytes);
        },
        Ending::Refused { taken, error } => {
            lemma_delivered_written::<E>(bytes.take(taken));
            assert(sending(bytes, ending).drop_last() == written::<E>(bytes.take(taken)));
        },
    }
}

/// A line that the sink takes whole arrives as its text followed by exactly
/// CR and LF, directly behind what the sink held before.
pub proof fn law_whole_line_arrives_terminated<E>(before: Seq<Exchange<E>>, text: Seq<u8>)
    ensures
        delivered(before + sending(wire(text), Ending::<E>::Whole)) == delivered(before) + text
            + seq![0x0Du8, 0x0Au8],
{
    law_sending_delivers_what_was_taken(before, wire(text), Ending::<E>::Whole);
    assert(wire(text).take(wire(text).len() as int) == wire(text));
    assert(delivered(before) + wire(text) == delivered(before) + text + seq![0x0Du8, 0x0Au8]);
}

/// Lines never mingle. Whatever lines are sent one after another, and
/// however the sending of each ends, the sink holds what it held before and
/// then, line by line in the order of sending, the bytes it took of that
/// line, in one piece.
pub proof fn law_lines_arrive_in_one_piece<E>(
    before: Seq<Exchange<E>>,
    lines: Seq<Sent<E>>,
    index: int,
)
    requires
        forall|k: int| 0 <= k < lines.len() ==> (#[trigger] lines[k]).wf(),
        0 <= index < lines.len(),
    ensures
        ({
            let held = delivered(before + sending_all(lines));
            let at = delivered(before).len() + arrived_before(lines, index);
            &&& held.len() == delivered(before).len() + arrived_before(lines, lines.len() as int)
            &&& held.take(delivered(before).len() as int) == delivered(before)
            &&& delivered(before).len() <= at
            &&& at + lines[index].arrived().len() <= held.len()
            &&& held.subrange(at, at + lines[index].arrived().len()) == lines[index].arrived()
        }),
    decreases lines.len(),
{
    let last = lines.last();
    let rest = lines.drop_last();
    let n = lines.len() as int;
    lemma_arrived_before_prefix(lines, n - 1);
    lemma_arrived_before_bounds(lines, n, index);
    lemma_delivered_concat(before, sending_all(lines));
    lemma_delivered_concat(before, sending_all(rest));
    lemma_delivered_concat(sending_all(rest), last.exchanges());
    law_sending_delivers_what_was_taken(sending_all(rest), wire(last.text), last.ending);
    lemma_sending_all_delivers_arrived(rest);
    lemma_sending_all_delivers_arrived(lines);
    let held = delivered(before + sending_all(lines));
    let shorter = delivered(before + sending_all(rest));
    assert(held == shorter + last.arrived());
    if index < n - 1 {
        law_lines_arrive_in_one_piece(before, rest, index);
        lemma_arrived_before_prefix(lines, index);
        let at = delivered(before).len() + arrived_before(lines, index);
        assert(held.subrange(at, at + lines[index].arrived().len()) == shorter.subrange(
            at,
            at + lines[index].arrived().len(),
        ));
    } else {
        let at = delivered(before).len() + arrived_before(lines, index);
        assert(at == shorter.len());
        assert(held.subrange(at, at + last.arrived().len()) == last.arrived());
    }
    assert(held.take(delivered(before).len() as int) == delivered(before));
}

/// Dropping later lines does not change how much arrived of earlier ones.
proof fn lemma_arrived_before_prefix<E>(lines: Seq<Sent<E>>, count: int)
    requires
        0 <= count < lines.len(),
    ensures
        arrived_before(lines.drop_last(), count) == arrived_before(lines, count),
    decreases count,
{
    if count > 0 {
        lemma_arrived_before_prefix(lines, count - 1);
    }
}

/// What arrived of the first lines grows with the number of lines.
proof fn lemma_arrived_before_bounds<E>(lines: Seq<Sent<E>>, count: int, index: int)
    requires
        0 <= index < count <= lines.len(),
    ensures
        0 <= arrived_before(lines, index),
        arrived_before(lines, index) + lines[index].arrived().len() <= arrived_before(
            lines,
            count,
        ),
    decreases count,
{
    lemma_arrived_before_nonnegative(lines, index);
    if index < count - 1 {
        lemma_arrived_before_bounds(lines, count - 1, index);
    }
}

/// Of no line does a negative number of bytes arrive.
proof fn lemma_arrived_before_nonnegative<E>(lines: Seq<Sent<E>>, count: int)
    requires
        0 <= count <= lines.len(),
    ensures
        0 <= arrived_before(lines, count),
    decreases count,
{
    if count > 0 {
        lemma_arrived_before_nonnegative(lines, count - 1);
    }
}

/// Sending lines delivers as many bytes as arrived of them.
proof fn lemma_sending_all_delivers_arrived<E>(lines: Seq<Sent<E>>)
    requires
        forall|k: int| 0 <= k < lines.len() ==> (#[trigger] lines[k]).wf(),
    ensures
        delivered(sending_all(lines)).len() == arrived_before(lines, lines.len() as int),
    decreases lines.len(),
{
    if lines.len() > 0 {
        let rest = lines.drop_last();
        let last = lines.last();
        lemma_sending_all_delivers_arrived(rest);
        law_sending_delivers_what_was_taken(sending_all(rest), wire(last.text), last.ending);
        lemma_arrived_before_prefix(lines, lines.len() - 1);
    }
}

} // verus!
