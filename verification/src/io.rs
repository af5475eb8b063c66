//! The session between a debugger and its target: a source of bytes, a sink
//! for bytes, and the handshake that acknowledges each packet.
//!
//! `GdbServer` runs a whole session over a `ByteSource` and a `ByteSink`,
//! and its contract says what it reads, answers and returns for every stream
//! of bytes. A transport whose bytes are not known beforehand, such as a
//! socket, is served by `advance`: it takes the bytes that have arrived and
//! says what to do, and the reading and writing is the caller's.

use vstd::prelude::*;
use crate::machine::{
    lemma_decode_encode, lemma_run_consumed, lemma_run_garbage, lemma_run_prefix,
    lemma_run_split, run, Event, Fault, Progress, MAX_PAYLOAD_LEN,
};
use crate::packet::{CheckedPacket, Frame, Kind, NOTIFICATION_MARKER, PACKET_MARKER};
use crate::parser::Parser;
use crate::Error;

verus! {

/// Acknowledges a packet: `+`.
pub const ACK: u8 = 0x2b;

/// Asks for a packet to be sent again: `-`.
pub const NAK: u8 = 0x2d;

/// Something that can supply bytes and keeps track of how far they have been
/// read. Its bytes are a fixed stream, of which some are ready and the others
/// are still to come.
pub trait ByteSource {
    /// The bytes that the source holds ready at this moment.
    spec fn buffered(&self) -> Seq<u8>;

    /// The bytes that are still to come behind those, up to the end of the source.
    spec fn pending(&self) -> Seq<u8>;

    /// Whether a source of this type can be relied on never to fail.
    spec fn reliable() -> bool;

    /// Waits until bytes are ready, unless some already are, and returns them
    /// without taking them. Returns nothing only at the end of the source.
    fn fill_buf(&mut self) -> (result: Result<&[u8], std::io::Error>)
        ensures
            (*final(self)).buffered() + (*final(self)).pending() == (*old(self)).buffered() + (
            *old(self)).pending(),
            Self::reliable() ==> result is Ok,
            result matches Ok(buf) ==> {
                &&& buf@ == (*final(self)).buffered()
                &&& buf@.len() == 0 ==> (*final(self)).pending().len() == 0
            },
    ;

    /// Takes the first `amt` of the bytes that are ready.
    fn consume(&mut self, amt: usize)
        requires
            amt <= (*old(self)).buffered().len(),
        ensures
            (*final(self)).buffered() == (*old(self)).buffered().skip(amt as int),
            (*final(self)).pending() == (*old(self)).pending(),
    ;
}

/// All the bytes that `source` has yet to give.
pub open spec fn remaining<R: ByteSource>(source: &R) -> Seq<u8> {
    source.buffered() + source.pending()
}

/// Something that accepts bytes and keeps them in the order in which they came.
pub trait ByteSink {
    /// All the bytes that the sink has accepted so far.
    spec fn written(&self) -> Seq<u8>;

    /// Whether a sink of this type can be relied on never to fail.
    spec fn reliable() -> bool;

    /// Hands all of `buf` to the sink.
    fn write_all(&mut self, buf: &[u8]) -> (result: Result<(), std::io::Error>)
        ensures
            Self::reliable() ==> result is Ok,
            result is Ok ==> (*final(self)).written() == (*old(self)).written() + buf@,
    ;
}

impl<'a> ByteSource for &'a [u8] {
    open spec fn buffered(&self) -> Seq<u8> {
        (*self)@
    }

    open spec fn pending(&self) -> Seq<u8> {
        Seq::empty()
    }

    open spec fn reliable() -> bool {
        true
    }

    fn fill_buf(&mut self) -> (result: Result<&[u8], std::io::Error>) {
        Ok(*self)
    }

    fn consume(&mut self, amt: usize) {
        let len = self.len();
        *self = &(*self)[amt..len];
    }
}

impl<'a, R: ByteSource> ByteSource for &'a mut R {
    open spec fn buffered(&self) -> Seq<u8> {
        (**self).buffered()
    }

    open spec fn pending(&self) -> Seq<u8> {
        (**self).pending()
    }

    open spec fn reliable() -> bool {
        R::reliable()
    }

    fn fill_buf(&mut self) -> (result: Result<&[u8], std::io::Error>) {
        (**self).fill_buf()
    }

    fn consume(&mut self, amt: usize) {
        (**self).consume(amt)
    }
}

impl ByteSink for Vec<u8> {
    open spec fn written(&self) -> Seq<u8> {
        self@
    }

    open spec fn reliable() -> bool {
        true
    }

    fn write_all(&mut self, buf: &[u8]) -> (result: Result<(), std::io::Error>) {
        self.extend_from_slice(buf);
        Ok(())
    }
}

/// What a session has to do once a piece of input has gone through its parser.
#[derive(Debug, PartialEq, Eq)]
pub enum Action {
    /// No packet is complete: read on.
    Continue,
    /// An ordinary packet came whose checksum does not match: answer `-` and
    /// read on.
    Retransmit,
    /// An ordinary packet came whose checksum matches: answer `+` and hand it
    /// out.
    Acknowledge(CheckedPacket),
    /// A notification came: answer nothing, and hand it out if its checksum
    /// matches, and nothing if not.
    Notify(Option<CheckedPacket>),
}

impl Action {
    /// Whether this is what the handshake asks for when the parser reports `event`.
    pub open spec fn answers(self, event: Option<Event>) -> bool {
        match event {
            Some(Event::Emit(frame)) => match frame.kind {
                Kind::Packet => if frame.is_valid() {
                    self matches Action::Acknowledge(packet) && packet@ == frame
                } else {
                    self is Retransmit
                },
                Kind::Notification => if frame.is_valid() {
                    self matches Action::Notify(Some(packet)) && packet@ == frame
                } else {
                    self matches Action::Notify(None)
                },
            },
            _ => self is Continue,
        }
    }
}

/// Feeds `buf` to `parser` and decides what the handshake asks for. This is
/// one turn of a session, without its reading and writing: the caller takes
/// the first `n` bytes from its source, does what the action says, and, if
/// that hands out nothing, comes back with what the source gives next.
///
/// The result is that of `Parser::feed`, with the packet, if one came, judged
/// by its kind and checksum.
pub fn advance(parser: &mut Parser, buf: &[u8]) -> (result: Result<(usize, Action), Error>)
    ensures
        ({
            let whole = run(old(parser)@, buf@);
            match result {
                Ok((n, action)) => {
                    &&& n == whole.consumed
                    &&& n <= buf@.len()
                    &&& final(parser)@ == whole.state
                    &&& action.answers(whole.event)
                    &&& whole.event matches Some(Event::Fail(_)) ==> n > 0
                },
                Err(e) => {
                    &&& whole.consumed == 0
                    &&& whole.event matches Some(Event::Fail(fault)) && e == fault.error()
                    &&& final(parser)@ == Progress::SeekMarker
                },
            }
        }),
{
    let (read, packet) = match parser.feed(buf) {
        Ok(fed) => fed,
        Err(err) => {
            return Err(err);
        },
    };
    let action = match packet {
        None => Action::Continue,
        Some(packet) => match packet.kind {
            Kind::Packet => match packet.check() {
                Some(checked) => Action::Acknowledge(checked),
                None => Action::Retransmit,
            },
            // Notifications are not acknowledged
            Kind::Notification => Action::Notify(packet.check()),
        },
    };
    Ok((read, action))
}

/// What one call for the next packet comes to.
pub struct Exchange {
    /// How many bytes it takes from the source.
    pub consumed: nat,
    /// The handshake bytes that it writes to the sink.
    pub replies: Seq<u8>,
    /// Where it leaves the parser.
    pub state: Progress,
    /// What it returns.
    pub outcome: Result<Option<Frame>, Fault>,
}

impl Exchange {
    /// This exchange, had `n` bytes been taken and `replies` been written
    /// before it began.
    pub open spec fn after(self, n: nat, replies: Seq<u8>) -> Exchange {
        Exchange {
            consumed: n + self.consumed,
            replies: replies + self.replies,
            state: self.state,
            outcome: self.outcome,
        }
    }
}

/// The handshake over the bytes `stream`, all that the source has yet to
/// give, with the parser in state `p`.
///
/// The bytes are parsed up to the first packet that is complete. An ordinary
/// packet with a matching checksum is acknowledged with `+` and returned. One
/// whose checksum does not match is answered with `-`, and the handshake goes
/// on behind it. A notification is not answered: it is returned if its
/// checksum matches, and nothing is returned if not. Nothing is returned
/// either when the stream ends first. A byte that the parser refuses ends the
/// exchange in front of it, with the packet at hand dropped.
pub open spec fn exchange(p: Progress, stream: Seq<u8>) -> Exchange
    decreases stream.len(),
    via exchange_decreases
{
    let parsed = run(p, stream);
    match parsed.event {
        None => Exchange {
            consumed: parsed.consumed,
            replies: Seq::empty(),
            state: parsed.state,
            outcome: Ok(None),
        },
        Some(Event::Fail(fault)) => Exchange {
            consumed: parsed.consumed,
            replies: Seq::empty(),
            state: Progress::SeekMarker,
            outcome: Err(fault),
        },
        Some(Event::Emit(frame)) => match frame.kind {
            Kind::Packet => if frame.is_valid() {
                Exchange {
                    consumed: parsed.consumed,
                    replies: seq![ACK],
                    state: Progress::SeekMarker,
                    outcome: Ok(Some(frame)),
                }
            } else {
                exchange(Progress::SeekMarker, stream.skip(parsed.consumed as int)).after(
                    parsed.consumed,
                    seq![NAK],
                )
            },
            Kind::Notification => Exchange {
                consumed: parsed.consumed,
                replies: Seq::empty(),
                state: Progress::SeekMarker,
                outcome: Ok(
                    if frame.is_valid() {
                        Some(frame)
                    } else {
                        None
                    },
                ),
            },
        },
    }
}

#[via_fn]
proof fn exchange_decreases(p: Progress, stream: Seq<u8>) {
    lemma_run_consumed(p, stream);
}

/// Whether `result` is what a session returns for `outcome`.
pub open spec fn reports(
    result: Result<Option<CheckedPacket>, Error>,
    outcome: Result<Option<Frame>, Fault>,
) -> bool {
    match (result, outcome) {
        (Ok(Some(packet)), Ok(Some(frame))) => packet@ == frame,
        (Ok(None), Ok(None)) => true,
        (Err(e), Err(fault)) => e == fault.error(),
        _ => false,
    }
}

/// An exchange takes no more than the stream holds.
pub proof fn lemma_exchange_consumed(p: Progress, stream: Seq<u8>)
    ensures
        exchange(p, stream).consumed <= stream.len(),
    decreases stream.len(),
{
    lemma_run_consumed(p, stream);
    let parsed = run(p, stream);
    if parsed.event matches Some(Event::Emit(frame)) && frame.kind == Kind::Packet
        && !frame.is_valid() {
        lemma_exchange_consumed(Progress::SeekMarker, stream.skip(parsed.consumed as int));
    }
}

/// Bytes that the parser takes without completing a packet can be taken
/// first: the exchange over the whole stream is the exchange over the rest
/// from where they leave the parser.
pub proof fn lemma_exchange_advance(p: Progress, head: Seq<u8>, tail: Seq<u8>)
    requires
        run(p, head).event is None,
    ensures
        exchange(p, head + tail) == exchange(run(p, head).state, tail).after(
            head.len(),
            Seq::empty(),
        ),
{
    let q = run(p, head).state;
    let whole = head + tail;
    lemma_run_split(p, head, tail);
    lemma_run_consumed(p, head);
    lemma_run_consumed(q, tail);
    let parsed = run(q, tail);
    assert(whole.skip((head.len() + parsed.consumed) as int) == tail.skip(parsed.consumed as int));
}

/// Bytes in front of a marker do not count: a session between packets that
/// is sent a stretch without `$` and `%` first reads it, and goes on as if it
/// had not come.
pub proof fn lemma_exchange_skips_garbage(garbage: Seq<u8>, stream: Seq<u8>)
    requires
        forall|i: int|
            0 <= i < garbage.len() ==> #[trigger] garbage[i] != PACKET_MARKER && garbage[i]
                != NOTIFICATION_MARKER,
    ensures
        exchange(Progress::SeekMarker, garbage + stream) == exchange(
            Progress::SeekMarker,
            stream,
        ).after(garbage.len(), Seq::empty()),
{
    assert forall|j: int| 0 <= j < garbage.len() implies !set![
        NOTIFICATION_MARKER,
        PACKET_MARKER,
    ].contains(#[trigger] garbage[j]) by {}
    lemma_run_garbage(garbage);
    lemma_exchange_advance(Progress::SeekMarker, garbage, stream);
}

/// A session between packets that is sent one whole packet, and nothing
/// else, reads all of it. If the checksum matches, the packet is returned,
/// acknowledged with `+` unless it is a notification. If not, nothing is
/// returned, and `-` is the answer unless it is a notification.
pub proof fn lemma_exchange_whole_packet(frame: Frame)
    requires
        frame.data.len() <= MAX_PAYLOAD_LEN,
        frame.checksum.len() == 2,
    ensures
        exchange(Progress::SeekMarker, frame.wire()) == (Exchange {
            consumed: frame.wire().len(),
            replies: match frame.kind {
                Kind::Notification => Seq::empty(),
                Kind::Packet => if frame.is_valid() {
                    seq![ACK]
                } else {
                    seq![NAK]
                },
            },
            state: Progress::SeekMarker,
            outcome: Ok(
                if frame.is_valid() {
                    Some(frame)
                } else {
                    None
                },
            ),
        }),
{
    lemma_decode_encode(frame);
    let wire = frame.wire();
    let rest = wire.skip(wire.len() as int);
    assert(exchange(Progress::SeekMarker, rest).replies == Seq::<u8>::empty());
}

/// One session of the protocol over a source and a sink of bytes.
pub struct GdbServer<R, W> where R: ByteSource, W: ByteSink {
    pub reader: R,
    pub writer: W,
    parser: Parser,
}

impl<'a> GdbServer<&'a mut &'a [u8], Vec<u8>> {
    /// A session that reads from `input` and keeps in memory what it writes.
    pub fn tester(input: &'a mut &'a [u8]) -> (server: Self)
        ensures
            server.unread() == (*old(input))@,
            server.sent() == Seq::<u8>::empty(),
            server.progress() == Progress::SeekMarker,
    {
        Self::new(input, Vec::new())
    }

    /// Hands out what the session has written since the last call.
    pub fn response(&mut self) -> (written: Vec<u8>)
        ensures
            written@ == old(self).sent(),
            final(self).sent() == Seq::<u8>::empty(),
            final(self).unread() == old(self).unread(),
            final(self).progress() == old(self).progress(),
    {
        let mut written = Vec::new();
        std::mem::swap(&mut self.writer, &mut written);
        written
    }
}

impl<R, W> GdbServer<R, W> where R: ByteSource, W: ByteSink {
    /// Where the session's parser stands.
    pub closed spec fn progress(&self) -> Progress {
        self.parser@
    }

    /// All the bytes that the session's source has yet to give.
    pub closed spec fn unread(&self) -> Seq<u8> {
        remaining(&self.reader)
    }

    /// All the bytes that the session's sink has accepted so far.
    pub closed spec fn sent(&self) -> Seq<u8> {
        self.writer.written()
    }

    /// A session over `reader` and `writer` that expects the start of a packet.
    pub fn new(reader: R, writer: W) -> (server: Self)
        ensures
            server.unread() == remaining(&reader),
            server.sent() == writer.written(),
            server.progress() == Progress::SeekMarker,
    {
        Self { reader, writer, parser: Parser::default() }
    }

    /// Reads until a packet is complete and returns it if its checksum
    /// matches. What is read, written and returned is the `exchange` over
    /// the bytes that the source has yet to give, unless the source or the
    /// sink fails.
    ///
    /// An ordinary packet is acknowledged with `+`; one whose checksum does
    /// not match is answered with `-` and reading goes on. A notification is
    /// never answered, and one whose checksum does not match ends the call
    /// with `Ok(None)`, as the end of the source does. An error of the parser
    /// is returned with the packet at hand dropped and the refused byte left
    /// in the source: the next call starts over from that byte.
    pub fn next_packet(&mut self) -> (result: Result<Option<CheckedPacket>, Error>)
        ensures
            R::reliable() && W::reliable() ==> !(result matches Err(Error::IoError(_))),
            !(result matches Err(Error::IoError(_))) ==> ({
                let expected = exchange(old(self).progress(), old(self).unread());
                &&& reports(result, expected.outcome)
                &&& final(self).unread() == old(self).unread().skip(expected.consumed as int)
                &&& final(self).sent() == old(self).sent() + expected.replies
                &&& final(self).progress() == expected.state
            }),
    {
        let ghost start = self.parser@;
        let ghost stream = remaining(&self.reader);
        let ghost sent = self.writer.written();
        let ghost mut taken: nat = 0;
        let ghost mut naks: Seq<u8> = Seq::empty();
        proof {
            assert(exchange(start, stream).after(0, Seq::empty()).replies == exchange(
                start,
                stream,
            ).replies);
        }
        loop
            invariant
                start == old(self).progress(),
                stream == remaining(&old(self).reader),
                sent == old(self).writer.written(),
                taken <= stream.len(),
                remaining(&self.reader) == stream.skip(taken as int),
                self.writer.written() == sent + naks,
                exchange(start, stream) == exchange(self.parser@, stream.skip(taken as int)).after(
                    taken,
                    naks,
                ),
            decreases remaining(&self.reader).len(),
        {
            let ghost here = self.parser@;
            let ghost rest = stream.skip(taken as int);
            let buf = match self.reader.fill_buf() {
                Ok(buf) => buf,
                Err(err) => {
                    return Err(Error::from(err));
                },
            };
            let ghost ready = buf@;
            if buf.is_empty() {
                return Ok(None);
            }
            let (read, action) = match advance(&mut self.parser, buf) {
                Ok(turn) => turn,
                Err(err) => {
                    proof {
                        let coming = self.reader.pending();
                        lemma_run_split(here, ready, coming);
                    }
                    return Err(err);
                },
            };
            let ghost coming = self.reader.pending();
            self.reader.consume(read);
            proof {
                lemma_run_consumed(here, ready);
                lemma_run_prefix(here, ready);
                lemma_run_consumed(here, ready.take(read as int));
                assert(rest == ready.take(read as int) + rest.skip(read as int));
                assert(rest.skip(read as int) == stream.skip((taken + read) as int));
                lemma_run_split(here, ready.take(read as int), rest.skip(read as int));
                if action is Continue {
                    lemma_exchange_advance(here, ready.take(read as int), rest.skip(read as int));
                }
                taken = taken + read as nat;
            }

            match action {
                Action::Continue => {},
                Action::Retransmit => {
                    match self.writer.write_all([NAK].as_slice()) {
                        Ok(()) => {},
                        Err(err) => {
                            return Err(Error::from(err));
                        },
                    }
                    proof {
                        let after = exchange(Progress::SeekMarker, stream.skip(taken as int));
                        assert(naks + (seq![NAK] + after.replies) == (naks + seq![NAK])
                            + after.replies);
                        naks = naks + seq![NAK];
                    }
                },
                Action::Acknowledge(checked) => {
                    match self.writer.write_all([ACK].as_slice()) {
                        Ok(()) => {},
                        Err(err) => {
                            return Err(Error::from(err));
                        },
                    }
                    return Ok(Some(checked));
                },
                Action::Notify(notification) => {
                    return Ok(notification);
                },
            }
        }
    }

    /// Encodes `packet` and writes it to the sink. No acknowledgment is
    /// awaited.
    pub fn dispatch(&mut self, packet: &CheckedPacket) -> (result: Result<(), Error>)
        ensures
            W::reliable() ==> result is Ok,
            result is Ok ==> final(self).sent() == old(self).sent() + packet@.wire(),
            result matches Err(e) ==> e is IoError,
            final(self).unread() == old(self).unread(),
            final(self).progress() == old(self).progress(),
    {
        packet.encode(&mut self.writer)
    }
}

} // verus!
