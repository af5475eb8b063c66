//! The framing of the protocol as a state machine over single bytes. This is
//! the model that the streaming parser is held to.

use vstd::prelude::*;
use crate::packet::{
    escaped, escaped_byte, is_reserved, marker, Frame, Kind, CHECKSUM_MARKER, ESCAPE_MARKER,
    ESCAPE_MASK, NOTIFICATION_MARKER, PACKET_MARKER, REPEAT_MARKER,
};
use crate::scan::none_of;
use crate::Error;

verus! {

/// The longest payload that one packet may carry once it is expanded.
pub const MAX_PAYLOAD_LEN: usize = 0x10_0000;

/// A run-length count byte stands for this many fewer copies than its value.
pub const REPEAT_BIAS: u8 = 29;

/// The largest count byte that the protocol allows after `*`.
pub const MAX_REPEAT_BYTE: u8 = 126;

/// How far the machine has come within the packet at hand.
pub enum Progress {
    /// Between packets: everything up to the next `$` or `%` is dropped.
    SeekMarker,
    /// Inside the payload.
    Payload { kind: Kind, data: Seq<u8> },
    /// Behind `}`: the next byte is an escaped one.
    Escape { kind: Kind, data: Seq<u8> },
    /// Behind `*`: the next byte is a count.
    Repeat { kind: Kind, data: Seq<u8> },
    /// Behind `#`, with the first checksum byte if it has come.
    Checksum { kind: Kind, data: Seq<u8>, first: Option<u8> },
}

/// Why the machine refuses a byte.
pub enum Fault {
    /// A count byte with nothing before it to repeat, or above `MAX_REPEAT_BYTE`.
    MalformedRepeat,
    /// The byte would take the payload beyond `MAX_PAYLOAD_LEN`.
    PayloadTooLarge,
}

impl Fault {
    /// The error that reports this fault.
    pub open spec fn error(self) -> Error {
        match self {
            Fault::MalformedRepeat => Error::MalformedRepeat,
            Fault::PayloadTooLarge => Error::PayloadTooLarge,
        }
    }
}

/// What one byte does to the machine.
pub enum Step {
    /// The byte is taken, and the machine goes on from here.
    Next(Progress),
    /// The byte is taken and completes a packet; the machine starts over.
    Emit(Frame),
    /// The byte is refused.
    Fail(Fault),
}

/// What stopped a run before the end of its input.
pub enum Event {
    Emit(Frame),
    Fail(Fault),
}

/// How a run over some input ended: how many bytes it took, where the
/// machine then stood, and what stopped it, if anything did.
pub struct Run {
    pub consumed: nat,
    pub state: Progress,
    pub event: Option<Event>,
}

/// The number of copies that the count byte `count` adds.
pub open spec fn repeat_count(count: u8) -> nat {
    if count >= REPEAT_BIAS {
        (count - REPEAT_BIAS) as nat
    } else {
        0
    }
}

/// What the byte `b` does in state `p`.
pub open spec fn step(p: Progress, b: u8) -> Step {
    match p {
        Progress::SeekMarker => {
            if b == PACKET_MARKER {
                Step::Next(Progress::Payload { kind: Kind::Packet, data: Seq::empty() })
            } else if b == NOTIFICATION_MARKER {
                Step::Next(Progress::Payload { kind: Kind::Notification, data: Seq::empty() })
            } else {
                Step::Next(Progress::SeekMarker)
            }
        },
        Progress::Payload { kind, data } => {
            if b == CHECKSUM_MARKER {
                Step::Next(Progress::Checksum { kind, data, first: None })
            } else if b == ESCAPE_MARKER {
                Step::Next(Progress::Escape { kind, data })
            } else if b == REPEAT_MARKER {
                Step::Next(Progress::Repeat { kind, data })
            } else if data.len() >= MAX_PAYLOAD_LEN {
                Step::Fail(Fault::PayloadTooLarge)
            } else {
                Step::Next(Progress::Payload { kind, data: data.push(b) })
            }
        },
        Progress::Escape { kind, data } => {
            if data.len() >= MAX_PAYLOAD_LEN {
                Step::Fail(Fault::PayloadTooLarge)
            } else {
                Step::Next(Progress::Payload { kind, data: data.push(b ^ ESCAPE_MASK) })
            }
        },
        Progress::Repeat { kind, data } => {
            if data.len() == 0 || b > MAX_REPEAT_BYTE {
                Step::Fail(Fault::MalformedRepeat)
            } else if data.len() + repeat_count(b) > MAX_PAYLOAD_LEN {
                Step::Fail(Fault::PayloadTooLarge)
            } else {
                Step::Next(
                    Progress::Payload {
                        kind,
                        data: data + Seq::new(repeat_count(b), |i: int| data.last()),
                    },
                )
            }
        },
        Progress::Checksum { kind, data, first } => {
            match first {
                None => Step::Next(Progress::Checksum { kind, data, first: Some(b) }),
                Some(a) => Step::Emit(Frame { kind, data, checksum: seq![a, b] }),
            }
        },
    }
}

/// Runs the machine from state `p` over `input`, byte by byte, until a packet
/// is complete, a byte is refused, or the input ends. A refused byte is not
/// taken, and the machine stays where it stood before it.
pub open spec fn run(p: Progress, input: Seq<u8>) -> Run
    decreases input.len(),
{
    if input.len() == 0 {
        Run { consumed: 0, state: p, event: None }
    } else {
        match step(p, input[0]) {
            Step::Next(q) => run(q, input.skip(1)).after(1),
            Step::Emit(frame) => Run {
                consumed: 1,
                state: Progress::SeekMarker,
                event: Some(Event::Emit(frame)),
            },
            Step::Fail(fault) => Run { consumed: 0, state: p, event: Some(Event::Fail(fault)) },
        }
    }
}

impl Run {
    /// This run, had `n` bytes been taken before it began.
    pub open spec fn after(self, n: nat) -> Run {
        Run { consumed: self.consumed + n, state: self.state, event: self.event }
    }
}

/// A run takes no more than it is given, all of it unless something stops
/// it, and at least the byte that completes a packet.
pub proof fn lemma_run_consumed(p: Progress, input: Seq<u8>)
    ensures
        run(p, input).consumed <= input.len(),
        run(p, input).event is None ==> run(p, input).consumed == input.len(),
        run(p, input).event matches Some(Event::Emit(_)) ==> run(p, input).consumed >= 1 && run(
            p,
            input,
        ).state == Progress::SeekMarker,
    decreases input.len(),
{
    if input.len() > 0 {
        match step(p, input[0]) {
            Step::Next(q) => lemma_run_consumed(q, input.skip(1)),
            _ => {},
        }
    }
}

/// Feeding `head` and then `tail` is feeding `head + tail`: if the run over
/// `head` is stopped, the run over the whole is stopped in the same way at the
/// same place; otherwise the whole run is the run over `tail` from where `head`
/// left the machine, with the length of `head` added to what it took.
pub proof fn lemma_run_split(p: Progress, head: Seq<u8>, tail: Seq<u8>)
    ensures
        run(p, head + tail) == if run(p, head).event is Some {
            run(p, head)
        } else {
            run(run(p, head).state, tail).after(head.len())
        },
    decreases head.len(),
{
    if head.len() > 0 {
        assert((head + tail).skip(1) == head.skip(1) + tail);
        match step(p, head[0]) {
            Step::Next(q) => {
                lemma_run_split(q, head.skip(1), tail);
            },
            _ => {},
        }
    }
}

/// A stretch of bytes between packets that holds no marker is dropped whole.
pub proof fn lemma_run_garbage(input: Seq<u8>)
    requires
        none_of(set![NOTIFICATION_MARKER, PACKET_MARKER], input),
    ensures
        run(Progress::SeekMarker, input) == (Run {
            consumed: input.len(),
            state: Progress::SeekMarker,
            event: None,
        }),
    decreases input.len(),
{
    if input.len() > 0 {
        let rest = input.skip(1);
        assert forall|j: int| 0 <= j < rest.len() implies !set![
            NOTIFICATION_MARKER,
            PACKET_MARKER,
        ].contains(#[trigger] rest[j]) by {
            assert(rest[j] == input[j + 1]);
        }
        lemma_run_garbage(rest);
    }
}

/// A stretch of payload that holds no marker and fits is appended whole.
pub proof fn lemma_run_plain(kind: Kind, data: Seq<u8>, input: Seq<u8>)
    requires
        none_of(set![CHECKSUM_MARKER, ESCAPE_MARKER, REPEAT_MARKER], input),
        data.len() + input.len() <= MAX_PAYLOAD_LEN,
    ensures
        run(Progress::Payload { kind, data }, input) == (Run {
            consumed: input.len(),
            state: Progress::Payload { kind, data: data + input },
            event: None,
        }),
    decreases input.len(),
{
    if input.len() > 0 {
        let rest = input.skip(1);
        assert forall|j: int| 0 <= j < rest.len() implies !set![
            CHECKSUM_MARKER,
            ESCAPE_MARKER,
            REPEAT_MARKER,
        ].contains(#[trigger] rest[j]) by {
            assert(rest[j] == input[j + 1]);
        }
        lemma_run_plain(kind, data.push(input[0]), rest);
        assert(data.push(input[0]) + rest == data + input);
    }
}

/// A run depends on the bytes it takes and on no others: over those alone it
/// ends in the same state, and hands out the same packet if it hands out one.
/// A refused byte lies behind them, so that run is not stopped.
pub proof fn lemma_run_prefix(p: Progress, input: Seq<u8>)
    ensures
        run(p, input.take(run(p, input).consumed as int)) == (Run {
            consumed: run(p, input).consumed,
            state: run(p, input).state,
            event: match run(p, input).event {
                Some(Event::Fail(_)) => None,
                other => other,
            },
        }),
    decreases input.len(),
{
    lemma_run_consumed(p, input);
    let taken = input.take(run(p, input).consumed as int);
    if input.len() > 0 {
        match step(p, input[0]) {
            Step::Next(q) => {
                let rest = input.skip(1);
                lemma_run_prefix(q, rest);
                lemma_run_consumed(q, rest);
                assert(taken.skip(1) == rest.take(run(q, rest).consumed as int));
            },
            Step::Emit(_) => {
                reveal_with_fuel(run, 2);
            },
            Step::Fail(_) => {},
        }
    }
}

/// The run over a single byte.
pub proof fn lemma_run_one(p: Progress, input: Seq<u8>)
    requires
        input.len() == 1,
    ensures
        run(p, input) == match step(p, input[0]) {
            Step::Next(q) => Run { consumed: 1, state: q, event: None },
            Step::Emit(frame) => Run {
                consumed: 1,
                state: Progress::SeekMarker,
                event: Some(Event::Emit(frame)),
            },
            Step::Fail(fault) => Run { consumed: 0, state: p, event: Some(Event::Fail(fault)) },
        },
{
    reveal_with_fuel(run, 2);
}

/// Extends a run that took `n` bytes without being stopped by the byte behind them.
pub proof fn lemma_run_then_one(p: Progress, input: Seq<u8>, n: int, q: Progress)
    requires
        0 <= n < input.len(),
        run(p, input.take(n)) == (Run { consumed: n as nat, state: q, event: None }),
    ensures
        run(p, input.take(n + 1)) == match step(q, input[n]) {
            Step::Next(next) => Run { consumed: (n + 1) as nat, state: next, event: None },
            Step::Emit(frame) => Run {
                consumed: (n + 1) as nat,
                state: Progress::SeekMarker,
                event: Some(Event::Emit(frame)),
            },
            Step::Fail(fault) => Run {
                consumed: n as nat,
                state: q,
                event: Some(Event::Fail(fault)),
            },
        },
{
    lemma_run_split(p, input.take(n), seq![input[n]]);
    lemma_run_one(q, seq![input[n]]);
    assert(input.take(n) + seq![input[n]] == input.take(n + 1));
}

/// Inside a payload, the bytes that carry one payload byte append that byte.
proof fn lemma_run_escaped_byte(kind: Kind, data: Seq<u8>, b: u8)
    requires
        data.len() < MAX_PAYLOAD_LEN,
    ensures
        run(Progress::Payload { kind, data }, escaped_byte(b)) == (Run {
            consumed: escaped_byte(b).len(),
            state: Progress::Payload { kind, data: data.push(b) },
            event: None,
        }),
{
    let start = Progress::Payload { kind, data };
    if is_reserved(b) {
        let sent = b ^ ESCAPE_MASK;
        assert(sent ^ 0x20 == b) by (bit_vector)
            requires
                sent == b ^ 0x20,
        ;
        lemma_run_one(start, seq![ESCAPE_MARKER]);
        lemma_run_one(Progress::Escape { kind, data }, seq![sent]);
        lemma_run_split(start, seq![ESCAPE_MARKER], seq![sent]);
        assert(seq![ESCAPE_MARKER] + seq![sent] == escaped_byte(b));
    } else {
        lemma_run_one(start, seq![b]);
    }
}

/// Inside a payload, the bytes that carry some payload append that payload.
proof fn lemma_run_escaped(kind: Kind, before: Seq<u8>, data: Seq<u8>)
    requires
        before.len() + data.len() <= MAX_PAYLOAD_LEN,
    ensures
        run(Progress::Payload { kind, data: before }, escaped(data)) == (Run {
            consumed: escaped(data).len(),
            state: Progress::Payload { kind, data: before + data },
            event: None,
        }),
    decreases data.len(),
{
    let start = Progress::Payload { kind, data: before };
    if data.len() > 0 {
        let front = data.drop_last();
        lemma_run_escaped(kind, before, front);
        lemma_run_escaped_byte(kind, before + front, data.last());
        lemma_run_split(start, escaped(front), escaped_byte(data.last()));
        assert((before + front).push(data.last()) == before + data);
    }
}

/// Decoding undoes encoding: the machine, between packets, reads the bytes
/// that carry a packet to their end and hands out that very packet, whatever
/// its payload holds, as long as the payload is no longer than
/// `MAX_PAYLOAD_LEN`.
pub proof fn lemma_decode_encode(frame: Frame)
    requires
        frame.data.len() <= MAX_PAYLOAD_LEN,
        frame.checksum.len() == 2,
    ensures
        run(Progress::SeekMarker, frame.wire()) == (Run {
            consumed: frame.wire().len(),
            state: Progress::SeekMarker,
            event: Some(Event::Emit(frame)),
        }),
{
    let kind = frame.kind;
    let opening = seq![marker(kind)];
    let body = escaped(frame.data);
    let closing = seq![CHECKSUM_MARKER];
    let first = seq![frame.checksum[0]];
    let second = seq![frame.checksum[1]];
    let inside = Progress::Payload { kind, data: Seq::empty() };
    let filled = Progress::Payload { kind, data: frame.data };
    let closed = Progress::Checksum { kind, data: frame.data, first: None };
    let half = Progress::Checksum { kind, data: frame.data, first: Some(frame.checksum[0]) };

    lemma_run_one(half, second);
    assert(seq![frame.checksum[0], frame.checksum[1]] == frame.checksum);
    lemma_run_one(closed, first);
    lemma_run_split(closed, first, second);
    assert(first + second == frame.checksum);
    lemma_run_one(filled, closing);
    lemma_run_split(filled, closing, frame.checksum);
    lemma_run_escaped(kind, Seq::empty(), frame.data);
    lemma_run_split(inside, body, closing + frame.checksum);
    lemma_run_one(Progress::SeekMarker, opening);
    lemma_run_split(Progress::SeekMarker, opening, body + (closing + frame.checksum));
    assert(opening + (body + (closing + frame.checksum)) == frame.wire());
}

} // verus!
