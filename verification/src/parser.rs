//! The streaming parser: it takes the byte stream in pieces of any size and
//! hands out one packet at a time.

use vstd::prelude::*;
use crate::machine::{
    lemma_run_garbage, lemma_run_one, lemma_run_plain, lemma_run_split, lemma_run_then_one, run,
    step, Event, Progress, Run, Step, MAX_PAYLOAD_LEN, MAX_REPEAT_BYTE, REPEAT_BIAS,
};
use crate::packet::{
    Kind, UncheckedPacket, CHECKSUM_MARKER, ESCAPE_MARKER, ESCAPE_MASK, NOTIFICATION_MARKER,
    PACKET_MARKER, REPEAT_MARKER,
};
use crate::scan::{first_index, lemma_clear_before, lemma_clear_len};
use crate::Error;

verus! {

/// The number of bytes in a checksum field.
pub const CHECKSUM_LEN: u8 = 2;

enum State {
    Type,  // % or $
    Data,  // packet-data#
    Escape,  // "}x" = 'x' ^ 0x20
    Repeat,  // "x*y" = "x" * ('y' - 29)
    Checksum(u8),  // checksum
}

/// The state of the streaming parser between two calls.
pub struct Parser {
    state: State,
    kind: Kind,
    data: Vec<u8>,
    checksum: [u8; 2],
}

impl View for Parser {
    type V = Progress;

    closed spec fn view(&self) -> Progress {
        match self.state {
            State::Type => Progress::SeekMarker,
            State::Data => Progress::Payload { kind: self.kind, data: self.data@ },
            State::Escape => Progress::Escape { kind: self.kind, data: self.data@ },
            State::Repeat => Progress::Repeat { kind: self.kind, data: self.data@ },
            State::Checksum(n) => Progress::Checksum {
                kind: self.kind,
                data: self.data@,
                first: if n == 0 {
                    None
                } else {
                    Some(self.checksum[0])
                },
            },
        }
    }
}

impl Default for Parser {
    fn default() -> (parser: Self)
        ensures
            parser@ == Progress::SeekMarker,
    {
        Self {
            state: State::Type,
            // not read before a marker and a checksum byte set them:
            kind: Kind::Notification,
            data: Vec::new(),
            checksum: [0; 2],
        }
    }
}

/// How many bytes one transition of the parser takes from `input` in state
/// `p`, where it takes any.
///
/// Between packets it takes all bytes up to and with the first marker of a
/// packet, or all there are. Inside a payload it takes all bytes up to and
/// with the first of `#`, `}` and `*`, or all there are; where the payload
/// cannot hold that many, it takes what still fits. Behind `}` and behind
/// `*` it takes one byte. Behind `#` it takes both checksum bytes if they
/// are there, and else one.
pub open spec fn one_step(p: Progress, input: Seq<u8>) -> nat {
    if input.len() == 0 {
        0
    } else {
        match p {
            Progress::SeekMarker => {
                let clear = first_index(set![NOTIFICATION_MARKER, PACKET_MARKER], input);
                if clear < input.len() {
                    (clear + 1) as nat
                } else {
                    input.len()
                }
            },
            Progress::Payload { kind, data } => {
                let plain = first_index(
                    set![CHECKSUM_MARKER, ESCAPE_MARKER, REPEAT_MARKER],
                    input,
                );
                let room = MAX_PAYLOAD_LEN - data.len();
                if plain > room {
                    if room > 0 {
                        room as nat
                    } else {
                        0
                    }
                } else if plain < input.len() {
                    (plain + 1) as nat
                } else {
                    input.len()
                }
            },
            Progress::Escape { .. } => 1,
            Progress::Repeat { .. } => 1,
            Progress::Checksum { kind, data, first } => {
                if first is None && input.len() >= 2 {
                    2
                } else {
                    1
                }
            },
        }
    }
}

impl Parser {
    #[verifier::type_invariant]
    spec fn well_formed(self) -> bool {
        &&& self.data@.len() <= MAX_PAYLOAD_LEN
        &&& (self.state is Type ==> self.data@.len() == 0)
        &&& (self.state matches State::Checksum(n) ==> n < CHECKSUM_LEN)
    }

    /// Moves the payload gathered so far out of the parser.
    fn take_data(&mut self) -> (data: Vec<u8>)
        ensures
            data@ == old(self).data@,
            final(self).data@.len() == 0,
            final(self).state == old(self).state,
            final(self).kind == old(self).kind,
            final(self).checksum == old(self).checksum,
    {
        proof {
            use_type_invariant(&*self);
        }
        let mut data = Vec::new();
        std::mem::swap(&mut self.data, &mut data);
        data
    }

    /// Hands out the packet that the checksum bytes just completed, and starts over.
    fn emit(&mut self) -> (packet: UncheckedPacket)
        ensures
            packet@.kind == old(self).kind,
            packet@.data == old(self).data@,
            packet@.checksum == old(self).checksum@,
            final(self)@ == Progress::SeekMarker,
    {
        let data = self.take_data();
        self.state = State::Type;
        UncheckedPacket { kind: self.kind, data, checksum: self.checksum }
    }

    /// Drops the packet at hand and goes back to looking for a marker.
    fn reset(&mut self)
        ensures
            final(self)@ == Progress::SeekMarker,
    {
        let _ = self.take_data();
        self.state = State::Type;
    }

    /// Parses as much of `input` as possible into a packet. Returns the number
    /// of bytes read (the rest will need to be re-fed), and maybe a packet
    /// which will need handling.
    ///
    /// Apart from splitting the input up and expanding the data, nothing else
    /// is done: no checksum is compared. The result is that of running the
    /// byte-level machine over `input`. A run that a byte stops is reported in
    /// two steps: the bytes before that byte are read and counted, and the
    /// call that finds the byte at the front of its input returns the error,
    /// reads nothing and drops the packet at hand, so that the same input can
    /// be fed again and is then searched for the next marker.
    pub fn feed(&mut self, input: &[u8]) -> (result: Result<
        (usize, Option<UncheckedPacket>),
        Error,
    >)
        ensures
            ({
                let whole = run(old(self)@, input@);
                match result {
                    Ok((n, packet)) => {
                        &&& n == whole.consumed
                        &&& n <= input@.len()
                        &&& final(self)@ == whole.state
                        &&& match whole.event {
                            Some(Event::Emit(frame)) => packet matches Some(p) && p@ == frame,
                            Some(Event::Fail(_)) => packet is None && n > 0,
                            None => packet is None && n == input@.len(),
                        }
                    },
                    Err(e) => {
                        &&& whole.consumed == 0
                        &&& whole.event matches Some(Event::Fail(fault)) && e == fault.error()
                        &&& final(self)@ == Progress::SeekMarker
                    },
                }
            }),
    {
        let ghost start = self@;
        let mut read: usize = 0;
        loop
            invariant
                start == old(self)@,
                read <= input@.len(),
                run(start, input@.take(read as int)) == (Run {
                    consumed: read as nat,
                    state: self@,
                    event: None,
                }),
            decreases input@.len() - read,
        {
            proof {
                lemma_run_split(start, input@.take(read as int), input@.skip(read as int));
                assert(input@.take(read as int) + input@.skip(read as int) == input@);
            }
            if read == input.len() {
                return Ok((read, None));
            }
            let rest = &input[read..input.len()];
            match self.feed_one(rest) {
                Ok((partial, packet)) => {
                    proof {
                        lemma_run_split(
                            start,
                            input@.take(read as int),
                            rest@.take(partial as int),
                        );
                        assert(input@.take(read as int) + rest@.take(partial as int)
                            == input@.take(read + partial));
                    }
                    read += partial;
                    if packet.is_some() {
                        proof {
                            lemma_run_split(
                                start,
                                input@.take(read as int),
                                input@.skip(read as int),
                            );
                            assert(input@.take(read as int) + input@.skip(read as int)
                                == input@);
                        }
                        return Ok((read, packet));
                    }
                },
                Err(e) => {
                    if read == 0 {
                        self.reset();
                        return Err(e);
                    } else {
                        return Ok((read, None));
                    }
                },
            }
        }
    }

    /// Makes one transition over the front of `input`: takes a stretch of bytes
    /// that the state at hand treats alike, and the marker behind them. It
    /// takes `one_step` bytes, and leaves the parser where the byte-level
    /// machine stands behind them. A byte that the machine refuses at the
    /// front of `input` is reported and changes nothing.
    fn feed_one(&mut self, input: &[u8]) -> (result: Result<
        (usize, Option<UncheckedPacket>),
        Error,
    >)
        ensures
            match result {
                Ok((n, packet)) => {
                    &&& n == one_step(old(self)@, input@)
                    &&& n <= input@.len()
                    &&& input@.len() > 0 ==> n > 0
                    &&& run(old(self)@, input@.take(n as int)) == (Run {
                        consumed: n as nat,
                        state: final(self)@,
                        event: match packet {
                            Some(p) => Some(Event::Emit(p@)),
                            None => None,
                        },
                    })
                },
                Err(e) => {
                    &&& input@.len() > 0
                    &&& *final(self) == *old(self)
                    &&& step(old(self)@, input@[0]) matches Step::Fail(fault) && e == fault.error()
                },
            },
    {
        let first = match input.first() {
            Some(b) => *b,
            None => {
                return Ok((0, None));
            },
        };
        proof {
            use_type_invariant(&*self);
        }
        match self.state {
            State::Type => {
                let start = memchr::memchr2(NOTIFICATION_MARKER, PACKET_MARKER, input);
                proof {
                    lemma_clear_before(set![NOTIFICATION_MARKER, PACKET_MARKER], input@, start);
                    lemma_clear_len(set![NOTIFICATION_MARKER, PACKET_MARKER], input@, start);
                }
                match start {
                    Some(pos) => {
                        self.kind = if input[pos] == NOTIFICATION_MARKER {
                            Kind::Notification
                        } else {
                            Kind::Packet
                        };
                        self.state = State::Data;
                        proof {
                            lemma_run_garbage(input@.take(pos as int));
                            lemma_run_then_one(
                                Progress::SeekMarker,
                                input@,
                                pos as int,
                                Progress::SeekMarker,
                            );
                            assert(self.data@ == Seq::<u8>::empty());
                        }
                        Ok((pos + 1, None))
                    },
                    None => {
                        proof {
                            lemma_run_garbage(input@);
                            assert(input@.take(input@.len() as int) == input@);
                        }
                        Ok((input.len(), None))
                    },
                }
            },
            State::Data => {
                let end = memchr::memchr3(CHECKSUM_MARKER, ESCAPE_MARKER, REPEAT_MARKER, input);
                let plain = match end {
                    Some(pos) => pos,
                    None => input.len(),
                };
                let room = MAX_PAYLOAD_LEN - self.data.len();
                let ghost before = self.data@;
                proof {
                    lemma_clear_before(
                        set![CHECKSUM_MARKER, ESCAPE_MARKER, REPEAT_MARKER],
                        input@,
                        end,
                    );
                    lemma_clear_len(
                        set![CHECKSUM_MARKER, ESCAPE_MARKER, REPEAT_MARKER],
                        input@,
                        end,
                    );
                }
                if plain > room {
                    if room == 0 {
                        return Err(Error::PayloadTooLarge);
                    }
                    let mut data = self.take_data();
                    data.extend_from_slice(&input[0..room]);
                    self.data = data;
                    proof {
                        assert(self.data@ == before + input@.take(room as int));
                        lemma_run_plain(self.kind, before, input@.take(room as int));
                    }
                    return Ok((room, None));
                }
                let mut data = self.take_data();
                data.extend_from_slice(&input[0..plain]);
                self.data = data;
                proof {
                    assert(self.data@ == before + input@.take(plain as int));
                    lemma_run_plain(self.kind, before, input@.take(plain as int));
                }
                match end {
                    Some(pos) => {
                        let mark = input[pos];
                        if mark == CHECKSUM_MARKER {
                            self.state = State::Checksum(0);
                        } else if mark == ESCAPE_MARKER {
                            self.state = State::Escape;
                        } else {
                            self.state = State::Repeat;
                        }
                        proof {
                            lemma_run_then_one(
                                old(self)@,
                                input@,
                                pos as int,
                                Progress::Payload { kind: self.kind, data: self.data@ },
                            );
                        }
                        Ok((pos + 1, None))
                    },
                    None => {
                        Ok((plain, None))
                    },
                }
            },
            State::Escape => {
                if self.data.len() >= MAX_PAYLOAD_LEN {
                    return Err(Error::PayloadTooLarge);
                }
                let mut data = self.take_data();
                data.push(first ^ ESCAPE_MASK);
                self.data = data;
                self.state = State::Data;
                proof {
                    lemma_run_one(old(self)@, input@.take(1));
                }
                Ok((1, None))
            },
            State::Repeat => {
                if self.data.len() == 0 || first > MAX_REPEAT_BYTE {
                    return Err(Error::MalformedRepeat);
                }
                let count = first.saturating_sub(REPEAT_BIAS) as usize;
                if count > MAX_PAYLOAD_LEN - self.data.len() {
                    return Err(Error::PayloadTooLarge);
                }
                let c = self.data[self.data.len() - 1];
                let ghost before = self.data@;
                let mut data = self.take_data();
                let mut done: usize = 0;
                while done < count
                    invariant
                        done <= count,
                        data@ == before + Seq::new(done as nat, |i: int| c),
                    decreases count - done,
                {
                    data.push(c);
                    done += 1;
                }
                self.data = data;
                self.state = State::Data;
                proof {
                    lemma_run_one(old(self)@, input@.take(1));
                }
                Ok((1, None))
            },
            State::Checksum(got) => {
                if got == 0 {
                    if input.len() >= 2 {
                        self.checksum = [first, input[1]];
                        let packet = self.emit();
                        proof {
                            let second = Progress::Checksum {
                                kind: old(self).kind,
                                data: old(self).data@,
                                first: Some(first),
                            };
                            lemma_run_one(old(self)@, input@.take(1));
                            assert(input@.take(2).take(1) == input@.take(1));
                            lemma_run_then_one(old(self)@, input@.take(2), 1, second);
                            assert(input@.take(2).take(2) == input@.take(2));
                        }
                        Ok((2, Some(packet)))
                    } else {
                        self.checksum = [first, self.checksum[1]];
                        self.state = State::Checksum(1);
                        proof {
                            lemma_run_one(old(self)@, input@.take(1));
                        }
                        Ok((1, None))
                    }
                } else {
                    self.checksum = [self.checksum[0], first];
                    let packet = self.emit();
                    proof {
                        lemma_run_one(old(self)@, input@.take(1));
                    }
                    Ok((1, Some(packet)))
                }
            },
        }
    }
}

} // verus!
