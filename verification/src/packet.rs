//! The packets of the protocol: their kind, payload and checksum, and the
//! difference between a packet as it came off the wire and one whose
//! checksum is known to match.

use vstd::prelude::*;
use vstd::utf8::{decode_utf8, encode_utf8_decode_utf8, valid_utf8};
use crate::hex::{
    checksum_text, declared_checksum, format_checksum, lemma_checksum_text_declares,
    lemma_declared_checksum, parse_u8, utf8_text,
};
use crate::io::ByteSink;
use crate::scan::lemma_clear_before;
use crate::Error;

verus! {

/// Opens an ordinary packet: `$`.
pub const PACKET_MARKER: u8 = 0x24;

/// Opens a notification: `%`.
pub const NOTIFICATION_MARKER: u8 = 0x25;

/// Ends the payload and opens the checksum: `#`.
pub const CHECKSUM_MARKER: u8 = 0x23;

/// Announces an escaped byte: `}`.
pub const ESCAPE_MARKER: u8 = 0x7d;

/// Announces a run length: `*`.
pub const REPEAT_MARKER: u8 = 0x2a;

/// An escaped byte travels XORed with this.
pub const ESCAPE_MASK: u8 = 0x20;

#[derive(Copy, Clone, Debug, PartialEq, Eq, Hash, Structural)]
pub enum Kind {
    /// `%`: never acknowledged.
    Notification,
    /// `$`: acknowledged with `+` or `-`.
    Packet,
}

/// What a packet holds, as mathematics: the model that all contracts speak of.
pub struct Frame {
    pub kind: Kind,
    pub data: Seq<u8>,
    pub checksum: Seq<u8>,
}

/// The byte that opens a packet of this kind.
pub open spec fn marker(kind: Kind) -> u8 {
    match kind {
        Kind::Notification => NOTIFICATION_MARKER,
        Kind::Packet => PACKET_MARKER,
    }
}

/// Whether `b` has a meaning of its own on the wire, so that a payload cannot
/// carry it as it is.
pub open spec fn is_reserved(b: u8) -> bool {
    b == CHECKSUM_MARKER || b == PACKET_MARKER || b == ESCAPE_MARKER || b == REPEAT_MARKER
}

/// The bytes that carry the payload byte `b`.
pub open spec fn escaped_byte(b: u8) -> Seq<u8> {
    if is_reserved(b) {
        seq![ESCAPE_MARKER, b ^ ESCAPE_MASK]
    } else {
        seq![b]
    }
}

/// The bytes that carry the payload `data`: each reserved byte escaped, the
/// others as they are.
pub open spec fn escaped(data: Seq<u8>) -> Seq<u8>
    decreases data.len(),
{
    if data.len() == 0 {
        Seq::empty()
    } else {
        escaped(data.drop_last()) + escaped_byte(data.last())
    }
}

/// Escaping goes piece by piece.
pub proof fn lemma_escaped_concat(head: Seq<u8>, tail: Seq<u8>)
    ensures
        escaped(head + tail) == escaped(head) + escaped(tail),
    decreases tail.len(),
{
    if tail.len() == 0 {
    } else {
        assert((head + tail).drop_last() == head + tail.drop_last());
        lemma_escaped_concat(head, tail.drop_last());
    }
}

/// A payload without reserved bytes travels as it is.
pub proof fn lemma_escaped_plain(data: Seq<u8>)
    requires
        forall|i: int| 0 <= i < data.len() ==> !is_reserved(#[trigger] data[i]),
    ensures
        escaped(data) == data,
    decreases data.len(),
{
    if data.len() > 0 {
        lemma_escaped_plain(data.drop_last());
    }
}

impl Frame {
    /// The packet as it travels: the marker of its kind, the escaped payload,
    /// `#`, and the checksum field.
    pub open spec fn wire(self) -> Seq<u8> {
        seq![marker(self.kind)] + escaped(self.data) + seq![CHECKSUM_MARKER] + self.checksum
    }

    /// Whether the checksum field declares the checksum that the payload calls for.
    pub open spec fn is_valid(self) -> bool {
        declared_checksum(self.checksum) == Some(checksum_of(self.data))
    }
}

/// The sum of all bytes of `data`, unbounded.
pub open spec fn byte_sum(data: Seq<u8>) -> nat
    decreases data.len(),
{
    if data.len() == 0 {
        0
    } else {
        byte_sum(data.drop_last()) + data.last() as nat
    }
}

/// The checksum that belongs to `data`: the sum of its bytes modulo 256.
pub open spec fn checksum_of(data: Seq<u8>) -> u8 {
    (byte_sum(data) % 256) as u8
}

/// A packet whose checksum field has not been compared with its payload.
#[derive(Debug, PartialEq, Eq)]
pub struct UncheckedPacket {
    pub kind: Kind,
    pub data: Vec<u8>,
    pub checksum: [u8; 2],
}

impl View for UncheckedPacket {
    type V = Frame;

    open spec fn view(&self) -> Frame {
        Frame { kind: self.kind, data: self.data@, checksum: self.checksum@ }
    }
}

impl Clone for UncheckedPacket {
    fn clone(&self) -> (copy: Self)
        ensures
            copy@ == self@,
    {
        let copy = UncheckedPacket {
            kind: self.kind,
            data: self.data.clone(),
            checksum: self.checksum,
        };
        copy
    }
}

impl UncheckedPacket {
    /// The byte that the checksum field declares, read as a hexadecimal number.
    ///
    /// Fails with `Error::NonUtf8` if the field is not text, and with
    /// `Error::NonNumber` if the text is not such a number.
    pub fn expected_checksum(&self) -> (result: Result<u8, Error>)
        ensures
            result is Ok <==> declared_checksum(self.checksum@) is Some,
            match result {
                Ok(value) => declared_checksum(self.checksum@) == Some(value),
                Err(Error::NonUtf8(bytes, _)) => {
                    &&& !valid_utf8(self.checksum@)
                    &&& bytes@ == self.checksum@
                },
                Err(Error::NonNumber(text, _)) => {
                    &&& valid_utf8(self.checksum@)
                    &&& declared_checksum(self.checksum@) is None
                    &&& text@ == decode_utf8(self.checksum@)
                },
                Err(_) => false,
            },
    {
        proof {
            lemma_declared_checksum(self.checksum@);
        }
        let string = match utf8_text(self.checksum.as_slice()) {
            Ok(string) => string,
            Err(err) => {
                return Err(Error::NonUtf8(vec![self.checksum[0], self.checksum[1]], err));
            },
        };
        proof {
            encode_utf8_decode_utf8(string@);
        }
        match parse_u8(string, 16) {
            Ok(value) => Ok(value),
            Err(err) => Err(Error::NonNumber(string.to_owned(), err)),
        }
    }

    /// The checksum that the payload calls for, whatever the checksum field says.
    pub fn actual_checksum(&self) -> (sum: u8)
        ensures
            sum == checksum_of(self.data@),
    {
        let mut hash: u8 = 0;
        let mut i: usize = 0;
        while i < self.data.len()
            invariant
                i <= self.data.len(),
                hash == checksum_of(self.data@.take(i as int)),
            decreases self.data.len() - i,
        {
            proof {
                let next = self.data@.take(i + 1);
                assert(next.drop_last() == self.data@.take(i as int));
            }
            hash = hash.wrapping_add(self.data[i]);
            i += 1;
        }
        proof {
            assert(self.data@.take(i as int) == self.data@);
        }
        hash
    }
}

/// Hands `bytes` to the sink, and reports its failure as this crate's error.
fn put<W: ByteSink>(w: &mut W, bytes: &[u8]) -> (result: Result<(), Error>)
    ensures
        W::reliable() ==> result is Ok,
        result is Ok ==> (*final(w)).written() == (*old(w)).written() + bytes@,
        result matches Err(e) ==> e is IoError,
{
    match w.write_all(bytes) {
        Ok(()) => Ok(()),
        Err(err) => Err(Error::from(err)),
    }
}

impl UncheckedPacket {
    /// Encodes the packet and writes it to `w`: the marker of its kind, the
    /// payload with each of `#`, `$`, `}` and `*` replaced by `}` and that
    /// byte XOR 0x20, then `#` and the checksum field as it stands.
    ///
    /// No run of repeated bytes is shortened. Fails only if the sink does,
    /// and may then have written a part.
    pub fn encode<W: ByteSink>(&self, w: &mut W) -> (result: Result<(), Error>)
        ensures
            W::reliable() ==> result is Ok,
            result is Ok ==> (*final(w)).written() == (*old(w)).written() + self@.wire(),
            result matches Err(e) ==> e is IoError,
    {
        let opening = match self.kind {
            Kind::Notification => NOTIFICATION_MARKER,
            Kind::Packet => PACKET_MARKER,
        };
        put(w, [opening].as_slice())?;

        let ghost before = (*old(w)).written() + seq![marker(self.kind)];
        let ghost mut done: int = 0;
        let mut remaining: &[u8] = self.data.as_slice();
        while !remaining.is_empty()
            invariant
                0 <= done <= self.data@.len(),
                remaining@ == self.data@.skip(done),
                (*w).written() == before + escaped(self.data@.take(done)),
            decreases remaining@.len(),
        {
            let escape1 = memchr::memchr3(CHECKSUM_MARKER, PACKET_MARKER, ESCAPE_MARKER, remaining);
            let escape2 = memchr::memchr(REPEAT_MARKER, remaining);
            let first1 = match escape1 {
                Some(pos) => pos,
                None => remaining.len(),
            };
            let first2 = match escape2 {
                Some(pos) => pos,
                None => remaining.len(),
            };
            let escape = if first2 < first1 {
                first2
            } else {
                first1
            };
            let plain = &remaining[0..escape];
            proof {
                lemma_clear_before(
                    set![CHECKSUM_MARKER, PACKET_MARKER, ESCAPE_MARKER],
                    remaining@,
                    escape1,
                );
                lemma_clear_before(set![REPEAT_MARKER], remaining@, escape2);
                assert forall|i: int| 0 <= i < plain@.len() implies !is_reserved(
                    #[trigger] plain@[i],
                ) by {
                    assert(plain@[i] == remaining@[i]);
                }
                lemma_escaped_plain(plain@);
                lemma_escaped_concat(self.data@.take(done), plain@);
                assert(self.data@.take(done) + plain@ == self.data@.take(done + escape));
            }
            put(w, plain)?;
            remaining = &remaining[escape..remaining.len()];
            proof {
                done = done + escape;
            }

            if let Some(found) = remaining.first() {
                // memchr found a byte that needs escaping, so let's do that
                let b = *found;
                proof {
                    lemma_escaped_concat(self.data@.take(done), seq![b]);
                    assert(escaped(seq![b]) == escaped_byte(b)) by {
                        reveal_with_fuel(escaped, 2);
                    }
                    assert(self.data@.take(done) + seq![b] == self.data@.take(done + 1));
                }
                put(w, [ESCAPE_MARKER, b ^ ESCAPE_MASK].as_slice())?;
                remaining = &remaining[1..remaining.len()];
                proof {
                    done = done + 1;
                }
            }
        }
        proof {
            assert(self.data@.take(done) == self.data@);
        }

        put(w, [CHECKSUM_MARKER].as_slice())?;
        put(w, self.checksum.as_slice())?;
        Ok(())
    }

    /// Returns a checked packet if, and only if, the checksum field declares
    /// the checksum of the payload.
    pub fn check(self) -> (checked: Option<CheckedPacket>)
        ensures
            checked is Some <==> self@.is_valid(),
            checked matches Some(packet) ==> packet@ == self@,
    {
        let matches = match self.expected_checksum() {
            Ok(expected) => expected == self.actual_checksum(),
            Err(_) => false,
        };
        if matches {
            Some(CheckedPacket::assume_checked(self))
        } else {
            None
        }
    }
}

/// A packet whose checksum field declares the checksum of its payload.
#[derive(Debug, PartialEq, Eq)]
pub struct CheckedPacket {
    unchecked: UncheckedPacket,
}

impl View for CheckedPacket {
    type V = Frame;

    closed spec fn view(&self) -> Frame {
        self.unchecked@
    }
}

impl Clone for CheckedPacket {
    fn clone(&self) -> (copy: Self)
        ensures
            copy@ == self@,
    {
        proof {
            use_type_invariant(self);
        }
        Self { unchecked: self.unchecked.clone() }
    }
}

impl CheckedPacket {
    #[verifier::type_invariant]
    spec fn checksum_matches(self) -> bool {
        self.unchecked@.is_valid()
    }

    /// Marks as checked a packet that is known to be valid, without
    /// computing anything.
    pub fn assume_checked(unchecked: UncheckedPacket) -> (packet: Self)
        requires
            unchecked@.is_valid(),
        ensures
            packet@ == unchecked@,
    {
        Self { unchecked }
    }

    /// If you intend to mutate the packet's internals, you must first
    /// convert it to an unchecked packet so it isn't marked as checked.
    pub fn invalidate_check(self) -> (unchecked: UncheckedPacket)
        ensures
            unchecked@ == self@,
            unchecked@.is_valid(),
    {
        proof {
            use_type_invariant(&self);
        }
        self.unchecked
    }

    /// The empty packet is used when you get a packet which you just
    /// don't understand. Replying an empty packet means "I don't
    /// support this feature".
    pub fn empty() -> (packet: Self)
        ensures
            packet@ == (Frame { kind: Kind::Packet, data: Seq::empty(), checksum: seq![0x30, 0x30] }),
    {
        let unchecked = UncheckedPacket { kind: Kind::Packet, data: Vec::new(), checksum: [0x30, 0x30] };
        Self::assume_checked(unchecked)
    }

    /// Creates a packet from the given binary data, and generates the
    /// checksum from it.
    pub fn from_data(kind: Kind, data: Vec<u8>) -> (packet: Self)
        ensures
            packet@ == (Frame { kind, data: data@, checksum: checksum_text(checksum_of(data@)) }),
    {
        let mut packet = UncheckedPacket { kind, data, checksum: [0; 2] };
        let actual = packet.actual_checksum();
        packet.checksum = format_checksum(actual);
        proof {
            lemma_checksum_text_declares(actual);
        }
        Self::assume_checked(packet)
    }
}

// No DerefMut, because then the checksum/data could be modified
impl std::ops::Deref for CheckedPacket {
    type Target = UncheckedPacket;

    fn deref(&self) -> (unchecked: &UncheckedPacket)
        ensures
            unchecked@ == self@,
            unchecked@.is_valid(),
    {
        proof {
            use_type_invariant(self);
        }
        &self.unchecked
    }
}

} // verus!
