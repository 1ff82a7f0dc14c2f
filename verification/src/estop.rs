//! Emergency-stop framing: a fixed ten-byte encoding, sent on a high-priority
//! reliable stream and repeated on unreliable datagrams.

use vstd::prelude::*;
use crate::wire::{push_be, read_be};

verus! {

/// The server-initiated bidirectional stream that carries emergency stops.
pub const ESTOP_STREAM_ID: u64 = 5;

/// Lower is more urgent.
pub const ESTOP_STREAM_URGENCY: u8 = 0;

/// First byte of every emergency-stop datagram.
pub const ESTOP_DATAGRAM_MAGIC: u8 = 0xE5;

/// How often a latched stop is repeated, per second.
pub const ESTOP_REDUNDANT_HZ: u32 = 1000;

/// Encoded length in bytes.
pub const ESTOP_DATAGRAM_LEN: usize = 10;

#[derive(Debug, Clone, Copy, PartialEq, Eq, Structural)]
pub struct EstopDatagram {
    pub latched: bool,
    pub seq: u64,
}

impl EstopDatagram {
    /// Magic byte, latch flag, sequence number most significant byte first.
    pub open spec fn bytes(self) -> Seq<u8> {
        seq![ESTOP_DATAGRAM_MAGIC, if self.latched { 1u8 } else { 0u8 }]
            + crate::wire::be_digits(self.seq as nat, 8)
    }

    /// What a byte string means: nothing if it is short or lacks the magic
    /// byte; trailing bytes are ignored and any non-zero flag means latched.
    pub open spec fn parse(s: Seq<u8>) -> Option<EstopDatagram> {
        if s.len() < ESTOP_DATAGRAM_LEN || s[0] != ESTOP_DATAGRAM_MAGIC {
            None
        } else {
            Some(
                (EstopDatagram {
                    latched: s[1] != 0,
                    seq: crate::wire::be_value(s.subrange(2, 10)) as u64,
                }),
            )
        }
    }

    pub fn encode(&self) -> (out: Vec<u8>)
        ensures
            out@ == self.bytes(),
            out@.len() == ESTOP_DATAGRAM_LEN,
    {
        let mut out: Vec<u8> = Vec::new();
        out.push(ESTOP_DATAGRAM_MAGIC);
        if self.latched {
            out.push(1);
        } else {
            out.push(0);
        }
        push_be(&mut out, self.seq, 8);
        proof {
            crate::wire::lemma_be_digits_len(self.seq as nat, 8);
            assert(out@ =~= self.bytes());
        }
        out
    }

    pub fn decode(bytes: &[u8]) -> (r: Option<Self>)
        ensures
            r == Self::parse(bytes@),
    {
        if bytes.len() < ESTOP_DATAGRAM_LEN || bytes[0] != ESTOP_DATAGRAM_MAGIC {
            return None;
        }
        Some(EstopDatagram { latched: bytes[1] != 0, seq: read_be(bytes, 2, 8) })
    }

    /// Decoding an encoded datagram gives it back, whatever follows it.
    pub proof fn lemma_round_trip(self, rest: Seq<u8>)
        ensures
            Self::parse(self.bytes() + rest) == Some(self),
    {
        crate::wire::lemma_pow256_widths();
        crate::wire::lemma_be_round_trip(self.seq as nat, 8);
        let s = self.bytes() + rest;
        assert(s.subrange(2, 10) =~= crate::wire::be_digits(self.seq as nat, 8));
    }
}

/// What is on the wire: ten bytes, of which the first marks a stop message, the
/// second says whether the robot is stopped, and the rest is the number of the
/// message. Two messages that differ at all differ on the wire.
pub proof fn lemma_stop_on_the_wire(d: EstopDatagram, other: EstopDatagram)
    ensures
        d.bytes().len() == 10,
        d.bytes()[0] == 0xE5,
        d.bytes()[1] == 1 <==> d.latched,
        d.bytes()[1] == 0 <==> !d.latched,
        crate::wire::be_value(d.bytes().subrange(2, 10)) == d.seq,
        d.bytes() == other.bytes() ==> d == other,
{
    crate::wire::lemma_pow256_widths();
    crate::wire::lemma_be_round_trip(d.seq as nat, 8);
    crate::wire::lemma_be_round_trip(other.seq as nat, 8);
    assert(d.bytes().subrange(2, 10) =~= crate::wire::be_digits(d.seq as nat, 8));
    assert(other.bytes().subrange(2, 10) =~= crate::wire::be_digits(other.seq as nat, 8));
}

/// What is read: nothing of a message that is too short or bears another mark;
/// otherwise a stop unless the second byte is zero.
pub proof fn lemma_stop_is_read(s: Seq<u8>)
    ensures
        EstopDatagram::parse(s) is Some <==> s.len() >= 10 && s[0] == 0xE5,
        EstopDatagram::parse(s) matches Some(d) ==> d.latched == (s[1] != 0) && d.seq
            == crate::wire::be_value(s.subrange(2, 10)),
{
    if s.len() >= 10 {
        crate::wire::lemma_pow256_widths();
        crate::wire::lemma_be_digits_of_value(s.subrange(2, 10));
    }
}

} // verus!
