//! The capability handshake message.

use vstd::prelude::*;
use crate::fb::{fb_get_u16, fb_get_u64, fb_get_u8, fb_new, fb_root};
use crate::fb_table::{
    check_root, check_scalar, end_table, finish, put_u16, put_u64, put_u8, start_table,
};
use crate::fb_table;
use crate::hello::{HelloCapabilities, ProtocolVersion};

verus! {

/// Why a received message could not be read.
#[derive(Debug, Clone, Copy, PartialEq, Eq, Structural)]
pub enum DecodeError {
    /// The bytes are no buffer of the expected kind: an offset leads outside.
    Malformed,
    /// A session description without a robot profile.
    MissingRobotProfile,
}

/// Can a handshake message be read from `s`?
pub open spec fn hello_ok(s: Seq<u8>) -> bool {
    let t = crate::fb::root(s);
    &&& crate::fb::root_ok(s)
    &&& crate::fb::scalar_ok(s, t, 4, 2)
    &&& crate::fb::scalar_ok(s, t, 6, 8)
    &&& crate::fb::scalar_ok(s, t, 8, 1)
    &&& crate::fb::scalar_ok(s, t, 10, 1)
    &&& crate::fb::scalar_ok(s, t, 12, 2)
}

/// The handshake message in `s`.
pub open spec fn hello_in(s: Seq<u8>) -> HelloCapabilities {
    let t = crate::fb::root(s);
    HelloCapabilities {
        protocol_version: ProtocolVersion::of_wire(crate::fb::scalar(s, t, 4, 2, 0) as u16),
        capability_bitmask: crate::fb::scalar(s, t, 6, 8, 0) as u64,
        supported_task_classes: crate::fb::scalar(s, t, 8, 1, 0) as u8,
        supported_quantization_tiers: crate::fb::scalar(s, t, 10, 1, 0) as u8,
        max_control_rate_hz: crate::fb::scalar(s, t, 12, 2, 0) as u16,
    }
}

/// The message that announces `caps`; it reads back as `caps`.
pub fn encode_hello(caps: &HelloCapabilities) -> (out: Vec<u8>)
    ensures
        hello_ok(out@),
        hello_in(out@) == *caps,
        out@.len() <= 256,
{
    let mut b = fb_new();
    let start: u32 = start_table(&mut b);
    put_u64(&mut b, 6, caps.capability_bitmask);
    put_u16(&mut b, 12, caps.max_control_rate_hz);
    put_u16(&mut b, 4, caps.protocol_version.encode());
    put_u8(&mut b, 10, caps.supported_quantization_tiers);
    put_u8(&mut b, 8, caps.supported_task_classes);
    let ghost before = b;
    proof {
        assert(fb_table::holds(before, 6, 8, caps.capability_bitmask as nat, 0));
        assert(fb_table::holds(before, 12, 2, caps.max_control_rate_hz as nat, 0));
        assert(fb_table::holds(before, 4, 2, caps.protocol_version.wire() as nat, 0));
        assert(fb_table::holds(before, 10, 1, caps.supported_quantization_tiers as nat, 0));
        assert(fb_table::holds(before, 8, 1, caps.supported_task_classes as nat, 0));
    }
    let pos: u32 = end_table(&mut b, start);
    let out: Vec<u8> = finish(b, pos);
    proof {
        caps.protocol_version.lemma_round_trip(0);
    }
    out
}

/// Reads a handshake message; an error exactly if it cannot be read.
pub fn decode_hello(buf: &[u8]) -> (r: Result<HelloCapabilities, DecodeError>)
    ensures
        r == if hello_ok(buf@) {
            Ok::<HelloCapabilities, DecodeError>(hello_in(buf@))
        } else {
            Err::<HelloCapabilities, DecodeError>(DecodeError::Malformed)
        },
{
    if !check_root(buf) {
        return Err(DecodeError::Malformed);
    }
    let t: usize = fb_root(buf);
    if !(check_scalar(buf, t, 4, 2) && check_scalar(buf, t, 6, 8) && check_scalar(buf, t, 8, 1)
        && check_scalar(buf, t, 10, 1) && check_scalar(buf, t, 12, 2)) {
        return Err(DecodeError::Malformed);
    }
    Ok(
        HelloCapabilities {
            protocol_version: ProtocolVersion::decode(fb_get_u16(buf, t, 4, 0)),
            capability_bitmask: fb_get_u64(buf, t, 6, 0),
            supported_task_classes: fb_get_u8(buf, t, 8, 0),
            supported_quantization_tiers: fb_get_u8(buf, t, 10, 0),
            max_control_rate_hz: fb_get_u16(buf, t, 12, 0),
        },
    )
}

/// Where the parts of a greeting are, by the places of the message's table.
pub proof fn lemma_places_of_a_greeting(s: Seq<u8>)
    ensures
        ({
            let t = crate::fb::root(s);
            let h = hello_in(s);
            let version = crate::fb::scalar(s, t, 4, 2, 0) as u16;
            &&& h.protocol_version.major == version / 256
            &&& h.protocol_version.minor == version % 256
            &&& h.capability_bitmask == crate::fb::scalar(s, t, 6, 8, 0) as u64
            &&& h.supported_task_classes == crate::fb::scalar(s, t, 8, 1, 0) as u8
            &&& h.supported_quantization_tiers == crate::fb::scalar(s, t, 10, 1, 0) as u8
            &&& h.max_control_rate_hz == crate::fb::scalar(s, t, 12, 2, 0) as u16
        }),
{
}

} // verus!
