//! Unreliable datagrams share one unchannelized stream, so each carries a
//! one-byte type tag in front of its payload. The receiver looks at the tag
//! before it tries to decode anything.
//!
//! Emergency-stop datagrams keep a magic byte of their own
//! (`estop::ESTOP_DATAGRAM_MAGIC`), which no tag uses.

use vstd::prelude::*;

verus! {

/// Command and telemetry frames.
pub const DATAGRAM_TAG_CHANNEL_B: u8 = 0x01;

/// Video chunks.
pub const DATAGRAM_TAG_CHANNEL_A: u8 = 0x02;

/// The datagram that carries `payload` under `tag_byte`.
pub open spec fn tagged(tag_byte: u8, payload: Seq<u8>) -> Seq<u8> {
    seq![tag_byte] + payload
}

/// Prefixes `payload` with a one-byte datagram type tag.
pub fn tag(tag_byte: u8, payload: &[u8]) -> (out: Vec<u8>)
    ensures
        out@ == tagged(tag_byte, payload@),
{
    let mut out: Vec<u8> = Vec::new();
    out.push(tag_byte);
    out.extend_from_slice(payload);
    assert(out@ =~= tagged(tag_byte, payload@));
    out
}

/// Splits a received datagram into its type tag and a freshly allocated copy
/// of the payload; an empty datagram has neither.
pub fn untag(datagram: &[u8]) -> (r: Option<(u8, Vec<u8>)>)
    ensures
        match r {
            Some((t, payload)) => datagram@ == tagged(t, payload@),
            None => datagram@.len() == 0,
        },
{
    if datagram.len() == 0 {
        return None;
    }
    let rest: &[u8] = vstd::slice::slice_subrange(datagram, 1, datagram.len());
    let mut payload: Vec<u8> = Vec::new();
    payload.extend_from_slice(rest);
    assert(datagram@ =~= tagged(datagram@[0], payload@));
    Some((datagram[0], payload))
}

/// Tagging determines tag and payload: two datagrams agree only if both do,
/// so whatever `untag` returns for a tagged datagram is what was tagged.
pub proof fn lemma_tag_injective(t1: u8, p1: Seq<u8>, t2: u8, p2: Seq<u8>)
    requires
        tagged(t1, p1) == tagged(t2, p2),
    ensures
        t1 == t2,
        p1 == p2,
{
    let a = tagged(t1, p1);
    let b = tagged(t2, p2);
    assert(a[0] == t1 && b[0] == t2);
    assert(p1 =~= a.subrange(1, a.len() as int));
    assert(p2 =~= b.subrange(1, b.len() as int));
}

/// A tagged datagram is one byte longer than its payload: the tag, and then the
/// payload as it is.
pub proof fn lemma_tag_comes_first(tag_byte: u8, payload: Seq<u8>)
    ensures
        tagged(tag_byte, payload).len() == payload.len() + 1,
        tagged(tag_byte, payload)[0] == tag_byte,
        tagged(tag_byte, payload).subrange(1, payload.len() as int + 1) == payload,
{
    assert(tagged(tag_byte, payload).subrange(1, payload.len() as int + 1) =~= payload);
}

} // verus!
