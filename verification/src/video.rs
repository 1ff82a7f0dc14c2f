//! Video chunk framing, Annex-B splitting and reassembly.
//!
//! A compressed picture unit (a NAL) is cut into datagram-sized chunks, each
//! with a small fixed header. A lost chunk costs that one NAL; nothing is
//! retransmitted and nothing is resequenced across NALs.

use vstd::prelude::*;
use crate::wire::{push_be, read_be};

verus! {

/// `nal_id` (four bytes), `chunk_index` (two bytes), `is_last` (one byte).
pub const CHUNK_HEADER_LEN: usize = 7;

pub const MAX_CHUNK_PAYLOAD: usize = 1100;

#[derive(Debug, Clone, Copy, PartialEq, Eq, Structural)]
pub struct ChunkHeader {
    pub nal_id: u32,
    pub chunk_index: u16,
    pub is_last: bool,
}

impl ChunkHeader {
    pub open spec fn bytes(self) -> Seq<u8> {
        crate::wire::be_digits(self.nal_id as nat, 4) + crate::wire::be_digits(
            self.chunk_index as nat,
            2,
        ) + seq![if self.is_last { 1u8 } else { 0u8 }]
    }

    /// The header at the front of `s`, which holds at least a header.
    pub open spec fn of_bytes(s: Seq<u8>) -> ChunkHeader {
        ChunkHeader {
            nal_id: crate::wire::be_value(s.subrange(0, 4)) as u32,
            chunk_index: crate::wire::be_value(s.subrange(4, 6)) as u16,
            is_last: s[6] != 0,
        }
    }

    /// Appends the encoded header.
    pub fn encode(&self, out: &mut Vec<u8>)
        ensures
            final(out)@ == old(out)@ + self.bytes(),
    {
        push_be(out, self.nal_id as u64, 4);
        push_be(out, self.chunk_index as u64, 2);
        if self.is_last {
            out.push(1);
        } else {
            out.push(0);
        }
        assert(out@ =~= old(out)@ + self.bytes());
    }

    /// Header and payload of a received chunk; `None` exactly if it is too
    /// short to hold a header.
    pub fn decode(bytes: &[u8]) -> (r: Option<(Self, &[u8])>)
        ensures
            r is None <==> bytes@.len() < CHUNK_HEADER_LEN,
            r matches Some((header, payload)) ==> header == Self::of_bytes(bytes@) && payload@
                == bytes@.subrange(CHUNK_HEADER_LEN as int, bytes@.len() as int),
    {
        if bytes.len() < CHUNK_HEADER_LEN {
            return None;
        }
        proof {
            crate::wire::lemma_pow256_widths();
            crate::wire::lemma_be_digits_of_value(bytes@.subrange(0, 4));
            crate::wire::lemma_be_digits_of_value(bytes@.subrange(4, 6));
        }
        let nal_id: u32 = read_be(bytes, 0, 4) as u32;
        let chunk_index: u16 = read_be(bytes, 4, 2) as u16;
        let is_last = bytes[6] != 0;
        Some(
            (
                ChunkHeader { nal_id, chunk_index, is_last },
                vstd::slice::slice_subrange(bytes, CHUNK_HEADER_LEN, bytes.len()),
            ),
        )
    }

    /// A header in front of any payload decodes to itself, and the payload is
    /// what follows.
    pub proof fn lemma_round_trip(self, payload: Seq<u8>)
        ensures
            self.bytes().len() == CHUNK_HEADER_LEN,
            Self::of_bytes(self.bytes() + payload) == self,
            (self.bytes() + payload).subrange(
                CHUNK_HEADER_LEN as int,
                (self.bytes() + payload).len() as int,
            ) == payload,
    {
        crate::wire::lemma_pow256_widths();
        crate::wire::lemma_be_round_trip(self.nal_id as nat, 4);
        crate::wire::lemma_be_round_trip(self.chunk_index as nat, 2);
        let s = self.bytes() + payload;
        assert(s.subrange(0, 4) =~= crate::wire::be_digits(self.nal_id as nat, 4));
        assert(s.subrange(4, 6) =~= crate::wire::be_digits(self.chunk_index as nat, 2));
        assert(s.subrange(CHUNK_HEADER_LEN as int, s.len() as int) =~= payload);
    }
}

/// Sequence parameter sets, picture parameter sets and key-frame slices: a
/// decoder cannot recover from losing one. `nal` carries no start code.
pub open spec fn critical(nal: Seq<u8>) -> bool {
    nal.len() > 0 && (nal[0] % 32 == 5 || nal[0] % 32 == 7 || nal[0] % 32 == 8)
}

pub fn nal_is_critical(nal: &[u8]) -> (b: bool)
    ensures
        b == critical(nal@),
{
    if nal.len() == 0 {
        return false;
    }
    let kind: u8 = nal[0] % 32;
    kind == 5 || kind == 7 || kind == 8
}

/// How many chunks a NAL of `len` bytes takes.
pub open spec fn chunk_count(len: nat) -> nat {
    (len + MAX_CHUNK_PAYLOAD - 1) as nat / MAX_CHUNK_PAYLOAD as nat
}

/// The payload of chunk `i`.
pub open spec fn chunk_payload(nal: Seq<u8>, i: int) -> Seq<u8> {
    nal.subrange(
        i * MAX_CHUNK_PAYLOAD,
        if (i + 1) * MAX_CHUNK_PAYLOAD < nal.len() {
            (i + 1) * MAX_CHUNK_PAYLOAD
        } else {
            nal.len() as int
        },
    )
}

/// The header of chunk `i`; its index has sixteen bits on the wire.
pub open spec fn chunk_header(nal_id: u32, nal: Seq<u8>, i: int) -> ChunkHeader {
    ChunkHeader {
        nal_id,
        chunk_index: (i % 0x1_0000) as u16,
        is_last: i + 1 == chunk_count(nal.len()),
    }
}

/// Splits one NAL (without its start code) into datagram-sized chunks.
pub fn chunk_nal(nal_id: u32, nal: &[u8]) -> (out: Vec<Vec<u8>>)
    requires
        nal@.len() + MAX_CHUNK_PAYLOAD <= usize::MAX,
    ensures
        out@.len() == chunk_count(nal@.len()),
        forall|i: int|
            0 <= i < out@.len() ==> (#[trigger] out@[i])@ == chunk_header(nal_id, nal@, i).bytes()
                + chunk_payload(nal@, i),
{
    let mut out: Vec<Vec<u8>> = Vec::new();
    let n_chunks: usize = (nal.len() + (MAX_CHUNK_PAYLOAD - 1)) / MAX_CHUNK_PAYLOAD;
    let mut i: usize = 0;
    while i < n_chunks
        invariant
            i <= n_chunks,
            n_chunks == chunk_count(nal@.len()),
            nal@.len() + MAX_CHUNK_PAYLOAD <= usize::MAX,
            out@.len() == i,
            forall|j: int|
                0 <= j < i ==> (#[trigger] out@[j])@ == chunk_header(nal_id, nal@, j).bytes()
                    + chunk_payload(nal@, j),
        decreases n_chunks - i,
    {
        let from: usize = i * MAX_CHUNK_PAYLOAD;
        let to: usize = if nal.len() - from > MAX_CHUNK_PAYLOAD {
            from + MAX_CHUNK_PAYLOAD
        } else {
            nal.len()
        };
        let mut buf: Vec<u8> = Vec::new();
        let chunk_index: u16 = (i % 0x1_0000) as u16;
        let header = ChunkHeader { nal_id, chunk_index, is_last: i + 1 == n_chunks };
        header.encode(&mut buf);
        buf.extend_from_slice(vstd::slice::slice_subrange(nal, from, to));
        proof {
            assert(header == chunk_header(nal_id, nal@, i as int));
            assert(buf@ =~= header.bytes() + chunk_payload(nal@, i as int));
        }
        out.push(buf);
        i = i + 1;
    }
    out
}

/// The payloads of the first `k` chunks, joined.
pub open spec fn joined_payloads(nal: Seq<u8>, k: nat) -> Seq<u8>
    decreases k,
{
    if k == 0 {
        Seq::empty()
    } else {
        joined_payloads(nal, (k - 1) as nat) + chunk_payload(nal, k - 1)
    }
}

/// Cutting loses nothing: the chunk payloads, joined, are the NAL.
pub proof fn lemma_chunks_cover_nal(nal: Seq<u8>)
    ensures
        joined_payloads(nal, chunk_count(nal.len())) == nal,
{
    let n = chunk_count(nal.len());
    if n > 0 {
        lemma_joined_prefix(nal, (n - 1) as nat);
        assert(joined_payloads(nal, n) =~= nal);
    } else {
        assert(nal =~= Seq::<u8>::empty());
    }
}

proof fn lemma_joined_prefix(nal: Seq<u8>, k: nat)
    requires
        k < chunk_count(nal.len()),
    ensures
        joined_payloads(nal, k) == nal.take(k * MAX_CHUNK_PAYLOAD),
        k * MAX_CHUNK_PAYLOAD < nal.len(),
    decreases k,
{
    if k > 0 {
        lemma_joined_prefix(nal, (k - 1) as nat);
        assert(joined_payloads(nal, k) =~= nal.take(k * MAX_CHUNK_PAYLOAD));
    } else {
        assert(joined_payloads(nal, 0) =~= nal.take(0));
    }
}

/// Does `s` end in the three bytes that complete a start code?
pub open spec fn ends_in_mark(s: Seq<u8>) -> bool {
    s.len() >= 3 && s[s.len() - 3] == 0 && s[s.len() - 2] == 0 && s[s.len() - 1] == 1
}

/// The start code that the last three bytes of `s` complete, as (offset of the
/// code, offset of the data behind it): it takes in one more leading zero
/// byte where there is one.
pub open spec fn last_code(s: Seq<u8>) -> (int, int) {
    let p = s.len() - 3;
    (
        if p > 0 && s[p - 1] == 0 {
            p - 1
        } else {
            p
        },
        s.len() as int,
    )
}

/// Every start code in `s`, in order.
pub open spec fn start_codes(s: Seq<u8>) -> Seq<(int, int)>
    decreases s.len(),
{
    if s.len() == 0 {
        Seq::empty()
    } else if ends_in_mark(s) {
        start_codes(s.drop_last()).push(last_code(s))
    } else {
        start_codes(s.drop_last())
    }
}

/// The NALs that `s` completes: what stands between two start codes.
pub open spec fn complete_nals(s: Seq<u8>) -> Seq<Seq<u8>> {
    let codes = start_codes(s);
    Seq::new(
        if codes.len() == 0 {
            0
        } else {
            (codes.len() - 1) as nat
        },
        |i: int| s.subrange(codes[i].1, codes[i + 1].0),
    )
}

/// What of `s` still has to be kept: everything from the last start code on,
/// or all of it while there are fewer than two.
pub open spec fn unfinished(s: Seq<u8>) -> Seq<u8> {
    let codes = start_codes(s);
    if codes.len() < 2 {
        s
    } else {
        s.subrange(codes.last().0, s.len() as int)
    }
}

/// Start codes lie inside the stream, in order, and do not overlap.
proof fn lemma_codes_ordered(s: Seq<u8>)
    ensures
        forall|i: int|
            0 <= i < start_codes(s).len() ==> 0 <= (#[trigger] start_codes(s)[i]).0
                < start_codes(s)[i].1 <= s.len() && start_codes(s)[i].1 - start_codes(s)[i].0 <= 4
                && start_codes(s)[i].1 - start_codes(s)[i].0 >= 3 && s[start_codes(s)[i].1 - 1] == 1
                && s[start_codes(s)[i].1 - 2] == 0 && s[start_codes(s)[i].1 - 3] == 0
                && s[start_codes(s)[i].0] == 0,
        forall|i: int, j: int|
            0 <= i < j < start_codes(s).len() ==> (#[trigger] start_codes(s)[i]).1 <= (
            #[trigger] start_codes(s)[j]).0,
    decreases s.len(),
{
    if s.len() > 0 {
        let t = s.drop_last();
        lemma_codes_ordered(t);
        let old_codes = start_codes(t);
        if ends_in_mark(s) {
            let c = last_code(s);
            assert(start_codes(s) =~= old_codes.push(c));
            assert forall|i: int, j: int| 0 <= i < j < start_codes(s).len() implies (
            #[trigger] start_codes(s)[i]).1 <= (#[trigger] start_codes(s)[j]).0 by {
                if j == old_codes.len() {
                    assert(start_codes(s)[i] == old_codes[i]);
                    assert(t[old_codes[i].1 - 1] == 1);
                    assert(s[old_codes[i].1 - 1] == 1);
                }
            }
        }
    }
}

/// Later bytes do not change the start codes already found.
proof fn lemma_codes_prefix(a: Seq<u8>, b: Seq<u8>)
    ensures
        start_codes(a).len() <= start_codes(a + b).len(),
        start_codes(a + b).take(start_codes(a).len() as int) == start_codes(a),
    decreases b.len(),
{
    if b.len() == 0 {
        assert(a + b =~= a);
        assert(start_codes(a).take(start_codes(a).len() as int) =~= start_codes(a));
    } else {
        let s = a + b;
        assert(s.drop_last() =~= a + b.drop_last());
        lemma_codes_prefix(a, b.drop_last());
        let n = start_codes(a).len() as int;
        assert(start_codes(s).take(n) =~= start_codes(s.drop_last()).take(n));
    }
}

/// The codes of `s` from the `j`-th on, counted from offset `k`.
spec fn shifted(codes: Seq<(int, int)>, j: int, k: int) -> Seq<(int, int)> {
    Seq::new((codes.len() - j) as nat, |i: int| (codes[i + j].0 - k, codes[i + j].1 - k))
}

/// Cutting the stream in front of its `j`-th start code keeps the codes from
/// there on.
proof fn lemma_codes_cut(s: Seq<u8>, j: int)
    requires
        0 <= j < start_codes(s).len(),
    ensures
        start_codes(s.subrange(start_codes(s)[j].0, s.len() as int)) == shifted(
            start_codes(s),
            j,
            start_codes(s)[j].0,
        ),
    decreases s.len(),
{
    lemma_codes_ordered(s);
    let codes = start_codes(s);
    let k = codes[j].0;
    let cut = s.subrange(k, s.len() as int);
    let t = s.drop_last();
    if j < start_codes(t).len() {
        // The code was there before the last byte came.
        assert(start_codes(t)[j] == codes[j]);
        lemma_codes_cut(t, j);
        lemma_codes_ordered(t);
        assert(cut.drop_last() =~= t.subrange(k, t.len() as int));
        if ends_in_mark(s) {
            assert(codes[codes.len() - 1] == last_code(s));
            assert(codes[j].1 <= last_code(s).0);
            assert(ends_in_mark(cut));
        } else {
            if ends_in_mark(cut) {
                assert(ends_in_mark(s));
            }
        }
        assert(start_codes(cut) =~= shifted(codes, j, k));
    } else {
        // The last byte completed this very code.
        assert(ends_in_mark(s) && codes[j] == last_code(s) && j == codes.len() - 1);
        assert(ends_in_mark(cut));
        let c1 = cut.drop_last();
        let c2 = c1.drop_last();
        let c3 = c2.drop_last();
        assert(start_codes(c1) =~= Seq::<(int, int)>::empty()) by {
            assert(!ends_in_mark(c1));
            assert(!ends_in_mark(c2));
            if c3.len() > 0 {
                assert(!ends_in_mark(c3));
                assert(c3.drop_last().len() == 0);
            }
            reveal_with_fuel(start_codes, 5);
        }
        assert(start_codes(cut) =~= shifted(codes, j, k));
    }
}

/// Feeding a stream in pieces gives the same NALs as feeding it at once: the
/// NALs of `a + b` are those of `a`, followed by those of what was kept of `a`
/// together with `b`, and what is kept in the end is the same too.
pub proof fn lemma_split_incrementally(a: Seq<u8>, b: Seq<u8>)
    ensures
        complete_nals(a + b) == complete_nals(a) + complete_nals(unfinished(a) + b),
        unfinished(a + b) == unfinished(unfinished(a) + b),
{
    let s = a + b;
    let ca = start_codes(a);
    let cs = start_codes(s);
    lemma_codes_prefix(a, b);
    lemma_codes_ordered(a);
    lemma_codes_ordered(s);
    assert forall|i: int| 0 <= i < ca.len() implies cs[i] == ca[i] by {
        assert(cs.take(ca.len() as int)[i] == ca[i]);
    }
    if ca.len() < 2 {
        assert(complete_nals(a) =~= Seq::<Seq<u8>>::empty());
        assert(complete_nals(s) =~= complete_nals(a) + complete_nals(unfinished(a) + b));
    } else {
        let j = ca.len() - 1;
        let k = ca[j].0;
        let rest = unfinished(a) + b;
        assert(rest =~= s.subrange(k, s.len() as int));
        lemma_codes_cut(s, j);
        let cr = start_codes(rest);
        assert(cr == shifted(cs, j, k));
        let lhs = complete_nals(s);
        let rhs = complete_nals(a) + complete_nals(rest);
        assert(lhs.len() == rhs.len());
        assert forall|i: int| 0 <= i < lhs.len() implies lhs[i] == rhs[i] by {
            if i < j {
                assert(rhs[i] == a.subrange(ca[i].1, ca[i + 1].0));
                assert(lhs[i] =~= rhs[i]);
            } else {
                assert(rhs[i] == rest.subrange(cr[i - j].1, cr[i - j + 1].0));
                assert(cr[i - j] == (cs[i].0 - k, cs[i].1 - k));
                assert(cr[i - j + 1] == (cs[i + 1].0 - k, cs[i + 1].1 - k));
                assert(lhs[i] =~= rhs[i]);
            }
        }
        assert(lhs =~= rhs);
        if cr.len() < 2 {
            assert(cs.len() == ca.len());
            assert(unfinished(s) =~= rest);
        } else {
            assert(cr.last() == (cs.last().0 - k, cs.last().1 - k));
            assert(unfinished(s) =~= unfinished(rest));
        }
    }
}

/// Finds complete NALs in a byte stream that is fed piece by piece. A NAL is
/// handed back, without its start code, once the next start code shows that it
/// is complete; bytes before the first start code are discarded.
pub struct AnnexBSplitter {
    buf: Vec<u8>,
}

impl AnnexBSplitter {
    /// The bytes held back.
    pub closed spec fn kept(&self) -> Seq<u8> {
        self.buf@
    }

    pub fn new() -> (s: Self)
        ensures
            s.kept() == Seq::<u8>::empty(),
    {
        AnnexBSplitter { buf: Vec::new() }
    }

    /// Appends `data` and returns the NALs that are now complete.
    pub fn push(&mut self, data: &[u8]) -> (nals: Vec<Vec<u8>>)
        ensures
            nals@.len() == complete_nals(old(self).kept() + data@).len(),
            forall|i: int|
                0 <= i < nals@.len() ==> (#[trigger] nals@[i])@ == complete_nals(
                    old(self).kept() + data@,
                )[i],
            final(self).kept() == unfinished(old(self).kept() + data@),
    {
        self.buf.extend_from_slice(data);
        let ghost all = old(self).kept() + data@;
        assert(self.buf@ =~= all);
        let starts: Vec<(usize, usize)> = find_start_codes(self.buf.as_slice());
        let mut nals: Vec<Vec<u8>> = Vec::new();
        if starts.len() < 2 {
            return nals;
        }
        proof {
            lemma_codes_ordered(all);
        }
        let mut i: usize = 0;
        while i + 1 < starts.len()
            invariant
                i + 1 <= starts.len(),
                self.buf@ == all,
                starts@.len() == start_codes(all).len(),
                starts@.len() >= 2,
                forall|j: int|
                    0 <= j < starts@.len() ==> start_codes(all)[j] == (
                        (#[trigger] starts@[j]).0 as int,
                        starts@[j].1 as int,
                    ),
                forall|j: int|
                    0 <= j < start_codes(all).len() ==> 0 <= (#[trigger] start_codes(all)[j]).0
                        < start_codes(all)[j].1 <= all.len(),
                forall|a: int, b: int|
                    0 <= a < b < start_codes(all).len() ==> (#[trigger] start_codes(all)[a]).1 <= (
                    #[trigger] start_codes(all)[b]).0,
                nals@.len() == i,
                forall|j: int|
                    0 <= j < i ==> (#[trigger] nals@[j])@ == complete_nals(all)[j],
            decreases starts.len() - i,
        {
            let from: usize = starts[i].1;
            let to: usize = starts[i + 1].0;
            let mut nal: Vec<u8> = Vec::new();
            proof {
                assert(start_codes(all)[i as int].1 <= start_codes(all)[i + 1].0);
                assert(start_codes(all)[i + 1] == (
                    starts@[i + 1].0 as int,
                    starts@[i + 1].1 as int,
                ));
            }
            nal.extend_from_slice(vstd::slice::slice_subrange(self.buf.as_slice(), from, to));
            proof {
                assert(nal@ =~= complete_nals(all)[i as int]);
            }
            nals.push(nal);
            i = i + 1;
        }
        let keep_from: usize = starts[starts.len() - 1].0;
        let kept: Vec<u8> = self.buf.split_off(keep_from);
        self.buf = kept;
        proof {
            assert(self.buf@ =~= unfinished(all));
        }
        nals
    }
}

impl Default for AnnexBSplitter {
    fn default() -> (s: Self)
        ensures
            s.kept() == Seq::<u8>::empty(),
    {
        Self::new()
    }
}

/// Do the three bytes at `p` complete a start code?
spec fn mark_at(s: Seq<u8>, p: int) -> bool {
    p + 3 <= s.len() && s[p] == 0 && s[p + 1] == 0 && s[p + 2] == 1
}

/// No start code of `buf` ends in `from..=to`.
spec fn no_mark_in(buf: Seq<u8>, from: int, to: int) -> bool {
    forall|n: int| from <= n <= to ==> !ends_in_mark(#[trigger] buf.take(n))
}

proof fn lemma_codes_skip(buf: Seq<u8>, from: int, to: int)
    requires
        0 <= from <= to <= buf.len(),
        no_mark_in(buf, from + 1, to),
    ensures
        start_codes(buf.take(to)) == start_codes(buf.take(from)),
    decreases to - from,
{
    if from < to {
        lemma_codes_skip(buf, from, to - 1);
        assert(buf.take(to).drop_last() =~= buf.take(to - 1));
    }
}

/// (offset of the code, offset of the data behind it) for every start code.
pub fn find_start_codes(buf: &[u8]) -> (out: Vec<(usize, usize)>)
    ensures
        out@.len() == start_codes(buf@).len(),
        forall|i: int|
            0 <= i < out@.len() ==> start_codes(buf@)[i] == (
                (#[trigger] out@[i]).0 as int,
                out@[i].1 as int,
            ),
{
    let mut out: Vec<(usize, usize)> = Vec::new();
    let ghost s = buf@;
    let mut i: usize = 0;
    // The start codes that end at or before `seen` are in `out`.
    let ghost mut seen: int = 0;
    proof {
        assert(s.take(0) =~= Seq::<u8>::empty());
    }
    while buf.len() >= 3 && i <= buf.len() - 3
        invariant
            s == buf@,
            i <= seen <= s.len(),
            (seen == i && (i == 0 || s[i - 1] == 1)) || (seen == i + 2 && i > 0 && !(s[i - 1] == 0
                && mark_at(s, i as int))),
            out@.len() == start_codes(s.take(seen)).len(),
            forall|j: int|
                0 <= j < out@.len() ==> start_codes(s.take(seen))[j] == (
                    (#[trigger] out@[j]).0 as int,
                    out@[j].1 as int,
                ),
        decreases buf.len() - i,
    {
        if buf[i] == 0 && buf[i + 1] == 0 {
            if buf[i + 2] == 1 {
                proof {
                    assert forall|n: int| seen + 1 <= n <= i + 2 implies !ends_in_mark(
                        #[trigger] s.take(n),
                    ) by {}
                    lemma_codes_skip(s, seen, i + 2);
                    assert(s.take(i + 3).drop_last() =~= s.take(i + 2));
                    assert(last_code(s.take(i + 3)) == (i as int, i + 3));
                    seen = i + 3;
                }
                out.push((i, i + 3));
                i = i + 3;
                continue;
            }
            if buf.len() - i >= 4 && buf[i + 2] == 0 && buf[i + 3] == 1 {
                proof {
                    assert forall|n: int| seen + 1 <= n <= i + 3 implies !ends_in_mark(
                        #[trigger] s.take(n),
                    ) by {}
                    lemma_codes_skip(s, seen, i + 3);
                    assert(s.take(i + 4).drop_last() =~= s.take(i + 3));
                    assert(last_code(s.take(i + 4)) == (i as int, i + 4));
                    seen = i + 4;
                }
                out.push((i, i + 4));
                i = i + 4;
                continue;
            }
        }
        proof {
            assert forall|n: int| seen + 1 <= n <= i + 3 implies !ends_in_mark(
                #[trigger] s.take(n),
            ) by {}
            lemma_codes_skip(s, seen, i + 3);
            seen = i + 3;
        }
        i = i + 1;
    }
    proof {
        assert forall|n: int| seen + 1 <= n <= s.len() implies !ends_in_mark(
            #[trigger] s.take(n),
        ) by {}
        lemma_codes_skip(s, seen, s.len() as int);
        assert(s.take(s.len() as int) =~= s);
    }
    out
}

/// Which units must not be lost: those of the kinds five, seven and eight, by
/// the five low bits of their first byte, whatever the other bits are.
pub proof fn lemma_critical_kinds(nal: Seq<u8>)
    ensures
        nal.len() == 0 ==> !critical(nal),
        nal.len() > 0 ==> (critical(nal) <==> (nal[0] & 0x1F) == 5 || (nal[0] & 0x1F) == 7 || (nal[0]
            & 0x1F) == 8),
{
    if nal.len() > 0 {
        let b = nal[0];
        assert(b & 0x1F == b % 32) by (bit_vector);
    }
}

/// How a unit is cut: every chunk is as large as a chunk may be, but for the
/// last, which holds what is left and is not empty; it alone is marked as the
/// last; and chunks are numbered from zero on.
pub proof fn lemma_chunks(nal_id: u32, nal: Seq<u8>, i: int)
    requires
        0 <= i < chunk_count(nal.len()),
        nal.len() < 0x1_0000 * MAX_CHUNK_PAYLOAD,
    ensures
        chunk_payload(nal, i) == nal.subrange(
            i * MAX_CHUNK_PAYLOAD,
            i * MAX_CHUNK_PAYLOAD + chunk_payload(nal, i).len(),
        ),
        i + 1 < chunk_count(nal.len()) ==> chunk_payload(nal, i).len() == MAX_CHUNK_PAYLOAD,
        i + 1 == chunk_count(nal.len()) ==> i * MAX_CHUNK_PAYLOAD + chunk_payload(nal, i).len()
            == nal.len(),
        0 < chunk_payload(nal, i).len() <= MAX_CHUNK_PAYLOAD,
        chunk_header(nal_id, nal, i).nal_id == nal_id,
        chunk_header(nal_id, nal, i).chunk_index == i,
        chunk_header(nal_id, nal, i).is_last <==> i + 1 == chunk_count(nal.len()),
{
    assert(chunk_payload(nal, i) =~= nal.subrange(
        i * MAX_CHUNK_PAYLOAD,
        i * MAX_CHUNK_PAYLOAD + chunk_payload(nal, i).len(),
    ));
}

/// A chunk's header: four bytes with the number of the unit, two with the number
/// of the chunk, and one that is set for the last chunk.
pub proof fn lemma_chunk_header_layout(h: ChunkHeader)
    ensures
        h.bytes().len() == 7,
        crate::wire::be_value(h.bytes().subrange(0, 4)) == h.nal_id,
        crate::wire::be_value(h.bytes().subrange(4, 6)) == h.chunk_index,
        h.bytes()[6] == 1 <==> h.is_last,
        h.bytes()[6] == 0 <==> !h.is_last,
{
    crate::wire::lemma_pow256_widths();
    crate::wire::lemma_be_round_trip(h.nal_id as nat, 4);
    crate::wire::lemma_be_round_trip(h.chunk_index as nat, 2);
    assert(h.bytes().subrange(0, 4) =~= crate::wire::be_digits(h.nal_id as nat, 4));
    assert(h.bytes().subrange(4, 6) =~= crate::wire::be_digits(h.chunk_index as nat, 2));
}

/// Every mark in a stream starts a unit: two zero bytes and a one, wherever they
/// stand, with one more zero byte before them where there is one.
pub proof fn lemma_every_mark_counts(s: Seq<u8>, p: int)
    requires
        0 <= p,
        p + 3 <= s.len(),
        s[p] == 0,
        s[p + 1] == 0,
        s[p + 2] == 1,
    ensures
        exists|i: int|
            0 <= i < start_codes(s).len() && (#[trigger] start_codes(s)[i]).1 == p + 3
                && start_codes(s)[i].0 == (if p > 0 && s[p - 1] == 0 {
                p - 1
            } else {
                p
            }),
    decreases s.len(),
{
    let t = s.drop_last();
    if p + 3 == s.len() {
        let n = start_codes(s).len() - 1;
        assert(start_codes(s)[n].1 == p + 3);
    } else {
        lemma_every_mark_counts(t, p);
        let i = choose|i: int|
            0 <= i < start_codes(t).len() && (#[trigger] start_codes(t)[i]).1 == p + 3
                && start_codes(t)[i].0 == (if p > 0 && t[p - 1] == 0 {
                p - 1
            } else {
                p
            });
        assert(start_codes(s)[i] == start_codes(t)[i]);
    }
}

/// What a splitter hands out are the units between one mark and the next, without
/// the marks; it keeps what follows the last mark, with that mark, for as long as
/// the unit is not complete.
pub proof fn lemma_units_between_marks(s: Seq<u8>, i: int)
    ensures
        start_codes(s).len() <= 1 ==> complete_nals(s).len() == 0 && unfinished(s) == s,
        start_codes(s).len() > 1 ==> complete_nals(s).len() == start_codes(s).len() - 1
            && unfinished(s) == s.subrange(start_codes(s).last().0, s.len() as int),
        0 <= i < complete_nals(s).len() ==> {
            let (from, to) = (start_codes(s)[i].1, start_codes(s)[i + 1].0);
            &&& complete_nals(s)[i] == s.subrange(from, to)
            &&& 3 <= from <= to <= s.len()
            &&& s[from - 3] == 0 && s[from - 2] == 0 && s[from - 1] == 1
        },
{
    lemma_codes_ordered(s);
    if 0 <= i < complete_nals(s).len() {
        assert(start_codes(s)[i].1 <= start_codes(s)[i + 1].0);
    }
}

} // verus!
