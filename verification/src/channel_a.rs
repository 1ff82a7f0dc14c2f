//! Video: from the camera's byte stream to NAL units with ids on the sending
//! side, from datagrams back to a byte stream on the receiving side, and the
//! queue between a producer and a slower consumer.

use std::collections::VecDeque;
use vstd::prelude::*;
use crate::reassembly;
use crate::reassembly::NalReassembler;
use crate::video;
use crate::video::{nal_is_critical, AnnexBSplitter, ChunkHeader};

verus! {

/// How many incomplete NALs the receiver holds.
pub const MAX_PENDING_NALS: usize = 32;

/// What stands before a NAL in a byte stream.
pub open spec fn start_code() -> Seq<u8> {
    seq![0u8, 0u8, 0u8, 1u8]
}

/// A NAL with its start code.
pub fn with_start_code(nal: &[u8]) -> (out: Vec<u8>)
    ensures
        out@ == start_code() + nal@,
{
    let mut out: Vec<u8> = Vec::new();
    out.push(0);
    out.push(0);
    out.push(0);
    out.push(1);
    out.extend_from_slice(nal);
    proof {
        assert(out@ =~= start_code() + nal@);
    }
    out
}

/// The incomplete NALs of a receiver, by id.
pub type Pending = Map<u32, reassembly::PartialNal>;

/// What one datagram does: the incomplete NALs afterwards, and the bytes it
/// completes, if it does.
pub open spec fn datagram_step(pending: Pending, data: Seq<u8>) -> (Pending, Option<Seq<u8>>) {
    if data.len() < video::CHUNK_HEADER_LEN {
        (pending, None)
    } else {
        let step = reassembly::chunk_step(
            pending,
            MAX_PENDING_NALS as nat,
            ChunkHeader::of_bytes(data),
            data.subrange(video::CHUNK_HEADER_LEN as int, data.len() as int),
        );
        (
            step.0,
            match step.1 {
                Some(nal) => Some(start_code() + nal),
                None => None,
            },
        )
    }
}

/// The datagram that carries chunk `i` of a NAL.
pub open spec fn chunk_datagram(nal_id: u32, nal: Seq<u8>, i: int) -> Seq<u8> {
    video::chunk_header(nal_id, nal, i).bytes() + video::chunk_payload(nal, i)
}

/// What the datagrams of a NAL do, taken in the given order: the incomplete NALs
/// afterwards, and what the last of them completes.
pub open spec fn datagrams_taken(
    pending: Pending,
    nal_id: u32,
    nal: Seq<u8>,
    order: Seq<int>,
) -> (Pending, Option<Seq<u8>>)
    decreases order.len(),
{
    if order.len() == 0 {
        (pending, None)
    } else {
        datagram_step(
            datagrams_taken(pending, nal_id, nal, order.drop_last()).0,
            chunk_datagram(nal_id, nal, order.last()),
        )
    }
}

/// `order` names chunks of a NAL, some of them perhaps more than once.
pub open spec fn some_chunks(nal: Seq<u8>, order: Seq<int>) -> bool {
    forall|i: int|
        0 <= i < order.len() ==> 0 <= #[trigger] order[i] < video::chunk_count(nal.len())
}

/// `order` names every chunk of a NAL.
pub open spec fn all_chunks(nal: Seq<u8>, order: Seq<int>) -> bool {
    forall|k: int| 0 <= k < video::chunk_count(nal.len()) ==> #[trigger] order.contains(k)
}

/// A NAL arrives whole, in whatever order its datagrams do, and however often
/// some of them do: as long as one is missing nothing comes out; the last one
/// that was missing brings the NAL, behind a start code, and leaves nothing of
/// it pending.
///
/// There has to be room for one more incomplete NAL, and a NAL has at most 65536
/// chunks.
pub proof fn lemma_arrives_whole(pending: Pending, nal_id: u32, nal: Seq<u8>, order: Seq<int>)
    requires
        video::chunk_count(nal.len()) <= 0x1_0000,
        some_chunks(nal, order),
        pending.dom().finite(),
        !pending.contains_key(nal_id),
        pending.len() < MAX_PENDING_NALS,
    ensures
        !all_chunks(nal, order) ==> datagrams_taken(pending, nal_id, nal, order).1 is None,
        order.len() > 0 && all_chunks(nal, order) && !all_chunks(nal, order.drop_last())
            ==> datagrams_taken(pending, nal_id, nal, order) == (
            pending,
            Some(start_code() + nal),
        ),
{
    lemma_underway(pending, nal_id, nal, order);
}

/// What is pending when some chunks of a NAL have arrived.
spec fn underway(pending: Pending, nal_id: u32, nal: Seq<u8>, order: Seq<int>) -> bool {
    let now = datagrams_taken(pending, nal_id, nal, order).0;
    &&& now.dom().finite()
    &&& now.remove(nal_id) == pending
    &&& if order.len() == 0 {
        now == pending
    } else {
        now.contains_key(nal_id) && now.len() <= MAX_PENDING_NALS
    }
    &&& reassembly::gathered(reassembly::pending_or_fresh(now, nal_id), nal, order.to_set())
}

proof fn lemma_underway(pending: Pending, nal_id: u32, nal: Seq<u8>, order: Seq<int>)
    requires
        video::chunk_count(nal.len()) <= 0x1_0000,
        some_chunks(nal, order),
        pending.dom().finite(),
        !pending.contains_key(nal_id),
        pending.len() < MAX_PENDING_NALS,
    ensures
        order.len() == 0 || !all_chunks(nal, order) ==> datagrams_taken(
            pending,
            nal_id,
            nal,
            order,
        ).1 is None && underway(pending, nal_id, nal, order),
        order.len() > 0 && all_chunks(nal, order) && !all_chunks(nal, order.drop_last())
            ==> datagrams_taken(pending, nal_id, nal, order) == (
            pending,
            Some(start_code() + nal),
        ),
    decreases order.len(),
{
    let n = video::chunk_count(nal.len()) as int;
    if order.len() == 0 {
        assert(pending.remove(nal_id) =~= pending);
        assert(order.to_set() =~= Set::<int>::empty());
    } else {
        let rest = order.drop_last();
        let i = order.last();
        assert(0 <= order[order.len() - 1] < n);
        assert(some_chunks(nal, rest)) by {
            assert forall|k: int| 0 <= k < rest.len() implies 0 <= #[trigger] rest[k] < n by {
                assert(rest[k] == order[k]);
            }
        }
        lemma_underway(pending, nal_id, nal, rest);
        let now = datagrams_taken(pending, nal_id, nal, rest).0;
        let got = rest.to_set();
        assert(got.insert(i) =~= order.to_set()) by {
            assert forall|k: int| got.insert(i).contains(k) <==> #[trigger] order.to_set().contains(
                k,
            ) by {
                if rest.contains(k) {
                    let j = choose|j: int| 0 <= j < rest.len() && rest[j] == k;
                    assert(order[j] == k);
                }
                if order.contains(k) {
                    let j = choose|j: int| 0 <= j < order.len() && order[j] == k;
                    if j < rest.len() {
                        assert(rest[j] == k);
                    }
                }
            }
        }
        assert(forall|k: int|
            0 <= k < n ==> (k == i || got.contains(k) <==> #[trigger] order.contains(k))) by {
            assert forall|k: int| 0 <= k < n implies (k == i || got.contains(k)
                <==> #[trigger] order.contains(k)) by {
                assert(got.insert(i).contains(k) == order.to_set().contains(k));
            }
        }
        if !all_chunks(nal, rest) {
            let missing = choose|k: int| 0 <= k < n && !#[trigger] rest.contains(k);
            assert(!got.contains(missing));
            reassembly::lemma_chunk_progress(now, MAX_PENDING_NALS as nat, nal_id, nal, got, i);
            lemma_datagram_is_chunk(now, nal_id, nal, i);
            let step = datagrams_taken(pending, nal_id, nal, order);
            if !all_chunks(nal, order) {
                let k = choose|k: int| 0 <= k < n && !#[trigger] order.contains(k);
                assert(!(k == i || got.contains(k)));
                assert(step.0.remove(nal_id) =~= now.remove(nal_id));
                assert(step.0.dom() =~= now.dom().insert(nal_id));
            } else {
                assert forall|k: int| 0 <= k < n implies k == i || #[trigger] got.contains(k) by {
                    assert(order.contains(k));
                }
            }
        } else {
            assert forall|k: int| 0 <= k < n implies #[trigger] order.contains(k) by {
                assert(rest.contains(k));
                assert(got.contains(k));
            }
        }
    }
}

proof fn lemma_datagram_is_chunk(pending: Pending, nal_id: u32, nal: Seq<u8>, i: int)
    ensures
        ({
            let step = reassembly::chunk_step(
                pending,
                MAX_PENDING_NALS as nat,
                video::chunk_header(nal_id, nal, i),
                video::chunk_payload(nal, i),
            );
            datagram_step(pending, chunk_datagram(nal_id, nal, i)) == (
                step.0,
                match step.1 {
                    Some(unit) => Some(start_code() + unit),
                    None => None,
                },
            )
        }),
{
    video::chunk_header(nal_id, nal, i).lemma_round_trip(video::chunk_payload(nal, i));
}

/// Puts video datagrams back together.
pub struct ChannelAReceiver {
    reassembler: NalReassembler,
}

impl ChannelAReceiver {
    pub closed spec fn pending(&self) -> Pending {
        self.reassembler.pending()
    }

    pub closed spec fn wf(&self) -> bool {
        self.reassembler.wf() && self.reassembler.limit() == MAX_PENDING_NALS
    }

    pub fn new() -> (r: Self)
        ensures
            r.wf(),
            r.pending() == Pending::empty(),
    {
        ChannelAReceiver { reassembler: NalReassembler::new(MAX_PENDING_NALS) }
    }

    /// Takes one datagram. Returns a start code and a NAL if the datagram
    /// completes one.
    pub fn on_datagram(&mut self, data: &[u8]) -> (r: Option<Vec<u8>>)
        requires
            old(self).wf(),
        ensures
            final(self).wf(),
            final(self).pending() == datagram_step(old(self).pending(), data@).0,
            match r {
                Some(bytes) => datagram_step(old(self).pending(), data@).1 == Some(bytes@),
                None => datagram_step(old(self).pending(), data@).1 is None,
            },
    {
        match ChunkHeader::decode(data) {
            Some((header, payload)) => {
                match self.reassembler.on_chunk(header, payload) {
                    Some(nal) => Some(with_start_code(nal.as_slice())),
                    None => None,
                }
            },
            None => None,
        }
    }
}

impl Default for ChannelAReceiver {
    fn default() -> (r: Self)
        ensures
            r.wf(),
            r.pending() == Pending::empty(),
    {
        Self::new()
    }
}

/// A NAL that the camera has finished.
#[derive(Debug)]
pub struct EncodedNal {
    pub nal_id: u32,
    /// Without its start code.
    pub nal: Vec<u8>,
    /// A decoder cannot do without it.
    pub is_critical: bool,
    /// What the log keeps: the NAL with its start code.
    pub recorded: Vec<u8>,
}

/// Numbers the NALs of a camera's byte stream.
pub struct VideoEncoder {
    splitter: AnnexBSplitter,
    next_nal_id: u32,
}

/// Ids count up and start over after the largest.
pub open spec fn nal_id_after(first: u32, n: int) -> u32 {
    ((first + n) % 0x1_0000_0000) as u32
}

/// Is `e` the `i`-th NAL completed by `stream`?
pub open spec fn encodes(e: EncodedNal, stream: Seq<u8>, first_id: u32, i: int) -> bool {
    let nal = video::complete_nals(stream)[i];
    &&& e.nal_id == nal_id_after(first_id, i)
    &&& e.nal@ == nal
    &&& e.is_critical == video::critical(nal)
    &&& e.recorded@ == start_code() + nal
}

impl VideoEncoder {
    /// The bytes held back.
    pub closed spec fn kept(&self) -> Seq<u8> {
        self.splitter.kept()
    }

    pub closed spec fn next_id(&self) -> u32 {
        self.next_nal_id
    }

    pub fn new() -> (e: Self)
        ensures
            e.kept() == Seq::<u8>::empty(),
            e.next_id() == 0,
    {
        VideoEncoder { splitter: AnnexBSplitter::new(), next_nal_id: 0 }
    }

    /// Takes in bytes of the camera and returns the NALs that are complete now.
    pub fn push(&mut self, data: &[u8]) -> (out: Vec<EncodedNal>)
        ensures
            out@.len() == video::complete_nals(old(self).kept() + data@).len(),
            forall|i: int|
                0 <= i < out@.len() ==> encodes(
                    #[trigger] out@[i],
                    old(self).kept() + data@,
                    old(self).next_id(),
                    i,
                ),
            final(self).kept() == video::unfinished(old(self).kept() + data@),
            final(self).next_id() == nal_id_after(old(self).next_id(), out@.len() as int),
    {
        let ghost stream = self.kept() + data@;
        let mut nals: Vec<Vec<u8>> = self.splitter.push(data);
        let ghost all = nals@;
        let mut out: Vec<EncodedNal> = Vec::new();
        let ghost first = self.next_nal_id;
        let mut i: usize = 0;
        while i < nals.len()
            invariant
                i <= nals@.len(),
                nals@.len() == all.len(),
                all.len() == video::complete_nals(stream).len(),
                forall|j: int|
                    0 <= j < all.len() ==> (#[trigger] all[j])@ == video::complete_nals(stream)[j],
                forall|j: int| i <= j < all.len() ==> #[trigger] nals@[j] == all[j],
                out@.len() == i,
                forall|j: int|
                    0 <= j < out@.len() ==> encodes(#[trigger] out@[j], stream, first, j),
                self.kept() == video::unfinished(stream),
                self.next_nal_id == nal_id_after(first, i as int),
            decreases nals@.len() - i,
        {
            let mut nal: Vec<u8> = Vec::new();
            std::mem::swap(&mut nal, &mut nals[i]);
            proof {
                assert(nal == all[i as int]);
            }
            let recorded: Vec<u8> = with_start_code(nal.as_slice());
            let is_critical: bool = nal_is_critical(nal.as_slice());
            let nal_id: u32 = self.next_nal_id;
            self.next_nal_id = if nal_id == u32::MAX {
                0
            } else {
                nal_id + 1
            };
            out.push(EncodedNal { nal_id, nal, is_critical, recorded });
            proof {
                assert(encodes(out@[i as int], stream, first, i as int));
            }
            i = i + 1;
        }
        out
    }
}

/// NALs between a producer and a consumer that may be slower: the ones that a
/// decoder cannot do without wait their turn, of the others only the newest is
/// kept.
pub struct NalQueue<T> {
    critical: VecDeque<T>,
    latest: Option<T>,
}

/// A queue as a mathematical value.
pub struct QueueView<T> {
    pub critical: Seq<T>,
    pub latest: Option<T>,
}

impl<T> QueueView<T> {
    pub open spec fn sent(self, item: T, is_critical: bool) -> QueueView<T> {
        if is_critical {
            QueueView { critical: self.critical.push(item), ..self }
        } else {
            QueueView { latest: Some(item), ..self }
        }
    }

    /// What is taken out next, and the queue without it.
    pub open spec fn taken(self) -> (QueueView<T>, Option<T>) {
        if self.critical.len() > 0 {
            (
                QueueView {
                    critical: self.critical.subrange(1, self.critical.len() as int),
                    ..self
                },
                Some(self.critical[0]),
            )
        } else {
            (QueueView { latest: None, ..self }, self.latest)
        }
    }

    pub open spec fn sent_all(self, items: Seq<(T, bool)>) -> QueueView<T>
        decreases items.len(),
    {
        if items.len() == 0 {
            self
        } else {
            self.sent_all(items.drop_last()).sent(items.last().0, items.last().1)
        }
    }
}

impl<T> View for NalQueue<T> {
    type V = QueueView<T>;

    closed spec fn view(&self) -> QueueView<T> {
        QueueView { critical: self.critical@, latest: self.latest }
    }
}

impl<T> NalQueue<T> {
    pub fn new() -> (q: Self)
        ensures
            q@.critical == Seq::<T>::empty(),
            q@.latest is None,
    {
        NalQueue { critical: VecDeque::new(), latest: None }
    }

    pub fn send(&mut self, item: T, is_critical: bool)
        ensures
            final(self)@ == old(self)@.sent(item, is_critical),
    {
        if is_critical {
            self.critical.push_back(item);
        } else {
            self.latest = Some(item);
        }
    }

    /// The next NAL for the consumer: a waiting critical one, else the newest
    /// other one.
    pub fn recv(&mut self) -> (r: Option<T>)
        ensures
            (final(self)@, r) == old(self)@.taken(),
            old(self)@.critical.len() > 0 ==> r == Some(old(self)@.critical[0]) && final(self)@ == (
            QueueView {
                critical: old(self)@.critical.subrange(1, old(self)@.critical.len() as int),
                ..old(self)@
            }),
            old(self)@.critical.len() == 0 ==> r == old(self)@.latest && final(self)@ == (
            QueueView { latest: None, ..old(self)@ }),
    {
        let first = self.critical.pop_front();
        if first.is_some() {
            return first;
        }
        let mut latest: Option<T> = None;
        std::mem::swap(&mut latest, &mut self.latest);
        latest
    }
}

/// The critical items of a history, in order.
pub open spec fn critical_of<T>(items: Seq<(T, bool)>) -> Seq<T>
    decreases items.len(),
{
    if items.len() == 0 {
        Seq::empty()
    } else {
        let before = critical_of(items.drop_last());
        if items.last().1 {
            before.push(items.last().0)
        } else {
            before
        }
    }
}

/// However far the consumer is behind, no critical NAL is lost or overtaken by
/// another critical one, and of the others exactly the newest is kept.
pub proof fn lemma_critical_kept<T>(q: QueueView<T>, items: Seq<(T, bool)>)
    ensures
        q.sent_all(items).critical == q.critical + critical_of(items),
        forall|i: int|
            0 <= i < items.len() && !(#[trigger] items[i]).1 && (forall|j: int|
                i < j < items.len() ==> (#[trigger] items[j]).1) ==> q.sent_all(items).latest
                == Some(items[i].0),
        (forall|i: int| 0 <= i < items.len() ==> (#[trigger] items[i]).1) ==> q.sent_all(
            items,
        ).latest == q.latest,
    decreases items.len(),
{
    if items.len() == 0 {
        assert(q.critical + critical_of(items) =~= q.critical);
    } else {
        let before = items.drop_last();
        lemma_critical_kept(q, before);
        assert(q.sent_all(items).critical =~= q.critical + critical_of(items));
        assert forall|i: int|
            0 <= i < items.len() && !(#[trigger] items[i]).1 && (forall|j: int|
                i < j < items.len() ==> (#[trigger] items[j]).1) implies q.sent_all(items).latest
            == Some(items[i].0) by {
            if i < before.len() {
                assert(before[i] == items[i]);
                assert(items[items.len() - 1].1);
                assert forall|j: int| i < j < before.len() implies (#[trigger] before[j]).1 by {
                    assert(items[j] == before[j]);
                }
            }
        }
        if forall|i: int| 0 <= i < items.len() ==> (#[trigger] items[i]).1 {
            assert forall|i: int| 0 <= i < before.len() implies (#[trigger] before[i]).1 by {
                assert(items[i] == before[i]);
            }
            assert(items[items.len() - 1].1);
        }
    }
}

/// A pixel as a number: red, green and blue, eight bits each.
pub open spec fn pixel(r: u8, g: u8, b: u8) -> u32 {
    (r * 0x1_0000 + g * 0x100 + b) as u32
}

/// Packs red, green and blue bytes into pixels; what is left over at the end
/// is no whole pixel.
pub fn pack_pixels(rgb: &[u8]) -> (out: Vec<u32>)
    ensures
        out@ == Seq::new(
            rgb@.len() / 3,
            |i: int| pixel(rgb@[3 * i], rgb@[3 * i + 1], rgb@[3 * i + 2]),
        ),
{
    let n: usize = rgb.len() / 3;
    let mut out: Vec<u32> = Vec::new();
    let mut i: usize = 0;
    while i < n
        invariant
            i <= n,
            n == rgb.len() / 3,
            out@ =~= Seq::new(
                i as nat,
                |k: int| pixel(rgb@[3 * k], rgb@[3 * k + 1], rgb@[3 * k + 2]),
            ),
        decreases n - i,
    {
        let at: usize = 3 * i;
        out.push(rgb[at] as u32 * 0x1_0000 + rgb[at + 1] as u32 * 0x100 + rgb[at + 2] as u32);
        i = i + 1;
    }
    out
}

/// What a queue does with one unit: one that must not be lost waits behind those
/// that wait already; another takes the one place that there is for such, and
/// what was there is lost.
pub proof fn lemma_one_unit_queued<T>(q: QueueView<T>, item: T)
    ensures
        q.sent(item, true).critical == q.critical.push(item),
        q.sent(item, true).latest == q.latest,
        q.sent(item, false).critical == q.critical,
        q.sent(item, false).latest == Some(item),
{
}

/// Units are numbered one after the other, and start over after the last number
/// that thirty-two bits hold.
pub proof fn lemma_units_are_numbered(first: u32, n: int)
    requires
        0 <= n,
    ensures
        nal_id_after(first, 0) == first,
        first + n <= u32::MAX ==> nal_id_after(first, n) == first + n,
        nal_id_after(u32::MAX, 1) == 0,
{
}

/// A start code is three zero bytes and a one.
pub proof fn lemma_start_code()
    ensures
        start_code().len() == 4,
        start_code()[0] == 0 && start_code()[1] == 0 && start_code()[2] == 0 && start_code()[3] == 1,
{
}

/// What is taken out: those that must not be lost first, in the order in which
/// they came; then the newest of the others, once; then nothing.
pub proof fn lemma_taken_out<T>(q: QueueView<T>, item: T)
    ensures
        q.critical.len() > 0 ==> q.taken().1 == Some(q.critical[0]) && q.taken().0.critical
            == q.critical.subrange(1, q.critical.len() as int) && q.taken().0.latest == q.latest,
        q.critical.len() == 0 ==> q.taken().1 == q.latest && q.taken().0.latest is None
            && q.taken().0.critical.len() == 0,
        q.critical.len() == 0 ==> q.sent(item, true).taken().1 == Some(item) && q.sent(
            item,
            false,
        ).taken().1 == Some(item),
        q.critical.len() > 0 ==> q.sent(item, false).taken().1 == q.taken().1 && q.sent(
            item,
            true,
        ).taken().1 == q.taken().1,
{
}

/// Red, green and blue come out of a pixel as they went in, from the highest byte
/// down; the topmost byte is clear.
pub proof fn lemma_pixel(r: u8, g: u8, b: u8)
    ensures
        pixel(r, g, b) / 0x1_0000 == r,
        (pixel(r, g, b) / 0x100) % 0x100 == g,
        pixel(r, g, b) % 0x100 == b,
{
}

} // verus!
