//! Reassembly of NALs from the chunks that arrive.
//!
//! A NAL completes only if every one of its chunks arrives, in any order. The
//! number of incomplete NALs is bounded: past the bound the one with the
//! smallest id is given up.

use vstd::prelude::*;
use crate::video::ChunkHeader;

verus! {

/// An incomplete NAL: the chunks that arrived, by index, and how many there
/// are in all once the last one has arrived.
pub struct PartialNal {
    pub chunks: Seq<Option<Seq<u8>>>,
    pub total: Option<nat>,
}

/// How many chunks are present.
pub open spec fn present(chunks: Seq<Option<Seq<u8>>>) -> nat
    decreases chunks.len(),
{
    if chunks.len() == 0 {
        0
    } else {
        present(chunks.drop_last()) + if chunks.last() is Some {
            1nat
        } else {
            0nat
        }
    }
}

/// The present chunks, joined in index order.
pub open spec fn joined(chunks: Seq<Option<Seq<u8>>>) -> Seq<u8>
    decreases chunks.len(),
{
    if chunks.len() == 0 {
        Seq::empty()
    } else {
        joined(chunks.drop_last()) + match chunks.last() {
            Some(c) => c,
            None => Seq::empty(),
        }
    }
}

/// `chunks`, filled up with gaps to at least `n` places.
pub open spec fn padded(chunks: Seq<Option<Seq<u8>>>, n: nat) -> Seq<Option<Seq<u8>>> {
    Seq::new(
        if chunks.len() >= n {
            chunks.len()
        } else {
            n
        },
        |i: int|
            if i < chunks.len() {
                chunks[i]
            } else {
                None
            },
    )
}

impl PartialNal {
    pub open spec fn fresh() -> PartialNal {
        PartialNal { chunks: Seq::empty(), total: None }
    }

    /// With one more chunk: a chunk that is already there is not replaced.
    pub open spec fn with(self, header: ChunkHeader, payload: Seq<u8>) -> PartialNal {
        let idx = header.chunk_index as int;
        let room = padded(self.chunks, (idx + 1) as nat);
        PartialNal {
            chunks: if room[idx] is None {
                room.update(idx, Some(payload))
            } else {
                room
            },
            total: if header.is_last {
                Some((idx + 1) as nat)
            } else {
                self.total
            },
        }
    }

    /// All chunks have arrived.
    pub open spec fn complete(self) -> bool {
        &&& self.total == Some(present(self.chunks))
        &&& forall|i: int| 0 <= i < self.chunks.len() ==> (#[trigger] self.chunks[i]) is Some
    }
}

/// `m` without its smallest id, if it holds more than `max_pending`.
pub open spec fn evicted(m: Map<u32, PartialNal>, max_pending: nat) -> Map<u32, PartialNal> {
    if m.len() > max_pending {
        m.remove(smallest(m))
    } else {
        m
    }
}

pub open spec fn is_smallest(m: Map<u32, PartialNal>, id: u32) -> bool {
    m.contains_key(id) && forall|k: u32| m.contains_key(k) ==> id <= k
}

/// The smallest id of a non-empty map.
pub open spec fn smallest(m: Map<u32, PartialNal>) -> u32 {
    choose|id: u32| is_smallest(m, id)
}

/// The incomplete NAL with id `id`, or an empty one.
pub open spec fn pending_or_fresh(m: Map<u32, PartialNal>, id: u32) -> PartialNal {
    if m.contains_key(id) {
        m[id]
    } else {
        PartialNal::fresh()
    }
}

/// What one chunk does: the incomplete NALs afterwards, and the NAL it
/// completes, if it does.
pub open spec fn chunk_step(
    m: Map<u32, PartialNal>,
    max_pending: nat,
    header: ChunkHeader,
    payload: Seq<u8>,
) -> (Map<u32, PartialNal>, Option<Seq<u8>>) {
    let grown = pending_or_fresh(m, header.nal_id).with(header, payload);
    if grown.complete() {
        (evicted(m.remove(header.nal_id), max_pending), Some(joined(grown.chunks)))
    } else {
        (evicted(m.insert(header.nal_id, grown), max_pending), None)
    }
}

pub open spec fn chunks_view(chunks: Seq<Option<Vec<u8>>>) -> Seq<Option<Seq<u8>>> {
    chunks.map_values(
        |c: Option<Vec<u8>>|
            match c {
                Some(v) => Some(v@),
                None => None::<Seq<u8>>,
            },
    )
}

struct PendingNal {
    nal_id: u32,
    chunks: Vec<Option<Vec<u8>>>,
    received: usize,
    total: Option<usize>,
}

impl PendingNal {
    spec fn partial(self) -> PartialNal {
        PartialNal {
            chunks: chunks_view(self.chunks@),
            total: match self.total {
                Some(t) => Some(t as nat),
                None => None,
            },
        }
    }

    spec fn wf(self) -> bool {
        self.received == present(chunks_view(self.chunks@))
    }
}

/// The incomplete NALs by id.
spec fn by_id(entries: Seq<PendingNal>) -> Map<u32, PartialNal>
    decreases entries.len(),
{
    if entries.len() == 0 {
        Map::empty()
    } else {
        by_id(entries.drop_last()).insert(entries.last().nal_id, entries.last().partial())
    }
}

spec fn ascending(entries: Seq<PendingNal>) -> bool {
    forall|i: int, j: int|
        0 <= i < j < entries.len() ==> (#[trigger] entries[i]).nal_id < (
        #[trigger] entries[j]).nal_id
}

proof fn lemma_by_id(entries: Seq<PendingNal>)
    requires
        ascending(entries),
    ensures
        by_id(entries).dom().finite(),
        by_id(entries).len() == entries.len(),
        forall|i: int|
            0 <= i < entries.len() ==> by_id(entries).contains_key(
                (#[trigger] entries[i]).nal_id,
            ) && by_id(entries)[entries[i].nal_id] == entries[i].partial(),
        forall|id: u32| #[trigger]
            by_id(entries).contains_key(id) ==> exists|i: int|
                0 <= i < entries.len() && (#[trigger] entries[i]).nal_id == id,
    decreases entries.len(),
{
    if entries.len() > 0 {
        let rest = entries.drop_last();
        lemma_by_id(rest);
        assert forall|id: u32| #[trigger] by_id(entries).contains_key(id) implies exists|i: int|
            0 <= i < entries.len() && (#[trigger] entries[i]).nal_id == id by {
            if by_id(rest).contains_key(id) {
                let i = choose|i: int| 0 <= i < rest.len() && (#[trigger] rest[i]).nal_id == id;
                assert(entries[i].nal_id == id);
            } else {
                assert(entries[entries.len() - 1].nal_id == id);
            }
        }
        if by_id(rest).contains_key(entries.last().nal_id) {
            let i = choose|i: int|
                0 <= i < rest.len() && (#[trigger] rest[i]).nal_id == entries.last().nal_id;
            assert(entries[i].nal_id < entries[entries.len() - 1].nal_id);
            assert(false);
        }
        assert forall|i: int| 0 <= i < entries.len() implies by_id(entries).contains_key(
            (#[trigger] entries[i]).nal_id,
        ) && by_id(entries)[entries[i].nal_id] == entries[i].partial() by {
            if i < rest.len() {
                assert(rest[i] == entries[i]);
                assert(entries[i].nal_id < entries[entries.len() - 1].nal_id);
            }
        }
    }
}

/// Two ascending lists with the same lookups have the same map.
proof fn lemma_same_map(entries: Seq<PendingNal>, m: Map<u32, PartialNal>)
    requires
        ascending(entries),
        forall|i: int|
            0 <= i < entries.len() ==> m.contains_key((#[trigger] entries[i]).nal_id)
                && m[entries[i].nal_id] == entries[i].partial(),
        forall|id: u32| #[trigger]
            m.contains_key(id) ==> exists|i: int|
                0 <= i < entries.len() && (#[trigger] entries[i]).nal_id == id,
    ensures
        by_id(entries) == m,
{
    lemma_by_id(entries);
    assert forall|id: u32| by_id(entries).contains_key(id) <==> m.contains_key(id) by {
        if by_id(entries).contains_key(id) {
            let i = choose|i: int|
                0 <= i < entries.len() && (#[trigger] entries[i]).nal_id == id;
            assert(m.contains_key(entries[i].nal_id));
        }
        if m.contains_key(id) {
            let i = choose|i: int|
                0 <= i < entries.len() && (#[trigger] entries[i]).nal_id == id;
            assert(by_id(entries).contains_key(entries[i].nal_id));
        }
    }
    assert forall|id: u32| m.contains_key(id) implies by_id(entries)[id] == m[id] by {
        let i = choose|i: int| 0 <= i < entries.len() && (#[trigger] entries[i]).nal_id == id;
        assert(by_id(entries)[entries[i].nal_id] == entries[i].partial());
    }
    assert(by_id(entries) =~= m);
}

proof fn lemma_present_bound(chunks: Seq<Option<Seq<u8>>>)
    ensures
        present(chunks) <= chunks.len(),
        present(chunks) == chunks.len() <==> forall|i: int|
            0 <= i < chunks.len() ==> (#[trigger] chunks[i]) is Some,
    decreases chunks.len(),
{
    if chunks.len() > 0 {
        let rest = chunks.drop_last();
        lemma_present_bound(rest);
        if forall|i: int| 0 <= i < chunks.len() ==> (#[trigger] chunks[i]) is Some {
            assert forall|i: int| 0 <= i < rest.len() implies (#[trigger] rest[i]) is Some by {
                assert(chunks[i] is Some);
            }
            assert(chunks[chunks.len() - 1] is Some);
        }
        if present(chunks) == chunks.len() {
            assert forall|i: int| 0 <= i < chunks.len() implies (#[trigger] chunks[i]) is Some by {
                if i < rest.len() {
                    assert(rest[i] is Some);
                }
            }
        }
    }
}

proof fn lemma_present_push_gap(chunks: Seq<Option<Seq<u8>>>)
    ensures
        present(chunks.push(None)) == present(chunks),
{
    assert(chunks.push(None).drop_last() =~= chunks);
}

proof fn lemma_present_update(chunks: Seq<Option<Seq<u8>>>, i: int, c: Seq<u8>)
    requires
        0 <= i < chunks.len(),
        chunks[i] is None,
    ensures
        present(chunks.update(i, Some(c))) == present(chunks) + 1,
    decreases chunks.len(),
{
    let u = chunks.update(i, Some(c));
    if i == chunks.len() - 1 {
        assert(u.drop_last() =~= chunks.drop_last());
    } else {
        lemma_present_update(chunks.drop_last(), i, c);
        assert(u.drop_last() =~= chunks.drop_last().update(i, Some(c)));
    }
}

proof fn lemma_padded_self(chunks: Seq<Option<Seq<u8>>>)
    ensures
        padded(chunks, chunks.len()) == chunks,
{
    assert(padded(chunks, chunks.len()) =~= chunks);
}

pub struct NalReassembler {
    entries: Vec<PendingNal>,
    max_pending: usize,
}

impl NalReassembler {
    /// The incomplete NALs by id.
    pub closed spec fn pending(&self) -> Map<u32, PartialNal> {
        by_id(self.entries@)
    }

    /// How many incomplete NALs may be held.
    pub closed spec fn limit(&self) -> nat {
        self.max_pending as nat
    }

    pub closed spec fn wf(&self) -> bool {
        &&& ascending(self.entries@)
        &&& all_wf(self.entries@)
        &&& self.entries@.len() <= self.max_pending
    }

    pub fn new(max_pending: usize) -> (r: Self)
        ensures
            r.wf(),
            r.pending() == Map::<u32, PartialNal>::empty(),
            r.limit() == max_pending,
    {
        NalReassembler { entries: Vec::new(), max_pending }
    }

    /// How many incomplete NALs are held.
    pub fn pending_count(&self) -> (n: usize)
        requires
            self.wf(),
        ensures
            n == self.pending().len(),
            n <= self.limit(),
    {
        proof {
            lemma_by_id(self.entries@);
        }
        self.entries.len()
    }

    /// Where `nal_id` is, or where it would go.
    fn position(&self, nal_id: u32) -> (at: usize)
        requires
            ascending(self.entries@),
        ensures
            at <= self.entries@.len(),
            forall|i: int| 0 <= i < at ==> (#[trigger] self.entries@[i]).nal_id < nal_id,
            forall|i: int|
                at <= i < self.entries@.len() ==> (#[trigger] self.entries@[i]).nal_id >= nal_id,
    {
        let mut at: usize = 0;
        while at < self.entries.len() && self.entries[at].nal_id < nal_id
            invariant
                at <= self.entries@.len(),
                forall|i: int| 0 <= i < at ==> (#[trigger] self.entries@[i]).nal_id < nal_id,
            decreases self.entries@.len() - at,
        {
            at = at + 1;
        }
        at
    }

    /// Takes one received chunk. Returns the whole NAL once its last missing
    /// chunk arrives.
    pub fn on_chunk(&mut self, header: ChunkHeader, payload: &[u8]) -> (r: Option<Vec<u8>>)
        requires
            old(self).wf(),
        ensures
            final(self).wf(),
            final(self).limit() == old(self).limit(),
            final(self).pending() == chunk_step(
                old(self).pending(),
                old(self).limit(),
                header,
                payload@,
            ).0,
            match r {
                Some(nal) => chunk_step(
                    old(self).pending(),
                    old(self).limit(),
                    header,
                    payload@,
                ).1 == Some(nal@),
                None => chunk_step(
                    old(self).pending(),
                    old(self).limit(),
                    header,
                    payload@,
                ).1 is None,
            },
    {
        let ghost m = self.pending();
        let ghost before = self.entries@;
        let ghost id = header.nal_id;
        let at: usize = self.position(header.nal_id);
        let known = at < self.entries.len() && self.entries[at].nal_id == header.nal_id;
        proof {
            lemma_take_out(before, at as int, id);
        }
        let mut entry: PendingNal = if known {
            self.entries.remove(at)
        } else {
            PendingNal { nal_id: header.nal_id, chunks: Vec::new(), received: 0, total: None }
        };
        let ghost others = self.entries@;
        proof {
            if !known {
                assert(chunks_view(entry.chunks@) =~= Seq::<Option<Seq<u8>>>::empty());
            }
            assert(entry.partial() == pending_or_fresh(m, id));
            lemma_by_id(others);
        }
        let done: Option<Vec<u8>> = add_chunk(&mut entry, header, payload);
        match done {
            Some(nal) => Some(nal),
            None => {
                let ghost grown = entry.partial();
                self.entries.insert(at, entry);
                let ghost after = self.entries@;
                proof {
                    lemma_put_in(others, at as int, entry);
                    assert(m.remove(id).insert(id, grown) =~= m.insert(id, grown));
                    lemma_by_id(after);
                }
                if self.entries.len() > self.max_pending {
                    let _evicted: PendingNal = self.entries.remove(0);
                    proof {
                        lemma_evict_first(after, m.insert(id, grown), self.entries@);
                        assert forall|i: int| 0 <= i < self.entries@.len() implies (
                        #[trigger] self.entries@[i]).wf() by {
                            assert(self.entries@[i] == after[i + 1]);
                        }
                    }
                }
                None
            },
        }
    }
}

spec fn all_wf(entries: Seq<PendingNal>) -> bool {
    forall|i: int| 0 <= i < entries.len() ==> (#[trigger] entries[i]).wf()
}

/// `entries` without the one at `at`, if that is `id`.
spec fn taken_out(entries: Seq<PendingNal>, at: int, id: u32) -> Seq<PendingNal> {
    if at < entries.len() && entries[at].nal_id == id {
        entries.remove(at)
    } else {
        entries
    }
}

proof fn lemma_take_out(before: Seq<PendingNal>, at: int, id: u32)
    requires
        ascending(before),
        all_wf(before),
        0 <= at <= before.len(),
        forall|i: int| 0 <= i < at ==> (#[trigger] before[i]).nal_id < id,
        forall|i: int| at <= i < before.len() ==> (#[trigger] before[i]).nal_id >= id,
    ensures
        ({
            let others = taken_out(before, at, id);
            &&& ascending(others)
            &&& all_wf(others)
            &&& by_id(others) == by_id(before).remove(id)
            &&& forall|i: int| 0 <= i < at ==> (#[trigger] others[i]).nal_id < id
            &&& forall|i: int| at <= i < others.len() ==> (#[trigger] others[i]).nal_id > id
            &&& by_id(before).contains_key(id) <==> at < before.len() && before[at].nal_id == id
            &&& by_id(before).contains_key(id) ==> by_id(before)[id] == before[at].partial()
        }),
{
    lemma_by_id(before);
    let m = by_id(before);
    let known = at < before.len() && before[at].nal_id == id;
    let others = taken_out(before, at, id);
    assert forall|i: int| 0 <= i < others.len() implies #[trigger] others[i] == before[if known && i
        >= at {
        i + 1
    } else {
        i
    }] by {}
    assert forall|i: int| at <= i < others.len() implies (#[trigger] others[i]).nal_id > id by {
        if known {
            assert(before[at].nal_id < before[i + 1].nal_id);
        } else {
            assert(before[i].nal_id >= id);
            if i > at {
                assert(before[at].nal_id < before[i].nal_id);
            }
        }
    }
    assert forall|i: int| 0 <= i < at implies (#[trigger] others[i]).nal_id < id by {
        assert(before[i].nal_id < id);
    }
    if m.contains_key(id) {
        let i = choose|i: int| 0 <= i < before.len() && (#[trigger] before[i]).nal_id == id;
        if i > at {
            assert(before[at].nal_id < before[i].nal_id);
        }
        assert(i == at);
    }
    assert forall|i: int| 0 <= i < others.len() implies m.remove(id).contains_key(
        (#[trigger] others[i]).nal_id,
    ) && m.remove(id)[others[i].nal_id] == others[i].partial() by {
        if i < at {
            assert(others[i].nal_id < id);
        } else {
            assert(others[i].nal_id > id);
        }
    }
    assert forall|k: u32| #[trigger] m.remove(id).contains_key(k) implies exists|i: int|
        0 <= i < others.len() && (#[trigger] others[i]).nal_id == k by {
        assert(m.contains_key(k));
        let i = choose|i: int| 0 <= i < before.len() && (#[trigger] before[i]).nal_id == k;
        if known && i > at {
            assert(others[i - 1] == before[i]);
        } else {
            assert(others[i] == before[i]);
        }
    }
    lemma_same_map(others, m.remove(id));
}

proof fn lemma_put_in(others: Seq<PendingNal>, at: int, entry: PendingNal)
    requires
        ascending(others),
        all_wf(others),
        entry.wf(),
        0 <= at <= others.len(),
        forall|i: int| 0 <= i < at ==> (#[trigger] others[i]).nal_id < entry.nal_id,
        forall|i: int| at <= i < others.len() ==> (#[trigger] others[i]).nal_id > entry.nal_id,
    ensures
        ascending(others.insert(at, entry)),
        all_wf(others.insert(at, entry)),
        by_id(others.insert(at, entry)) == by_id(others).insert(entry.nal_id, entry.partial()),
{
    let after = others.insert(at, entry);
    let m = by_id(others).insert(entry.nal_id, entry.partial());
    lemma_by_id(others);
    assert forall|i: int| 0 <= i < after.len() implies #[trigger] after[i] == if i < at {
        others[i]
    } else if i == at {
        entry
    } else {
        others[i - 1]
    } by {}
    assert forall|i: int, j: int| 0 <= i < j < after.len() implies (#[trigger] after[i]).nal_id < (
    #[trigger] after[j]).nal_id by {
        if i == at {
            assert(others[j - 1].nal_id > entry.nal_id);
        } else if j == at {
            assert(others[i].nal_id < entry.nal_id);
        }
    }
    assert forall|i: int| 0 <= i < after.len() implies m.contains_key((#[trigger] after[i]).nal_id)
        && m[after[i].nal_id] == after[i].partial() by {
        if i < at {
            assert(others[i].nal_id < entry.nal_id);
        } else if i > at {
            assert(others[i - 1].nal_id > entry.nal_id);
        }
    }
    assert forall|k: u32| #[trigger] m.contains_key(k) implies exists|i: int|
        0 <= i < after.len() && (#[trigger] after[i]).nal_id == k by {
        if k == entry.nal_id {
            assert(after[at].nal_id == k);
        } else {
            assert(by_id(others).contains_key(k));
            let i = choose|i: int| 0 <= i < others.len() && (#[trigger] others[i]).nal_id == k;
            if i < at {
                assert(after[i] == others[i]);
            } else {
                assert(after[i + 1] == others[i]);
            }
        }
    }
    lemma_same_map(after, m);
}

/// Dropping the first of an ascending list drops the smallest id.
proof fn lemma_evict_first(
    after: Seq<PendingNal>,
    m: Map<u32, PartialNal>,
    rest: Seq<PendingNal>,
)
    requires
        ascending(after),
        after.len() > 0,
        by_id(after) == m,
        rest == after.remove(0),
    ensures
        ascending(rest),
        by_id(rest) == m.remove(smallest(m)),
{
    lemma_by_id(after);
    let first = after[0].nal_id;
    assert forall|k: u32| m.contains_key(k) implies first <= k by {
        let i = choose|i: int| 0 <= i < after.len() && (#[trigger] after[i]).nal_id == k;
        if i > 0 {
            assert(after[0].nal_id < after[i].nal_id);
        }
    }
    assert(is_smallest(m, first));
    let s = smallest(m);
    assert(is_smallest(m, s));
    assert(s == first);
    assert forall|i: int, j: int| 0 <= i < j < rest.len() implies (#[trigger] rest[i]).nal_id < (
    #[trigger] rest[j]).nal_id by {
        assert(rest[i] == after[i + 1] && rest[j] == after[j + 1]);
    }
    assert forall|i: int| 0 <= i < rest.len() implies m.remove(s).contains_key(
        (#[trigger] rest[i]).nal_id,
    ) && m.remove(s)[rest[i].nal_id] == rest[i].partial() by {
        assert(rest[i] == after[i + 1]);
        assert(after[0].nal_id < after[i + 1].nal_id);
    }
    assert forall|k: u32| #[trigger] m.remove(s).contains_key(k) implies exists|i: int|
        0 <= i < rest.len() && (#[trigger] rest[i]).nal_id == k by {
        assert(m.contains_key(k));
        let i = choose|i: int| 0 <= i < after.len() && (#[trigger] after[i]).nal_id == k;
        assert(i > 0);
        assert(rest[i - 1] == after[i]);
    }
    lemma_same_map(rest, m.remove(s));
}

/// Adds a chunk to `entry`; the whole NAL if it is now complete.
fn add_chunk(entry: &mut PendingNal, header: ChunkHeader, payload: &[u8]) -> (r: Option<Vec<u8>>)
    requires
        old(entry).wf(),
    ensures
        final(entry).wf(),
        final(entry).nal_id == old(entry).nal_id,
        final(entry).partial() == old(entry).partial().with(header, payload@),
        r is Some <==> final(entry).partial().complete(),
        r matches Some(nal) ==> nal@ == joined(final(entry).partial().chunks),
{
    let idx: usize = header.chunk_index as usize;
    let ghost start = entry.partial().chunks;
    proof {
        lemma_present_bound(start);
        lemma_padded_self(start);
    }
    while entry.chunks.len() <= idx
        invariant
            entry.wf(),
            entry.nal_id == old(entry).nal_id,
            entry.total == old(entry).total,
            idx <= 0xFFFF,
            start == old(entry).partial().chunks,
            entry.chunks@.len() >= start.len(),
            entry.chunks@.len() == start.len() || entry.chunks@.len() <= idx + 1,
            chunks_view(entry.chunks@) == padded(start, entry.chunks@.len()),
        decreases idx + 1 - entry.chunks@.len(),
    {
        let ghost was = chunks_view(entry.chunks@);
        entry.chunks.push(None);
        proof {
            assert(chunks_view(entry.chunks@) =~= was.push(None));
            lemma_present_push_gap(was);
            assert(chunks_view(entry.chunks@) =~= padded(start, entry.chunks@.len()));
        }
    }
    let ghost room = chunks_view(entry.chunks@);
    proof {
        assert(room =~= padded(start, (idx + 1) as nat));
        lemma_present_bound(room);
    }
    if entry.chunks[idx].is_none() {
        let mut copy: Vec<u8> = Vec::new();
        copy.extend_from_slice(payload);
        proof {
            lemma_present_update(room, idx as int, payload@);
            lemma_present_bound(room.update(idx as int, Some(payload@)));
        }
        assert(copy@ =~= payload@);
        entry.chunks[idx] = Some(copy);
        entry.received = entry.received + 1;
        assert(chunks_view(entry.chunks@) =~= room.update(idx as int, Some(payload@)));
    }
    if header.is_last {
        entry.total = Some(idx + 1);
    }
    let ghost chunks = chunks_view(entry.chunks@);
    assert(entry.partial() == old(entry).partial().with(header, payload@));
    proof {
        lemma_present_bound(chunks);
    }
    let total_met = match entry.total {
        Some(t) => t == entry.received,
        None => false,
    };
    if !(total_met && entry.received == entry.chunks.len()) {
        return None;
    }
    let mut nal: Vec<u8> = Vec::new();
    let mut i: usize = 0;
    proof {
        assert(chunks.take(0) =~= Seq::<Option<Seq<u8>>>::empty());
    }
    while i < entry.chunks.len()
        invariant
            i <= entry.chunks@.len(),
            chunks == chunks_view(entry.chunks@),
            nal@ == joined(chunks.take(i as int)),
        decreases entry.chunks@.len() - i,
    {
        proof {
            assert(chunks.take(i + 1).drop_last() =~= chunks.take(i as int));
            assert(chunks.take(i + 1).last() == chunks[i as int]);
        }
        match &entry.chunks[i] {
            Some(c) => {
                nal.extend_from_slice(c.as_slice());
            },
            None => {},
        }
        proof {
            assert(nal@ =~= joined(chunks.take(i + 1)));
        }
        i = i + 1;
    }
    assert(chunks.take(i as int) =~= chunks);
    Some(nal)
}

/// Is `p` what has been gathered of `nal` when exactly the chunks in `got`
/// have arrived?
pub open spec fn gathered(p: PartialNal, nal: Seq<u8>, got: Set<int>) -> bool {
    let n = crate::video::chunk_count(nal.len());
    &&& p.chunks.len() <= n
    &&& forall|i: int|
        0 <= i < p.chunks.len() ==> #[trigger] p.chunks[i] == if got.contains(i) {
            Some(crate::video::chunk_payload(nal, i))
        } else {
            None
        }
    &&& forall|i: int| got.contains(i) ==> 0 <= i < p.chunks.len()
    &&& p.total == if got.contains(n - 1) {
        Some(n)
    } else {
        None
    }
}

proof fn lemma_joined_is_nal(chunks: Seq<Option<Seq<u8>>>, nal: Seq<u8>)
    requires
        chunks.len() <= crate::video::chunk_count(nal.len()),
        forall|i: int|
            0 <= i < chunks.len() ==> #[trigger] chunks[i] == Some(
                crate::video::chunk_payload(nal, i),
            ),
    ensures
        joined(chunks) == crate::video::joined_payloads(nal, chunks.len()),
    decreases chunks.len(),
{
    if chunks.len() > 0 {
        let rest = chunks.drop_last();
        assert forall|i: int| 0 <= i < rest.len() implies #[trigger] rest[i] == Some(
            crate::video::chunk_payload(nal, i),
        ) by {
            assert(rest[i] == chunks[i]);
        }
        lemma_joined_is_nal(rest, nal);
        assert(chunks.last() == chunks[chunks.len() - 1]);
    }
}

/// Neither order nor repetition matters: whichever chunks of a NAL have arrived,
/// as long as one is missing, one more arrival, of a new chunk or of one that is
/// there already, completes the NAL exactly if none is missing then, and what
/// comes out is the NAL that was cut up. Until then it stays pending.
///
/// The id must not be evicted on the way, so there has to be room for one more
/// incomplete NAL; and a NAL has at most 65536 chunks, because a chunk's index
/// has sixteen bits.
pub proof fn lemma_chunk_progress(
    m: Map<u32, PartialNal>,
    max_pending: nat,
    nal_id: u32,
    nal: Seq<u8>,
    got: Set<int>,
    i: int,
)
    requires
        crate::video::chunk_count(nal.len()) <= 0x1_0000,
        0 <= i < crate::video::chunk_count(nal.len()),
        exists|k: int| 0 <= k < crate::video::chunk_count(nal.len()) && !#[trigger] got.contains(k),
        gathered(pending_or_fresh(m, nal_id), nal, got),
        m.dom().finite(),
        m.len() < max_pending || (m.contains_key(nal_id) && m.len() <= max_pending),
    ensures
        ({
            let n = crate::video::chunk_count(nal.len()) as int;
            let header = crate::video::chunk_header(nal_id, nal, i);
            let step = chunk_step(m, max_pending, header, crate::video::chunk_payload(nal, i));
            let all = forall|k: int| 0 <= k < n ==> k == i || got.contains(k);
            &&& step.1 == if all {
                Some(nal)
            } else {
                None
            }
            &&& !all ==> step.0.contains_key(nal_id) && gathered(
                step.0[nal_id],
                nal,
                got.insert(i),
            )
            &&& !all ==> step.0 == m.insert(nal_id, step.0[nal_id])
            &&& all ==> step.0 == m.remove(nal_id)
            &&& forall|other: u32| other != nal_id && m.contains_key(other) ==>
                step.0.contains_key(other) && step.0[other] == m[other]
        }),
{
    let n = crate::video::chunk_count(nal.len()) as int;
    let header = crate::video::chunk_header(nal_id, nal, i);
    let payload = crate::video::chunk_payload(nal, i);
    let p = pending_or_fresh(m, nal_id);
    let grown = p.with(header, payload);
    assert(header.chunk_index == i);
    assert(gathered(grown, nal, got.insert(i))) by {
        if got.contains(i) {
            assert(p.chunks[i] is Some);
        }
        assert forall|k: int| 0 <= k < grown.chunks.len() implies #[trigger] grown.chunks[k]
            == if got.insert(i).contains(k) {
            Some(crate::video::chunk_payload(nal, k))
        } else {
            None
        } by {
            if k < p.chunks.len() {
                assert(p.chunks[k] == if got.contains(k) {
                    Some(crate::video::chunk_payload(nal, k))
                } else {
                    None
                });
            } else {
                assert(!got.contains(k));
            }
        }
    }
    let all = forall|k: int| 0 <= k < n ==> k == i || got.contains(k);
    lemma_present_bound(grown.chunks);
    if all {
        assert(got.insert(i).contains(n - 1));
        assert(grown.chunks.len() == n);
        assert forall|k: int| 0 <= k < n implies (#[trigger] grown.chunks[k]) is Some by {
            assert(got.insert(i).contains(k));
        }
        assert(grown.complete());
        assert forall|k: int| 0 <= k < grown.chunks.len() implies #[trigger] grown.chunks[k]
            == Some(crate::video::chunk_payload(nal, k)) by {
            assert(got.insert(i).contains(k));
        }
        lemma_joined_is_nal(grown.chunks, nal);
        crate::video::lemma_chunks_cover_nal(nal);
        assert(m.remove(nal_id).len() <= max_pending);
    } else {
        let k = choose|k: int| 0 <= k < n && k != i && !got.contains(k);
        if grown.complete() {
            assert(got.insert(i).contains(n - 1));
            assert(grown.chunks.len() == n);
            assert(grown.chunks[k] is Some);
            assert(false);
        }
        if m.contains_key(nal_id) {
            assert(m.insert(nal_id, grown).dom() =~= m.dom());
        }
        assert(m.insert(nal_id, grown).len() <= max_pending);
    }
}

/// What is given up when too many units are incomplete: the one with the
/// smallest number, and no other. While there is room nothing is.
pub proof fn lemma_smallest_gives_way(m: Map<u32, PartialNal>, max_pending: nat, oldest: u32)
    requires
        m.contains_key(oldest),
        forall|k: u32| m.contains_key(k) ==> oldest <= k,
    ensures
        m.len() <= max_pending ==> evicted(m, max_pending) == m,
        m.len() > max_pending ==> evicted(m, max_pending) == m.remove(oldest),
{
    assert(is_smallest(m, oldest));
    let s = smallest(m);
    assert(is_smallest(m, s));
}

/// A chunk that came already is not replaced by another one under its number; one
/// that is new takes its place; the places of the others are left alone; and the
/// chunk that is marked as the last tells how many there are.
pub proof fn lemma_chunk_takes_its_place(
    p: PartialNal,
    header: ChunkHeader,
    payload: Seq<u8>,
    i: int,
)
    requires
        0 <= i < p.chunks.len(),
    ensures
        ({
            let after = p.with(header, payload);
            let at = header.chunk_index as int;
            &&& at < after.chunks.len()
            &&& i != at ==> after.chunks[i] == p.chunks[i]
            &&& i == at && p.chunks[i] is Some ==> after.chunks[at] == p.chunks[i]
            &&& i == at && p.chunks[i] is None ==> after.chunks[at] == Some(payload)
            &&& at >= p.chunks.len() ==> after.chunks[at] == Some(payload)
            &&& header.is_last ==> after.total == Some((at + 1) as nat)
            &&& !header.is_last ==> after.total == p.total
        }),
{
}

/// A chunk of one unit does not touch another, unless that one has to give way.
pub proof fn lemma_units_are_kept_apart(
    m: Map<u32, PartialNal>,
    max_pending: nat,
    header: ChunkHeader,
    payload: Seq<u8>,
    other: u32,
)
    requires
        other != header.nal_id,
        m.dom().finite(),
        m.len() < max_pending,
    ensures
        ({
            let after = chunk_step(m, max_pending, header, payload).0;
            &&& after.contains_key(other) == m.contains_key(other)
            &&& m.contains_key(other) ==> after[other] == m[other]
        }),
{
    let grown = pending_or_fresh(m, header.nal_id).with(header, payload);
    assert(m.insert(header.nal_id, grown).len() <= max_pending);
    assert(m.remove(header.nal_id).len() <= max_pending);
}

} // verus!
