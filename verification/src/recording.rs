//! Record framing of the local log, and the decisions when a segment file is
//! closed and which old ones are deleted.
//!
//! A record is its payload's length (four bytes), its capture time (eight
//! bytes), a control-source byte and the payload; a segment is a concatenation
//! of records.

use vstd::prelude::*;
use vstd::slice::slice_subrange;
use crate::safety::ControlSource;
use crate::time;
use crate::time::{Duration, Instant};
use crate::wire;
use crate::wire::{push_be, read_be};

verus! {

/// Control-source byte of records that no arbitration decided.
pub const CONTROL_SOURCE_SENTINEL: u8 = 0xFF;

/// Bytes before the payload of a record.
pub const HEADER_LEN: usize = 13;

pub open spec fn source_byte(source: ControlSource) -> u8 {
    match source {
        ControlSource::EStop => 0,
        ControlSource::EmergencySafeParking => 1,
        ControlSource::ActiveImpedanceHold => 2,
        ControlSource::FullTeleoperation => 3,
        ControlSource::SemiAutonomous => 4,
    }
}

/// The byte under which a control source is recorded.
pub fn control_source_byte(source: ControlSource) -> (b: u8)
    ensures
        b == source_byte(source),
        b != CONTROL_SOURCE_SENTINEL,
{
    match source {
        ControlSource::EStop => 0,
        ControlSource::EmergencySafeParking => 1,
        ControlSource::ActiveImpedanceHold => 2,
        ControlSource::FullTeleoperation => 3,
        ControlSource::SemiAutonomous => 4,
    }
}

/// The recorded byte tells the control sources apart, from each other and from
/// the records that have none.
pub proof fn lemma_source_byte_injective(a: ControlSource, b: ControlSource)
    ensures
        source_byte(a) == source_byte(b) ==> a == b,
        source_byte(a) != CONTROL_SOURCE_SENTINEL,
{
}

#[derive(Debug, Clone, Copy, PartialEq, Eq, Structural)]
pub struct RecordHeader {
    pub capture_us: u64,
    pub control_source: u8,
}

/// The bytes before a payload of `len` bytes.
pub open spec fn header_bytes(header: RecordHeader, len: nat) -> Seq<u8> {
    wire::be_digits(len, 4) + wire::be_digits(header.capture_us as nat, 8) + seq![
        header.control_source,
    ]
}

/// One record as it stands in a segment.
pub open spec fn framed(header: RecordHeader, payload: Seq<u8>) -> Seq<u8> {
    header_bytes(header, payload.len()) + payload
}

/// Appends one record to `out`.
pub fn encode_record(header: RecordHeader, payload: &[u8], out: &mut Vec<u8>)
    ensures
        final(out)@ == old(out)@ + framed(header, payload@),
{
    push_be(out, payload.len() as u64, 4);
    push_be(out, header.capture_us, 8);
    out.push(header.control_source);
    out.extend_from_slice(payload);
    proof {
        assert(out@ =~= old(out)@ + framed(header, payload@));
    }
}

/// The length of the payload that the record at the start of `s` announces.
pub open spec fn announced(s: Seq<u8>) -> nat {
    wire::be_value(s.subrange(0, 4))
}

/// Does `s` start with a whole record?
pub open spec fn starts_with_record(s: Seq<u8>) -> bool {
    s.len() >= HEADER_LEN && s.len() >= HEADER_LEN + announced(s)
}

/// The record that `s` starts with.
pub open spec fn first_record(s: Seq<u8>) -> (RecordHeader, Seq<u8>) {
    (
        RecordHeader {
            capture_us: wire::be_value(s.subrange(4, 12)) as u64,
            control_source: s[12],
        },
        s.subrange(HEADER_LEN as int, HEADER_LEN + announced(s)),
    )
}

/// The whole records at the start of `s`, up to a truncated one or the end.
pub open spec fn records_in(s: Seq<u8>) -> Seq<(RecordHeader, Seq<u8>)>
    decreases s.len(),
{
    if starts_with_record(s) {
        seq![first_record(s)] + records_in(
            s.subrange(HEADER_LEN + announced(s), s.len() as int),
        )
    } else {
        Seq::empty()
    }
}

/// Reads the records of a segment. A truncated last record ends the list
/// without an error; what stands before it is read.
pub fn decode_records(buf: &[u8]) -> (records: Vec<(RecordHeader, &[u8])>)
    ensures
        records@.len() == records_in(buf@).len(),
        forall|i: int|
            0 <= i < records@.len() ==> (#[trigger] records@[i]).0 == records_in(buf@)[i].0
                && records@[i].1@ == records_in(buf@)[i].1,
{
    let mut records: Vec<(RecordHeader, &[u8])> = Vec::new();
    let mut at: usize = 0;
    let ghost all = records_in(buf@);
    proof {
        assert(buf@.subrange(0, buf@.len() as int) =~= buf@);
    }
    while buf.len() - at >= HEADER_LEN
        invariant_except_break
            at <= buf.len(),
            all == records_in(buf@),
            records@.len() + records_in(buf@.subrange(at as int, buf@.len() as int)).len()
                == all.len(),
            forall|i: int|
                0 <= i < records@.len() ==> (#[trigger] records@[i]).0 == all[i].0
                    && records@[i].1@ == all[i].1,
            records_in(buf@.subrange(at as int, buf@.len() as int)) == all.subrange(
                records@.len() as int,
                all.len() as int,
            ),
        ensures
            records@.len() == all.len(),
            forall|i: int|
                0 <= i < records@.len() ==> (#[trigger] records@[i]).0 == all[i].0
                    && records@[i].1@ == all[i].1,
        decreases buf.len() - at,
    {
        let ghost rest = buf@.subrange(at as int, buf@.len() as int);
        proof {
            assert(rest.subrange(0, 4) =~= buf@.subrange(at as int, at + 4));
            assert(rest.subrange(4, 12) =~= buf@.subrange(at + 4, at + 12));
            wire::lemma_be_digits_of_value(rest.subrange(0, 4));
            wire::lemma_be_digits_of_value(rest.subrange(4, 12));
            wire::lemma_pow256_widths();
        }
        let len: usize = read_be(buf, at, 4) as usize;
        let capture_us: u64 = read_be(buf, at + 4, 8);
        let control_source: u8 = buf[at + 12];
        if buf.len() - at - HEADER_LEN < len {
            break;
        }
        let start: usize = at + HEADER_LEN;
        let payload = slice_subrange(buf, start, start + len);
        let ghost tail = rest.subrange(HEADER_LEN + announced(rest), rest.len() as int);
        proof {
            assert(payload@ =~= first_record(rest).1);
            assert(records_in(rest) == seq![first_record(rest)] + records_in(tail));
            assert(tail =~= buf@.subrange(start + len, buf@.len() as int));
            assert(all[records@.len() as int] == records_in(rest)[0]);
            assert(records_in(tail) =~= all.subrange(records@.len() as int + 1, all.len() as int)) by {
                assert(records_in(tail) =~= records_in(rest).subrange(
                    1,
                    records_in(rest).len() as int,
                ));
            }
        }
        records.push((RecordHeader { capture_us, control_source }, payload));
        at = start + len;
    }
    records
}

/// A segment: records one behind the other.
pub open spec fn segment_bytes(records: Seq<(RecordHeader, Seq<u8>)>) -> Seq<u8>
    decreases records.len(),
{
    if records.len() == 0 {
        Seq::empty()
    } else {
        framed(records[0].0, records[0].1) + segment_bytes(
            records.subrange(1, records.len() as int),
        )
    }
}

/// Payloads whose length a record can announce.
pub open spec fn framable(records: Seq<(RecordHeader, Seq<u8>)>) -> bool {
    forall|i: int| 0 <= i < records.len() ==> (#[trigger] records[i]).1.len() <= u32::MAX
}

/// Whatever follows, a record is read back first.
proof fn lemma_reads_first(header: RecordHeader, payload: Seq<u8>, rest: Seq<u8>)
    requires
        payload.len() <= u32::MAX,
    ensures
        records_in(framed(header, payload) + rest) == seq![(header, payload)] + records_in(rest),
        framed(header, payload).len() == HEADER_LEN + payload.len(),
{
    let s = framed(header, payload) + rest;
    wire::lemma_pow256_widths();
    wire::lemma_be_round_trip(payload.len(), 4);
    wire::lemma_be_round_trip(header.capture_us as nat, 8);
    assert(s.subrange(0, 4) =~= wire::be_digits(payload.len(), 4));
    assert(s.subrange(4, 12) =~= wire::be_digits(header.capture_us as nat, 8));
    assert(s.subrange(HEADER_LEN as int, HEADER_LEN + payload.len()) =~= payload);
    assert(s.subrange(HEADER_LEN + payload.len(), s.len() as int) =~= rest);
}

/// A truncated record reads as nothing.
proof fn lemma_reads_no_truncated(header: RecordHeader, payload: Seq<u8>, n: int)
    requires
        payload.len() <= u32::MAX,
        0 <= n < framed(header, payload).len(),
    ensures
        records_in(framed(header, payload).subrange(0, n)) == Seq::<(RecordHeader, Seq<u8>)>::empty(),
{
    let s = framed(header, payload).subrange(0, n);
    wire::lemma_pow256_widths();
    wire::lemma_be_round_trip(payload.len(), 4);
    wire::lemma_be_round_trip(header.capture_us as nat, 8);
    if n >= HEADER_LEN {
        assert(s.subrange(0, 4) =~= wire::be_digits(payload.len(), 4));
    }
}

/// Every record that was written is read back, in order, with nothing added.
pub proof fn lemma_segment_round_trip(records: Seq<(RecordHeader, Seq<u8>)>)
    requires
        framable(records),
    ensures
        records_in(segment_bytes(records)) == records,
    decreases records.len(),
{
    if records.len() > 0 {
        let rest = records.subrange(1, records.len() as int);
        lemma_segment_round_trip(rest);
        lemma_reads_first(records[0].0, records[0].1, segment_bytes(rest));
        assert(seq![records[0]] + rest =~= records);
    }
}

/// A segment cut off at any byte still yields every record that was written
/// whole before the cut, and nothing else.
pub proof fn lemma_cut_segment(records: Seq<(RecordHeader, Seq<u8>)>, n: int) -> (kept: int)
    requires
        framable(records),
        0 <= n <= segment_bytes(records).len(),
    ensures
        0 <= kept <= records.len(),
        records_in(segment_bytes(records).subrange(0, n)) == records.subrange(0, kept),
        segment_bytes(records.subrange(0, kept)).len() <= n,
        kept < records.len() ==> n < segment_bytes(records.subrange(0, kept + 1)).len(),
    decreases records.len(),
{
    let all = segment_bytes(records);
    if records.len() == 0 {
        assert(records.subrange(0, 0) =~= records);
        0
    } else {
        let rest = records.subrange(1, records.len() as int);
        let (header, payload) = records[0];
        let size = framed(header, payload).len();
        lemma_reads_first(header, payload, Seq::empty());
        if n < size {
            lemma_reads_no_truncated(header, payload, n);
            assert(all.subrange(0, n) =~= framed(header, payload).subrange(0, n));
            assert(records.subrange(0, 0) =~= Seq::empty());
            let one = records.subrange(0, 1);
            assert(one.subrange(1, 1) =~= Seq::empty());
            assert(segment_bytes(one.subrange(1, 1)) =~= Seq::empty());
            assert(segment_bytes(one) =~= framed(header, payload));
            0
        } else {
            let k = lemma_cut_segment(rest, n - size);
            let tail = segment_bytes(rest).subrange(0, n - size);
            assert(all.subrange(0, n) =~= framed(header, payload) + tail);
            lemma_reads_first(header, payload, tail);
            let kept = records.subrange(0, k + 1);
            assert(kept =~= seq![records[0]] + rest.subrange(0, k));
            assert(kept.subrange(1, k + 1) =~= rest.subrange(0, k));
            if k + 1 < records.len() {
                let more = records.subrange(0, k + 2);
                assert(more.subrange(1, k + 2) =~= rest.subrange(0, k + 1));
            }
            k + 1
        }
    }
}

/// When a segment is closed: at whichever bound is reached first.
#[derive(Debug, Clone, Copy, PartialEq, Eq, Structural)]
pub struct RotationThresholds {
    pub max_segment_bytes: u64,
    pub max_segment_duration: Duration,
}

pub open spec fn rotation_due(
    current_size: u64,
    opened_at: Instant,
    now: Instant,
    thresholds: RotationThresholds,
) -> bool {
    current_size >= thresholds.max_segment_bytes || time::elapsed(opened_at, now)
        >= thresholds.max_segment_duration.nanos
}

/// Is the open segment to be closed and a fresh one begun?
pub fn should_rotate(
    current_size: u64,
    opened_at: Instant,
    now: Instant,
    thresholds: &RotationThresholds,
) -> (due: bool)
    ensures
        due == rotation_due(current_size, opened_at, now, *thresholds),
{
    current_size >= thresholds.max_segment_bytes || now.saturating_duration_since(opened_at).nanos
        >= thresholds.max_segment_duration.nanos
}

/// The size of an existing segment.
#[derive(Debug, Clone, Copy, PartialEq, Eq, Structural)]
pub struct SegmentMeta {
    pub size_bytes: u64,
}

/// Total size of the segments from index `from` on.
pub open spec fn size_from(existing: Seq<SegmentMeta>, from: int) -> nat
    decreases existing.len() - from,
{
    if 0 <= from < existing.len() {
        existing[from].size_bytes as nat + size_from(existing, from + 1)
    } else {
        0
    }
}

/// Are `k` segments, the oldest ones, what has to go? They are the fewest that
/// make room for `incoming` bytes, but never all of them.
pub open spec fn deletes_oldest(
    existing: Seq<SegmentMeta>,
    incoming: u64,
    budget: u64,
    k: int,
) -> bool {
    &&& 0 <= k
    &&& k == 0 || k < existing.len()
    &&& size_from(existing, k) + incoming <= budget || k + 1 >= existing.len()
    &&& forall|j: int| 0 <= j < k ==> #[trigger] size_from(existing, j) + incoming > budget
}

/// Indices of the segments (oldest first in `existing`) to delete so that all
/// of them with `incoming_bytes` more stay within the budget. The newest one is
/// never among them, even where the rest is over the budget.
pub fn segments_to_delete_for_budget(
    existing: &[SegmentMeta],
    incoming_bytes: u64,
    budget_bytes: u64,
) -> (to_delete: Vec<usize>)
    requires
        size_from(existing@, 0) + incoming_bytes <= u64::MAX,
    ensures
        deletes_oldest(existing@, incoming_bytes, budget_bytes, to_delete@.len() as int),
        forall|i: int| 0 <= i < to_delete@.len() ==> to_delete@[i] == i,
{
    let mut total: u64 = incoming_bytes;
    let mut i: usize = existing.len();
    while i > 0
        invariant
            i <= existing@.len(),
            total == size_from(existing@, i as int) + incoming_bytes,
            size_from(existing@, 0) + incoming_bytes <= u64::MAX,
        decreases i,
    {
        proof {
            lemma_size_from_monotone(existing@, 0, i - 1);
        }
        i = i - 1;
        total = total + existing[i].size_bytes;
    }
    let mut to_delete: Vec<usize> = Vec::new();
    let mut k: usize = 0;
    while k + 1 < existing.len() && total > budget_bytes
        invariant
            existing.len() == existing@.len(),
            k == 0 || k < existing@.len(),
            k == to_delete@.len(),
            total == size_from(existing@, k as int) + incoming_bytes,
            forall|j: int| 0 <= j < k ==> to_delete@[j] == j,
            forall|j: int|
                0 <= j < k ==> #[trigger] size_from(existing@, j) + incoming_bytes > budget_bytes,
        decreases existing.len() - k,
    {
        total = total - existing[k].size_bytes;
        to_delete.push(k);
        k = k + 1;
    }
    to_delete
}

proof fn lemma_size_from_monotone(existing: Seq<SegmentMeta>, a: int, b: int)
    requires
        0 <= a <= b,
    ensures
        size_from(existing, b) <= size_from(existing, a),
    decreases b - a,
{
    if a < b {
        lemma_size_from_monotone(existing, a + 1, b);
        if a >= existing.len() {
            assert(size_from(existing, b) == 0);
        }
    }
}

/// There is exactly one number of segments to delete.
pub proof fn lemma_retention_unique(
    existing: Seq<SegmentMeta>,
    incoming: u64,
    budget: u64,
    a: int,
    b: int,
)
    requires
        deletes_oldest(existing, incoming, budget, a),
        deletes_oldest(existing, incoming, budget, b),
    ensures
        a == b,
{
    if a < b {
        assert(size_from(existing, a) + incoming > budget);
    } else if b < a {
        assert(size_from(existing, b) + incoming > budget);
    }
}

/// A segment is closed as soon as it is as large, or as old, as it may become;
/// either alone is enough.
pub proof fn lemma_rotation(
    size: u64,
    opened_at: Instant,
    now: Instant,
    thresholds: RotationThresholds,
)
    requires
        opened_at.nanos <= now.nanos,
    ensures
        size >= thresholds.max_segment_bytes ==> rotation_due(size, opened_at, now, thresholds),
        now.nanos - opened_at.nanos >= thresholds.max_segment_duration.nanos ==> rotation_due(
            size,
            opened_at,
            now,
            thresholds,
        ),
        size < thresholds.max_segment_bytes && now.nanos - opened_at.nanos
            < thresholds.max_segment_duration.nanos ==> !rotation_due(
            size,
            opened_at,
            now,
            thresholds,
        ),
{
}

/// What is deleted: nothing while all fits; otherwise the oldest segments, one
/// fewer of which would not be enough; and never the newest, which stays even
/// where it is too much by itself.
pub proof fn lemma_retention(existing: Seq<SegmentMeta>, incoming: u64, budget: u64, k: int)
    requires
        deletes_oldest(existing, incoming, budget, k),
    ensures
        size_from(existing, 0) + incoming <= budget ==> k == 0,
        existing.len() > 0 ==> k < existing.len(),
        existing.len() == 0 ==> k == 0,
        size_from(existing, k) + incoming > budget ==> k + 1 >= existing.len(),
        k > 0 ==> size_from(existing, k - 1) + incoming > budget,
{
    if k > 0 {
        assert(size_from(existing, 0) + incoming > budget);
        assert(size_from(existing, k - 1) + incoming > budget);
    }
}

/// The size of segments is the sum of their sizes.
pub proof fn lemma_sizes_add_up(existing: Seq<SegmentMeta>, from: int)
    ensures
        0 <= from < existing.len() ==> size_from(existing, from) == existing[from].size_bytes
            + size_from(existing, from + 1),
        from == existing.len() ==> size_from(existing, from) == 0,
{
}

/// What a record is in a segment: four bytes with the payload's length, eight
/// with the time, one with the source, and the payload.
pub proof fn lemma_record_layout(header: RecordHeader, payload: Seq<u8>)
    requires
        payload.len() <= u32::MAX,
    ensures
        ({
            let s = framed(header, payload);
            &&& s.len() == 13 + payload.len()
            &&& wire::be_value(s.subrange(0, 4)) == payload.len()
            &&& wire::be_value(s.subrange(4, 12)) == header.capture_us
            &&& s[12] == header.control_source
            &&& s.subrange(13, s.len() as int) == payload
        }),
{
    let s = framed(header, payload);
    wire::lemma_pow256_widths();
    wire::lemma_be_round_trip(payload.len(), 4);
    wire::lemma_be_round_trip(header.capture_us as nat, 8);
    assert(s.subrange(0, 4) =~= wire::be_digits(payload.len(), 4));
    assert(s.subrange(4, 12) =~= wire::be_digits(header.capture_us as nat, 8));
    assert(s.subrange(13, s.len() as int) =~= payload);
}

/// The numbers under which control sources are recorded.
pub proof fn lemma_source_numbers()
    ensures
        source_byte(ControlSource::EStop) == 0,
        source_byte(ControlSource::EmergencySafeParking) == 1,
        source_byte(ControlSource::ActiveImpedanceHold) == 2,
        source_byte(ControlSource::FullTeleoperation) == 3,
        source_byte(ControlSource::SemiAutonomous) == 4,
{
}

} // verus!
