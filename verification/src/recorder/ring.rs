//! One category's queue of records.

use std::collections::VecDeque;
use vstd::prelude::*;
use super::Record;

verus! {

pub struct CategoryState {
    ring: VecDeque<Record>,
    capacity: usize,
    active: bool,
    dropped: u64,
    bytes_enqueued: u64,
    shutdown: bool,
}

/// A queue as a mathematical value.
#[verifier::ext_equal]
pub struct RingView {
    pub queued: Seq<Record>,
    pub capacity: nat,
    pub active: bool,
    /// How many records were dropped, counted modulo 2^64.
    pub dropped: u64,
    /// How many payload bytes were queued, counted modulo 2^64.
    pub bytes_enqueued: u64,
    pub shutdown: bool,
}

/// A new queue. It holds one record at the least.
pub open spec fn fresh(capacity: usize, active: bool) -> RingView {
    RingView {
        queued: Seq::empty(),
        capacity: if capacity == 0 {
            1
        } else {
            capacity as nat
        },
        active,
        dropped: 0,
        bytes_enqueued: 0,
        shutdown: false,
    }
}

pub open spec fn wrapped(v: int) -> u64 {
    (v % 0x1_0000_0000_0000_0000) as u64
}

impl RingView {
    pub open spec fn wf(self) -> bool {
        self.capacity > 0 && self.queued.len() <= self.capacity
    }

    /// With one record more; a full queue gives up its oldest.
    pub open spec fn pushed(self, record: Record) -> RingView {
        let full = self.queued.len() >= self.capacity;
        RingView {
            queued: (if full {
                self.queued.subrange(1, self.queued.len() as int)
            } else {
                self.queued
            }).push(record),
            dropped: if full {
                wrapped(self.dropped + 1)
            } else {
                self.dropped
            },
            bytes_enqueued: wrapped(self.bytes_enqueued + record.payload@.len()),
            ..self
        }
    }

    /// With all that was queued taken out.
    pub open spec fn drained(self) -> RingView {
        RingView { queued: Seq::empty(), ..self }
    }

    /// With several records more, one after the other.
    pub open spec fn pushed_all(self, records: Seq<Record>) -> RingView
        decreases records.len(),
    {
        if records.len() == 0 {
            self
        } else {
            self.pushed_all(records.drop_last()).pushed(records.last())
        }
    }
}

impl View for CategoryState {
    type V = RingView;

    closed spec fn view(&self) -> RingView {
        RingView {
            queued: self.ring@,
            capacity: self.capacity as nat,
            active: self.active,
            dropped: self.dropped,
            bytes_enqueued: self.bytes_enqueued,
            shutdown: self.shutdown,
        }
    }
}

fn wrapping_sum(a: u64, b: u64) -> (s: u64)
    ensures
        s == wrapped(a + b),
{
    if a <= u64::MAX - b {
        a + b
    } else {
        a - (u64::MAX - b) - 1
    }
}

impl CategoryState {
    pub open spec fn wf(&self) -> bool {
        self@.wf()
    }

    pub fn new(capacity: usize, start_active: bool) -> (s: Self)
        ensures
            s.wf(),
            s@ == fresh(capacity, start_active),
    {
        let s = CategoryState {
            ring: VecDeque::new(),
            capacity: if capacity == 0 {
                1
            } else {
                capacity
            },
            active: start_active,
            dropped: 0,
            bytes_enqueued: 0,
            shutdown: false,
        };
        proof {
            assert(s@ =~= fresh(capacity, start_active));
        }
        s
    }

    /// Queues a record without ever waiting: a full queue drops its oldest.
    pub fn push(&mut self, record: Record)
        requires
            old(self).wf(),
        ensures
            final(self).wf(),
            final(self)@ == old(self)@.pushed(record),
    {
        self.bytes_enqueued = wrapping_sum(self.bytes_enqueued, record.payload.len() as u64);
        if self.ring.len() >= self.capacity {
            let _oldest = self.ring.pop_front();
            self.dropped = wrapping_sum(self.dropped, 1);
        }
        self.ring.push_back(record);
        proof {
            assert(self@ =~= old(self)@.pushed(record));
        }
    }

    /// Takes everything that is queued, oldest first.
    pub fn drain(&mut self) -> (batch: Vec<Record>)
        requires
            old(self).wf(),
        ensures
            final(self).wf(),
            batch@ == old(self)@.queued,
            final(self)@ == old(self)@.drained(),
    {
        let mut batch: Vec<Record> = Vec::new();
        let ghost all = self.ring@;
        while self.ring.len() > 0
            invariant
                batch@ + self.ring@ == all,
                self@ == (RingView { queued: self.ring@, ..old(self)@ }),
            decreases self.ring@.len(),
        {
            let ghost before = self.ring@;
            if let Some(record) = self.ring.pop_front() {
                batch.push(record);
                proof {
                    assert(batch@ + self.ring@ =~= all);
                    assert(self.ring@.len() < before.len());
                }
            }
        }
        proof {
            assert(self.ring@ =~= Seq::empty());
            assert(batch@ =~= all);
        }
        batch
    }

    pub fn set_active(&mut self, active: bool)
        ensures
            final(self)@ == (RingView { active, ..old(self)@ }),
    {
        self.active = active;
    }

    /// Tells the writer to finish.
    pub fn shut_down(&mut self)
        ensures
            final(self)@ == (RingView { shutdown: true, ..old(self)@ }),
    {
        self.shutdown = true;
    }

    pub fn is_shut_down(&self) -> (b: bool)
        ensures
            b == self@.shutdown,
    {
        self.shutdown
    }

    /// Bytes queued, records dropped, and whether records are taken.
    pub fn stats(&self) -> (s: (u64, u64, bool))
        ensures
            s == (self@.bytes_enqueued, self@.dropped, self@.active),
    {
        (self.bytes_enqueued, self.dropped, self.active)
    }
}

/// However many records are queued, the queue keeps the newest ones, in order,
/// and never more than its capacity.
pub proof fn lemma_keeps_newest(q: RingView, records: Seq<Record>)
    requires
        q.wf(),
    ensures
        q.pushed_all(records).wf(),
        q.pushed_all(records).capacity == q.capacity,
        q.pushed_all(records).active == q.active,
        ({
            let all = q.queued + records;
            let kept = if all.len() <= q.capacity {
                all.len() as int
            } else {
                q.capacity as int
            };
            q.pushed_all(records).queued == all.subrange(all.len() - kept, all.len() as int)
        }),
    decreases records.len(),
{
    let all = q.queued + records;
    if records.len() == 0 {
        assert(all =~= q.queued);
        assert(all.subrange(0, all.len() as int) =~= all);
    } else {
        let before = records.drop_last();
        lemma_keeps_newest(q, before);
        assert(all =~= (q.queued + before).push(records.last()));
        let kept = if all.len() <= q.capacity {
            all.len() as int
        } else {
            q.capacity as int
        };
        assert(q.pushed_all(records).queued =~= all.subrange(all.len() - kept, all.len() as int));
    }
}

/// The payload bytes of all records together.
pub open spec fn payload_bytes(records: Seq<Record>) -> nat
    decreases records.len(),
{
    if records.len() == 0 {
        0
    } else {
        payload_bytes(records.drop_last()) + records.last().payload@.len()
    }
}

/// However many records are queued, the two counters tell of all of them: every
/// payload byte is counted once, and every record is either still queued or
/// counted as dropped.
pub proof fn lemma_counts_all(q: RingView, records: Seq<Record>)
    requires
        q.wf(),
    ensures
        ({
            let after = q.pushed_all(records);
            let gone = q.queued.len() + records.len() - after.queued.len();
            &&& gone >= 0
            &&& after.bytes_enqueued == wrapped(q.bytes_enqueued + payload_bytes(records))
            &&& after.dropped == wrapped(q.dropped + gone)
        }),
    decreases records.len(),
{
    lemma_keeps_newest(q, records);
    if records.len() > 0 {
        let before = records.drop_last();
        lemma_keeps_newest(q, before);
        lemma_counts_all(q, before);
        let prev = q.pushed_all(before);
        lemma_wrapped_sum(
            q.bytes_enqueued + payload_bytes(before),
            records.last().payload@.len() as int,
        );
        lemma_wrapped_sum(q.dropped + (q.queued.len() + before.len() - prev.queued.len()), 1);
    }
}

proof fn lemma_wrapped_sum(a: int, b: int)
    requires
        0 <= a,
        0 <= b,
    ensures
        wrapped(wrapped(a) + b) == wrapped(a + b),
{
}

/// One record more: it is the newest from then on. While there is room all that
/// was queued stays; a full queue gives up its oldest record and counts it as
/// dropped. The bytes of the payload are counted either way.
pub proof fn lemma_push(q: RingView, record: Record)
    requires
        q.wf(),
        q.dropped < u64::MAX,
        q.bytes_enqueued + record.payload@.len() <= u64::MAX,
    ensures
        ({
            let after = q.pushed(record);
            &&& after.wf()
            &&& after.queued.last() == record
            &&& q.queued.len() < q.capacity ==> after.queued.drop_last() == q.queued
                && after.dropped == q.dropped
            &&& q.queued.len() == q.capacity ==> after.queued.drop_last()
                == q.queued.subrange(1, q.queued.len() as int) && after.dropped == q.dropped + 1
            &&& after.bytes_enqueued == q.bytes_enqueued + record.payload@.len()
            &&& after.active == q.active
            &&& after.shutdown == q.shutdown
            &&& after.capacity == q.capacity
        }),
{
    let after = q.pushed(record);
    if q.queued.len() < q.capacity {
        assert(after.queued.drop_last() =~= q.queued);
    } else {
        assert(after.queued.drop_last() =~= q.queued.subrange(1, q.queued.len() as int));
    }
}

/// Taking out empties the queue and changes nothing else; a new queue is empty,
/// as large as was asked for but not without any room, and has counted nothing.
pub proof fn lemma_drain_and_fresh(q: RingView, capacity: usize, active: bool)
    ensures
        q.drained().queued.len() == 0,
        q.drained() == (RingView { queued: q.drained().queued, ..q }),
        fresh(capacity, active).queued.len() == 0,
        capacity > 0 ==> fresh(capacity, active).capacity == capacity,
        capacity == 0 ==> fresh(capacity, active).capacity == 1,
        fresh(capacity, active).active == active,
        fresh(capacity, active).dropped == 0,
        fresh(capacity, active).bytes_enqueued == 0,
        !fresh(capacity, active).shutdown,
{
}

} // verus!
