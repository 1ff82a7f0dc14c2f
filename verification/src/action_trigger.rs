//! Discrete one-shot command triggers on a reliable stream of their own.

use vstd::prelude::*;

verus! {

/// Operator-initiated bidirectional stream, opened once per session.
pub const ACTION_TRIGGER_STREAM_ID: u64 = 4;

#[derive(Debug, Clone, Copy, PartialEq, Eq, Structural)]
pub struct ActionTrigger {
    pub action_id: u8,
    /// Independent monotonic identity, not the sequence space of command frames.
    pub trigger_seq: u64,
}

/// Is `seq` later than everything applied so far?
pub open spec fn is_later(last_applied: Option<u64>, seq: u64) -> bool {
    match last_applied {
        Some(last) => seq > last,
        None => true,
    }
}

/// Tracks the highest `trigger_seq` applied so far, so that a duplicate or an
/// overtaken trigger does not fire.
#[derive(Debug)]
pub struct TriggerDedup {
    last_applied: Option<u64>,
}

impl TriggerDedup {
    /// The highest sequence number applied so far.
    pub closed spec fn last(&self) -> Option<u64> {
        self.last_applied
    }

    pub fn new() -> (d: Self)
        ensures
            d.last() is None,
    {
        TriggerDedup { last_applied: None }
    }

    /// `true`, and the trigger is recorded, exactly if it is later than every
    /// trigger applied before.
    pub fn accept(&mut self, trigger: ActionTrigger) -> (fresh: bool)
        ensures
            fresh == is_later(old(self).last(), trigger.trigger_seq),
            final(self).last() == if fresh {
                Some(trigger.trigger_seq)
            } else {
                old(self).last()
            },
    {
        let fresh = match self.last_applied {
            Some(last) => trigger.trigger_seq > last,
            None => true,
        };
        if fresh {
            self.last_applied = Some(trigger.trigger_seq);
        }
        fresh
    }
}

impl Default for TriggerDedup {
    fn default() -> (d: Self)
        ensures
            d.last() is None,
    {
        Self::new()
    }
}

/// What the dedup holds after it was offered `seqs` in order.
pub open spec fn last_after(start: Option<u64>, seqs: Seq<u64>) -> Option<u64>
    decreases seqs.len(),
{
    if seqs.len() == 0 {
        start
    } else {
        let before = last_after(start, seqs.drop_last());
        if is_later(before, seqs.last()) {
            Some(seqs.last())
        } else {
            before
        }
    }
}

/// Was the `i`-th of `seqs` applied, when they were offered in order?
pub open spec fn applied_at(start: Option<u64>, seqs: Seq<u64>, i: int) -> bool {
    is_later(last_after(start, seqs.take(i)), seqs[i])
}

/// After any offers, everything offered so far is at most what is held.
pub proof fn lemma_last_dominates(start: Option<u64>, seqs: Seq<u64>, i: int)
    requires
        0 <= i < seqs.len(),
    ensures
        last_after(start, seqs) is Some,
        seqs[i] <= last_after(start, seqs)->0,
    decreases seqs.len(),
{
    if i < seqs.len() - 1 {
        lemma_last_dominates(start, seqs.drop_last(), i);
    }
}

/// At most once: of two offers with the same sequence number, the later one is
/// never applied, and neither is one below an earlier offer.
pub proof fn lemma_applied_at_most_once(start: Option<u64>, seqs: Seq<u64>, i: int, j: int)
    requires
        0 <= i < j < seqs.len(),
        seqs[j] <= seqs[i],
    ensures
        !applied_at(start, seqs, j),
{
    lemma_last_dominates(start, seqs.take(j), i);
}

/// Strictly increasing sequence numbers are all applied, from a fresh start.
pub proof fn lemma_increasing_all_applied(seqs: Seq<u64>, i: int)
    requires
        0 <= i < seqs.len(),
        forall|a: int, b: int| 0 <= a < b < seqs.len() ==> seqs[a] < seqs[b],
    ensures
        applied_at(None, seqs, i),
        last_after(None, seqs.take(i + 1)) == Some(seqs[i]),
    decreases i,
{
    let upto = seqs.take(i + 1);
    assert(upto.drop_last() =~= seqs.take(i));
    if i > 0 {
        lemma_increasing_all_applied(seqs, i - 1);
    }
}

} // verus!
