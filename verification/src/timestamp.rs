//! Sixty-four-bit datagram timestamps (microseconds since the Unix epoch) and
//! round-trip arithmetic on them.

use vstd::prelude::*;

verus! {

pub type Timestamp64 = u64;

/// A span of time in milliseconds, held exactly as a whole number of
/// microseconds.
#[derive(Debug, Clone, Copy, PartialEq, Eq, Structural)]
pub struct Millis {
    pub micros: i64,
}

impl Millis {
    /// `ms` whole milliseconds.
    pub fn from_ms(ms: i32) -> (m: Self)
        ensures
            m.micros == ms * 1000,
    {
        Millis { micros: ms as i64 * 1000 }
    }
}

/// A timestamp read as a signed number of microseconds.
pub open spec fn signed(t: u64) -> int {
    if t > i64::MAX {
        t - 0x1_0000_0000_0000_0000
    } else {
        t as int
    }
}

pub open spec fn fits_i64(v: int) -> bool {
    i64::MIN <= v <= i64::MAX
}

fn to_signed(t: u64) -> (v: i64)
    ensures
        v == signed(t),
{
    if t <= i64::MAX as u64 {
        t as i64
    } else {
        -1 - ((u64::MAX - t) as i64)
    }
}

/// The round trip without the time that the peer took.
pub open spec fn round_trip(t_send: int, t_receive: int, t_reply_send: int, t_now: int) -> int {
    (t_now - t_send) - (t_reply_send - t_receive)
}

/// Four-timestamp round trip:
/// `(t_now - t_send) - (t_reply_send - t_receive)`.
pub fn compute_rtt_ms(
    t_send: Timestamp64,
    t_receive: Timestamp64,
    t_reply_send: Timestamp64,
    t_now: Timestamp64,
) -> (rtt: Millis)
    requires
        fits_i64(signed(t_now) - signed(t_send)),
        fits_i64(signed(t_reply_send) - signed(t_receive)),
        fits_i64((signed(t_now) - signed(t_send)) - (signed(t_reply_send) - signed(t_receive))),
    ensures
        rtt.micros == round_trip(
            signed(t_send),
            signed(t_receive),
            signed(t_reply_send),
            signed(t_now),
        ),
        rtt.micros == (signed(t_now) - signed(t_send)) - (signed(t_reply_send) - signed(
            t_receive,
        )),
{
    let round_trip: i64 = to_signed(t_now) - to_signed(t_send);
    let peer_processing: i64 = to_signed(t_reply_send) - to_signed(t_receive);
    Millis { micros: round_trip - peer_processing }
}

/// One-way delay; meaningful only between synchronized clocks.
pub fn one_way_delay_ms(t_send: Timestamp64, t_receive: Timestamp64) -> (d: Millis)
    requires
        fits_i64(signed(t_receive) - signed(t_send)),
    ensures
        d.micros == signed(t_receive) - signed(t_send),
{
    Millis { micros: to_signed(t_receive) - to_signed(t_send) }
}

/// `local - remote` of each sample.
pub open spec fn sample_deltas(samples: Seq<(u64, u64)>) -> Seq<i64> {
    samples.map_values(|p: (u64, u64)| (signed(p.0) - signed(p.1)) as i64)
}

/// The middle element of `s` in ascending order (the upper one of two).
pub open spec fn median(s: Seq<i64>) -> i64 {
    s.sort_by(|a: i64, b: i64| a <= b)[s.len() as int / 2]
}

/// The elements of `v` in ascending order.
fn sort_ascending(v: Vec<i64>) -> (sorted: Vec<i64>)
    ensures
        sorted@.to_multiset() =~= v@.to_multiset(),
        forall|i: int, j: int| 0 <= i <= j < sorted@.len() ==> sorted@[i] <= sorted@[j],
        sorted@.len() == v@.len(),
{
    broadcast use vstd::seq_lib::group_to_multiset_ensures;

    let mut sorted: Vec<i64> = Vec::new();
    let mut n: usize = 0;
    while n < v.len()
        invariant
            n <= v.len(),
            sorted@.len() == n,
            sorted@.to_multiset() =~= v@.take(n as int).to_multiset(),
            forall|i: int, j: int| 0 <= i <= j < sorted@.len() ==> sorted@[i] <= sorted@[j],
        decreases v.len() - n,
    {
        let x: i64 = v[n];
        let mut at: usize = 0;
        while at < sorted.len() && sorted[at] <= x
            invariant
                at <= sorted@.len(),
                forall|i: int| 0 <= i < at ==> sorted@[i] <= x,
            decreases sorted@.len() - at,
        {
            at = at + 1;
        }
        let ghost before = sorted@;
        sorted.insert(at, x);
        proof {
            before.to_multiset_ensures();
            assert(v@.take(n + 1) =~= v@.take(n as int).push(x));
            v@.take(n as int).to_multiset_ensures();
            lemma_insert_multiset(before, at as int, x);
        }
        n = n + 1;
    }
    assert(v@.take(n as int) =~= v@);
    sorted
}

proof fn lemma_insert_multiset(s: Seq<i64>, at: int, x: i64)
    requires
        0 <= at <= s.len(),
    ensures
        s.insert(at, x).to_multiset() =~= s.to_multiset().insert(x),
{
    let a = s.subrange(0, at);
    let b = s.subrange(at, s.len() as int);
    vstd::seq_lib::lemma_multiset_commutative(a, b);
    vstd::seq_lib::lemma_multiset_commutative(a.push(x), b);
    assert(a + b =~= s);
    assert(a.push(x) + b =~= s.insert(at, x));
    a.to_multiset_ensures();
}

/// Estimates the offset between two clocks from pairs of (local receipt time,
/// remote send time): the median of their differences, or zero without samples.
pub fn estimate_clock_offset_us(samples: &[(u64, u64)]) -> (offset: i64)
    requires
        forall|i: int|
            0 <= i < samples@.len() ==> fits_i64(
                signed(#[trigger] samples@[i].0) - signed(samples@[i].1),
            ),
    ensures
        offset == if samples@.len() == 0 {
            0
        } else {
            median(sample_deltas(samples@))
        },
{
    if samples.len() == 0 {
        return 0;
    }
    let mut deltas: Vec<i64> = Vec::new();
    let mut i: usize = 0;
    while i < samples.len()
        invariant
            i <= samples.len(),
            deltas@ =~= sample_deltas(samples@).take(i as int),
            forall|i: int|
                0 <= i < samples@.len() ==> fits_i64(
                    signed(#[trigger] samples@[i].0) - signed(samples@[i].1),
                ),
        decreases samples.len() - i,
    {
        let d: i64 = to_signed(samples[i].0) - to_signed(samples[i].1);
        deltas.push(d);
        i = i + 1;
    }
    assert(deltas@ =~= sample_deltas(samples@));
    let ghost s = deltas@;
    let sorted: Vec<i64> = sort_ascending(deltas);
    proof {
        let leq = |a: i64, b: i64| a <= b;
        s.lemma_sort_by_ensures(leq);
        vstd::seq_lib::lemma_sorted_unique(sorted@, s.sort_by(leq), leq);
    }
    sorted[sorted.len() / 2]
}

/// A timestamp of this age of the world is the number that it is; one with the
/// highest bit set counts back from zero.
pub proof fn lemma_timestamps_are_signed(t: u64)
    ensures
        t < 0x8000_0000_0000_0000 ==> signed(t) == t,
        t >= 0x8000_0000_0000_0000 ==> signed(t) == t - 0x1_0000_0000_0000_0000,
{
}

/// The median stands in the middle: sorted upwards, there are as many elements
/// before it as half of them, rounded down.
pub proof fn lemma_median_is_the_middle(s: Seq<i64>, sorted: Seq<i64>)
    requires
        s.len() > 0,
        sorted.to_multiset() =~= s.to_multiset(),
        forall|i: int, j: int| 0 <= i <= j < sorted.len() ==> sorted[i] <= sorted[j],
    ensures
        sorted.len() == s.len(),
        median(s) == sorted[s.len() as int / 2],
{
    let leq = |a: i64, b: i64| a <= b;
    s.lemma_sort_by_ensures(leq);
    vstd::seq_lib::lemma_sorted_unique(sorted, s.sort_by(leq), leq);
    s.to_multiset_ensures();
    sorted.to_multiset_ensures();
}

/// Each sample counts by how far its receipt lies behind its sending.
pub proof fn lemma_each_sample_counts(samples: Seq<(u64, u64)>, i: int)
    requires
        0 <= i < samples.len(),
        samples[i].0 < 0x8000_0000_0000_0000,
        samples[i].1 < 0x8000_0000_0000_0000,
    ensures
        sample_deltas(samples).len() == samples.len(),
        sample_deltas(samples)[i] == samples[i].0 - samples[i].1,
{
}

/// What a round trip is: the way there and the way back. The time that the peer
/// takes between them does not count, and neither does how far its clock is off.
pub proof fn lemma_round_trip_is_both_ways(sent: int, there: int, taken: int, back: int, off: int)
    ensures
        round_trip(
            sent,
            sent + there + off,
            sent + there + taken + off,
            sent + there + taken + back,
        ) == there + back,
{
}

} // verus!
