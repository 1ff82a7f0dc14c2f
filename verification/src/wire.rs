//! Fixed-width integers as byte strings, most significant byte first
//! (`be_*`) or least significant byte first (`le_*`).

use vstd::prelude::*;

verus! {

/// 256 to the power `k`: one more than the largest value that `k` bytes hold.
pub open spec fn pow256(k: nat) -> nat
    decreases k,
{
    if k == 0 {
        1
    } else {
        256 * pow256((k - 1) as nat)
    }
}

/// The number that `s` spells, most significant byte first.
pub open spec fn be_value(s: Seq<u8>) -> nat
    decreases s.len(),
{
    if s.len() == 0 {
        0
    } else {
        be_value(s.drop_last()) * 256 + s.last() as nat
    }
}

/// The `k` low-order base-256 digits of `v`, most significant first.
pub open spec fn be_digits(v: nat, k: nat) -> Seq<u8>
    decreases k,
{
    if k == 0 {
        Seq::empty()
    } else {
        be_digits(v / 256, (k - 1) as nat).push((v % 256) as u8)
    }
}

/// The number that `s` spells, least significant byte first.
pub open spec fn le_value(s: Seq<u8>) -> nat
    decreases s.len(),
{
    if s.len() == 0 {
        0
    } else {
        s[0] as nat + 256 * le_value(s.subrange(1, s.len() as int))
    }
}

/// The `k` low-order base-256 digits of `v`, least significant first.
pub open spec fn le_digits(v: nat, k: nat) -> Seq<u8>
    decreases k,
{
    if k == 0 {
        Seq::empty()
    } else {
        seq![(v % 256) as u8] + le_digits(v / 256, (k - 1) as nat)
    }
}

/// `be_digits` yields exactly `k` bytes.
pub proof fn lemma_be_digits_len(v: nat, k: nat)
    ensures
        be_digits(v, k).len() == k,
    decreases k,
{
    if k > 0 {
        lemma_be_digits_len(v / 256, (k - 1) as nat);
    }
}

/// Reading back the digits of a value that fits gives the value.
pub proof fn lemma_be_round_trip(v: nat, k: nat)
    requires
        v < pow256(k),
    ensures
        be_value(be_digits(v, k)) == v,
        be_digits(v, k).len() == k,
    decreases k,
{
    if k > 0 {
        lemma_be_round_trip(v / 256, (k - 1) as nat);
        assert(be_digits(v, k).drop_last() =~= be_digits(v / 256, (k - 1) as nat));
    }
}

/// Digits of the value of a byte string are that byte string.
pub proof fn lemma_be_digits_of_value(s: Seq<u8>)
    ensures
        be_digits(be_value(s), s.len()) == s,
        be_value(s) < pow256(s.len()),
    decreases s.len(),
{
    if s.len() > 0 {
        lemma_be_digits_of_value(s.drop_last());
        let hi = be_value(s.drop_last());
        assert((hi * 256 + s.last() as nat) / 256 == hi);
        assert((hi * 256 + s.last() as nat) % 256 == s.last() as nat);
        assert(be_digits(be_value(s), s.len()) =~= s);
    }
}

/// `le_digits` yields exactly `k` bytes.
pub proof fn lemma_le_digits_len(v: nat, k: nat)
    ensures
        le_digits(v, k).len() == k,
    decreases k,
{
    if k > 0 {
        lemma_le_digits_len(v / 256, (k - 1) as nat);
    }
}

/// Reading back the digits of a value that fits gives the value.
pub proof fn lemma_le_round_trip(v: nat, k: nat)
    requires
        v < pow256(k),
    ensures
        le_value(le_digits(v, k)) == v,
        le_digits(v, k).len() == k,
    decreases k,
{
    if k > 0 {
        lemma_le_round_trip(v / 256, (k - 1) as nat);
        let d = le_digits(v, k);
        assert(d.subrange(1, d.len() as int) =~= le_digits(v / 256, (k - 1) as nat));
    }
}

/// The ranges of the integer widths used on the wire.
pub proof fn lemma_pow256_widths()
    ensures
        pow256(1) == 0x100,
        pow256(2) == 0x1_0000,
        pow256(4) == 0x1_0000_0000,
        pow256(8) == 0x1_0000_0000_0000_0000,
{
    reveal_with_fuel(pow256, 9);
}

/// A byte string of length `n` spells a number below `pow256(n)`.
pub proof fn lemma_le_value_bound(s: Seq<u8>)
    ensures
        le_value(s) < pow256(s.len()),
    decreases s.len(),
{
    if s.len() > 0 {
        lemma_le_value_bound(s.subrange(1, s.len() as int));
    }
}

/// Appends the `k` low-order bytes of `v`, most significant first.
pub fn push_be(out: &mut Vec<u8>, v: u64, k: usize)
    ensures
        final(out)@ == old(out)@ + be_digits(v as nat, k as nat),
    decreases k,
{
    if k > 0 {
        push_be(out, v / 256, k - 1);
        out.push((v % 256) as u8);
        proof {
            assert(out@ =~= old(out)@ + be_digits(v as nat, k as nat));
        }
    } else {
        proof {
            assert(out@ =~= old(out)@ + be_digits(v as nat, k as nat));
        }
    }
}

/// Appends the `k` low-order bytes of `v`, least significant first.
pub fn push_le(out: &mut Vec<u8>, v: u64, k: usize)
    ensures
        final(out)@ == old(out)@ + le_digits(v as nat, k as nat),
    decreases k,
{
    if k > 0 {
        out.push((v % 256) as u8);
        push_le(out, v / 256, k - 1);
        proof {
            assert(out@ =~= old(out)@ + le_digits(v as nat, k as nat));
        }
    } else {
        proof {
            assert(out@ =~= old(out)@ + le_digits(v as nat, k as nat));
        }
    }
}

/// Reads the `k` bytes at `at`, most significant first.
pub fn read_be(bytes: &[u8], at: usize, k: usize) -> (v: u64)
    requires
        k <= 8,
        at + k <= bytes.len(),
    ensures
        v == be_value(bytes@.subrange(at as int, at + k)),
{
    proof {
        lemma_pow256_widths();
    }
    let mut v: u64 = 0;
    let mut i: usize = 0;
    while i < k
        invariant
            i <= k <= 8,
            at + k <= bytes.len(),
            v == be_value(bytes@.subrange(at as int, at + i)),
            v < pow256(i as nat),
        decreases k - i,
    {
        let ghost part = bytes@.subrange(at as int, at + i);
        proof {
            lemma_pow256_monotone(i as nat + 1, 8);
            lemma_pow256_widths();
            assert(bytes@.subrange(at as int, at + i + 1).drop_last() =~= part);
        }
        v = v * 256 + bytes[at + i] as u64;
        i = i + 1;
    }
    v
}

/// Reads the `k` bytes at `at`, least significant first.
pub fn read_le(bytes: &[u8], at: usize, k: usize) -> (v: u64)
    requires
        k <= 8,
        at + k <= bytes.len(),
    ensures
        v == le_value(bytes@.subrange(at as int, at + k)),
        v < pow256(k as nat),
    decreases k,
{
    if k == 0 {
        return 0;
    }
    let rest: u64 = read_le(bytes, at + 1, k - 1);
    proof {
        let s = bytes@.subrange(at as int, at + k);
        assert(s.subrange(1, s.len() as int) =~= bytes@.subrange(at + 1, at + k));
        lemma_pow256_monotone(k as nat, 8);
        lemma_pow256_widths();
    }
    bytes[at] as u64 + 256 * rest
}

/// `pow256` does not decrease.
pub proof fn lemma_pow256_monotone(a: nat, b: nat)
    requires
        a <= b,
    ensures
        0 < pow256(a) <= pow256(b),
    decreases b,
{
    if a < b {
        lemma_pow256_monotone(a, (b - 1) as nat);
    } else if a > 0 {
        lemma_pow256_monotone((a - 1) as nat, (a - 1) as nat);
    }
}

/// The bit pattern of a two's-complement 16-bit integer.
pub open spec fn bits_of_i16(v: int) -> nat {
    if v < 0 {
        (v + 0x1_0000) as nat
    } else {
        v as nat
    }
}

/// The two's-complement 16-bit integer with bit pattern `bits`.
pub open spec fn i16_of_bits(bits: nat) -> int {
    if bits >= 0x8000 {
        bits - 0x1_0000
    } else {
        bits as int
    }
}

/// Appends a 16-bit two's-complement integer, most significant byte first.
pub fn push_be_i16(out: &mut Vec<u8>, v: i16)
    ensures
        final(out)@ == old(out)@ + be_digits(bits_of_i16(v as int), 2),
{
    let bits: u64 = if v < 0 {
        (v as i64 + 0x1_0000) as u64
    } else {
        v as u64
    };
    push_be(out, bits, 2);
}

/// Reads the 16-bit two's-complement integer at `at`, most significant byte first.
pub fn read_be_i16(bytes: &[u8], at: usize) -> (v: i16)
    requires
        at + 2 <= bytes.len(),
    ensures
        v == i16_of_bits(be_value(bytes@.subrange(at as int, at + 2))),
{
    let bits: u64 = read_be(bytes, at, 2);
    proof {
        lemma_be_digits_of_value(bytes@.subrange(at as int, at + 2));
        lemma_pow256_widths();
    }
    if bits >= 0x8000 {
        (bits as i64 - 0x1_0000) as i16
    } else {
        bits as i16
    }
}

/// Every 16-bit integer survives being written and read back.
pub proof fn lemma_i16_round_trip(v: i16)
    ensures
        i16_of_bits(be_value(be_digits(bits_of_i16(v as int), 2))) == v,
        be_digits(bits_of_i16(v as int), 2).len() == 2,
{
    lemma_pow256_widths();
    lemma_be_round_trip(bits_of_i16(v as int), 2);
}

/// Are these the same bytes?
pub fn same_bytes(a: &[u8], b: &[u8]) -> (same: bool)
    ensures
        same == (a@ == b@),
{
    if a.len() != b.len() {
        return false;
    }
    let n: usize = a.len();
    let mut i: usize = 0;
    while i < n
        invariant
            i <= n,
            n == a@.len(),
            n == b@.len(),
            forall|j: int| 0 <= j < i ==> a@[j] == b@[j],
        decreases n - i,
    {
        if a[i] != b[i] {
            return false;
        }
        i = i + 1;
    }
    proof {
        assert(a@ =~= b@);
    }
    true
}

/// Most significant byte first: the last byte of a number counts ones, the one
/// before it counts two hundred and fifty-sixes, and so on.
pub proof fn lemma_big_end_first(s: Seq<u8>, b: u8)
    ensures
        be_value(Seq::empty()) == 0,
        be_value(s.push(b)) == 256 * be_value(s) + b,
{
    assert(s.push(b).drop_last() =~= s);
}

/// Least significant byte first: the first byte of a number counts ones, and
/// what follows counts two hundred and fifty-sixes.
pub proof fn lemma_little_end_first(b: u8, s: Seq<u8>)
    ensures
        le_value(Seq::empty()) == 0,
        le_value(seq![b] + s) == b + 256 * le_value(s),
{
    let t = seq![b] + s;
    assert(t.subrange(1, t.len() as int) =~= s);
}

/// Sixteen bits stand for the numbers from -32768 to 32767, in two's complement.
pub proof fn lemma_twos_complement(v: int, bits: nat)
    ensures
        0 <= v <= 32767 ==> bits_of_i16(v) == v,
        -32768 <= v < 0 ==> bits_of_i16(v) == 65536 + v,
        bits <= 32767 ==> i16_of_bits(bits) == bits,
        32768 <= bits <= 65535 ==> i16_of_bits(bits) == bits - 65536,
{
}

} // verus!
