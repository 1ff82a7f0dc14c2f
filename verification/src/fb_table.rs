//! Tables on top of the raw FlatBuffers calls: writing fields so that reading
//! them back is known to give what was written, and checking a received
//! buffer before anything is read from it.

use vstd::prelude::*;
use flatbuffers::FlatBufferBuilder;
use crate::fb::{
    fb_bytes, fb_end_table, fb_finish, fb_put_bool, fb_put_offset, fb_put_u16, fb_put_u32,
    fb_put_u64, fb_put_u8, fb_start_table, fb_string, fb_tables, is_utf8, MAX_BUFFER, MAX_SLOT, WRITE_BOUND,
};
use crate::fb;
use crate::wire::read_le;

verus! {

pub type Builder = FlatBufferBuilder<'static>;

// Growing a buffer at the front keeps what is in it.

pub proof fn lemma_extends_trans(a: Seq<u8>, b: Seq<u8>, c: Seq<u8>)
    requires
        fb::extends(a, b),
        fb::extends(b, c),
    ensures
        fb::extends(a, c),
{
    let mid = c.subrange(c.len() - b.len(), c.len() as int);
    assert(mid == b);
    assert(c.subrange(c.len() - a.len(), c.len() as int) =~= mid.subrange(
        b.len() - a.len(),
        b.len() as int,
    ));
}

pub proof fn lemma_extends_refl(a: Seq<u8>)
    ensures
        fb::extends(a, a),
{
    assert(a.subrange(0, a.len() as int) =~= a);
}

pub proof fn lemma_uint_shift(a: Seq<u8>, b: Seq<u8>, i: int, width: int)
    requires
        fb::extends(a, b),
        0 <= i,
        0 <= width,
        i + width <= a.len(),
    ensures
        fb::uint_at(b, b.len() - a.len() + i, width) == fb::uint_at(a, i, width),
        b.subrange(b.len() - a.len() + i, b.len() - a.len() + i + width) == a.subrange(
            i,
            i + width,
        ),
{
    reveal(fb::uint_at);
    let d = b.len() - a.len();
    let tail = b.subrange(d, b.len() as int);
    assert(tail == a);
    assert(b.subrange(d + i, d + i + width) =~= tail.subrange(i, i + width));
}

/// A table reads the same after something was written in front of it.
pub proof fn lemma_table_shift(a: Seq<u8>, b: Seq<u8>, loc: int)
    requires
        fb::extends(a, b),
        b.len() <= MAX_BUFFER,
        fb::table_ok(a, loc),
    ensures
        fb::table_ok(b, b.len() - a.len() + loc),
        fb::vtable_size(b, b.len() - a.len() + loc) == fb::vtable_size(a, loc),
        forall|slot: int|
            #![trigger fb::field_offset(b, b.len() - a.len() + loc, slot)]
            0 <= slot && fb::slot_ok(a, loc, slot) ==> fb::slot_ok(b, b.len() - a.len() + loc, slot)
                && fb::field_offset(b, b.len() - a.len() + loc, slot) == fb::field_offset(a, loc, slot),
{
    let d = b.len() - a.len();
    let v = fb::vtable_loc(a, loc);
    lemma_uint_shift(a, b, loc, 4);
    assert(fb::vtable_loc(b, d + loc) == d + v);
    lemma_uint_shift(a, b, v, 2);
    assert forall|slot: int|
        #![trigger fb::field_offset(b, b.len() - a.len() + loc, slot)]
        0 <= slot && fb::slot_ok(a, loc, slot) implies fb::slot_ok(b, b.len() - a.len() + loc, slot)
        && fb::field_offset(b, b.len() - a.len() + loc, slot) == fb::field_offset(a, loc, slot) by {
        if slot < fb::uint_at(a, v, 2) {
            lemma_uint_shift(a, b, v + slot, 2);
            assert(d + v + slot == d + (v + slot));
        }
    }
}

pub proof fn lemma_scalar_shift(
    a: Seq<u8>,
    b: Seq<u8>,
    loc: int,
    slot: int,
    width: int,
    default: nat,
)
    requires
        fb::extends(a, b),
        b.len() <= MAX_BUFFER,
        fb::table_ok(a, loc),
        0 <= slot,
        0 <= width,
        fb::scalar_ok(a, loc, slot, width),
    ensures
        fb::scalar_ok(b, b.len() - a.len() + loc, slot, width),
        fb::scalar(b, b.len() - a.len() + loc, slot, width, default) == fb::scalar(
            a,
            loc,
            slot,
            width,
            default,
        ),
{
    let d = b.len() - a.len();
    lemma_table_shift(a, b, loc);
    let off = fb::field_offset(a, loc, slot);
    assert(fb::field_offset(b, d + loc, slot) == off);
    if off != 0 {
        lemma_uint_shift(a, b, loc + off, width);
        assert(d + (loc + off) == d + loc + off);
    }
}

pub proof fn lemma_target_shift(a: Seq<u8>, b: Seq<u8>, loc: int, slot: int)
    requires
        fb::extends(a, b),
        b.len() <= MAX_BUFFER,
        fb::table_ok(a, loc),
        0 <= slot,
        fb::scalar_ok(a, loc, slot, 4),
    ensures
        fb::scalar_ok(b, b.len() - a.len() + loc, slot, 4),
        fb::target(b, b.len() - a.len() + loc, slot) == match fb::target(a, loc, slot) {
            Some(at) => Some(b.len() - a.len() + at),
            None => None,
        },
{
    let d = b.len() - a.len();
    lemma_table_shift(a, b, loc);
    let off = fb::field_offset(a, loc, slot);
    assert(fb::field_offset(b, d + loc, slot) == off);
    if off != 0 {
        lemma_uint_shift(a, b, loc + off, 4);
        assert(d + (loc + off) == d + loc + off);
    }
}

pub proof fn lemma_bytes_shift(a: Seq<u8>, b: Seq<u8>, loc: int, slot: int)
    requires
        fb::extends(a, b),
        b.len() <= MAX_BUFFER,
        fb::table_ok(a, loc),
        0 <= slot,
        fb::bytes_ok(a, loc, slot),
    ensures
        fb::bytes_ok(b, b.len() - a.len() + loc, slot),
        fb::byte_vector(b, b.len() - a.len() + loc, slot) == fb::byte_vector(a, loc, slot),
{
    let d = b.len() - a.len();
    lemma_target_shift(a, b, loc, slot);
    match fb::target(a, loc, slot) {
        Some(at) => {
            lemma_uint_shift(a, b, at, 4);
            let n = fb::uint_at(a, at, 4) as int;
            lemma_uint_shift(a, b, at + 4, n);
            assert(d + (at + 4) == d + at + 4);
        },
        None => {},
    }
}

/// Whatever `a` had grown out of, `b` has too.
pub open spec fn grown(a: Seq<u8>, b: Seq<u8>) -> bool {
    &&& fb::extends(a, b)
    &&& forall|c: Seq<u8>| fb::extends(c, a) ==> #[trigger] fb::extends(c, b)
}

pub proof fn lemma_grown(a: Seq<u8>, b: Seq<u8>)
    requires
        fb::extends(a, b),
    ensures
        grown(a, b),
{
    assert forall|c: Seq<u8>| fb::extends(c, a) implies #[trigger] fb::extends(c, b) by {
        lemma_extends_trans(c, a, b);
    }
}

// The state of a table under construction.

/// A table is open and its fields are in order.
pub open spec fn open_ok(b: Builder) -> bool {
    &&& fb::open_table(b) is Some
    &&& fb::fields_ok(fb::open_table(b)->0, fb::written(b).len() as int)
    &&& fb::written(b).len() <= MAX_BUFFER
}

/// The fields of the open table lie behind `start`.
pub open spec fn begun_at(b: Builder, start: u32) -> bool {
    &&& start <= fb::written(b).len()
    &&& fb::fields_behind(fb::open_table(b)->0, start)
}

/// Nothing was written to `slot` yet.
pub open spec fn unused(b: Builder, slot: int) -> bool {
    fb::field_pos(fb::open_table(b)->0, slot) is None
}

/// Nothing was written to `n` or any slot behind it.
pub open spec fn unused_from(b: Builder, n: int) -> bool {
    forall|slot: int| n <= slot ==> #[trigger] unused(b, slot)
}

/// `slot` of the open table has value `x`, either written or by default.
pub open spec fn holds(b: Builder, slot: int, width: int, x: nat, default: nat) -> bool {
    match fb::field_pos(fb::open_table(b)->0, slot) {
        Some(p) => width <= p <= fb::written(b).len() && fb::uint_at(
            fb::written(b),
            fb::written(b).len() - p,
            width,
        ) == x,
        None => x == default,
    }
}

/// `slot` of the open table leads to what was written at `pos`.
pub open spec fn leads(b: Builder, slot: int, pos: int) -> bool {
    match fb::field_pos(fb::open_table(b)->0, slot) {
        Some(p) => 4 <= p <= fb::written(b).len() && fb::uint_at(fb::written(b), fb::written(b).len() - p, 4) == p
            - pos,
        None => false,
    }
}

/// `after` is `before` with one more field, in `slot`.
pub open spec fn one_more(before: Builder, after: Builder, slot: int) -> bool {
    &&& open_ok(after)
    &&& forall|start: u32| begun_at(before, start) ==> #[trigger] begun_at(after, start)
    &&& grown(fb::written(before), fb::written(after))
    &&& fb::written(after).len() <= fb::written(before).len() + 16
    &&& forall|s2: int| s2 != slot && unused(before, s2) ==> #[trigger] unused(after, s2)
    &&& forall|s2: int, w2: int, x2: nat, d2: nat|
        s2 != slot && 0 <= w2 && holds(before, s2, w2, x2, d2) ==> #[trigger] holds(
            after,
            s2,
            w2,
            x2,
            d2,
        )
    &&& forall|s2: int, p2: int|
        s2 != slot && leads(before, s2, p2) ==> #[trigger] leads(after, s2, p2)
}

proof fn lemma_field_pos_push(open: Seq<(u16, u32)>, slot: u16, pos: u32, s2: int)
    ensures
        s2 != slot ==> fb::field_pos(open.push((slot, pos)), s2) == fb::field_pos(open, s2) || (exists|
            i: int,
            j: int,
        |
            0 <= i < j < open.len() && (#[trigger] open[i]).0 == (#[trigger] open[j]).0),
        fb::field_pos(open, slot as int) is None ==> fb::field_pos(open.push((slot, pos)), slot as int)
            == Some(pos as int),
{
    let o2 = open.push((slot, pos));
    assert forall|i: int| 0 <= i < open.len() implies o2[i] == open[i] by {}
    if s2 != slot {
        if exists|i: int| 0 <= i < open.len() && (#[trigger] open[i]).0 == s2 {
            let i = choose|i: int| 0 <= i < open.len() && (#[trigger] open[i]).0 == s2;
            assert(o2[i].0 == s2);
            let j = choose|j: int| 0 <= j < o2.len() && (#[trigger] o2[j]).0 == s2;
            assert(j < open.len());
            assert(open[j].0 == s2);
            if i != j {
                if i < j {
                    assert(open[i].0 == open[j].0);
                } else {
                    assert(open[j].0 == open[i].0);
                }
            }
        } else {
            if exists|j: int| 0 <= j < o2.len() && (#[trigger] o2[j]).0 == s2 {
                let j = choose|j: int| 0 <= j < o2.len() && (#[trigger] o2[j]).0 == s2;
                assert(open[j].0 == s2);
            }
        }
    }
    if fb::field_pos(open, slot as int) is None {
        let last = open.len() as int;
        assert(o2[last].0 == slot);
        let j = choose|j: int| 0 <= j < o2.len() && (#[trigger] o2[j]).0 == slot as int;
        if j < open.len() {
            assert(open[j].0 == slot);
        }
    }
}

proof fn lemma_pushed(before: Builder, after: Builder, slot: u16, width: int)
    requires
        open_ok(before),
        unused(before, slot as int),
        4 <= slot <= MAX_SLOT,
        slot % 2 == 0,
        0 < width,
        fb::extends(fb::written(before), fb::written(after)),
        fb::written(before).len() + width <= fb::written(after).len() <= fb::written(before).len() + 16,
        fb::written(after).len() <= MAX_BUFFER,
        fb::open_table(after) == Some(
            fb::open_table(before)->0.push((slot, fb::written(after).len() as u32)),
        ),
    ensures
        one_more(before, after, slot as int),
        fb::field_pos(fb::open_table(after)->0, slot as int) == Some(fb::written(after).len() as int),
{
    let wb = fb::written(before);
    let wa = fb::written(after);
    let ob = fb::open_table(before)->0;
    let oa = fb::open_table(after)->0;
    assert forall|i: int| 0 <= i < ob.len() implies oa[i] == ob[i] by {}
    assert(fb::fields_ok(oa, wa.len() as int)) by {
        assert forall|i: int, j: int| 0 <= i < j < oa.len() implies (#[trigger] oa[i]).0 != (
        #[trigger] oa[j]).0 by {
            if j == ob.len() {
                if ob[i].0 == slot {
                    assert(fb::field_pos(ob, slot as int) is Some);
                }
            } else {
                assert(ob[i].0 != ob[j].0);
            }
        }
        assert forall|i: int| 0 <= i < oa.len() implies 4 <= (#[trigger] oa[i]).0 <= MAX_SLOT
            && oa[i].0 % 2 == 0 && oa[i].1 <= wa.len() by {
            if i < ob.len() {
                assert(oa[i] == ob[i]);
            }
        }
    }
    lemma_grown(wb, wa);
    lemma_field_pos_push(ob, slot, wa.len() as u32, slot as int);
    assert forall|s2: int| s2 != slot implies fb::field_pos(oa, s2) == fb::field_pos(ob, s2) by {
        lemma_field_pos_push(ob, slot, wa.len() as u32, s2);
    }
    assert forall|s2: int, w2: int, x2: nat, d2: nat|
        s2 != slot && 0 <= w2 && holds(before, s2, w2, x2, d2) implies #[trigger] holds(
        after,
        s2,
        w2,
        x2,
        d2,
    ) by {
        match fb::field_pos(ob, s2) {
            Some(p) => {
                lemma_uint_shift(wb, wa, wb.len() - p, w2);
                assert(wa.len() - wb.len() + (wb.len() - p) == wa.len() - p);
            },
            None => {},
        }
    }
    assert forall|s2: int, p2: int| s2 != slot && leads(before, s2, p2) implies #[trigger] leads(
        after,
        s2,
        p2,
    ) by {
        match fb::field_pos(ob, s2) {
            Some(p) => {
                lemma_uint_shift(wb, wa, wb.len() - p, 4);
                assert(wa.len() - wb.len() + (wb.len() - p) == wa.len() - p);
            },
            None => {},
        }
    }
}

/// Leaving a default value out changes nothing.
proof fn lemma_left_out(before: Builder, after: Builder, slot: int)
    requires
        open_ok(before),
        fb::written(after) == fb::written(before),
        fb::open_table(after) == fb::open_table(before),
    ensures
        one_more(before, after, slot),
{
    lemma_extends_refl(fb::written(before));
    lemma_grown(fb::written(before), fb::written(after));
}

proof fn lemma_slot_written(
    before: Builder,
    after: Builder,
    slot: u16,
    x: nat,
    default: nat,
    width: nat,
)
    requires
        open_ok(before),
        unused(before, slot as int),
        4 <= slot <= MAX_SLOT,
        slot % 2 == 0,
        0 < width <= 8,
        x < crate::wire::pow256(width),
        fb::written(before).len() + WRITE_BOUND <= MAX_BUFFER,
        fb::slot_written(before, after, slot, x, default, width),
    ensures
        one_more(before, after, slot as int),
        holds(after, slot as int, width as int, x, default),
{
    if x == default {
        lemma_left_out(before, after, slot as int);
    } else {
        reveal(fb::uint_at);
        lemma_pushed(before, after, slot, width as int);
        crate::wire::lemma_le_round_trip(x, width);
    }
}

pub fn start_table(b: &mut Builder) -> (start: u32)
    requires
        fb::open_table(*old(b)) is None,
        fb::written(*old(b)).len() <= MAX_BUFFER,
    ensures
        open_ok(*final(b)),
        fb::written(*final(b)) == fb::written(*old(b)),
        start == fb::written(*old(b)).len(),
        begun_at(*final(b), start),
        forall|slot: int| #[trigger] unused(*final(b), slot),
{
    fb_start_table(b)
}

pub fn put_u8(b: &mut Builder, slot: u16, x: u8)
    requires
        open_ok(*old(b)),
        unused(*old(b), slot as int),
        4 <= slot <= MAX_SLOT,
        slot % 2 == 0,
        fb::written(*old(b)).len() + WRITE_BOUND <= MAX_BUFFER,
    ensures
        one_more(*old(b), *final(b), slot as int),
        holds(*final(b), slot as int, 1, x as nat, 0),
{
    fb_put_u8(b, slot, x, 0);
    proof {
        crate::wire::lemma_pow256_widths();
        lemma_slot_written(*old(b), *b, slot, x as nat, 0, 1);
    }
}

pub fn put_bool(b: &mut Builder, slot: u16, x: bool)
    requires
        open_ok(*old(b)),
        unused(*old(b), slot as int),
        4 <= slot <= MAX_SLOT,
        slot % 2 == 0,
        fb::written(*old(b)).len() + WRITE_BOUND <= MAX_BUFFER,
    ensures
        one_more(*old(b), *final(b), slot as int),
        holds(*final(b), slot as int, 1, if x { 1 } else { 0 }, 0),
{
    fb_put_bool(b, slot, x, false);
    proof {
        crate::wire::lemma_pow256_widths();
        lemma_slot_written(*old(b), *b, slot, if x { 1 } else { 0 }, 0, 1);
    }
}

pub fn put_u16(b: &mut Builder, slot: u16, x: u16)
    requires
        open_ok(*old(b)),
        unused(*old(b), slot as int),
        4 <= slot <= MAX_SLOT,
        slot % 2 == 0,
        fb::written(*old(b)).len() + WRITE_BOUND <= MAX_BUFFER,
    ensures
        one_more(*old(b), *final(b), slot as int),
        holds(*final(b), slot as int, 2, x as nat, 0),
{
    fb_put_u16(b, slot, x, 0);
    proof {
        crate::wire::lemma_pow256_widths();
        lemma_slot_written(*old(b), *b, slot, x as nat, 0, 2);
    }
}

pub fn put_u32(b: &mut Builder, slot: u16, x: u32)
    requires
        open_ok(*old(b)),
        unused(*old(b), slot as int),
        4 <= slot <= MAX_SLOT,
        slot % 2 == 0,
        fb::written(*old(b)).len() + WRITE_BOUND <= MAX_BUFFER,
    ensures
        one_more(*old(b), *final(b), slot as int),
        holds(*final(b), slot as int, 4, x as nat, 0),
{
    fb_put_u32(b, slot, x, 0);
    proof {
        crate::wire::lemma_pow256_widths();
        lemma_slot_written(*old(b), *b, slot, x as nat, 0, 4);
    }
}

pub fn put_u64(b: &mut Builder, slot: u16, x: u64)
    requires
        open_ok(*old(b)),
        unused(*old(b), slot as int),
        4 <= slot <= MAX_SLOT,
        slot % 2 == 0,
        fb::written(*old(b)).len() + WRITE_BOUND <= MAX_BUFFER,
    ensures
        one_more(*old(b), *final(b), slot as int),
        holds(*final(b), slot as int, 8, x as nat, 0),
{
    fb_put_u64(b, slot, x, 0);
    proof {
        crate::wire::lemma_pow256_widths();
        lemma_slot_written(*old(b), *b, slot, x as nat, 0, 8);
    }
}

/// The bit pattern that a single-precision number is stored under: negative
/// zero equals the default, zero, and so is left out.
pub open spec fn stored_bits(bits: u32) -> u32 {
    if bits == 0x8000_0000 {
        0
    } else {
        bits
    }
}

/// A single-precision number, given by its bit pattern.
pub fn put_f32_bits(b: &mut Builder, slot: u16, bits: u32)
    requires
        open_ok(*old(b)),
        unused(*old(b), slot as int),
        4 <= slot <= MAX_SLOT,
        slot % 2 == 0,
        fb::written(*old(b)).len() + WRITE_BOUND <= MAX_BUFFER,
    ensures
        one_more(*old(b), *final(b), slot as int),
        holds(*final(b), slot as int, 4, stored_bits(bits) as nat, 0),
{
    if bits == 0x8000_0000 {
        put_u32(b, slot, 0);
    } else {
        put_u32(b, slot, bits);
    }
}

pub fn put_offset(b: &mut Builder, slot: u16, pos: u32)
    requires
        open_ok(*old(b)),
        unused(*old(b), slot as int),
        4 <= slot <= MAX_SLOT,
        slot % 2 == 0,
        fb::written(*old(b)).len() + WRITE_BOUND <= MAX_BUFFER,
        pos <= fb::written(*old(b)).len(),
    ensures
        one_more(*old(b), *final(b), slot as int),
        leads(*final(b), slot as int, pos as int),
{
    fb_put_offset(b, slot, pos);
    proof {
        reveal(fb::uint_at);
        lemma_pushed(*old(b), *b, slot, 4);
        crate::wire::lemma_pow256_widths();
        crate::wire::lemma_le_round_trip((fb::written(*b).len() - pos) as nat, 4);
    }
}

/// Closes the table; its slots then read as they were written.
pub fn end_table(b: &mut Builder, start: u32) -> (pos: u32)
    requires
        open_ok(*old(b)),
        begun_at(*old(b), start),
        fb::written(*old(b)).len() - start < 0x8000,
        fb::written(*old(b)).len() + WRITE_BOUND <= MAX_BUFFER,
    ensures
        grown(fb::written(*old(b)), fb::written(*final(b))),
        fb::written(*old(b)).len() < pos <= fb::written(*final(b)).len() <= fb::written(*old(b)).len()
            + WRITE_BOUND,
        fb::open_table(*final(b)) is None,
        fb::table_ok(fb::written(*final(b)), fb::written(*final(b)).len() - pos),
        forall|slot: int, width: int, x: nat, d: nat|
            4 <= slot <= MAX_SLOT && slot % 2 == 0 && 0 <= width && #[trigger] holds(
                *old(b),
                slot,
                width,
                x,
                d,
            ) ==> fb::scalar_ok(fb::written(*final(b)), fb::written(*final(b)).len() - pos, slot, width)
                && fb::scalar(fb::written(*final(b)), fb::written(*final(b)).len() - pos, slot, width, d) == x,
        forall|slot: int, p: int|
            4 <= slot <= MAX_SLOT && slot % 2 == 0 && #[trigger] leads(*old(b), slot, p)
                ==> fb::scalar_ok(fb::written(*final(b)), fb::written(*final(b)).len() - pos, slot, 4)
                && fb::target(fb::written(*final(b)), fb::written(*final(b)).len() - pos, slot) == Some(
                fb::written(*final(b)).len() - p,
            ),
        forall|n: int|
            4 <= n <= MAX_SLOT + 2 && n % 2 == 0 && #[trigger] unused_from(*old(b), n)
                ==> fb::vtable_size(fb::written(*final(b)), fb::written(*final(b)).len() - pos)
                <= n,
{
    let pos: u32 = fb_end_table(b, start);
    proof {
        assert forall|n: int| #[trigger] unused_from(*old(b), n) implies fb::slots_below(
            fb::open_table(*old(b))->0,
            n,
        ) by {
            let open = fb::open_table(*old(b))->0;
            assert forall|i: int| 0 <= i < open.len() implies (#[trigger] open[i]).0 < n by {
                if open[i].0 >= n {
                    assert(unused(*old(b), open[i].0 as int));
                }
            }
        }
        lemma_grown(fb::written(*old(b)), fb::written(*b));
        let wb = fb::written(*old(b));
        let wa = fb::written(*b);
        let loc = wa.len() - pos;
        let open = fb::open_table(*old(b))->0;
        assert forall|slot: int, width: int, x: nat, d: nat|
            4 <= slot <= MAX_SLOT && slot % 2 == 0 && 0 <= width && #[trigger] holds(
                *old(b),
                slot,
                width,
                x,
                d,
            ) implies fb::scalar_ok(wa, loc, slot, width) && fb::scalar(wa, loc, slot, width, d) == x by {
            let off = fb::field_offset(wa, loc, slot);
            match fb::field_pos(open, slot) {
                Some(p) => {
                    assert(off == pos - p);
                    lemma_uint_shift(wb, wa, wb.len() - p, width);
                    assert(wa.len() - wb.len() + (wb.len() - p) == loc + off);
                },
                None => {},
            }
        }
        assert forall|slot: int, p: int|
            4 <= slot <= MAX_SLOT && slot % 2 == 0 && #[trigger] leads(
                *old(b),
                slot,
                p,
            ) implies fb::scalar_ok(wa, loc, slot, 4) && fb::target(wa, loc, slot) == Some(wa.len() - p) by {
            let off = fb::field_offset(wa, loc, slot);
            match fb::field_pos(open, slot) {
                Some(q) => {
                    assert(off == pos - q);
                    lemma_uint_shift(wb, wa, wb.len() - q, 4);
                    assert(wa.len() - wb.len() + (wb.len() - q) == loc + off);
                },
                None => {},
            }
        }
    }
    pos
}

/// The byte vector written at `pos` holds `items`.
pub open spec fn bytes_here(w: Seq<u8>, pos: int, items: Seq<u8>) -> bool {
    &&& 0 <= pos <= w.len()
    &&& fb::vector_ok(w, w.len() - pos, 1)
    &&& fb::bytes_at(w, w.len() - pos) == items
}

/// The vector of tables written at `pos` leads to those written at `items`.
pub open spec fn tables_here(w: Seq<u8>, pos: int, items: Seq<u32>) -> bool {
    &&& 0 <= pos <= w.len()
    &&& fb::vector_ok(w, w.len() - pos, 4)
    &&& fb::uint_at(w, w.len() - pos, 4) == items.len()
    &&& forall|i: int|
        0 <= i < items.len() ==> #[trigger] fb::element(w, w.len() - pos, i) == w.len() - items[i]
}

pub proof fn lemma_bytes_here_shift(a: Seq<u8>, b: Seq<u8>, pos: int, items: Seq<u8>)
    requires
        fb::extends(a, b),
        bytes_here(a, pos, items),
    ensures
        bytes_here(b, pos, items),
{
    let at = a.len() - pos;
    lemma_uint_shift(a, b, at, 4);
    lemma_uint_shift(a, b, at + 4, fb::uint_at(a, at, 4) as int);
    assert(b.len() - a.len() + at == b.len() - pos);
    assert(b.len() - a.len() + (at + 4) == b.len() - pos + 4);
}

pub proof fn lemma_tables_here_shift(a: Seq<u8>, b: Seq<u8>, pos: int, items: Seq<u32>)
    requires
        fb::extends(a, b),
        tables_here(a, pos, items),
    ensures
        tables_here(b, pos, items),
{
    let at = a.len() - pos;
    lemma_uint_shift(a, b, at, 4);
    assert(b.len() - a.len() + at == b.len() - pos);
    assert forall|i: int| 0 <= i < items.len() implies #[trigger] fb::element(b, b.len() - pos, i)
        == b.len() - items[i] by {
        assert(fb::element(a, at, i) == a.len() - items[i]);
        lemma_uint_shift(a, b, at + 4 + 4 * i, 4);
        assert(b.len() - a.len() + (at + 4 + 4 * i) == b.len() - pos + 4 + 4 * i);
    }
}

pub fn put_bytes(b: &mut Builder, items: &[u8]) -> (pos: u32)
    requires
        fb::open_table(*old(b)) is None,
        fb::written(*old(b)).len() + items@.len() + WRITE_BOUND <= MAX_BUFFER,
    ensures
        fb::open_table(*final(b)) is None,
        grown(fb::written(*old(b)), fb::written(*final(b))),
        fb::written(*final(b)).len() <= fb::written(*old(b)).len() + items@.len() + WRITE_BOUND,
        pos == fb::written(*final(b)).len(),
        bytes_here(fb::written(*final(b)), pos as int, items@),
{
    let pos: u32 = fb_bytes(b, items);
    proof {
        reveal(fb::uint_at);
        lemma_grown(fb::written(*old(b)), fb::written(*b));
        crate::wire::lemma_pow256_widths();
        crate::wire::lemma_le_round_trip(items@.len(), 4);
    }
    pos
}

pub fn put_string(b: &mut Builder, text: &str) -> (pos: u32)
    requires
        fb::open_table(*old(b)) is None,
        fb::written(*old(b)).len() + vstd::utf8::encode_utf8(text@).len() + WRITE_BOUND
            <= MAX_BUFFER,
    ensures
        fb::open_table(*final(b)) is None,
        grown(fb::written(*old(b)), fb::written(*final(b))),
        fb::written(*final(b)).len() <= fb::written(*old(b)).len() + vstd::utf8::encode_utf8(
            text@,
        ).len() + WRITE_BOUND,
        pos == fb::written(*final(b)).len(),
        bytes_here(fb::written(*final(b)), pos as int, vstd::utf8::encode_utf8(text@)),
{
    let pos: u32 = fb_string(b, text);
    proof {
        reveal(fb::uint_at);
        lemma_grown(fb::written(*old(b)), fb::written(*b));
        crate::wire::lemma_pow256_widths();
        crate::wire::lemma_le_round_trip(vstd::utf8::encode_utf8(text@).len(), 4);
    }
    pos
}

pub fn put_tables(b: &mut Builder, items: &[u32]) -> (pos: u32)
    requires
        fb::open_table(*old(b)) is None,
        fb::written(*old(b)).len() + 4 * items@.len() + WRITE_BOUND <= MAX_BUFFER,
        forall|i: int| 0 <= i < items@.len() ==> #[trigger] items@[i] <= fb::written(
            *old(b),
        ).len(),
    ensures
        fb::open_table(*final(b)) is None,
        grown(fb::written(*old(b)), fb::written(*final(b))),
        fb::written(*final(b)).len() <= fb::written(*old(b)).len() + 4 * items@.len()
            + WRITE_BOUND,
        pos == fb::written(*final(b)).len(),
        tables_here(fb::written(*final(b)), pos as int, items@),
{
    let pos: u32 = fb_tables(b, items);
    proof {
        reveal(fb::uint_at);
        lemma_grown(fb::written(*old(b)), fb::written(*b));
        let w = fb::written(*b);
        crate::wire::lemma_pow256_widths();
        crate::wire::lemma_le_round_trip(items@.len(), 4);
        assert forall|i: int| 0 <= i < items@.len() implies #[trigger] fb::element(w, 0, i)
            == w.len() - items@[i] by {
            let x = (pos - (4 + 4 * i) - items@[i]) as nat;
            crate::wire::lemma_le_round_trip(x, 4);
        }
    }
    pos
}

/// A string that was encoded reads back.
pub proof fn lemma_string_of_bytes(s: Seq<u8>, loc: int, slot: int, text: Seq<char>)
    requires
        fb::bytes_ok(s, loc, slot),
        fb::byte_vector(s, loc, slot) == vstd::utf8::encode_utf8(text),
    ensures
        fb::string_ok(s, loc, slot),
        fb::string(s, loc, slot) == text,
{
    vstd::utf8::encode_utf8_valid_utf8(text);
    vstd::utf8::encode_utf8_decode_utf8(text);
}

/// Ends the buffer; `pos` becomes its root table and reads as before.
pub fn finish(b: Builder, pos: u32) -> (out: Vec<u8>)
    requires
        fb::open_table(b) is None,
        fb::written(b).len() + WRITE_BOUND <= MAX_BUFFER,
        0 < pos <= fb::written(b).len(),
        fb::table_ok(fb::written(b), fb::written(b).len() - pos),
    ensures
        fb::extends(fb::written(b), out@),
        out@.len() <= fb::written(b).len() + 16,
        fb::root_ok(out@),
        fb::root(out@) == out@.len() - pos,
        fb::vtable_size(out@, fb::root(out@)) == fb::vtable_size(
            fb::written(b),
            fb::written(b).len() - pos,
        ),
        forall|slot: int, width: int, d: nat|
            #![trigger fb::scalar(out@, fb::root(out@), slot, width, d)]
            0 <= slot && 0 <= width && fb::scalar_ok(
                fb::written(b),
                fb::written(b).len() - pos,
                slot,
                width,
            ) ==> fb::scalar(out@, fb::root(out@), slot, width, d) == fb::scalar(
                fb::written(b),
                fb::written(b).len() - pos,
                slot,
                width,
                d,
            ),
        forall|slot: int, width: int|
            #![trigger fb::scalar_ok(out@, fb::root(out@), slot, width)]
            0 <= slot && 0 <= width && fb::scalar_ok(
                fb::written(b),
                fb::written(b).len() - pos,
                slot,
                width,
            ) ==> fb::scalar_ok(out@, fb::root(out@), slot, width),
{
    let out: Vec<u8> = fb_finish(b, pos);
    proof {
        reveal(fb::uint_at);
        let w = fb::written(b);
        let loc = w.len() - pos;
        crate::wire::lemma_pow256_widths();
        crate::wire::lemma_le_round_trip((out@.len() - pos) as nat, 4);
        lemma_table_shift(w, out@, loc);
        assert(out@.len() - w.len() + loc == fb::root(out@));
        assert forall|slot: int, width: int, d: nat|
            #![trigger fb::scalar(out@, fb::root(out@), slot, width, d)]
            0 <= slot && 0 <= width && fb::scalar_ok(w, loc, slot, width) implies fb::scalar(
            out@,
            fb::root(out@),
            slot,
            width,
            d,
        ) == fb::scalar(w, loc, slot, width, d) by {
            lemma_scalar_shift(w, out@, loc, slot, width, d);
        }
        assert forall|slot: int, width: int|
            #![trigger fb::scalar_ok(out@, fb::root(out@), slot, width)]
            0 <= slot && 0 <= width && fb::scalar_ok(w, loc, slot, width) implies fb::scalar_ok(
            out@,
            fb::root(out@),
            slot,
            width,
        ) by {
            lemma_scalar_shift(w, out@, loc, slot, width, 0);
        }
    }
    out
}

// Looking before reading.

pub open spec fn fits(s: Seq<u8>) -> bool {
    s.len() <= MAX_BUFFER
}

/// The unsigned number in the `width` bytes at `at`.
fn uint_of(buf: &[u8], at: usize, width: usize) -> (v: u64)
    requires
        width <= 8,
        at + width <= buf@.len(),
    ensures
        v == fb::uint_at(buf@, at as int, width as int),
        v < crate::wire::pow256(width as nat),
{
    proof {
        reveal(fb::uint_at);
    }
    read_le(buf, at, width)
}

fn soffset(buf: &[u8], at: usize) -> (v: i64)
    requires
        at + 4 <= buf@.len(),
    ensures
        v == fb::soffset_at(buf@, at as int),
        -0x8000_0000 <= v < 0x8000_0000,
{
    let u: u64 = uint_of(buf, at, 4);
    proof {
        crate::wire::lemma_pow256_widths();
    }
    if u >= 0x8000_0000 {
        u as i64 - 0x1_0000_0000
    } else {
        u as i64
    }
}

pub fn check_table(buf: &[u8], loc: usize) -> (ok: bool)
    ensures
        ok == fb::table_ok(buf@, loc as int),
{
    if buf.len() > MAX_BUFFER || loc > MAX_BUFFER || loc + 4 > buf.len() {
        return false;
    }
    let v: i64 = loc as i64 - soffset(buf, loc);
    v >= 0 && v + 2 <= buf.len() as i64
}

/// Is there a root table?
pub fn check_root(buf: &[u8]) -> (ok: bool)
    ensures
        ok == fb::root_ok(buf@),
{
    if buf.len() < 4 {
        return false;
    }
    let at: u64 = uint_of(buf, 0, 4);
    if at > MAX_BUFFER as u64 {
        return false;
    }
    check_table(buf, at as usize)
}

/// The distance to the field in `slot` (zero if absent); `None` if the vtable
/// does not reach that far.
fn offset_of(buf: &[u8], loc: usize, slot: u16) -> (r: Option<usize>)
    requires
        fb::table_ok(buf@, loc as int),
    ensures
        match r {
            Some(off) => fb::slot_ok(buf@, loc as int, slot as int) && off == fb::field_offset(
                buf@,
                loc as int,
                slot as int,
            ) && off < 0x1_0000,
            None => !fb::slot_ok(buf@, loc as int, slot as int),
        },
{
    proof {
        crate::wire::lemma_pow256_widths();
    }
    let v: usize = (loc as i64 - soffset(buf, loc)) as usize;
    let n: u64 = uint_of(buf, v, 2);
    if slot as u64 >= n {
        return Some(0);
    }
    if v + slot as usize + 2 > buf.len() {
        return None;
    }
    Some(uint_of(buf, v + slot as usize, 2) as usize)
}

pub fn check_scalar(buf: &[u8], loc: usize, slot: u16, width: usize) -> (ok: bool)
    requires
        fb::table_ok(buf@, loc as int),
        width <= 8,
    ensures
        ok == fb::scalar_ok(buf@, loc as int, slot as int, width as int),
{
    match offset_of(buf, loc, slot) {
        Some(off) => off == 0 || loc + off + width <= buf.len(),
        None => false,
    }
}

/// Where the offset in `slot` leads, if it is there; call only where
/// `check_scalar` holds for four bytes.
pub fn target_of(buf: &[u8], loc: usize, slot: u16) -> (r: Option<u64>)
    requires
        fb::table_ok(buf@, loc as int),
        fb::scalar_ok(buf@, loc as int, slot as int, 4),
    ensures
        match r {
            Some(at) => fb::target(buf@, loc as int, slot as int) == Some(at as int),
            None => fb::target(buf@, loc as int, slot as int) is None,
        },
{
    match offset_of(buf, loc, slot) {
        Some(off) => {
            if off == 0 {
                None
            } else {
                let at: usize = loc + off;
                let d: u64 = uint_of(buf, at, 4);
                proof {
                    crate::wire::lemma_pow256_widths();
                }
                Some(at as u64 + d)
            }
        },
        None => None,
    }
}

/// Is there a vector of elements of `width` bytes at `at`?
fn check_vector(buf: &[u8], at: u64, width: usize) -> (ok: bool)
    requires
        fits(buf@),
        1 <= width <= 4,
        at <= 0x1_0000_0000_0000,
    ensures
        ok == fb::vector_ok(buf@, at as int, width as int),
{
    if at + 4 > buf.len() as u64 {
        return false;
    }
    let n: u64 = uint_of(buf, at as usize, 4);
    proof {
        crate::wire::lemma_pow256_widths();
        assert(n * width <= 0x1_0000_0000 * 4) by (nonlinear_arith)
            requires
                n < 0x1_0000_0000,
                width <= 4,
        ;
    }
    at + 4 + n * width as u64 <= buf.len() as u64
}

pub fn check_bytes(buf: &[u8], loc: usize, slot: u16) -> (ok: bool)
    requires
        fb::table_ok(buf@, loc as int),
    ensures
        ok == fb::bytes_ok(buf@, loc as int, slot as int),
{
    if !check_scalar(buf, loc, slot, 4) {
        return false;
    }
    proof {
        lemma_target_bound(buf@, loc as int, slot as int);
    }
    match target_of(buf, loc, slot) {
        Some(at) => {
            let ok = check_vector(buf, at, 1);
            ok
        },
        None => true,
    }
}

proof fn lemma_target_bound(s: Seq<u8>, loc: int, slot: int)
    requires
        fb::table_ok(s, loc),
        fb::scalar_ok(s, loc, slot, 4),
    ensures
        fb::target(s, loc, slot) matches Some(at) ==> 0 <= at < 0x1_0000_0000_0000,
{
    reveal(fb::uint_at);
    let off = fb::field_offset(s, loc, slot);
    if off != 0 {
        crate::wire::lemma_pow256_widths();
        crate::wire::lemma_le_value_bound(s.subrange(loc + off, loc + off + 4));
    }
}

pub fn check_string(buf: &[u8], loc: usize, slot: u16) -> (ok: bool)
    requires
        fb::table_ok(buf@, loc as int),
    ensures
        ok == fb::string_ok(buf@, loc as int, slot as int),
{
    if !check_bytes(buf, loc, slot) {
        return false;
    }
    match target_of(buf, loc, slot) {
        Some(at) => {
            let from: usize = at as usize + 4;
            let n: u64 = uint_of(buf, at as usize, 4);
            is_utf8(vstd::slice::slice_subrange(buf, from, from + n as usize))
        },
        None => true,
    }
}

/// Checks the vector and that each element is a table.
pub fn check_tables(buf: &[u8], loc: usize, slot: u16) -> (ok: bool)
    requires
        fb::table_ok(buf@, loc as int),
    ensures
        ok == fb::tables_ok(buf@, loc as int, slot as int),
{
    if !check_scalar(buf, loc, slot, 4) {
        return false;
    }
    proof {
        lemma_target_bound(buf@, loc as int, slot as int);
    }
    match target_of(buf, loc, slot) {
        Some(at) => {
            if !check_vector(buf, at, 4) {
                return false;
            }
            let at: usize = at as usize;
            let n: usize = uint_of(buf, at, 4) as usize;
            let mut i: usize = 0;
            while i < n
                invariant
                    fits(buf@),
                    i <= n,
                    n == fb::uint_at(buf@, at as int, 4),
                    fb::vector_ok(buf@, at as int, 4),
                    fb::target(buf@, loc as int, slot as int) == Some(at as int),
                    forall|j: int|
                        0 <= j < i ==> fb::table_ok(buf@, #[trigger] fb::element(buf@, at as int, j)),
                decreases n - i,
            {
                let e: usize = at + 4 + 4 * i;
                let d: u64 = uint_of(buf, e, 4);
                proof {
                    crate::wire::lemma_pow256_widths();
                }
                let place: u64 = e as u64 + d;
                assert(place == fb::element(buf@, at as int, i as int));
                if place > MAX_BUFFER as u64 {
                    assert(!fb::table_ok(buf@, fb::element(buf@, at as int, i as int)));
                    return false;
                }
                if !check_table(buf, place as usize) {
                    return false;
                }
                i = i + 1;
            }
            true
        },
        None => true,
    }
}

} // verus!
