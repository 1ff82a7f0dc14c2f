//! FlatBuffers tables: the layout as a predicate on bytes, and the calls into
//! the `flatbuffers` crate that write and read it.
//!
//! A buffer is written back to front. A place in it is named either by its
//! index from the front (`loc`) or, while it is still growing, by its distance
//! from the end (`pos`), which later writes do not change.

use vstd::prelude::*;
use flatbuffers::{FlatBufferBuilder, Follow, ForwardsUOffset, Table, Vector, WIPOffset};

verus! {

/// A FlatBuffers builder, as the `flatbuffers` crate keeps it.
#[verifier::external_type_specification]
#[verifier::external_body]
pub struct ExFlatBufferBuilder<'fbb>(FlatBufferBuilder<'fbb>);

/// Buffers stay below the two gigabytes that signed offsets can span.
pub const MAX_BUFFER: usize = 0x7FFF_FFFF;

/// The largest vtable offset used by any table of this protocol.
pub const MAX_SLOT: u16 = 30;

/// No write other than that of a string or a vector grows a buffer by more.
pub const WRITE_BOUND: usize = 48;

/// What a builder has written so far.
pub uninterp spec fn written(b: FlatBufferBuilder<'static>) -> Seq<u8>;

/// The table under construction: `None` if there is none; else `(slot, pos)` of
/// each field written to it so far.
pub uninterp spec fn open_table(b: FlatBufferBuilder<'static>) -> Option<Seq<(u16, u32)>>;

// Layout.

/// The unsigned number in the `width` bytes at `i`, least significant first.
#[verifier::opaque]
pub open spec fn uint_at(s: Seq<u8>, i: int, width: int) -> nat {
    crate::wire::le_value(s.subrange(i, i + width))
}

/// A four-byte two's-complement number.
pub open spec fn soffset_at(s: Seq<u8>, i: int) -> int {
    let u = uint_at(s, i, 4) as int;
    if u >= 0x8000_0000 {
        u - 0x1_0000_0000
    } else {
        u
    }
}

/// Where the vtable of the table at `loc` is.
pub open spec fn vtable_loc(s: Seq<u8>, loc: int) -> int {
    loc - soffset_at(s, loc)
}

/// Is there a table at `loc`, with the head of its vtable inside the buffer?
pub open spec fn table_ok(s: Seq<u8>, loc: int) -> bool {
    &&& s.len() <= MAX_BUFFER
    &&& 0 <= loc
    &&& loc + 4 <= s.len()
    &&& 0 <= vtable_loc(s, loc)
    &&& vtable_loc(s, loc) + 2 <= s.len()
}

/// The size in bytes that the vtable of the table at `loc` gives itself.
pub open spec fn vtable_size(s: Seq<u8>, loc: int) -> nat {
    uint_at(s, vtable_loc(s, loc), 2)
}

/// Can the vtable be asked for `slot`?
pub open spec fn slot_ok(s: Seq<u8>, loc: int, slot: int) -> bool {
    let v = vtable_loc(s, loc);
    slot < uint_at(s, v, 2) ==> v + slot + 2 <= s.len()
}

/// The distance from `loc` to the field in `slot`; zero if it is absent.
pub open spec fn field_offset(s: Seq<u8>, loc: int, slot: int) -> int {
    let v = vtable_loc(s, loc);
    if slot < uint_at(s, v, 2) {
        uint_at(s, v + slot, 2) as int
    } else {
        0
    }
}

/// Can the field in `slot`, of `width` bytes, be read?
pub open spec fn scalar_ok(s: Seq<u8>, loc: int, slot: int, width: int) -> bool {
    &&& slot_ok(s, loc, slot)
    &&& field_offset(s, loc, slot) != 0 ==> loc + field_offset(s, loc, slot) + width <= s.len()
}

/// The unsigned number in `slot`, or `default` if it is absent.
pub open spec fn scalar(s: Seq<u8>, loc: int, slot: int, width: int, default: nat) -> nat {
    if field_offset(s, loc, slot) == 0 {
        default
    } else {
        uint_at(s, loc + field_offset(s, loc, slot), width)
    }
}

/// Where the offset in `slot` points; `None` if it is absent.
pub open spec fn target(s: Seq<u8>, loc: int, slot: int) -> Option<int> {
    if field_offset(s, loc, slot) == 0 {
        None
    } else {
        let at = loc + field_offset(s, loc, slot);
        Some(at + uint_at(s, at, 4))
    }
}

/// Is there a vector of elements of `width` bytes at `at`?
pub open spec fn vector_ok(s: Seq<u8>, at: int, width: int) -> bool {
    &&& 0 <= at
    &&& at + 4 <= s.len()
    &&& at + 4 + uint_at(s, at, 4) * width <= s.len()
}

/// The bytes of the byte vector at `at`.
pub open spec fn bytes_at(s: Seq<u8>, at: int) -> Seq<u8> {
    s.subrange(at + 4, at + 4 + uint_at(s, at, 4))
}

/// Can the byte vector in `slot` be read, if it is there?
pub open spec fn bytes_ok(s: Seq<u8>, loc: int, slot: int) -> bool {
    &&& scalar_ok(s, loc, slot, 4)
    &&& target(s, loc, slot) matches Some(at) ==> vector_ok(s, at, 1)
}

/// The byte vector in `slot`; empty if it is absent.
pub open spec fn byte_vector(s: Seq<u8>, loc: int, slot: int) -> Seq<u8> {
    match target(s, loc, slot) {
        Some(at) => bytes_at(s, at),
        None => Seq::empty(),
    }
}

/// Can the string in `slot` be read, if it is there?
pub open spec fn string_ok(s: Seq<u8>, loc: int, slot: int) -> bool {
    &&& bytes_ok(s, loc, slot)
    &&& vstd::utf8::valid_utf8(byte_vector(s, loc, slot))
}

/// The string in `slot`; empty if it is absent.
pub open spec fn string(s: Seq<u8>, loc: int, slot: int) -> Seq<char> {
    vstd::utf8::decode_utf8(byte_vector(s, loc, slot))
}

/// Where element `i` of the vector of tables at `at` is.
pub open spec fn element(s: Seq<u8>, at: int, i: int) -> int {
    at + 4 + 4 * i + uint_at(s, at + 4 + 4 * i, 4)
}

/// Can the vector of tables in `slot` be walked, if it is there?
pub open spec fn tables_ok(s: Seq<u8>, loc: int, slot: int) -> bool {
    &&& scalar_ok(s, loc, slot, 4)
    &&& target(s, loc, slot) matches Some(at) ==> vector_ok(s, at, 4) && forall|i: int|
        0 <= i < uint_at(s, at, 4) ==> table_ok(s, #[trigger] element(s, at, i))
}

/// The places of the tables in the vector in `slot`; none if it is absent.
pub open spec fn tables(s: Seq<u8>, loc: int, slot: int) -> Seq<int> {
    match target(s, loc, slot) {
        Some(at) => Seq::new(uint_at(s, at, 4), |i: int| element(s, at, i)),
        None => Seq::empty(),
    }
}

/// Is there a root table?
pub open spec fn root_ok(s: Seq<u8>) -> bool {
    s.len() >= 4 && table_ok(s, root(s))
}

pub open spec fn root(s: Seq<u8>) -> int {
    uint_at(s, 0, 4) as int
}

// Writing.

/// `b` is `a` with something written in front of it.
pub open spec fn extends(a: Seq<u8>, b: Seq<u8>) -> bool {
    a.len() <= b.len() && b.subrange(b.len() - a.len(), b.len() as int) == a
}

/// The fields of an open table were written and fill distinct slots.
pub open spec fn fields_ok(open: Seq<(u16, u32)>, size: int) -> bool {
    &&& forall|i: int|
        0 <= i < open.len() ==> 4 <= (#[trigger] open[i]).0 <= MAX_SLOT && open[i].0 % 2 == 0
            && open[i].1 <= size
    &&& forall|i: int, j: int|
        0 <= i < j < open.len() ==> (#[trigger] open[i]).0 != (#[trigger] open[j]).0
}

/// The fields of an open table lie behind its start.
pub open spec fn fields_behind(open: Seq<(u16, u32)>, start: u32) -> bool {
    forall|i: int| 0 <= i < open.len() ==> start < (#[trigger] open[i]).1
}

/// Every field of an open table fills a slot below `n`.
pub open spec fn slots_below(open: Seq<(u16, u32)>, n: int) -> bool {
    forall|i: int| 0 <= i < open.len() ==> (#[trigger] open[i]).0 < n
}

/// The `pos` of the field in `slot`; `None` if it was not written.
pub open spec fn field_pos(open: Seq<(u16, u32)>, slot: int) -> Option<int> {
    if exists|i: int| 0 <= i < open.len() && (#[trigger] open[i]).0 == slot {
        Some(open[choose|i: int| 0 <= i < open.len() && (#[trigger] open[i]).0 == slot].1 as int)
    } else {
        None
    }
}

/// What writing `x` (`width` bytes, `default` is left out) to `slot` does.
pub open spec fn slot_written(
    before: FlatBufferBuilder<'static>,
    after: FlatBufferBuilder<'static>,
    slot: u16,
    x: nat,
    default: nat,
    width: nat,
) -> bool {
    if x == default {
        written(after) == written(before) && open_table(after) == open_table(before)
    } else {
        &&& extends(written(before), written(after))
        &&& written(before).len() + width <= written(after).len() <= written(before).len() + 16
        &&& written(after).subrange(0, width as int) == crate::wire::le_digits(x, width)
        &&& open_table(after) == Some(
            open_table(before)->0.push((slot, written(after).len() as u32)),
        )
    }
}

/// `FlatBufferBuilder::new`: nothing written, no table under construction.
#[verifier::external_body]
pub(crate) fn fb_new() -> (b: FlatBufferBuilder<'static>)
    ensures
        written(b) == Seq::<u8>::empty(),
        open_table(b) is None,
{
    FlatBufferBuilder::new()
}

/// `FlatBufferBuilder::start_table`: opens a table at what is written so far,
/// and returns that position.
#[verifier::external_body]
pub(crate) fn fb_start_table(b: &mut FlatBufferBuilder<'static>) -> (start: u32)
    requires
        open_table(*old(b)) is None,
        written(*old(b)).len() <= MAX_BUFFER,
    ensures
        written(*final(b)) == written(*old(b)),
        start == written(*old(b)).len(),
        open_table(*final(b)) == Some(Seq::<(u16, u32)>::empty()),
{
    b.start_table().value()
}

/// `FlatBufferBuilder::push_slot` for one byte: a value other than the default
/// is written in front and recorded in the open table.
#[verifier::external_body]
pub(crate) fn fb_put_u8(b: &mut FlatBufferBuilder<'static>, slot: u16, x: u8, default: u8)
    requires
        open_table(*old(b)) is Some,
        written(*old(b)).len() + WRITE_BOUND <= MAX_BUFFER,
    ensures
        slot_written(*old(b), *final(b), slot, x as nat, default as nat, 1),
{
    b.push_slot::<u8>(slot, x, default)
}

/// `FlatBufferBuilder::push_slot` for a truth value, which takes one byte.
#[verifier::external_body]
pub(crate) fn fb_put_bool(b: &mut FlatBufferBuilder<'static>, slot: u16, x: bool, default: bool)
    requires
        open_table(*old(b)) is Some,
        written(*old(b)).len() + WRITE_BOUND <= MAX_BUFFER,
    ensures
        slot_written(
            *old(b),
            *final(b),
            slot,
            if x { 1 } else { 0 },
            if default { 1 } else { 0 },
            1,
        ),
{
    b.push_slot::<bool>(slot, x, default)
}

/// `FlatBufferBuilder::push_slot` for two bytes, least significant first.
#[verifier::external_body]
pub(crate) fn fb_put_u16(b: &mut FlatBufferBuilder<'static>, slot: u16, x: u16, default: u16)
    requires
        open_table(*old(b)) is Some,
        written(*old(b)).len() + WRITE_BOUND <= MAX_BUFFER,
    ensures
        slot_written(*old(b), *final(b), slot, x as nat, default as nat, 2),
{
    b.push_slot::<u16>(slot, x, default)
}

/// `FlatBufferBuilder::push_slot` for four bytes, least significant first.
#[verifier::external_body]
pub(crate) fn fb_put_u32(b: &mut FlatBufferBuilder<'static>, slot: u16, x: u32, default: u32)
    requires
        open_table(*old(b)) is Some,
        written(*old(b)).len() + WRITE_BOUND <= MAX_BUFFER,
    ensures
        slot_written(*old(b), *final(b), slot, x as nat, default as nat, 4),
{
    b.push_slot::<u32>(slot, x, default)
}

/// `FlatBufferBuilder::push_slot` for eight bytes, least significant first.
#[verifier::external_body]
pub(crate) fn fb_put_u64(b: &mut FlatBufferBuilder<'static>, slot: u16, x: u64, default: u64)
    requires
        open_table(*old(b)) is Some,
        written(*old(b)).len() + WRITE_BOUND <= MAX_BUFFER,
    ensures
        slot_written(*old(b), *final(b), slot, x as nat, default as nat, 8),
{
    b.push_slot::<u64>(slot, x, default)
}

/// `FlatBufferBuilder::push_slot_always` for an offset: writes the distance
/// from the new field to what was written at `pos`.
#[verifier::external_body]
pub(crate) fn fb_put_offset(b: &mut FlatBufferBuilder<'static>, slot: u16, pos: u32)
    requires
        open_table(*old(b)) is Some,
        written(*old(b)).len() + WRITE_BOUND <= MAX_BUFFER,
        pos <= written(*old(b)).len(),
    ensures
        extends(written(*old(b)), written(*final(b))),
        written(*old(b)).len() + 4 <= written(*final(b)).len() <= written(*old(b)).len() + 16,
        written(*final(b)).subrange(0, 4) == crate::wire::le_digits(
            (written(*final(b)).len() - pos) as nat,
            4,
        ),
        open_table(*final(b)) == Some(
            open_table(*old(b))->0.push((slot, written(*final(b)).len() as u32)),
        ),
{
    b.push_slot_always(slot, WIPOffset::<Table<'static>>::new(pos))
}

/// `FlatBufferBuilder::end_table`: closes the table that began at `start`, with
/// its fields behind it. The table at the returned position has, in each slot,
/// the field that was written to it, and no other; its vtable does not go on
/// behind the last of these slots.
#[verifier::external_body]
pub(crate) fn fb_end_table(b: &mut FlatBufferBuilder<'static>, start: u32) -> (pos: u32)
    requires
        open_table(*old(b)) is Some,
        fields_ok(open_table(*old(b))->0, written(*old(b)).len() as int),
        fields_behind(open_table(*old(b))->0, start),
        start <= written(*old(b)).len(),
        written(*old(b)).len() - start < 0x8000,
        written(*old(b)).len() + WRITE_BOUND <= MAX_BUFFER,
    ensures
        extends(written(*old(b)), written(*final(b))),
        written(*old(b)).len() < pos <= written(*final(b)).len() <= written(*old(b)).len()
            + WRITE_BOUND,
        open_table(*final(b)) is None,
        table_ok(written(*final(b)), written(*final(b)).len() - pos),
        forall|slot: int|
            4 <= slot <= MAX_SLOT && slot % 2 == 0 ==> slot_ok(
                written(*final(b)),
                written(*final(b)).len() - pos,
                slot,
            ) && #[trigger] field_offset(
                written(*final(b)),
                written(*final(b)).len() - pos,
                slot,
            ) == match field_pos(open_table(*old(b))->0, slot) {
                Some(p) => pos - p,
                None => 0,
            },
        forall|n: int|
            4 <= n <= MAX_SLOT + 2 && n % 2 == 0 && #[trigger] slots_below(
                open_table(*old(b))->0,
                n,
            ) ==> vtable_size(written(*final(b)), written(*final(b)).len() - pos) <= n,
{
    b.end_table(WIPOffset::new(start)).value()
}

/// `FlatBufferBuilder::create_vector` for bytes: a length of four bytes, and
/// the bytes behind it.
#[verifier::external_body]
pub(crate) fn fb_bytes(b: &mut FlatBufferBuilder<'static>, items: &[u8]) -> (pos: u32)
    requires
        open_table(*old(b)) is None,
        written(*old(b)).len() + items@.len() + WRITE_BOUND <= MAX_BUFFER,
    ensures
        open_table(*final(b)) is None,
        extends(written(*old(b)), written(*final(b))),
        pos == written(*final(b)).len(),
        written(*old(b)).len() + 4 + items@.len() <= pos <= written(*old(b)).len() + items@.len()
            + WRITE_BOUND,
        written(*final(b)).subrange(0, 4) == crate::wire::le_digits(items@.len(), 4),
        written(*final(b)).subrange(4, (4 + items@.len()) as int) == items@,
{
    b.create_vector(items).value()
}

/// `FlatBufferBuilder::create_string`: a length of four bytes, and the UTF-8
/// bytes behind it (a zero byte, which the length does not count, ends them).
#[verifier::external_body]
pub(crate) fn fb_string(b: &mut FlatBufferBuilder<'static>, text: &str) -> (pos: u32)
    requires
        open_table(*old(b)) is None,
        written(*old(b)).len() + vstd::utf8::encode_utf8(text@).len() + WRITE_BOUND <= MAX_BUFFER,
    ensures
        open_table(*final(b)) is None,
        extends(written(*old(b)), written(*final(b))),
        pos == written(*final(b)).len(),
        written(*old(b)).len() + 4 + vstd::utf8::encode_utf8(text@).len() <= pos
            <= written(*old(b)).len() + vstd::utf8::encode_utf8(text@).len() + WRITE_BOUND,
        written(*final(b)).subrange(0, 4) == crate::wire::le_digits(
            vstd::utf8::encode_utf8(text@).len(),
            4,
        ),
        written(*final(b)).subrange(4, (4 + vstd::utf8::encode_utf8(text@).len()) as int)
            == vstd::utf8::encode_utf8(text@),
{
    b.create_string(text).value()
}

/// `FlatBufferBuilder::create_vector` for offsets: a length of four bytes, and
/// for each table written before the distance to it, in order.
#[verifier::external_body]
pub(crate) fn fb_tables(b: &mut FlatBufferBuilder<'static>, items: &[u32]) -> (pos: u32)
    requires
        open_table(*old(b)) is None,
        written(*old(b)).len() + 4 * items@.len() + WRITE_BOUND <= MAX_BUFFER,
        forall|i: int| 0 <= i < items@.len() ==> #[trigger] items@[i] <= written(*old(b)).len(),
    ensures
        open_table(*final(b)) is None,
        extends(written(*old(b)), written(*final(b))),
        pos == written(*final(b)).len(),
        written(*old(b)).len() + 4 + 4 * items@.len() <= pos <= written(*old(b)).len() + 4
            * items@.len() + WRITE_BOUND,
        written(*final(b)).subrange(0, 4) == crate::wire::le_digits(items@.len(), 4),
        forall|i: int|
            0 <= i < items@.len() ==> written(*final(b)).subrange(4 + 4 * i, 8 + 4 * i)
                == crate::wire::le_digits((pos - (4 + 4 * i) - #[trigger] items@[i]) as nat, 4),
{
    let offsets: Vec<WIPOffset<Table<'static>>> = items.iter().map(|p| WIPOffset::new(*p)).collect();
    b.create_vector(&offsets).value()
}

/// `FlatBufferBuilder::finish` and `finished_data`: the bytes of a buffer whose
/// first four bytes lead to the table at `root`, with less than eight bytes of
/// padding between them and what was written before.
#[verifier::external_body]
pub(crate) fn fb_finish(b: FlatBufferBuilder<'static>, root: u32) -> (out: Vec<u8>)
    requires
        open_table(b) is None,
        written(b).len() + WRITE_BOUND <= MAX_BUFFER,
        0 < root <= written(b).len(),
    ensures
        extends(written(b), out@),
        written(b).len() + 4 <= out@.len() <= written(b).len() + 16,
        out@.subrange(0, 4) == crate::wire::le_digits((out@.len() - root) as nat, 4),
{
    let mut b = b;
    b.finish(WIPOffset::<Table<'static>>::new(root), None);
    b.finished_data().to_vec()
}

// Reading.

/// `ForwardsUOffset::follow` at the front of a buffer: the root table's place.
#[verifier::external_body]
pub(crate) fn fb_root(buf: &[u8]) -> (loc: usize)
    requires
        4 <= buf@.len() <= MAX_BUFFER,
    ensures
        loc == root(buf@),
{
    ForwardsUOffset::<Table>::follow(buf, 0).loc
}

/// `Table::get` for one byte.
#[verifier::external_body]
pub(crate) fn fb_get_u8(buf: &[u8], loc: usize, slot: u16, default: u8) -> (x: u8)
    requires
        table_ok(buf@, loc as int),
        scalar_ok(buf@, loc as int, slot as int, 1),
    ensures
        x == scalar(buf@, loc as int, slot as int, 1, default as nat),
{
    Table::new(buf, loc).get::<u8>(slot, Some(default)).unwrap()
}

/// `Table::get` for a truth value: true unless the byte is zero.
#[verifier::external_body]
pub(crate) fn fb_get_bool(buf: &[u8], loc: usize, slot: u16, default: bool) -> (x: bool)
    requires
        table_ok(buf@, loc as int),
        scalar_ok(buf@, loc as int, slot as int, 1),
    ensures
        x == (scalar(
            buf@,
            loc as int,
            slot as int,
            1,
            if default { 1 } else { 0 },
        ) != 0),
{
    Table::new(buf, loc).get::<bool>(slot, Some(default)).unwrap()
}

/// `Table::get` for two bytes, least significant first.
#[verifier::external_body]
pub(crate) fn fb_get_u16(buf: &[u8], loc: usize, slot: u16, default: u16) -> (x: u16)
    requires
        table_ok(buf@, loc as int),
        scalar_ok(buf@, loc as int, slot as int, 2),
    ensures
        x == scalar(buf@, loc as int, slot as int, 2, default as nat),
{
    Table::new(buf, loc).get::<u16>(slot, Some(default)).unwrap()
}

/// `Table::get` for four bytes, least significant first.
#[verifier::external_body]
pub(crate) fn fb_get_u32(buf: &[u8], loc: usize, slot: u16, default: u32) -> (x: u32)
    requires
        table_ok(buf@, loc as int),
        scalar_ok(buf@, loc as int, slot as int, 4),
    ensures
        x == scalar(buf@, loc as int, slot as int, 4, default as nat),
{
    Table::new(buf, loc).get::<u32>(slot, Some(default)).unwrap()
}

/// `Table::get` for eight bytes, least significant first.
#[verifier::external_body]
pub(crate) fn fb_get_u64(buf: &[u8], loc: usize, slot: u16, default: u64) -> (x: u64)
    requires
        table_ok(buf@, loc as int),
        scalar_ok(buf@, loc as int, slot as int, 8),
    ensures
        x == scalar(buf@, loc as int, slot as int, 8, default as nat),
{
    Table::new(buf, loc).get::<u64>(slot, Some(default)).unwrap()
}

/// `Table::get` for an offset to a table: its place, if it is there.
#[verifier::external_body]
pub(crate) fn fb_get_table(buf: &[u8], loc: usize, slot: u16) -> (r: Option<usize>)
    requires
        table_ok(buf@, loc as int),
        scalar_ok(buf@, loc as int, slot as int, 4),
        target(buf@, loc as int, slot as int) matches Some(at) ==> table_ok(buf@, at),
    ensures
        match r {
            Some(at) => target(buf@, loc as int, slot as int) == Some(at as int),
            None => target(buf@, loc as int, slot as int) is None,
        },
{
    Table::new(buf, loc).get::<ForwardsUOffset<Table>>(slot, None).map(|t| t.loc)
}

/// `Table::get` for a byte vector and `Vector::safe_slice`: its bytes, if it is
/// there.
#[verifier::external_body]
pub(crate) fn fb_get_bytes(buf: &[u8], loc: usize, slot: u16) -> (r: Option<Vec<u8>>)
    requires
        table_ok(buf@, loc as int),
        bytes_ok(buf@, loc as int, slot as int),
    ensures
        match r {
            Some(v) => target(buf@, loc as int, slot as int) is Some && v@ == byte_vector(
                buf@,
                loc as int,
                slot as int,
            ),
            None => target(buf@, loc as int, slot as int) is None,
        },
{
    let t = Table::new(buf, loc);
    t.get::<ForwardsUOffset<Vector<u8>>>(slot, None).map(|v| v.safe_slice().to_vec())
}

/// `Table::get` for a string: the text its bytes encode, if it is there.
#[verifier::external_body]
pub(crate) fn fb_get_string(buf: &[u8], loc: usize, slot: u16) -> (r: Option<String>)
    requires
        table_ok(buf@, loc as int),
        string_ok(buf@, loc as int, slot as int),
    ensures
        match r {
            Some(text) => target(buf@, loc as int, slot as int) is Some && text@ == string(
                buf@,
                loc as int,
                slot as int,
            ),
            None => target(buf@, loc as int, slot as int) is None,
        },
{
    Table::new(buf, loc).get::<ForwardsUOffset<&str>>(slot, None).map(|t| t.to_string())
}

/// `Table::get` for a vector of tables and `Vector::len`: how many there are.
#[verifier::external_body]
pub(crate) fn fb_tables_len(buf: &[u8], loc: usize, slot: u16) -> (r: Option<usize>)
    requires
        table_ok(buf@, loc as int),
        tables_ok(buf@, loc as int, slot as int),
    ensures
        match r {
            Some(n) => target(buf@, loc as int, slot as int) is Some && n == tables(
                buf@,
                loc as int,
                slot as int,
            ).len(),
            None => target(buf@, loc as int, slot as int) is None,
        },
{
    let t = Table::new(buf, loc);
    t.get::<ForwardsUOffset<Vector<ForwardsUOffset<Table>>>>(slot, None).map(|v| v.len())
}

/// `Table::get` for a vector of tables and `Vector::get`: the place of one.
#[verifier::external_body]
pub(crate) fn fb_tables_get(buf: &[u8], loc: usize, slot: u16, i: usize) -> (at: usize)
    requires
        table_ok(buf@, loc as int),
        tables_ok(buf@, loc as int, slot as int),
        i < tables(buf@, loc as int, slot as int).len(),
    ensures
        at == tables(buf@, loc as int, slot as int)[i as int],
{
    let t = Table::new(buf, loc);
    t.get::<ForwardsUOffset<Vector<ForwardsUOffset<Table>>>>(slot, None).unwrap().get(i).loc
}

/// `core::str::from_utf8`: succeeds exactly on well-formed UTF-8.
#[verifier::external_body]
pub(crate) fn is_utf8(bytes: &[u8]) -> (b: bool)
    ensures
        b == vstd::utf8::valid_utf8(bytes@),
{
    core::str::from_utf8(bytes).is_ok()
}

} // verus!
