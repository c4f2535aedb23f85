//! What holds of the wire format and the operations: reading back what was
//! written, alignment, and the reach of a recursive removal.

use vstd::prelude::*;
use vstd::utf8::valid_utf8;
use crate::cpio::entry::EntryView;
use crate::cpio::error::CpioError;
use crate::cpio::format::{
    align_4_spec, dot_dot_name, dot_name, field_at, find_magic,
    lemma_find_magic_bounds, lemma_read_record_advances, padded, parse,
    parse_from, read_record, record_header, serialize, trailer_entry, trailer_name, with_entries,
    with_record, Record, FIELD_FILESIZE, FIELD_GID, FIELD_MODE, FIELD_NAMESIZE,
    FIELD_RDEVMAJOR, FIELD_RDEVMINOR, FIELD_UID, INODE_BASE,
};
use crate::cpio::header::{
    field_value, header_bytes, header_field, lemma_field_round_trip, lemma_header_layout, magic,
    Header, HEADER_LEN, MAGIC_LEN,
};
use crate::cpio::items::{lemma_sorted_items_unique, sorted, to_map, Items};
use crate::cpio::ops::rm_targets;
use crate::cpio::path::SLASH;
use crate::order::has_prefix;
use crate::text::nul_at;

verus! {

/// Whether `data` starts with `p`.
pub open spec fn is_prefix(p: Seq<u8>, data: Seq<u8>) -> bool {
    p.len() <= data.len() && data.subrange(0, p.len() as int) == p
}

/// A name that can be written and read back: UTF-8 text without a null byte
/// that is none of `.`, `..` and the name of the trailer.
pub open spec fn storable_name(name: Seq<u8>) -> bool {
    &&& valid_utf8(name)
    &&& forall|i: int| 0 <= i < name.len() ==> name[i] != 0
    &&& name != dot_name()
    &&& name != dot_dot_name()
    &&& name != trailer_name()
}

/// The lengths of a name and of a payload fit their header fields.
pub open spec fn record_fits(name: Seq<u8>, entry: EntryView) -> bool {
    name.len() + 1 <= u32::MAX && entry.data.len() <= u32::MAX
}

/// Items that can be written and read back: every name is storable and every
/// length fits its header field.
pub open spec fn storable(items: Items) -> bool {
    forall|i: int|
        0 <= i < items.len() ==> storable_name((#[trigger] items[i]).0) && record_fits(
            items[i].0,
            items[i].1,
        )
}

/// A part of a part of a byte string is a part of the byte string.
proof fn lemma_sub_sub(s: Seq<u8>, a: int, b: int, c: int, d: int)
    requires
        0 <= a <= b <= s.len(),
        0 <= c <= d <= b - a,
    ensures
        s.subrange(a, b).subrange(c, d) == s.subrange(a + c, a + d),
{
    assert(s.subrange(a, b).subrange(c, d) =~= s.subrange(a + c, a + d));
}

/// What a byte string starts with, it shares every part of.
proof fn lemma_prefix_sub(p: Seq<u8>, data: Seq<u8>, a: int, b: int)
    requires
        is_prefix(p, data),
        0 <= a <= b <= p.len(),
    ensures
        data.subrange(a, b) == p.subrange(a, b),
{
    lemma_sub_sub(data, 0, p.len() as int, a, b);
}

/// The first null byte at or after `from` stands at `at`, where `at` holds
/// one and nothing between the two does.
proof fn lemma_nul_at_found(data: Seq<u8>, from: int, at: int)
    requires
        0 <= from <= at < data.len(),
        data[at] == 0,
        forall|j: int| from <= j < at ==> data[j] != 0,
    ensures
        nul_at(data, from) == at,
    decreases at - from,
{
    if from < at {
        lemma_nul_at_found(data, from + 1, at);
    }
}

/// Where the parts of a record stand in the stream that it was appended to.
proof fn lemma_record_layout(out: Seq<u8>, ino: int, name: Seq<u8>, entry: EntryView)
    ensures
        ({
            let rec = with_record(out, ino, name, entry);
            let pos = out.len() as int;
            let start = align_4_spec(pos + HEADER_LEN + name.len() + 1);
            &&& rec.len() == align_4_spec(start + entry.data.len())
            &&& rec.subrange(0, pos) == out
            &&& rec.subrange(pos, pos + HEADER_LEN) == header_bytes(
                record_header(ino, name, entry),
            )
            &&& rec.subrange(pos + HEADER_LEN, pos + HEADER_LEN + name.len()) == name
            &&& rec[pos + HEADER_LEN + name.len()] == 0
            &&& rec.subrange(start, start + entry.data.len()) == entry.data
        }),
{
    reveal(with_record);
    let h = record_header(ino, name, entry);
    let rec = with_record(out, ino, name, entry);
    let pos = out.len() as int;
    let start = align_4_spec(pos + HEADER_LEN + name.len() + 1);
    lemma_header_layout(h, 0);
    let named = out + header_bytes(h) + name + seq![0u8];
    assert(named.len() == pos + HEADER_LEN + name.len() + 1);
    let first = padded(named);
    assert(first.len() == start);
    let filled = first + entry.data;
    assert(rec == padded(filled));
    assert(rec.subrange(0, pos) =~= out);
    assert(rec.subrange(pos, pos + HEADER_LEN) =~= header_bytes(h));
    assert(rec.subrange(pos + HEADER_LEN, pos + HEADER_LEN + name.len()) =~= name);
    assert(rec.subrange(start, start + entry.data.len()) =~= entry.data);
}

/// A header that stands in a buffer gives each of its numbers back, and
/// starts with the magic marker.
proof fn lemma_field_in_data(data: Seq<u8>, pos: int, h: Header, index: int)
    requires
        0 <= pos,
        pos + HEADER_LEN <= data.len(),
        data.subrange(pos, pos + HEADER_LEN) == header_bytes(h),
        0 <= index < 13,
    ensures
        data.subrange(pos, pos + MAGIC_LEN) == magic(),
        field_value(field_at(data, pos, index)) == Some(header_field(h, index)),
{
    lemma_header_layout(h, index);
    lemma_field_round_trip(header_field(h, index));
    lemma_sub_sub(data, pos, pos + HEADER_LEN, 0, MAGIC_LEN as int);
    lemma_sub_sub(
        data,
        pos,
        pos + HEADER_LEN,
        MAGIC_LEN + 8 * index,
        MAGIC_LEN + 8 * index + 8,
    );
}

/// What is common to every record that stands in a buffer: the header, and
/// the name up to its null byte.
proof fn lemma_read_name(data: Seq<u8>, out: Seq<u8>, ino: int, name: Seq<u8>, entry: EntryView)
    requires
        forall|i: int| 0 <= i < name.len() ==> name[i] != 0,
        is_prefix(with_record(out, ino, name, entry), data),
    ensures
        ({
            let pos = out.len() as int;
            &&& pos + HEADER_LEN + name.len() < data.len()
            &&& data.subrange(pos, pos + HEADER_LEN) == header_bytes(
                record_header(ino, name, entry),
            )
            &&& nul_at(data, pos + HEADER_LEN) == pos + HEADER_LEN + name.len()
            &&& data.subrange(pos + HEADER_LEN, pos + HEADER_LEN + name.len()) == name
        }),
{
    let rec = with_record(out, ino, name, entry);
    let pos = out.len() as int;
    let end = pos + HEADER_LEN + name.len();
    lemma_record_layout(out, ino, name, entry);
    assert(rec.len() > end);
    lemma_prefix_sub(rec, data, pos, pos + HEADER_LEN);
    lemma_prefix_sub(rec, data, pos + HEADER_LEN, end);
    assert(data[end] == data.subrange(0, rec.len() as int)[end]);
    assert forall|j: int| pos + HEADER_LEN <= j < end implies data[j] != 0 by {
        assert(data[j] == data.subrange(pos + HEADER_LEN, end)[j - pos - HEADER_LEN]);
    }
    lemma_nul_at_found(data, pos + HEADER_LEN, end);
}

/// A record that was written for a storable name is read as that entry, and
/// reading goes on at its end.
pub proof fn lemma_read_entry(
    data: Seq<u8>,
    out: Seq<u8>,
    ino: int,
    name: Seq<u8>,
    entry: EntryView,
)
    requires
        storable_name(name),
        record_fits(name, entry),
        is_prefix(with_record(out, ino, name, entry), data),
    ensures
        read_record(data, out.len() as int) == (Record::Entry {
            name,
            entry,
            next: with_record(out, ino, name, entry).len() as int,
        }),
{
    let rec = with_record(out, ino, name, entry);
    let h = record_header(ino, name, entry);
    let pos = out.len() as int;
    let start = align_4_spec(pos + HEADER_LEN + name.len() + 1);
    lemma_record_layout(out, ino, name, entry);
    lemma_read_name(data, out, ino, name, entry);
    lemma_field_in_data(data, pos, h, FIELD_NAMESIZE as int);
    lemma_field_in_data(data, pos, h, FIELD_FILESIZE as int);
    lemma_field_in_data(data, pos, h, FIELD_MODE as int);
    lemma_field_in_data(data, pos, h, FIELD_UID as int);
    lemma_field_in_data(data, pos, h, FIELD_GID as int);
    lemma_field_in_data(data, pos, h, FIELD_RDEVMAJOR as int);
    lemma_field_in_data(data, pos, h, FIELD_RDEVMINOR as int);
    lemma_prefix_sub(rec, data, start, start + entry.data.len());
    reveal(read_record);
    let got = read_record(data, pos);
    assert(got is Entry);
    assert(got->Entry_entry.data == entry.data);
    assert(got->Entry_entry == entry);
}

/// The trailer record is read as the trailer, and the next magic marker is
/// sought from its end.
pub proof fn lemma_read_trailer(data: Seq<u8>, out: Seq<u8>, ino: int)
    requires
        is_prefix(with_record(out, ino, trailer_name(), trailer_entry()), data),
    ensures
        read_record(data, out.len() as int) == (Record::Trailer {
            next: with_record(out, ino, trailer_name(), trailer_entry()).len() as int,
        }),
{
    let name = trailer_name();
    let entry = trailer_entry();
    let h = record_header(ino, name, entry);
    let pos = out.len() as int;
    lemma_record_layout(out, ino, name, entry);
    lemma_read_name(data, out, ino, name, entry);
    lemma_field_in_data(data, pos, h, FIELD_NAMESIZE as int);
    lemma_trailer_name_is_text();
    assert(name[0] != dot_name()[0]);
    reveal(read_record);
}

/// The name of the trailer is UTF-8 text.
proof fn lemma_trailer_name_is_text()
    ensures
        valid_utf8(trailer_name()),
{
    reveal_with_fuel(valid_utf8, 11);
    let t = trailer_name();
    let t1 = vstd::utf8::pop_first_scalar(t);
    let t2 = vstd::utf8::pop_first_scalar(t1);
    let t3 = vstd::utf8::pop_first_scalar(t2);
    let t4 = vstd::utf8::pop_first_scalar(t3);
    let t5 = vstd::utf8::pop_first_scalar(t4);
    let t6 = vstd::utf8::pop_first_scalar(t5);
    let t7 = vstd::utf8::pop_first_scalar(t6);
    let t8 = vstd::utf8::pop_first_scalar(t7);
    let t9 = vstd::utf8::pop_first_scalar(t8);
    let t10 = vstd::utf8::pop_first_scalar(t9);
    assert(t1 =~= t.subrange(1, 10));
    assert(t2 =~= t.subrange(2, 10));
    assert(t3 =~= t.subrange(3, 10));
    assert(t4 =~= t.subrange(4, 10));
    assert(t5 =~= t.subrange(5, 10));
    assert(t6 =~= t.subrange(6, 10));
    assert(t7 =~= t.subrange(7, 10));
    assert(t8 =~= t.subrange(8, 10));
    assert(t9 =~= t.subrange(9, 10));
    assert(t10 =~= t.subrange(10, 10));
}

/// The mapping that results from inserting the items into `acc` one after
/// the other.
pub open spec fn insert_all(acc: Map<Seq<u8>, EntryView>, items: Items) -> Map<Seq<u8>, EntryView>
    decreases items.len(),
{
    if items.len() == 0 {
        acc
    } else {
        insert_all(acc, items.drop_last()).insert(items.last().0, items.last().1)
    }
}

/// The mapping of some items is what inserting them into nothing gives.
pub proof fn lemma_to_map_is_insert_all(items: Items)
    ensures
        to_map(items) == insert_all(Map::empty(), items),
    decreases items.len(),
{
    if items.len() > 0 {
        lemma_to_map_is_insert_all(items.drop_last());
    }
}

/// What a byte string starts with, everything that starts with the byte
/// string starts with.
proof fn lemma_prefix_transitive(a: Seq<u8>, b: Seq<u8>, data: Seq<u8>)
    requires
        is_prefix(a, b),
        is_prefix(b, data),
    ensures
        is_prefix(a, data),
{
    lemma_prefix_sub(b, data, 0, a.len() as int);
}

/// Storable items without the last are storable.
proof fn lemma_storable_front(items: Items)
    requires
        storable(items),
        items.len() > 0,
    ensures
        storable(items.drop_last()),
        storable_name(items.last().0),
        record_fits(items.last().0, items.last().1),
{
    let front = items.drop_last();
    assert forall|i: int| 0 <= i < front.len() implies storable_name((#[trigger] front[i]).0)
        && record_fits(front[i].0, front[i].1) by {
        assert(front[i] == items[i]);
    }
    assert(items.last() == items[items.len() - 1]);
}

/// The records of storable items are read as the items, one after the
/// other, and reading goes on behind the last of them.
pub proof fn lemma_parse_entries(
    data: Seq<u8>,
    out: Seq<u8>,
    items: Items,
    first_ino: int,
    acc: Map<Seq<u8>, EntryView>,
)
    requires
        storable(items),
        is_prefix(with_entries(out, items, first_ino), data),
    ensures
        is_prefix(out, with_entries(out, items, first_ino)),
        parse_from(data, out.len() as int, acc) == parse_from(
            data,
            with_entries(out, items, first_ino).len() as int,
            insert_all(acc, items),
        ),
    decreases items.len(),
{
    if items.len() == 0 {
        assert(out.subrange(0, out.len() as int) =~= out);
    } else {
        let front = items.drop_last();
        let name = items.last().0;
        let entry = items.last().1;
        let ino = first_ino + items.len() - 1;
        let before = with_entries(out, front, first_ino);
        let all = with_entries(out, items, first_ino);
        assert(all == with_record(before, ino, name, entry));
        lemma_record_layout(before, ino, name, entry);
        assert(is_prefix(before, all));
        lemma_prefix_transitive(before, all, data);
        lemma_storable_front(items);
        lemma_parse_entries(data, out, front, first_ino, acc);
        lemma_prefix_transitive(out, before, all);
        lemma_read_entry(data, before, ino, name, entry);
        assert(before.len() < data.len());
    }
}

/// Reading ends behind a trailer that nothing follows.
proof fn lemma_parse_last_trailer(
    data: Seq<u8>,
    out: Seq<u8>,
    ino: int,
    acc: Map<Seq<u8>, EntryView>,
)
    requires
        data == with_record(out, ino, trailer_name(), trailer_entry()),
    ensures
        parse_from(data, out.len() as int, acc) == Ok::<Map<Seq<u8>, EntryView>, CpioError>(acc),
{
    assert(data.subrange(0, data.len() as int) =~= data);
    lemma_record_layout(out, ino, trailer_name(), trailer_entry());
    lemma_read_trailer(data, out, ino);
    assert(find_magic(data, data.len() as int) is None);
}

/// Round trip: what was written for storable items is read as the mapping
/// of the items.
pub proof fn lemma_round_trip(items: Items)
    requires
        storable(items),
    ensures
        parse(serialize(items)) == Ok::<Map<Seq<u8>, EntryView>, CpioError>(to_map(items)),
{
    reveal(serialize);
    let data = serialize(items);
    let empty = Seq::<u8>::empty();
    let records = with_entries(empty, items, INODE_BASE as int);
    lemma_record_layout(records, INODE_BASE + items.len(), trailer_name(), trailer_entry());
    assert(is_prefix(records, data));
    lemma_parse_entries(data, empty, items, INODE_BASE as int, Map::empty());
    lemma_to_map_is_insert_all(items);
    lemma_parse_last_trailer(data, records, INODE_BASE + items.len(), to_map(items));
}

/// Idempotence: an archive that was read from what was written for
/// ascending storable items is written as the same bytes.
pub proof fn lemma_dump_idempotent(first: Items, second: Items)
    requires
        sorted(first),
        storable(first),
        sorted(second),
        parse(serialize(first)) == Ok::<Map<Seq<u8>, EntryView>, CpioError>(to_map(second)),
    ensures
        second == first,
        serialize(second) == serialize(first),
{
    lemma_round_trip(first);
    lemma_sorted_items_unique(first, second);
}

/// Alignment: padding adds zero bytes only, and as few as reach a multiple
/// of four, so that the stream then ends at the smallest multiple of four that
/// is not below its unpadded length.
pub proof fn lemma_padded_aligned(out: Seq<u8>, m: int)
    ensures
        padded(out).len() == align_4_spec(out.len() as int),
        padded(out).len() % 4 == 0,
        out.len() <= padded(out).len() < out.len() + 4,
        is_prefix(out, padded(out)),
        forall|i: int| out.len() <= i < padded(out).len() ==> padded(out)[i] == 0,
        m % 4 == 0 && out.len() <= m ==> padded(out).len() <= m,
{
    assert(padded(out).subrange(0, out.len() as int) =~= out);
}

/// Alignment: in a record, the header with the name and its null byte is
/// padded to a multiple of four, and so is the payload behind it.
pub proof fn lemma_record_aligned(out: Seq<u8>, ino: int, name: Seq<u8>, entry: EntryView)
    ensures
        ({
            let named = out + header_bytes(record_header(ino, name, entry)) + name + seq![0u8];
            let filled = padded(named) + entry.data;
            &&& padded(named).len() == align_4_spec(named.len() as int)
            &&& with_record(out, ino, name, entry) == padded(filled)
            &&& with_record(out, ino, name, entry).len() == align_4_spec(filled.len() as int)
            &&& with_record(out, ino, name, entry).len() % 4 == 0
        }),
{
    reveal(with_record);
    let named = out + header_bytes(record_header(ino, name, entry)) + name + seq![0u8];
    lemma_padded_aligned(named, 0);
    lemma_padded_aligned(padded(named) + entry.data, 0);
}

/// Alignment: the records of an archive end on a multiple of four, each of
/// them, where they start on one.
pub proof fn lemma_entries_aligned(out: Seq<u8>, items: Items, first_ino: int)
    requires
        out.len() % 4 == 0,
    ensures
        with_entries(out, items, first_ino).len() % 4 == 0,
    decreases items.len(),
{
    if items.len() > 0 {
        lemma_record_aligned(
            with_entries(out, items.drop_last(), first_ino),
            first_ino + items.len() - 1,
            items.last().0,
            items.last().1,
        );
    }
}

/// Alignment: an archive is written as a number of bytes that is a multiple
/// of four.
pub proof fn lemma_serialize_aligned(items: Items)
    ensures
        serialize(items).len() % 4 == 0,
{
    reveal(serialize);
    lemma_record_aligned(
        with_entries(Seq::empty(), items, INODE_BASE as int),
        INODE_BASE + items.len(),
        trailer_name(),
        trailer_entry(),
    );
}

/// Recursive removal: `rm` takes out the entry of the path itself and, if
/// recursive, the names that continue the path with a separator; a name that
/// continues the path with another byte stays.
pub proof fn lemma_rm_reach(path: Seq<u8>, name: Seq<u8>, recursive: bool)
    ensures
        rm_targets(path, recursive).contains(name) <==> (name == path || (recursive && name.len()
            > path.len() && name.subrange(0, path.len() as int) == path && name[path.len() as int]
            == SLASH)),
{
    let below = path + seq![SLASH];
    if has_prefix(name, below) {
        assert(name.subrange(0, path.len() as int) =~= below.subrange(0, path.len() as int));
        assert(below.subrange(0, path.len() as int) =~= path);
        assert(name[path.len() as int] == name.subrange(0, below.len() as int)[path.len() as int]);
    }
    if name.len() > path.len() && name.subrange(0, path.len() as int) == path
        && name[path.len() as int] == SLASH {
        assert(name.subrange(0, below.len() as int) =~= below) by {
            assert forall|i: int| 0 <= i < below.len() implies name.subrange(
                0,
                below.len() as int,
            )[i] == below[i] by {
                if i < path.len() {
                    assert(name.subrange(0, path.len() as int)[i] == path[i]);
                }
            }
        }
    }
}

/// Behind a stream whose length is a multiple of four, a record is written
/// as it is behind nothing.
proof fn lemma_record_shift(a: Seq<u8>, b: Seq<u8>, ino: int, name: Seq<u8>, entry: EntryView)
    requires
        a.len() % 4 == 0,
    ensures
        with_record(a + b, ino, name, entry) == a + with_record(b, ino, name, entry),
{
    reveal(with_record);
    let h = header_bytes(record_header(ino, name, entry));
    let named_b = b + h + name + seq![0u8];
    let named = a + b + h + name + seq![0u8];
    assert(named =~= a + named_b);
    assert(padded(named) =~= a + padded(named_b));
    let filled_b = padded(named_b) + entry.data;
    let filled = padded(named) + entry.data;
    assert(filled =~= a + filled_b);
    assert(padded(filled) =~= a + padded(filled_b));
}

/// Behind a stream whose length is a multiple of four, records are written
/// as they are behind nothing.
proof fn lemma_entries_shift(a: Seq<u8>, items: Items, first_ino: int)
    requires
        a.len() % 4 == 0,
    ensures
        with_entries(a, items, first_ino) == a + with_entries(Seq::empty(), items, first_ino),
    decreases items.len(),
{
    if items.len() == 0 {
        assert(a =~= a + Seq::<u8>::empty());
    } else {
        lemma_entries_shift(a, items.drop_last(), first_ino);
        lemma_record_shift(
            a,
            with_entries(Seq::empty(), items.drop_last(), first_ino),
            first_ino + items.len() - 1,
            items.last().0,
            items.last().1,
        );
    }
}

/// A record starts with the magic marker.
proof fn lemma_record_starts_with_magic(ino: int, name: Seq<u8>, entry: EntryView)
    ensures
        with_record(Seq::empty(), ino, name, entry).len() >= HEADER_LEN,
        with_record(Seq::empty(), ino, name, entry).subrange(0, MAGIC_LEN as int) == magic(),
{
    let rec = with_record(Seq::empty(), ino, name, entry);
    lemma_record_layout(Seq::empty(), ino, name, entry);
    lemma_header_layout(record_header(ino, name, entry), 0);
    lemma_sub_sub(rec, 0, HEADER_LEN as int, 0, MAGIC_LEN as int);
}

/// Records, where there are any, start with the magic marker.
proof fn lemma_entries_start_with_magic(items: Items, first_ino: int)
    requires
        items.len() > 0,
    ensures
        with_entries(Seq::empty(), items, first_ino).len() >= HEADER_LEN,
        with_entries(Seq::empty(), items, first_ino).subrange(0, MAGIC_LEN as int) == magic(),
    decreases items.len(),
{
    let front = items.drop_last();
    let before = with_entries(Seq::empty(), front, first_ino);
    let all = with_entries(Seq::empty(), items, first_ino);
    let ino = first_ino + items.len() - 1;
    if front.len() == 0 {
        lemma_record_starts_with_magic(ino, items.last().0, items.last().1);
    } else {
        lemma_entries_start_with_magic(front, first_ino);
        lemma_record_layout(before, ino, items.last().0, items.last().1);
        lemma_prefix_sub(before, all, 0, MAGIC_LEN as int);
    }
}

/// What an archive is written as starts with the magic marker.
proof fn lemma_serialize_starts_with_magic(items: Items)
    ensures
        serialize(items).len() >= HEADER_LEN,
        serialize(items).subrange(0, MAGIC_LEN as int) == magic(),
{
    reveal(serialize);
    let records = with_entries(Seq::empty(), items, INODE_BASE as int);
    let ino = INODE_BASE + items.len();
    if items.len() == 0 {
        lemma_record_starts_with_magic(ino, trailer_name(), trailer_entry());
    } else {
        lemma_entries_start_with_magic(items, INODE_BASE as int);
        lemma_record_layout(records, ino, trailer_name(), trailer_entry());
        lemma_prefix_sub(records, serialize(items), 0, MAGIC_LEN as int);
    }
}

/// The first magic marker at or after `from` stands at `at`, where `at`
/// holds one and no position between the two does.
proof fn lemma_find_magic_at(data: Seq<u8>, from: int, at: int)
    requires
        0 <= from <= at,
        at + MAGIC_LEN <= data.len(),
        data.subrange(at, at + MAGIC_LEN) == magic(),
        forall|j: int| from <= j < at ==> #[trigger] data.subrange(j, j + MAGIC_LEN) != magic(),
    ensures
        find_magic(data, from) == Some(at),
    decreases at - from,
{
    if from < at {
        assert(data.subrange(from, from + MAGIC_LEN) != magic());
        lemma_find_magic_at(data, from + 1, at);
    }
}

/// Bytes among which no magic marker stands.
#[verifier::opaque]
pub open spec fn free_of_magic(pad: Seq<u8>) -> bool {
    forall|i: int|
        0 <= i && i + MAGIC_LEN <= pad.len() ==> #[trigger] pad.subrange(i, i + MAGIC_LEN)
            != magic()
}

/// Inserting items into a mapping gives the mapping overridden by the
/// mapping of the items.
proof fn lemma_insert_all_is_union(acc: Map<Seq<u8>, EntryView>, items: Items)
    ensures
        insert_all(acc, items) == acc.union_prefer_right(to_map(items)),
    decreases items.len(),
{
    if items.len() == 0 {
        assert(acc =~= acc.union_prefer_right(to_map(items)));
    } else {
        lemma_insert_all_is_union(acc, items.drop_last());
        assert(insert_all(acc, items) =~= acc.union_prefer_right(to_map(items)));
    }
}

/// Between an archive and what follows it behind bytes without a magic
/// marker, the next marker is the one that what follows starts with.
proof fn lemma_find_magic_behind_gap(head: Seq<u8>, pad: Seq<u8>, tail: Seq<u8>)
    requires
        free_of_magic(pad),
        tail.len() >= MAGIC_LEN,
        tail.subrange(0, MAGIC_LEN as int) == magic(),
    ensures
        find_magic(head + pad + tail, head.len() as int) == Some((head.len() + pad.len()) as int),
{
    reveal(free_of_magic);
    let data = head + pad + tail;
    let base = (head.len() + pad.len()) as int;
    assert(data.subrange(base, base + MAGIC_LEN) =~= tail.subrange(0, MAGIC_LEN as int));
    assert forall|j: int| head.len() <= j < base implies #[trigger] data.subrange(
        j,
        j + MAGIC_LEN,
    ) != magic() by {
        let window = data.subrange(j, j + MAGIC_LEN);
        if j + MAGIC_LEN <= base {
            assert(window =~= pad.subrange(j - head.len(), j - head.len() + MAGIC_LEN));
        } else {
            let o = j + 5 - base;
            assert(window[5] == tail[o]);
            assert(tail[o] == tail.subrange(0, MAGIC_LEN as int)[o]);
            assert(magic()[o] != magic()[5]);
        }
    }
    lemma_find_magic_at(data, head.len() as int, base);
}

/// Reading what was written for storable items, with more behind it, takes
/// the items in and goes on at the next magic marker behind the trailer.
proof fn lemma_parse_first(data: Seq<u8>, first: Items, next: int)
    requires
        storable(first),
        is_prefix(serialize(first), data),
        find_magic(data, serialize(first).len() as int) == Some(next),
    ensures
        parse(data) == parse_from(data, next, to_map(first)),
{
    reveal(serialize);
    let empty = Seq::<u8>::empty();
    let s1 = serialize(first);
    let r1 = with_entries(empty, first, INODE_BASE as int);
    let ino1 = INODE_BASE + first.len();
    lemma_record_layout(r1, ino1, trailer_name(), trailer_entry());
    assert(is_prefix(r1, s1));
    lemma_prefix_transitive(r1, s1, data);
    lemma_parse_entries(data, empty, first, INODE_BASE as int, Map::empty());
    lemma_to_map_is_insert_all(first);
    lemma_read_trailer(data, r1, ino1);
    assert(r1.len() < data.len());
}

/// Reading what was written for storable items behind a stream whose length
/// is a multiple of four takes the items in and ends.
proof fn lemma_parse_second(a: Seq<u8>, second: Items, acc: Map<Seq<u8>, EntryView>)
    requires
        storable(second),
        a.len() % 4 == 0,
    ensures
        parse_from(a + serialize(second), a.len() as int, acc) == Ok::<
            Map<Seq<u8>, EntryView>,
            CpioError,
        >(insert_all(acc, second)),
{
    reveal(serialize);
    let data = a + serialize(second);
    let r2 = with_entries(Seq::empty(), second, INODE_BASE as int);
    let ino2 = INODE_BASE + second.len();
    lemma_entries_shift(a, second, INODE_BASE as int);
    lemma_record_shift(a, r2, ino2, trailer_name(), trailer_entry());
    let w2 = with_entries(a, second, INODE_BASE as int);
    assert(data == with_record(w2, ino2, trailer_name(), trailer_entry()));
    lemma_record_layout(w2, ino2, trailer_name(), trailer_entry());
    assert(is_prefix(w2, data));
    lemma_parse_entries(data, a, second, INODE_BASE as int, acc);
    lemma_parse_last_trailer(data, w2, ino2, insert_all(acc, second));
}

/// Concatenated archives: what was written for one archive, then bytes
/// without a magic marker whose number is a multiple of four, then what was
/// written for a second archive, is read as the union of the two, an entry of
/// the second replacing one of the first of the same name.
pub proof fn lemma_concatenated(first: Items, pad: Seq<u8>, second: Items)
    requires
        storable(first),
        storable(second),
        pad.len() % 4 == 0,
        free_of_magic(pad),
    ensures
        parse(serialize(first) + pad + serialize(second)) == Ok::<
            Map<Seq<u8>, EntryView>,
            CpioError,
        >(to_map(first).union_prefer_right(to_map(second))),
{
    lemma_concat_marker(first, pad, second);
    lemma_concat_first(first, pad, second);
    lemma_concat_second(first, pad, second);
    lemma_insert_all_is_union(to_map(first), second);
}

/// Behind the first of two concatenated archives, the next magic marker is
/// the one that the second starts with.
proof fn lemma_concat_marker(first: Items, pad: Seq<u8>, second: Items)
    requires
        free_of_magic(pad),
    ensures
        find_magic(
            serialize(first) + pad + serialize(second),
            serialize(first).len() as int,
        ) == Some((serialize(first).len() + pad.len()) as int),
{
    lemma_serialize_starts_with_magic(second);
    lemma_find_magic_behind_gap(serialize(first), pad, serialize(second));
}

/// Reading two concatenated archives takes the first in and goes on at the
/// second.
proof fn lemma_concat_first(first: Items, pad: Seq<u8>, second: Items)
    requires
        storable(first),
        find_magic(
            serialize(first) + pad + serialize(second),
            serialize(first).len() as int,
        ) == Some((serialize(first).len() + pad.len()) as int),
    ensures
        parse(serialize(first) + pad + serialize(second)) == parse_from(
            serialize(first) + pad + serialize(second),
            (serialize(first).len() + pad.len()) as int,
            to_map(first),
        ),
{
    let s1 = serialize(first);
    let s2 = serialize(second);
    lemma_prefix_of_concat(s1, pad, s2);
    lemma_parse_first(s1 + pad + s2, first, (s1.len() + pad.len()) as int);
}

/// Reading the second of two concatenated archives takes it in and ends.
proof fn lemma_concat_second(first: Items, pad: Seq<u8>, second: Items)
    requires
        storable(second),
        pad.len() % 4 == 0,
    ensures
        parse_from(
            serialize(first) + pad + serialize(second),
            (serialize(first).len() + pad.len()) as int,
            to_map(first),
        ) == Ok::<Map<Seq<u8>, EntryView>, CpioError>(insert_all(to_map(first), second)),
{
    lemma_serialize_aligned(first);
    lemma_parse_second(serialize(first) + pad, second, to_map(first));
}

/// A byte string starts what it is followed by others in.
proof fn lemma_prefix_of_concat(a: Seq<u8>, b: Seq<u8>, c: Seq<u8>)
    ensures
        is_prefix(a, a + b + c),
        (a + b).len() == a.len() + b.len(),
{
    assert((a + b + c).subrange(0, a.len() as int) =~= a);
}


/// Before the first null byte there is none.
proof fn lemma_nul_at_first(data: Seq<u8>, from: int)
    requires
        0 <= from,
    ensures
        nul_at(data, from) >= 0 ==> from <= nul_at(data, from) < data.len() && data[nul_at(
            data,
            from,
        )] == 0 && forall|j: int| from <= j < nul_at(data, from) ==> data[j] != 0,
    decreases data.len() - from,
{
    if from < data.len() && data[from] != 0 {
        lemma_nul_at_first(data, from + 1);
    }
}

/// An entry that is read has a storable name.
pub proof fn lemma_read_name_storable(data: Seq<u8>, pos: int)
    requires
        0 <= pos,
    ensures
        read_record(data, pos) matches Record::Entry { name, .. } ==> storable_name(name),
{
    reveal(read_record);
    lemma_nul_at_first(data, pos + HEADER_LEN);
}

/// Every name is storable.
pub open spec fn names_storable(m: Map<Seq<u8>, EntryView>) -> bool {
    forall|name: Seq<u8>| m.dom().contains(name) ==> storable_name(name)
}

/// Reading stores entries under storable names only: never under `.`, `..`
/// or the name of the trailer, and never under a name that is no text.
pub proof fn lemma_parse_from_names(data: Seq<u8>, pos: int, acc: Map<Seq<u8>, EntryView>)
    requires
        0 <= pos,
        names_storable(acc),
    ensures
        parse_from(data, pos, acc) matches Ok(m) ==> names_storable(m),
    decreases
        (if pos < data.len() {
            data.len() - pos
        } else {
            0
        }),
{
    if pos < data.len() {
        lemma_read_record_advances(data, pos);
        lemma_read_name_storable(data, pos);
        match read_record(data, pos) {
            Record::Fail(_) => {},
            Record::Skip { next } => {
                lemma_parse_from_names(data, next, acc);
            },
            Record::Trailer { next } => {
                lemma_find_magic_bounds(data, next);
                match find_magic(data, next) {
                    Some(p) => {
                        lemma_parse_from_names(data, p, acc);
                    },
                    None => {},
                }
            },
            Record::Entry { name, entry, next } => {
                lemma_parse_from_names(data, next, acc.insert(name, entry));
            },
        }
    }
}

/// An archive that was read holds storable names only.
pub proof fn lemma_parse_names(data: Seq<u8>)
    ensures
        parse(data) matches Ok(m) ==> names_storable(m),
{
    lemma_parse_from_names(data, 0, Map::empty());
}

} // verus!
