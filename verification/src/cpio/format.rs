//! The wire format: what bytes an archive is written as, and what archive a
//! buffer of bytes is read as.

use vstd::prelude::*;
use vstd::utf8::valid_utf8;
use crate::cpio::entry::EntryView;
use crate::cpio::error::CpioError;
use crate::cpio::header::{field_value, header_bytes, magic, Header, HEADER_LEN, MAGIC_LEN};
use crate::cpio::items::Items;
use crate::text::nul_at;

verus! {

/// The inode number written for the first record; each further record gets
/// the next number.
pub const INODE_BASE: u32 = 300000;

/// The permission bits written for the trailer.
pub const TRAILER_MODE: u32 = 0o755;

/// The smallest multiple of four that is not below `x`.
pub open spec fn align_4_spec(x: int) -> int {
    x + (4 - x % 4) % 4
}

/// Rounds `x` up to the next multiple of four.
pub fn align_4(x: usize) -> (r: usize)
    requires
        x + 3 <= usize::MAX,
    ensures
        r == align_4_spec(x as int),
        r % 4 == 0,
        x <= r < x + 4,
{
    let rem: usize = x % 4;
    if rem == 0 {
        x
    } else {
        x + (4 - rem)
    }
}

/// `align_4_spec(x)` is a multiple of four, is not below `x`, and no multiple
/// of four lies between `x` and it.
pub proof fn lemma_align_4_least(x: int, m: int)
    requires
        0 <= x,
    ensures
        align_4_spec(x) % 4 == 0,
        x <= align_4_spec(x) < x + 4,
        m % 4 == 0 && x <= m ==> align_4_spec(x) <= m,
{
}

/// The name of the record that ends an archive: the ASCII text `TRAILER!!!`.
pub open spec fn trailer_name() -> Seq<u8> {
    seq![0x54u8, 0x52u8, 0x41u8, 0x49u8, 0x4cu8, 0x45u8, 0x52u8, 0x21u8, 0x21u8, 0x21u8]
}

/// The name `.`.
pub open spec fn dot_name() -> Seq<u8> {
    seq![0x2eu8]
}

/// The name `..`.
pub open spec fn dot_dot_name() -> Seq<u8> {
    seq![0x2eu8, 0x2eu8]
}

/// `n` zero bytes.
pub open spec fn zeros(n: int) -> Seq<u8> {
    Seq::new(
        if n > 0 {
            n as nat
        } else {
            0
        },
        |i: int| 0u8,
    )
}

/// `out` followed by zero bytes up to the next multiple of four of its
/// length.
pub open spec fn padded(out: Seq<u8>) -> Seq<u8> {
    out + zeros(align_4_spec(out.len() as int) - out.len())
}

/// The header written for an entry that is the record of number `ino`.
pub open spec fn record_header(ino: int, name: Seq<u8>, entry: EntryView) -> Header {
    Header {
        ino: ino as u32,
        mode: entry.mode,
        uid: entry.uid,
        gid: entry.gid,
        nlink: 1,
        mtime: 0,
        filesize: entry.data.len() as u32,
        devmajor: 0,
        devminor: 0,
        rdevmajor: entry.rdevmajor,
        rdevminor: entry.rdevminor,
        namesize: (name.len() + 1) as u32,
        check: 0,
    }
}

/// `out` followed by one record: the header, the name and a null byte,
/// padding, the payload, padding. Padding is measured from the start of
/// `out`.
#[verifier::opaque]
pub open spec fn with_record(out: Seq<u8>, ino: int, name: Seq<u8>, entry: EntryView) -> Seq<u8> {
    padded(padded(out + header_bytes(record_header(ino, name, entry)) + name + seq![0u8]) + entry.data)
}

/// `out` followed by the records of `items`, numbered from `first_ino`.
pub open spec fn with_entries(out: Seq<u8>, items: Items, first_ino: int) -> Seq<u8>
    decreases items.len(),
{
    if items.len() == 0 {
        out
    } else {
        with_record(
            with_entries(out, items.drop_last(), first_ino),
            first_ino + items.len() - 1,
            items.last().0,
            items.last().1,
        )
    }
}

/// What the trailer record holds: no payload, owner 0:0, no device numbers.
pub open spec fn trailer_entry() -> EntryView {
    EntryView { mode: TRAILER_MODE, uid: 0, gid: 0, rdevmajor: 0, rdevminor: 0, data: Seq::empty() }
}

/// The bytes an archive is written as: one record for each item, in order,
/// and the trailer.
#[verifier::opaque]
pub open spec fn serialize(items: Items) -> Seq<u8> {
    with_record(
        with_entries(Seq::empty(), items, INODE_BASE as int),
        INODE_BASE + items.len(),
        trailer_name(),
        trailer_entry(),
    )
}

/// Every number that a header of `items` holds fits its eight digits.
pub open spec fn fits_format(items: Items) -> bool {
    &&& INODE_BASE + items.len() <= u32::MAX
    &&& forall|i: int|
        0 <= i < items.len() ==> (#[trigger] items[i]).0.len() + 1 <= u32::MAX
            && items[i].1.data.len() <= u32::MAX
}

/// Position of the first magic marker that starts at or after `from`.
pub open spec fn find_magic(data: Seq<u8>, from: int) -> Option<int>
    decreases data.len() - from,
{
    if from < 0 || from + MAGIC_LEN > data.len() {
        None
    } else if data.subrange(from, from + MAGIC_LEN) == magic() {
        Some(from)
    } else {
        find_magic(data, from + 1)
    }
}

/// A marker is never found before the position from which it is sought.
pub proof fn lemma_find_magic_bounds(data: Seq<u8>, from: int)
    ensures
        find_magic(data, from) matches Some(p) ==> from <= p && p + MAGIC_LEN <= data.len()
            && data.subrange(p, p + MAGIC_LEN) == magic(),
    decreases data.len() - from,
{
    if !(from < 0 || from + MAGIC_LEN > data.len()) && data.subrange(from, from + MAGIC_LEN)
        != magic() {
        lemma_find_magic_bounds(data, from + 1);
    }
}

/// The digits of the header field of number `index` in the header at `pos`.
pub open spec fn field_at(data: Seq<u8>, pos: int, index: int) -> Seq<u8> {
    data.subrange(pos + MAGIC_LEN + 8 * index, pos + MAGIC_LEN + 8 * index + 8)
}

/// Number of the `mode` field among the thirteen.
pub const FIELD_MODE: usize = 1;

/// Number of the `uid` field.
pub const FIELD_UID: usize = 2;

/// Number of the `gid` field.
pub const FIELD_GID: usize = 3;

/// Number of the `filesize` field.
pub const FIELD_FILESIZE: usize = 6;

/// Number of the `rdevmajor` field.
pub const FIELD_RDEVMAJOR: usize = 9;

/// Number of the `rdevminor` field.
pub const FIELD_RDEVMINOR: usize = 10;

/// Number of the `namesize` field.
pub const FIELD_NAMESIZE: usize = 11;

/// What one record of a buffer is read as.
pub enum Record {
    /// The record is malformed.
    Fail(CpioError),
    /// A record named `.` or `..`: nothing is stored, reading goes on at `next`.
    Skip { next: int },
    /// The trailer: reading goes on at the next magic marker at or after `next`.
    Trailer { next: int },
    /// An entry to store under `name`; reading goes on at `next`.
    Entry { name: Seq<u8>, entry: EntryView, next: int },
}

/// Reads the record whose header starts at `pos`.
#[verifier::opaque]
pub open spec fn read_record(data: Seq<u8>, pos: int) -> Record {
    let name_start = pos + HEADER_LEN;
    let nul = nul_at(data, name_start);
    let name = data.subrange(name_start, nul);
    let namesize = field_value(field_at(data, pos, FIELD_NAMESIZE as int));
    let filesize = field_value(field_at(data, pos, FIELD_FILESIZE as int));
    let mode = field_value(field_at(data, pos, FIELD_MODE as int));
    let uid = field_value(field_at(data, pos, FIELD_UID as int));
    let gid = field_value(field_at(data, pos, FIELD_GID as int));
    let rdevmajor = field_value(field_at(data, pos, FIELD_RDEVMAJOR as int));
    let rdevminor = field_value(field_at(data, pos, FIELD_RDEVMINOR as int));
    if pos + HEADER_LEN > data.len() {
        Record::Fail(CpioError::TruncatedHeader)
    } else if data.subrange(pos, pos + MAGIC_LEN) != magic() {
        Record::Fail(CpioError::InvalidMagic)
    } else if nul < 0 {
        Record::Fail(CpioError::UnterminatedName)
    } else if !valid_utf8(name) {
        Record::Fail(CpioError::InvalidName)
    } else if namesize is None {
        Record::Fail(CpioError::BadHeader)
    } else {
        let data_start = align_4_spec(name_start + namesize->0);
        if name == dot_name() || name == dot_dot_name() {
            Record::Skip { next: data_start }
        } else if name == trailer_name() {
            Record::Trailer { next: data_start }
        } else if filesize is None || mode is None || uid is None || gid is None
            || rdevmajor is None || rdevminor is None {
            Record::Fail(CpioError::BadHeader)
        } else if data_start + filesize->0 > data.len() {
            Record::Fail(CpioError::TruncatedData)
        } else {
            Record::Entry {
                name,
                entry: EntryView {
                    mode: mode->0,
                    uid: uid->0,
                    gid: gid->0,
                    rdevmajor: rdevmajor->0,
                    rdevminor: rdevminor->0,
                    data: data.subrange(data_start, data_start + filesize->0),
                },
                next: align_4_spec(data_start + filesize->0),
            }
        }
    }
}

/// Reads records from `pos` on into `acc`, a later entry replacing an
/// earlier one of the same name. After a trailer, reading resumes at the next
/// magic marker, and ends where there is none.
pub open spec fn parse_from(data: Seq<u8>, pos: int, acc: Map<Seq<u8>, EntryView>) -> Result<
    Map<Seq<u8>, EntryView>,
    CpioError,
>
    decreases
        (if pos < data.len() {
            data.len() - pos
        } else {
            0
        }),
    via parse_from_decreases
{
    if pos >= data.len() {
        Ok(acc)
    } else {
        match read_record(data, pos) {
            Record::Fail(e) => Err(e),
            Record::Skip { next } => parse_from(data, next, acc),
            Record::Trailer { next } => match find_magic(data, next) {
                Some(p) => parse_from(data, p, acc),
                None => Ok(acc),
            },
            Record::Entry { name, entry, next } => parse_from(data, next, acc.insert(name, entry)),
        }
    }
}

#[via_fn]
proof fn parse_from_decreases(data: Seq<u8>, pos: int, acc: Map<Seq<u8>, EntryView>) {
    if pos < data.len() {
        lemma_read_record_advances(data, pos);
        match read_record(data, pos) {
            Record::Trailer { next } => {
                lemma_find_magic_bounds(data, next);
            },
            _ => {},
        }
    }
}

/// Reading goes on behind the header of the record read.
pub proof fn lemma_read_record_advances(data: Seq<u8>, pos: int)
    ensures
        match read_record(data, pos) {
            Record::Fail(_) => true,
            Record::Skip { next } => next >= pos + HEADER_LEN,
            Record::Trailer { next } => next >= pos + HEADER_LEN,
            Record::Entry { next, .. } => next >= pos + HEADER_LEN,
        },
{
    reveal(read_record);
}

/// The archive that a buffer is read as, or why it cannot be read.
pub open spec fn parse(data: Seq<u8>) -> Result<Map<Seq<u8>, EntryView>, CpioError> {
    parse_from(data, 0, Map::empty())
}

} // verus!
