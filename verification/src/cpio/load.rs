//! Reading an archive from bytes.

use vstd::prelude::*;
use vstd::slice::{slice_subrange, slice_to_vec};
use crate::cpio::archive::Cpio;
use crate::cpio::entry::{CpioEntry, EntryView};
use crate::cpio::error::CpioError;
use crate::cpio::format::{
    align_4_spec, dot_dot_name, dot_name, field_at, find_magic, lemma_find_magic_bounds,
    lemma_read_record_advances, parse, parse_from, read_record, trailer_name, Record,
    FIELD_FILESIZE, FIELD_GID, FIELD_MODE, FIELD_NAMESIZE, FIELD_RDEVMAJOR, FIELD_RDEVMINOR,
    FIELD_UID,
};
use crate::cpio::header::{field_value, magic, x8u, HEADER_LEN, MAGIC_LEN};
use crate::order::bytes_eq;
use crate::text::{find_nul, from_utf8, owned};

verus! {

/// Whether the six bytes at `at` are the magic marker.
pub fn magic_at(data: &[u8], at: usize) -> (r: bool)
    requires
        at + MAGIC_LEN <= data@.len(),
    ensures
        r == (data@.subrange(at as int, at + MAGIC_LEN) == magic()),
{
    let ghost window = data@.subrange(at as int, at + MAGIC_LEN);
    assert(window[0] == data@[at as int]);
    assert(window[1] == data@[at + 1]);
    assert(window[2] == data@[at + 2]);
    assert(window[3] == data@[at + 3]);
    assert(window[4] == data@[at + 4]);
    assert(window[5] == data@[at + 5]);
    let r = data[at] == 0x30 && data[at + 1] == 0x37 && data[at + 2] == 0x30 && data[at + 3]
        == 0x37 && data[at + 4] == 0x30 && data[at + 5] == 0x31;
    if r {
        assert(window =~= magic());
    }
    r
}

/// Finds the first magic marker that starts at or after `from`.
pub fn seek_magic(data: &[u8], from: usize) -> (r: Option<usize>)
    requires
        from <= data@.len(),
    ensures
        match r {
            Some(p) => find_magic(data@, from as int) == Some(p as int) && from <= p
                && p + MAGIC_LEN <= data@.len(),
            None => find_magic(data@, from as int) is None,
        },
{
    let mut i: usize = from;
    while data.len() - i >= MAGIC_LEN
        invariant
            from <= i <= data@.len(),
            find_magic(data@, from as int) == find_magic(data@, i as int),
        decreases data@.len() - i,
    {
        if magic_at(data, i) {
            return Some(i);
        }
        i = i + 1;
    }
    None
}

/// Parses the header field of number `index` in the header at `pos`.
pub fn read_field(data: &[u8], pos: usize, index: usize) -> (r: Result<u32, CpioError>)
    requires
        pos + HEADER_LEN <= data@.len(),
        index < 13,
    ensures
        match r {
            Ok(v) => field_value(field_at(data@, pos as int, index as int)) == Some(v),
            Err(e) => field_value(field_at(data@, pos as int, index as int)) is None && e
                == CpioError::BadHeader,
        },
{
    let len: usize = data.len();
    assert(pos + HEADER_LEN <= len);
    let start: usize = pos + MAGIC_LEN + 8 * index;
    x8u(slice_subrange(data, start, start + 8))
}

/// The position `base + by` rounded up to a multiple of four, where that is
/// within `len`.
pub fn advance(base: usize, by: u32, len: usize) -> (r: Option<usize>)
    requires
        base <= len,
    ensures
        match r {
            Some(p) => p == align_4_spec(base + by) && p <= len,
            None => align_4_spec(base + by) > len,
        },
{
    if by as usize > len - base {
        return None;
    }
    let end: usize = base + by as usize;
    let rem: usize = end % 4;
    if rem == 0 {
        Some(end)
    } else if 4 - rem > len - end {
        None
    } else {
        Some(end + (4 - rem))
    }
}

impl Cpio {
    /// Reads an archive from a buffer. Records named `.` and `..` are passed
    /// over, a later entry replaces an earlier one of the same name, and
    /// after a trailer reading resumes at the next magic marker, if any.
    pub fn load_from_data(data: &[u8]) -> (r: Result<Cpio, CpioError>)
        ensures
            match r {
                Ok(c) => c.wf() && parse(data@) == Ok::<Map<Seq<u8>, EntryView>, CpioError>(c@),
                Err(e) => parse(data@) == Err::<Map<Seq<u8>, EntryView>, CpioError>(e),
            },
    {
        let dot: [u8; 1] = [0x2e];
        let dot_dot: [u8; 2] = [0x2e, 0x2e];
        let trailer: [u8; 10] = [0x54, 0x52, 0x41, 0x49, 0x4c, 0x45, 0x52, 0x21, 0x21, 0x21];
        assert(dot@ =~= dot_name());
        assert(dot_dot@ =~= dot_dot_name());
        assert(trailer@ =~= trailer_name());
        let len: usize = data.len();
        let mut cpio = Cpio::new();
        let mut pos: usize = 0;
        while pos < len
            invariant
                pos <= len,
                len == data@.len(),
                cpio.wf(),
                parse(data@) == parse_from(data@, pos as int, cpio@),
                dot@ == dot_name(),
                dot_dot@ == dot_dot_name(),
                trailer@ == trailer_name(),
            decreases len - pos,
        {
            proof {
                reveal(read_record);
                lemma_read_record_advances(data@, pos as int);
            }
            if len - pos < HEADER_LEN {
                return Err(CpioError::TruncatedHeader);
            }
            if !magic_at(data, pos) {
                return Err(CpioError::InvalidMagic);
            }
            let name_start: usize = pos + HEADER_LEN;
            let nul: usize = match find_nul(data, name_start) {
                Some(i) => i,
                None => {
                    return Err(CpioError::UnterminatedName);
                },
            };
            let name_bytes = slice_subrange(data, name_start, nul);
            let name: &str = match from_utf8(name_bytes) {
                Ok(s) => s,
                Err(_) => {
                    return Err(CpioError::InvalidName);
                },
            };
            let namesize: u32 = match read_field(data, pos, FIELD_NAMESIZE) {
                Ok(v) => v,
                Err(e) => {
                    return Err(e);
                },
            };
            let data_start = advance(name_start, namesize, len);
            let ghost next = align_4_spec(name_start + namesize);
            if bytes_eq(name_bytes, dot.as_slice()) || bytes_eq(name_bytes, dot_dot.as_slice()) {
                assert(read_record(data@, pos as int) == Record::Skip { next });
                match data_start {
                    Some(p) => {
                        pos = p;
                    },
                    None => {
                        assert(parse_from(data@, next, cpio@) == Ok::<
                            Map<Seq<u8>, EntryView>,
                            CpioError,
                        >(cpio@));
                        return Ok(cpio);
                    },
                }
            } else if bytes_eq(name_bytes, trailer.as_slice()) {
                assert(read_record(data@, pos as int) == Record::Trailer { next });
                let from: usize = match data_start {
                    Some(p) => p,
                    None => {
                        assert(find_magic(data@, next) is None);
                        return Ok(cpio);
                    },
                };
                proof {
                    lemma_find_magic_bounds(data@, from as int);
                }
                match seek_magic(data, from) {
                    Some(p) => {
                        pos = p;
                    },
                    None => {
                        return Ok(cpio);
                    },
                }
            } else {
                let filesize: u32 = match read_field(data, pos, FIELD_FILESIZE) {
                    Ok(v) => v,
                    Err(e) => {
                        return Err(e);
                    },
                };
                let mode: u32 = match read_field(data, pos, FIELD_MODE) {
                    Ok(v) => v,
                    Err(e) => {
                        return Err(e);
                    },
                };
                let uid: u32 = match read_field(data, pos, FIELD_UID) {
                    Ok(v) => v,
                    Err(e) => {
                        return Err(e);
                    },
                };
                let gid: u32 = match read_field(data, pos, FIELD_GID) {
                    Ok(v) => v,
                    Err(e) => {
                        return Err(e);
                    },
                };
                let rdevmajor: u32 = match read_field(data, pos, FIELD_RDEVMAJOR) {
                    Ok(v) => v,
                    Err(e) => {
                        return Err(e);
                    },
                };
                let rdevminor: u32 = match read_field(data, pos, FIELD_RDEVMINOR) {
                    Ok(v) => v,
                    Err(e) => {
                        return Err(e);
                    },
                };
                let start: usize = match data_start {
                    Some(p) => p,
                    None => {
                        return Err(CpioError::TruncatedData);
                    },
                };
                if filesize as usize > len - start {
                    return Err(CpioError::TruncatedData);
                }
                let end: usize = start + filesize as usize;
                let entry = CpioEntry {
                    mode,
                    uid,
                    gid,
                    rdevmajor,
                    rdevminor,
                    data: slice_to_vec(slice_subrange(data, start, end)),
                };
                let ghost before = cpio@;
                assert(read_record(data@, pos as int) == Record::Entry {
                    name: name_bytes@,
                    entry: entry@,
                    next: align_4_spec(end as int),
                });
                cpio.insert(owned(name), entry);
                assert(cpio@ == before.insert(name_bytes@, entry@));
                match advance(end, 0, len) {
                    Some(p) => {
                        pos = p;
                    },
                    None => {
                        assert(parse_from(data@, align_4_spec(end as int), cpio@) == Ok::<
                            Map<Seq<u8>, EntryView>,
                            CpioError,
                        >(cpio@));
                        return Ok(cpio);
                    },
                }
            }
        }
        Ok(cpio)
    }
}

} // verus!
