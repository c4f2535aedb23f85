//! Writing an archive out as bytes.

use vstd::prelude::*;
use crate::cpio::archive::Cpio;
use crate::cpio::entry::{CpioEntry, EntryView};
use crate::cpio::format::{
    align_4_spec, fits_format, padded, record_header, serialize, trailer_entry, trailer_name,
    with_entries, with_record, zeros, INODE_BASE, TRAILER_MODE,
};
use crate::cpio::header::Header;

verus! {

/// Appends the bytes of `src` to `out`.
pub fn append_bytes(out: &mut Vec<u8>, src: &[u8])
    ensures
        final(out)@ == old(out)@ + src@,
{
    let ghost before = out@;
    let mut i: usize = 0;
    while i < src.len()
        invariant
            i <= src.len(),
            out@ == before + src@.take(i as int),
        decreases src.len() - i,
    {
        out.push(src[i]);
        assert(src@.take(i as int + 1) =~= src@.take(i as int).push(src@[i as int]));
        assert(out@ =~= before + src@.take(i as int + 1));
        i = i + 1;
    }
    assert(src@.take(src@.len() as int) =~= src@);
}

/// Appends zero bytes to `out` until its length is a multiple of four. The
/// new length is the smallest multiple of four that is not below the old one.
pub fn pad_to_4(out: &mut Vec<u8>)
    ensures
        final(out)@ == padded(old(out)@),
        final(out)@.len() == align_4_spec(old(out)@.len() as int),
        final(out)@.len() % 4 == 0,
        old(out)@.len() <= final(out)@.len() < old(out)@.len() + 4,
{
    let ghost before = out@;
    assert(out@ =~= before + zeros(0));
    while out.len() % 4 != 0
        invariant
            out@ == before + zeros(out@.len() - before.len()),
            before.len() <= out@.len() <= align_4_spec(before.len() as int),
        decreases align_4_spec(before.len() as int) - out@.len(),
    {
        let ghost cur = out@;
        out.push(0u8);
        assert(out@ =~= before + zeros(cur.len() + 1 - before.len()));
    }
}

/// Appends one record to `out`.
pub fn write_record(out: &mut Vec<u8>, ino: u32, name: &[u8], entry: &CpioEntry)
    requires
        name@.len() + 1 <= u32::MAX,
        entry.data@.len() <= u32::MAX,
    ensures
        final(out)@ == with_record(old(out)@, ino as int, name@, entry@),
        final(out)@.len() % 4 == 0,
{
    let header = Header {
        ino,
        mode: entry.mode,
        uid: entry.uid,
        gid: entry.gid,
        nlink: 1,
        mtime: 0,
        filesize: entry.data.len() as u32,
        devmajor: 0,
        devminor: 0,
        rdevmajor: entry.rdevmajor,
        rdevminor: entry.rdevminor,
        namesize: (name.len() + 1) as u32,
        check: 0,
    };
    proof {
        reveal(with_record);
        assert(header == record_header(ino as int, name@, entry@));
    }
    header.encode(out);
    append_bytes(out, name);
    out.push(0u8);
    pad_to_4(out);
    append_bytes(out, entry.data.as_slice());
    pad_to_4(out);
}

impl Cpio {
    /// Whether every number that a header of this archive holds fits its
    /// eight digits, so that the archive can be written.
    pub fn fits(&self) -> (r: bool)
        ensures
            r == fits_format(self.items()),
    {
        let n: usize = self.len();
        if n > (u32::MAX - INODE_BASE) as usize {
            return false;
        }
        let mut i: usize = 0;
        while i < n
            invariant
                i <= n,
                n == self.items().len(),
                forall|j: int|
                    0 <= j < i ==> (#[trigger] self.items()[j]).0.len() + 1 <= u32::MAX
                        && self.items()[j].1.data.len() <= u32::MAX,
            decreases n - i,
        {
            let name = self.name_at(i).as_bytes();
            let entry = self.entry_at(i);
            if name.len() >= u32::MAX as usize || entry.data.len() > u32::MAX as usize {
                return false;
            }
            i = i + 1;
        }
        true
    }

    /// The archive as bytes: one record for each entry, in ascending order of
    /// the names, numbered from `INODE_BASE`, and the trailer.
    pub fn dump(&self) -> (bytes: Vec<u8>)
        requires
            fits_format(self.items()),
        ensures
            bytes@ == serialize(self.items()),
            bytes@.len() % 4 == 0,
    {
        let ghost items = self.items();
        let mut out: Vec<u8> = Vec::new();
        let n: usize = self.len();
        let mut i: usize = 0;
        assert(items.take(0) =~= Seq::<(Seq<u8>, EntryView)>::empty());
        while i < n
            invariant
                i <= n,
                n == items.len(),
                items == self.items(),
                fits_format(items),
                out@ == with_entries(Seq::empty(), items.take(i as int), INODE_BASE as int),
            decreases n - i,
        {
            let name = self.name_at(i).as_bytes();
            let entry = self.entry_at(i);
            proof {
                assert(items.take(i as int + 1).drop_last() =~= items.take(i as int));
                assert(items.take(i as int + 1).last() == items[i as int]);
                assert(items[i as int].0.len() + 1 <= u32::MAX);
            }
            write_record(&mut out, INODE_BASE + i as u32, name, entry);
            i = i + 1;
        }
        assert(items.take(n as int) =~= items);
        let trailer = CpioEntry {
            mode: TRAILER_MODE,
            uid: 0,
            gid: 0,
            rdevmajor: 0,
            rdevminor: 0,
            data: Vec::new(),
        };
        let name: [u8; 10] = [0x54, 0x52, 0x41, 0x49, 0x4c, 0x45, 0x52, 0x21, 0x21, 0x21];
        assert(name@ =~= trailer_name());
        assert(trailer@ == trailer_entry());
        write_record(&mut out, INODE_BASE + n as u32, name.as_slice(), &trailer);
        proof {
            reveal(serialize);
        }
        out
    }
}

} // verus!
