//! Path-addressed operations on an archive. Every path is normalized
//! before it is used.

use vstd::prelude::*;
use vstd::slice::slice_to_vec;
use vstd::string::StringSliceAdditionalSpecFns;
use crate::cpio::archive::Cpio;
use crate::cpio::device::{dev_major, dev_minor, major_spec, minor_spec};
use crate::cpio::entry::{CpioEntry, EntryView, S_IFBLK, S_IFCHR, S_IFDIR, S_IFLNK, S_IFREG};
use crate::cpio::error::CpioError;
use crate::cpio::path::{norm_path, norm_path_spec, SLASH};
use crate::order::has_prefix;

verus! {

/// The names that `rm` takes out for a normalized path: the path itself and,
/// if `recursive`, every name that has the path and a separator as a prefix.
pub open spec fn rm_targets(path: Seq<u8>, recursive: bool) -> Set<Seq<u8>> {
    Set::new(
        |name: Seq<u8>| name == path || (recursive && has_prefix(name, path + seq![SLASH])),
    )
}

/// The directory entry that `mkdir` stores.
pub open spec fn directory_entry(mode: u32) -> EntryView {
    EntryView {
        mode: mode | S_IFDIR,
        uid: 0,
        gid: 0,
        rdevmajor: 0,
        rdevminor: 0,
        data: Seq::empty(),
    }
}

/// The symlink entry that `ln` stores: the type marker alone as mode, and
/// the target as payload.
pub open spec fn symlink_entry(target: Seq<u8>) -> EntryView {
    EntryView { mode: S_IFLNK, uid: 0, gid: 0, rdevmajor: 0, rdevminor: 0, data: target }
}

/// What kind of file is being added.
#[derive(Clone, Copy, Debug, PartialEq, Eq, Structural)]
pub enum SourceKind {
    Regular,
    BlockDevice,
    CharDevice,
    /// Anything else: a directory, a symlink, a socket, a pipe.
    Other,
}

/// The entry that `add` stores for a file, where its kind is supported.
pub open spec fn added_entry(mode: u32, kind: SourceKind, rdev: u64, content: Seq<u8>) -> Option<
    EntryView,
> {
    match kind {
        SourceKind::Regular => Some(
            EntryView {
                mode: mode | S_IFREG,
                uid: 0,
                gid: 0,
                rdevmajor: 0,
                rdevminor: 0,
                data: content,
            },
        ),
        SourceKind::BlockDevice => Some(
            EntryView {
                mode: mode | S_IFBLK,
                uid: 0,
                gid: 0,
                rdevmajor: major_spec(rdev),
                rdevminor: minor_spec(rdev),
                data: content,
            },
        ),
        SourceKind::CharDevice => Some(
            EntryView {
                mode: mode | S_IFCHR,
                uid: 0,
                gid: 0,
                rdevmajor: major_spec(rdev),
                rdevminor: minor_spec(rdev),
                data: content,
            },
        ),
        SourceKind::Other => None,
    }
}

/// Whether a path ends with a separator.
pub open spec fn ends_with_slash(path: Seq<u8>) -> bool {
    path.len() > 0 && path.last() == SLASH
}

impl Cpio {
    /// Whether an entry is stored under the path.
    pub fn entry_exists(&self, path: &str) -> (r: bool)
        requires
            self.wf(),
        ensures
            r == self@.dom().contains(norm_path_spec(path.spec_bytes())),
    {
        let key = norm_path(path);
        let (found, _) = self.search(key.as_str().as_bytes());
        found
    }

    /// Removes the entry stored under the path and, if `recursive`, every
    /// entry below it. Nothing happens where nothing matches.
    pub fn rm(&mut self, path: &str, recursive: bool)
        requires
            old(self).wf(),
        ensures
            final(self).wf(),
            final(self)@ == old(self)@.remove_keys(
                rm_targets(norm_path_spec(path.spec_bytes()), recursive),
            ),
    {
        let ghost before = self@;
        let ghost key = norm_path_spec(path.spec_bytes());
        let name = norm_path(path);
        self.remove(name.as_str().as_bytes());
        if recursive {
            let mut below: Vec<u8> = slice_to_vec(name.as_str().as_bytes());
            below.push(SLASH);
            assert(below@ =~= key + seq![SLASH]);
            self.remove_under(below.as_slice());
            assert(self@ =~= before.remove_keys(rm_targets(key, recursive)));
        } else {
            assert(self@ =~= before.remove_keys(rm_targets(key, recursive)));
        }
    }

    /// Moves the entry stored under `from` to `to`, in place of what was
    /// stored there. Fails, changing nothing, where `from` has no entry.
    pub fn mv(&mut self, from: &str, to: &str) -> (r: Result<(), CpioError>)
        requires
            old(self).wf(),
        ensures
            final(self).wf(),
            match r {
                Ok(_) => {
                    let source = norm_path_spec(from.spec_bytes());
                    &&& old(self)@.dom().contains(source)
                    &&& final(self)@ == old(self)@.remove(source).insert(
                        norm_path_spec(to.spec_bytes()),
                        old(self)@[source],
                    )
                },
                Err(e) => {
                    &&& e == CpioError::NoSuchEntry
                    &&& !old(self)@.dom().contains(norm_path_spec(from.spec_bytes()))
                    &&& final(self)@ == old(self)@
                },
            },
    {
        let source = norm_path(from);
        match self.remove(source.as_str().as_bytes()) {
            Some(entry) => {
                self.insert(norm_path(to), entry);
                Ok(())
            },
            None => {
                assert(self@ =~= old(self)@);
                Err(CpioError::NoSuchEntry)
            },
        }
    }

    /// Stores a directory with the given permission bits under the path.
    pub fn mkdir(&mut self, mode: u32, dir: &str)
        requires
            old(self).wf(),
        ensures
            final(self).wf(),
            final(self)@ == old(self)@.insert(
                norm_path_spec(dir.spec_bytes()),
                directory_entry(mode),
            ),
    {
        let entry = CpioEntry {
            mode: mode | S_IFDIR,
            uid: 0,
            gid: 0,
            rdevmajor: 0,
            rdevminor: 0,
            data: Vec::new(),
        };
        assert(entry@ == directory_entry(mode));
        self.insert(norm_path(dir), entry);
    }

    /// Stores under `dst` a symlink whose target is the normalized `src`.
    pub fn ln(&mut self, src: &str, dst: &str)
        requires
            old(self).wf(),
        ensures
            final(self).wf(),
            final(self)@ == old(self)@.insert(
                norm_path_spec(dst.spec_bytes()),
                symlink_entry(norm_path_spec(src.spec_bytes())),
            ),
    {
        let target = norm_path(src);
        let entry = CpioEntry {
            mode: S_IFLNK,
            uid: 0,
            gid: 0,
            rdevmajor: 0,
            rdevminor: 0,
            data: slice_to_vec(target.as_str().as_bytes()),
        };
        assert(entry@ == symlink_entry(norm_path_spec(src.spec_bytes())));
        self.insert(norm_path(dst), entry);
    }

    /// Stores a file under the path: its content, the given permission bits
    /// and the type bits of its kind, and for a device the major and minor
    /// number of its identifier `rdev`. Fails, changing nothing, where the
    /// path ends with a separator or the kind is none of regular file, block
    /// device and character device.
    pub fn add(&mut self, mode: u32, path: &str, kind: SourceKind, rdev: u64, content: Vec<u8>) -> (r:
        Result<(), CpioError>)
        requires
            old(self).wf(),
        ensures
            final(self).wf(),
            match r {
                Ok(_) => {
                    &&& !ends_with_slash(path.spec_bytes())
                    &&& added_entry(mode, kind, rdev, content@) matches Some(entry)
                    &&& final(self)@ == old(self)@.insert(norm_path_spec(path.spec_bytes()), entry)
                },
                Err(e) => {
                    &&& final(self)@ == old(self)@
                    &&& if ends_with_slash(path.spec_bytes()) {
                        e == CpioError::PathEndsWithSlash
                    } else {
                        e == CpioError::UnsupportedFileType && kind == SourceKind::Other
                    }
                },
            },
    {
        let bytes = path.as_bytes();
        if bytes.len() > 0 && bytes[bytes.len() - 1] == SLASH {
            return Err(CpioError::PathEndsWithSlash);
        }
        let mut rdevmajor: u32 = 0;
        let mut rdevminor: u32 = 0;
        let mode: u32 = match kind {
            SourceKind::Regular => mode | S_IFREG,
            SourceKind::BlockDevice => {
                rdevmajor = dev_major(rdev);
                rdevminor = dev_minor(rdev);
                mode | S_IFBLK
            },
            SourceKind::CharDevice => {
                rdevmajor = dev_major(rdev);
                rdevminor = dev_minor(rdev);
                mode | S_IFCHR
            },
            SourceKind::Other => {
                return Err(CpioError::UnsupportedFileType);
            },
        };
        let entry = CpioEntry { mode, uid: 0, gid: 0, rdevmajor, rdevminor, data: content };
        self.insert(norm_path(path), entry);
        Ok(())
    }
}

} // verus!
