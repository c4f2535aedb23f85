//! One archive record and the meaning of its mode bits.

use vstd::prelude::*;

verus! {

/// Mask of the file-type bits of a mode.
pub const S_IFMT: u32 = 0o170000;

/// File-type bits of a directory.
pub const S_IFDIR: u32 = 0o040000;

/// File-type bits of a regular file.
pub const S_IFREG: u32 = 0o100000;

/// File-type bits of a symbolic link.
pub const S_IFLNK: u32 = 0o120000;

/// File-type bits of a block device.
pub const S_IFBLK: u32 = 0o060000;

/// File-type bits of a character device.
pub const S_IFCHR: u32 = 0o020000;

/// Permission bit: owner may read.
pub const S_IRUSR: u32 = 0o400;

/// Permission bit: owner may write.
pub const S_IWUSR: u32 = 0o200;

/// Permission bit: owner may execute.
pub const S_IXUSR: u32 = 0o100;

/// Permission bit: group may read.
pub const S_IRGRP: u32 = 0o040;

/// Permission bit: group may write.
pub const S_IWGRP: u32 = 0o020;

/// Permission bit: group may execute.
pub const S_IXGRP: u32 = 0o010;

/// Permission bit: others may read.
pub const S_IROTH: u32 = 0o004;

/// Permission bit: others may write.
pub const S_IWOTH: u32 = 0o002;

/// Permission bit: others may execute.
pub const S_IXOTH: u32 = 0o001;

/// What kind of filesystem object a mode describes.
#[derive(Clone, Copy, Debug, PartialEq, Eq, Structural)]
pub enum EntryKind {
    Directory,
    Regular,
    Symlink,
    BlockDevice,
    CharDevice,
    /// The type bits are none of the five above.
    Unknown,
}

/// The kind that the type bits of `mode` select.
pub open spec fn kind_of(mode: u32) -> EntryKind {
    let t = mode & S_IFMT;
    if t == S_IFDIR {
        EntryKind::Directory
    } else if t == S_IFREG {
        EntryKind::Regular
    } else if t == S_IFLNK {
        EntryKind::Symlink
    } else if t == S_IFBLK {
        EntryKind::BlockDevice
    } else if t == S_IFCHR {
        EntryKind::CharDevice
    } else {
        EntryKind::Unknown
    }
}

/// One record of an archive: a file, directory, symlink or device node.
#[derive(Clone, Debug)]
pub struct CpioEntry {
    /// File-type bits and permission bits.
    pub mode: u32,
    /// Numeric owner.
    pub uid: u32,
    /// Numeric group.
    pub gid: u32,
    /// Device major number; meaningful for device nodes only.
    pub rdevmajor: u32,
    /// Device minor number; meaningful for device nodes only.
    pub rdevminor: u32,
    /// File content, symlink target, or nothing.
    pub data: Vec<u8>,
}

/// The mathematical value of an entry.
pub struct EntryView {
    pub mode: u32,
    pub uid: u32,
    pub gid: u32,
    pub rdevmajor: u32,
    pub rdevminor: u32,
    pub data: Seq<u8>,
}

impl View for CpioEntry {
    type V = EntryView;

    open spec fn view(&self) -> EntryView {
        EntryView {
            mode: self.mode,
            uid: self.uid,
            gid: self.gid,
            rdevmajor: self.rdevmajor,
            rdevminor: self.rdevminor,
            data: self.data@,
        }
    }
}

impl CpioEntry {
    /// The kind of object this entry stands for.
    pub fn kind(&self) -> (k: EntryKind)
        ensures
            k == kind_of(self.mode),
    {
        let t: u32 = self.mode & S_IFMT;
        if t == S_IFDIR {
            EntryKind::Directory
        } else if t == S_IFREG {
            EntryKind::Regular
        } else if t == S_IFLNK {
            EntryKind::Symlink
        } else if t == S_IFBLK {
            EntryKind::BlockDevice
        } else if t == S_IFCHR {
            EntryKind::CharDevice
        } else {
            EntryKind::Unknown
        }
    }
}

} // verus!
