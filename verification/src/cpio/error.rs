//! What can go wrong in the archive engine.

use vstd::prelude::*;

verus! {

/// The ways in which reading or editing an archive fails.
#[derive(Clone, Copy, Debug, PartialEq, Eq, Structural)]
pub enum CpioError {
    /// A record does not start with the magic marker.
    InvalidMagic,
    /// A header field holds a byte that is no hexadecimal digit.
    BadHeader,
    /// The buffer ends inside a header.
    TruncatedHeader,
    /// The buffer ends before the null byte that closes a name.
    UnterminatedName,
    /// A name is not UTF-8 text.
    InvalidName,
    /// The buffer ends inside a payload.
    TruncatedData,
    /// The entry to move does not exist.
    NoSuchEntry,
    /// The entry to extract does not exist.
    NoSuchFile,
    /// An entry's type bits name no known kind of object.
    UnknownEntryType,
    /// The file to add is neither a regular file nor a device.
    UnsupportedFileType,
    /// The path given to `add` ends with a separator.
    PathEndsWithSlash,
    /// The target of a symlink entry is not UTF-8 text.
    InvalidLinkTarget,
    /// `extract` was given a number of paths other than none or two.
    InvalidArguments,
}

/// The message that goes with an error.
pub open spec fn message_of(e: CpioError) -> Seq<char> {
    match e {
        CpioError::InvalidMagic => "invalid cpio magic"@,
        CpioError::BadHeader => "bad cpio header"@,
        CpioError::TruncatedHeader => "truncated cpio header"@,
        CpioError::UnterminatedName => "unterminated entry name"@,
        CpioError::InvalidName => "entry name is not UTF-8"@,
        CpioError::TruncatedData => "truncated entry data"@,
        CpioError::NoSuchEntry => "no such entry"@,
        CpioError::NoSuchFile => "No such file"@,
        CpioError::UnknownEntryType => "unknown entry type"@,
        CpioError::UnsupportedFileType => "unsupported file type"@,
        CpioError::PathEndsWithSlash => "path cannot end with / for add"@,
        CpioError::InvalidLinkTarget => "symlink target is not UTF-8"@,
        CpioError::InvalidArguments => "invalid arguments"@,
    }
}

impl CpioError {
    /// The message that goes with this error.
    pub fn message(&self) -> (m: &'static str)
        ensures
            m@ == message_of(*self),
    {
        match self {
            CpioError::InvalidMagic => "invalid cpio magic",
            CpioError::BadHeader => "bad cpio header",
            CpioError::TruncatedHeader => "truncated cpio header",
            CpioError::UnterminatedName => "unterminated entry name",
            CpioError::InvalidName => "entry name is not UTF-8",
            CpioError::TruncatedData => "truncated entry data",
            CpioError::NoSuchEntry => "no such entry",
            CpioError::NoSuchFile => "No such file",
            CpioError::UnknownEntryType => "unknown entry type",
            CpioError::UnsupportedFileType => "unsupported file type",
            CpioError::PathEndsWithSlash => "path cannot end with / for add",
            CpioError::InvalidLinkTarget => "symlink target is not UTF-8",
            CpioError::InvalidArguments => "invalid arguments",
        }
    }
}

} // verus!
