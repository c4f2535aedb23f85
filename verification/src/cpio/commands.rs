//! Sub-commands: how a line of text is cut into arguments, and what one
//! command does to an archive and asks of the caller.

use vstd::prelude::*;
use vstd::string::StringSliceAdditionalSpecFns;
use vstd::utf8::{
    encode_utf8, encode_utf8_valid_utf8, is_char_boundary, is_char_boundary_start_end_of_seq,
};
use crate::cpio::archive::Cpio;
use crate::cpio::error::CpioError;
use crate::cpio::extract::{action_of, plan_all, steps_view, ExtractStep, StepView};
use crate::cpio::list::listing;
use crate::cpio::ops::{directory_entry, ends_with_slash, rm_targets, symlink_entry};
use crate::cpio::path::{norm_path_spec, SLASH};
use crate::text::{lemma_boundary_after_ascii, lemma_boundary_at_ascii, owned, substr};

verus! {

/// The byte that separates arguments: a space.
pub const SPACE: u8 = 0x20;

/// The byte that starts a comment line: `#`.
pub const HASH: u8 = 0x23;

/// How many bytes there are before the first space.
pub open spec fn word_len(s: Seq<u8>) -> int
    decreases s.len(),
{
    if s.len() == 0 || s[0] == SPACE {
        0
    } else {
        1 + word_len(s.drop_first())
    }
}

/// The arguments of a line: its maximal runs of bytes that are no spaces.
pub open spec fn words(s: Seq<u8>) -> Seq<Seq<u8>>
    decreases s.len(),
    via words_decreases
{
    if s.len() == 0 {
        Seq::empty()
    } else if s[0] == SPACE {
        words(s.drop_first())
    } else {
        seq![s.take(word_len(s))] + words(s.skip(word_len(s)))
    }
}

#[via_fn]
proof fn words_decreases(s: Seq<u8>) {
    if s.len() > 0 && s[0] != SPACE {
        lemma_word_len_bounds(s);
    }
}

/// A word is not longer than the line, and not empty where the line starts
/// with a byte that is no space.
pub proof fn lemma_word_len_bounds(s: Seq<u8>)
    ensures
        0 <= word_len(s) <= s.len(),
        s.len() > 0 && s[0] != SPACE ==> word_len(s) > 0,
    decreases s.len(),
{
    if !(s.len() == 0 || s[0] == SPACE) {
        lemma_word_len_bounds(s.drop_first());
    }
}

/// The bytes of each of some strings.
pub open spec fn texts_bytes(texts: Seq<String>) -> Seq<Seq<u8>> {
    Seq::new(texts.len(), |i: int| encode_utf8(texts[i]@))
}

/// Whether a line is a comment: it starts with `#`.
pub fn is_comment(line: &str) -> (r: bool)
    ensures
        r == (line.spec_bytes().len() > 0 && line.spec_bytes()[0] == HASH),
{
    let bytes = line.as_bytes();
    bytes.len() > 0 && bytes[0] == HASH
}

/// Cuts a line into its arguments.
pub fn split_args(line: &str) -> (args: Vec<String>)
    ensures
        texts_bytes(args@) == words(line.spec_bytes()),
{
    let bytes = line.as_bytes();
    let n: usize = bytes.len();
    let mut args: Vec<String> = Vec::new();
    let mut i: usize = 0;
    proof {
        encode_utf8_valid_utf8(line@);
        is_char_boundary_start_end_of_seq(bytes@);
        assert(bytes@.skip(0) =~= bytes@);
        assert(texts_bytes(args@) =~= Seq::<Seq<u8>>::empty());
    }
    while i < n
        invariant
            i <= n,
            n == bytes@.len(),
            bytes@ == line.spec_bytes(),
            vstd::utf8::valid_utf8(bytes@),
            is_char_boundary(bytes@, i as int),
            is_char_boundary(bytes@, n as int),
            texts_bytes(args@) + words(bytes@.skip(i as int)) == words(bytes@),
        decreases n - i,
    {
        let ghost rest = bytes@.skip(i as int);
        assert(rest[0] == bytes@[i as int]);
        if bytes[i] == SPACE {
            proof {
                assert(rest.drop_first() =~= bytes@.skip(i + 1));
                lemma_boundary_after_ascii(bytes@, i as int);
            }
            i = i + 1;
        } else {
            let mut j: usize = i;
            while j < n && bytes[j] != SPACE
                invariant
                    i <= j <= n,
                    n == bytes@.len(),
                    word_len(bytes@.skip(i as int)) == (j - i) + word_len(bytes@.skip(j as int)),
                decreases n - j,
            {
                proof {
                    assert(bytes@.skip(j as int)[0] == bytes@[j as int]);
                    assert(bytes@.skip(j as int).drop_first() =~= bytes@.skip(j + 1));
                }
                j = j + 1;
            }
            proof {
                if j < n {
                    assert(bytes@.skip(j as int)[0] == bytes@[j as int]);
                    lemma_boundary_at_ascii(bytes@, j as int);
                }
                assert(word_len(rest) == j - i);
                assert(rest.take(j - i) =~= bytes@.subrange(i as int, j as int));
                assert(rest.skip(j - i) =~= bytes@.skip(j as int));
            }
            let word = owned(substr(line, i, j));
            let ghost before = texts_bytes(args@);
            args.push(word);
            proof {
                assert(texts_bytes(args@) =~= before + seq![bytes@.subrange(i as int, j as int)]);
                assert(texts_bytes(args@) + words(bytes@.skip(j as int)) =~= before + words(rest));
            }
            i = j;
        }
    }
    proof {
        assert(bytes@.skip(n as int) =~= Seq::<u8>::empty());
        assert(texts_bytes(args@) + Seq::<Seq<u8>>::empty() =~= texts_bytes(args@));
    }
    args
}

/// A sub-command, with its arguments.
#[derive(Debug)]
pub enum CpioCommand {
    Test,
    Restore,
    Patch,
    Exists { path: String },
    Backup { origin: String },
    Remove { path: String, recursive: bool },
    Move { from: String, to: String },
    Extract { paths: Vec<String> },
    MakeDir { mode: u32, dir: String },
    Link { src: String, dst: String },
    Add { mode: u32, path: String, file: String },
    List { path: String, recursive: bool },
}

/// An operation that the engine leaves to the layer that knows what a
/// ramdisk holds.
#[derive(Debug)]
pub enum RamdiskOp {
    Test,
    Restore,
    Patch,
    Backup { origin: String },
}

/// What the caller has to do after a command.
#[derive(Debug)]
pub enum Outcome {
    /// Nothing: go on with the next command.
    Continue,
    /// End the session with this status. The archive is not written.
    Exit { code: i32 },
    /// Print these lines, then end the session with status 0.
    Print { lines: Vec<String> },
    /// Carry these steps out, then go on.
    Extract { steps: Vec<ExtractStep> },
    /// Read this file and add it under the path with the mode, then go on.
    ReadFile { mode: u32, path: String, file: String },
    /// Hand this operation to the ramdisk layer.
    Ramdisk { op: RamdiskOp },
}

/// Status with which `exists` ends the session: 0 where the entry exists,
/// 1 where it does not.
pub open spec fn exists_code(found: bool) -> i32 {
    if found {
        0
    } else {
        1
    }
}

impl Cpio {
    /// Applies one command to the archive and says what is left for the
    /// caller to do. A command that fails leaves the archive unchanged.
    pub fn run(&mut self, command: &CpioCommand) -> (r: Result<Outcome, CpioError>)
        requires
            old(self).wf(),
        ensures
            final(self).wf(),
            match *command {
                CpioCommand::Test => final(self)@ == old(self)@ && r matches Ok(
                    Outcome::Ramdisk { op: RamdiskOp::Test },
                ),
                CpioCommand::Restore => final(self)@ == old(self)@ && r matches Ok(
                    Outcome::Ramdisk { op: RamdiskOp::Restore },
                ),
                CpioCommand::Patch => final(self)@ == old(self)@ && r matches Ok(
                    Outcome::Ramdisk { op: RamdiskOp::Patch },
                ),
                CpioCommand::Backup { origin } => final(self)@ == old(self)@ && (r matches Ok(
                    Outcome::Ramdisk { op: RamdiskOp::Backup { origin: o } },
                ) && o@ == origin@),
                CpioCommand::Exists { path } => final(self)@ == old(self)@ && (r matches Ok(
                    Outcome::Exit { code },
                ) && code == exists_code(
                    old(self)@.dom().contains(norm_path_spec(encode_utf8(path@))),
                )),
                CpioCommand::Remove { path, recursive } => r matches Ok(Outcome::Continue)
                    && final(self)@ == old(self)@.remove_keys(
                    rm_targets(norm_path_spec(encode_utf8(path@)), recursive),
                ),
                CpioCommand::Move { from, to } => {
                    let source = norm_path_spec(encode_utf8(from@));
                    if old(self)@.dom().contains(source) {
                        r matches Ok(Outcome::Continue) && final(self)@ == old(self)@.remove(
                            source,
                        ).insert(norm_path_spec(encode_utf8(to@)), old(self)@[source])
                    } else {
                        r matches Err(CpioError::NoSuchEntry) && final(self)@ == old(self)@
                    }
                },
                CpioCommand::Extract { paths } => final(self)@ == old(self)@ && if paths@.len()
                    == 0 {
                    r matches Ok(Outcome::Extract { steps }) && steps_view(steps@) == plan_all(
                        old(self).items(),
                    )
                } else if paths@.len() == 2 {
                    let key = norm_path_spec(encode_utf8(paths@[0]@));
                    if old(self)@.dom().contains(key) {
                        r matches Ok(Outcome::Extract { steps }) && steps_view(steps@) == seq![
                            StepView {
                                out: encode_utf8(paths@[1]@),
                                action: action_of(old(self)@[key]),
                            },
                        ]
                    } else {
                        r matches Err(CpioError::NoSuchFile)
                    }
                } else {
                    r matches Err(CpioError::InvalidArguments)
                },
                CpioCommand::MakeDir { mode, dir } => r matches Ok(Outcome::Continue)
                    && final(self)@ == old(self)@.insert(
                    norm_path_spec(encode_utf8(dir@)),
                    directory_entry(mode),
                ),
                CpioCommand::Link { src, dst } => r matches Ok(Outcome::Continue) && final(self)@
                    == old(self)@.insert(
                    norm_path_spec(encode_utf8(dst@)),
                    symlink_entry(norm_path_spec(encode_utf8(src@))),
                ),
                CpioCommand::Add { mode, path, file } => final(self)@ == old(self)@
                    && if ends_with_slash(encode_utf8(path@)) {
                    r matches Err(CpioError::PathEndsWithSlash)
                } else {
                    r matches Ok(Outcome::ReadFile { mode: m, path: p, file: f }) && m == mode
                        && p@ == path@ && f@ == file@
                },
                CpioCommand::List { path, recursive } => final(self)@ == old(self)@ && (
                r matches Ok(Outcome::Print { lines }) && lines.deep_view() == listing(
                    old(self).items(),
                    norm_path_spec(encode_utf8(path@)),
                    recursive,
                )),
            },
    {
        match command {
            CpioCommand::Test => Ok(Outcome::Ramdisk { op: RamdiskOp::Test }),
            CpioCommand::Restore => Ok(Outcome::Ramdisk { op: RamdiskOp::Restore }),
            CpioCommand::Patch => Ok(Outcome::Ramdisk { op: RamdiskOp::Patch }),
            CpioCommand::Backup { origin } => Ok(
                Outcome::Ramdisk { op: RamdiskOp::Backup { origin: owned(origin.as_str()) } },
            ),
            CpioCommand::Exists { path } => {
                let code: i32 = if self.entry_exists(path.as_str()) {
                    0
                } else {
                    1
                };
                Ok(Outcome::Exit { code })
            },
            CpioCommand::Remove { path, recursive } => {
                self.rm(path.as_str(), *recursive);
                Ok(Outcome::Continue)
            },
            CpioCommand::Move { from, to } => match self.mv(from.as_str(), to.as_str()) {
                Ok(_) => Ok(Outcome::Continue),
                Err(e) => Err(e),
            },
            CpioCommand::Extract { paths } => {
                if paths.len() == 0 {
                    Ok(Outcome::Extract { steps: self.extract_all() })
                } else if paths.len() == 2 {
                    match self.extract(Some(paths[0].as_str()), Some(paths[1].as_str())) {
                        Ok(steps) => Ok(Outcome::Extract { steps }),
                        Err(e) => Err(e),
                    }
                } else {
                    Err(CpioError::InvalidArguments)
                }
            },
            CpioCommand::MakeDir { mode, dir } => {
                self.mkdir(*mode, dir.as_str());
                Ok(Outcome::Continue)
            },
            CpioCommand::Link { src, dst } => {
                self.ln(src.as_str(), dst.as_str());
                Ok(Outcome::Continue)
            },
            CpioCommand::Add { mode, path, file } => {
                let bytes = path.as_str().as_bytes();
                if bytes.len() > 0 && bytes[bytes.len() - 1] == SLASH {
                    Err(CpioError::PathEndsWithSlash)
                } else {
                    Ok(
                        Outcome::ReadFile {
                            mode: *mode,
                            path: owned(path.as_str()),
                            file: owned(file.as_str()),
                        },
                    )
                }
            },
            CpioCommand::List { path, recursive } => Ok(
                Outcome::Print { lines: self.ls(path.as_str(), *recursive) },
            ),
        }
    }
}

} // verus!
