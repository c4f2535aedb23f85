//! Listing an archive: one line of text for each entry under a path.

use vstd::prelude::*;
use vstd::string::{StringExecFns, StringSliceAdditionalSpecFns};
use vstd::utf8::{decode_utf8, encode_utf8_decode_utf8};
use crate::cpio::archive::Cpio;
use crate::cpio::entry::{
    kind_of, CpioEntry, EntryKind, EntryView, S_IRGRP, S_IROTH, S_IRUSR, S_IWGRP, S_IWOTH, S_IWUSR,
    S_IXGRP, S_IXOTH, S_IXUSR,
};
use crate::cpio::items::Items;
use crate::cpio::path::{norm_path, norm_path_spec, SLASH};
use crate::order::{has_prefix, starts_with};

verus! {

/// The character that stands for the kind of an entry.
pub open spec fn type_char(mode: u32) -> char {
    match kind_of(mode) {
        EntryKind::Directory => 'd',
        EntryKind::Regular => '-',
        EntryKind::Symlink => 'l',
        EntryKind::BlockDevice => 'b',
        EntryKind::CharDevice => 'c',
        EntryKind::Unknown => '?',
    }
}

/// `letter` where the permission bit is set, `-` where it is not.
pub open spec fn perm_char(mode: u32, bit: u32, letter: char) -> char {
    if mode & bit != 0 {
        letter
    } else {
        '-'
    }
}

/// The ten characters of a mode: the kind, then read, write and execute for
/// the owner, the group and the others.
pub open spec fn mode_text(mode: u32) -> Seq<char> {
    seq![
        type_char(mode),
        perm_char(mode, S_IRUSR, 'r'),
        perm_char(mode, S_IWUSR, 'w'),
        perm_char(mode, S_IXUSR, 'x'),
        perm_char(mode, S_IRGRP, 'r'),
        perm_char(mode, S_IWGRP, 'w'),
        perm_char(mode, S_IXGRP, 'x'),
        perm_char(mode, S_IROTH, 'r'),
        perm_char(mode, S_IWOTH, 'w'),
        perm_char(mode, S_IXOTH, 'x'),
    ]
}

/// The character of a decimal digit.
pub open spec fn digit_char(d: nat) -> char {
    ((0x30 + d) as u8) as char
}

/// A number in decimal, without leading zeros.
pub open spec fn decimal(n: nat) -> Seq<char>
    decreases n,
{
    if n < 10 {
        seq![digit_char(n)]
    } else {
        decimal(n / 10).push(digit_char(n % 10))
    }
}

/// The text of an entry in a listing: the mode, the owner, the group, the
/// size as text and the device numbers, separated by tabs.
pub open spec fn entry_text(entry: EntryView, size: Seq<char>) -> Seq<char> {
    mode_text(entry.mode) + seq!['\t'] + decimal(entry.uid as nat) + seq!['\t'] + decimal(
        entry.gid as nat,
    ) + seq!['\t'] + size + seq!['\t'] + decimal(entry.rdevmajor as nat) + seq![':'] + decimal(
        entry.rdevminor as nat,
    )
}

/// The text that the `size` crate gives for a number of bytes, in decimal
/// units and with the unit abbreviated.
pub uninterp spec fn size_text(bytes: usize) -> Seq<char>;

/// Calls the `size` crate: `Size::from_bytes`, formatted with
/// `Style::Abbreviated` and `Base::Base10`. Trusted: the text depends on the
/// number alone.
#[verifier::external_body]
pub(crate) fn format_size(bytes: usize) -> (s: String)
    ensures
        s@ == size_text(bytes),
{
    size::Size::from_bytes(bytes)
        .format()
        .with_style(size::Style::Abbreviated)
        .with_base(size::Base::Base10)
        .to_string()
}

/// The one-character text of a decimal digit.
fn digit_str(d: u32) -> (s: &'static str)
    requires
        d < 10,
    ensures
        s@ == seq![digit_char(d as nat)],
{
    proof {
        reveal_strlit("0");
        reveal_strlit("1");
        reveal_strlit("2");
        reveal_strlit("3");
        reveal_strlit("4");
        reveal_strlit("5");
        reveal_strlit("6");
        reveal_strlit("7");
        reveal_strlit("8");
        reveal_strlit("9");
    }
    let s = if d == 0 {
        "0"
    } else if d == 1 {
        "1"
    } else if d == 2 {
        "2"
    } else if d == 3 {
        "3"
    } else if d == 4 {
        "4"
    } else if d == 5 {
        "5"
    } else if d == 6 {
        "6"
    } else if d == 7 {
        "7"
    } else if d == 8 {
        "8"
    } else {
        "9"
    };
    assert(s@ =~= seq![digit_char(d as nat)]);
    s
}

/// Appends `n` in decimal to `out`.
pub fn push_decimal(out: &mut String, n: u32)
    ensures
        final(out)@ == old(out)@ + decimal(n as nat),
    decreases n,
{
    let ghost before = out@;
    if n >= 10 {
        push_decimal(out, n / 10);
    }
    out.append(digit_str(n % 10));
    assert(out@ =~= before + decimal(n as nat));
}

/// Appends `letter` to `out` where the permission bit is set, `-` where it
/// is not.
fn push_perm(out: &mut String, mode: u32, bit: u32, letter: &str)
    requires
        letter@.len() == 1,
    ensures
        final(out)@ == old(out)@.push(perm_char(mode, bit, letter@[0])),
{
    let ghost before = out@;
    proof {
        reveal_strlit("-");
    }
    if mode & bit != 0 {
        out.append(letter);
    } else {
        out.append("-");
    }
    assert(out@ =~= before.push(perm_char(mode, bit, letter@[0])));
}

/// The text of an entry in a listing, given the text of its size.
pub fn format_entry(entry: &CpioEntry, size: &str) -> (s: String)
    ensures
        s@ == entry_text(entry@, size@),
{
    proof {
        reveal_strlit("d");
        reveal_strlit("-");
        reveal_strlit("l");
        reveal_strlit("b");
        reveal_strlit("c");
        reveal_strlit("?");
        reveal_strlit("r");
        reveal_strlit("w");
        reveal_strlit("x");
        reveal_strlit("\t");
        reveal_strlit(":");
    }
    let mut s = String::new();
    let mode: u32 = entry.mode;
    s.append(
        match entry.kind() {
            EntryKind::Directory => "d",
            EntryKind::Regular => "-",
            EntryKind::Symlink => "l",
            EntryKind::BlockDevice => "b",
            EntryKind::CharDevice => "c",
            EntryKind::Unknown => "?",
        },
    );
    assert(s@ =~= seq![type_char(mode)]);
    push_perm(&mut s, mode, S_IRUSR, "r");
    push_perm(&mut s, mode, S_IWUSR, "w");
    push_perm(&mut s, mode, S_IXUSR, "x");
    push_perm(&mut s, mode, S_IRGRP, "r");
    push_perm(&mut s, mode, S_IWGRP, "w");
    push_perm(&mut s, mode, S_IXGRP, "x");
    push_perm(&mut s, mode, S_IROTH, "r");
    push_perm(&mut s, mode, S_IWOTH, "w");
    push_perm(&mut s, mode, S_IXOTH, "x");
    assert(s@ =~= mode_text(mode));
    s.append("\t");
    push_decimal(&mut s, entry.uid);
    s.append("\t");
    push_decimal(&mut s, entry.gid);
    s.append("\t");
    s.append(size);
    s.append("\t");
    push_decimal(&mut s, entry.rdevmajor);
    s.append(":");
    push_decimal(&mut s, entry.rdevminor);
    s
}

impl CpioEntry {
    /// The text of this entry in a listing.
    pub fn render(&self) -> (s: String)
        ensures
            s@ == entry_text(self@, size_text(self.data.len())),
    {
        let size = format_size(self.data.len());
        format_entry(self, size.as_str())
    }
}

/// How many separators a path holds.
pub open spec fn count_slashes(path: Seq<u8>) -> nat
    decreases path.len(),
{
    if path.len() == 0 {
        0
    } else {
        count_slashes(path.drop_last()) + if path.last() == SLASH {
            1nat
        } else {
            0nat
        }
    }
}

/// The prefix against which a listing matches: empty for the whole archive,
/// otherwise a separator and the normalized path.
pub open spec fn list_prefix(path: Seq<u8>) -> Seq<u8> {
    if path.len() == 0 {
        path
    } else {
        seq![SLASH] + path
    }
}

/// Whether a listing of the normalized `path` shows the entry `name`. It
/// does where the name, with a separator in front, starts with the prefix and
/// what remains is empty or starts with a separator; and, unless `recursive`,
/// what remains holds at most one separator.
pub open spec fn listed(name: Seq<u8>, path: Seq<u8>, recursive: bool) -> bool {
    let full = seq![SLASH] + name;
    let prefix = list_prefix(path);
    let rest = full.subrange(prefix.len() as int, full.len() as int);
    &&& has_prefix(full, prefix)
    &&& rest.len() == 0 || rest[0] == SLASH
    &&& recursive || rest.len() == 0 || count_slashes(rest) <= 1
}

/// The line of a listing for an entry: its text, a tab, its name.
pub open spec fn list_line(name: Seq<u8>, entry: EntryView) -> Seq<char> {
    entry_text(entry, size_text(entry.data.len() as usize)) + seq!['\t'] + decode_utf8(name)
}

/// The lines of a listing of the normalized `path`, in the order of the
/// items.
pub open spec fn listing(items: Items, path: Seq<u8>, recursive: bool) -> Seq<Seq<char>>
    decreases items.len(),
{
    if items.len() == 0 {
        Seq::empty()
    } else {
        let front = listing(items.drop_last(), path, recursive);
        if listed(items.last().0, path, recursive) {
            front.push(list_line(items.last().0, items.last().1))
        } else {
            front
        }
    }
}

/// Counts the separators of a path.
pub fn slashes(path: &[u8]) -> (n: usize)
    ensures
        n == count_slashes(path@),
{
    let mut n: usize = 0;
    let mut i: usize = 0;
    while i < path.len()
        invariant
            i <= path@.len(),
            n == count_slashes(path@.take(i as int)),
            n <= i,
        decreases path@.len() - i,
    {
        assert(path@.take(i as int + 1).drop_last() =~= path@.take(i as int));
        if path[i] == SLASH {
            n = n + 1;
        }
        i = i + 1;
    }
    assert(path@.take(path@.len() as int) =~= path@);
    n
}

/// Whether a listing of the normalized `path` shows the entry `name`.
pub fn is_listed(name: &[u8], path: &[u8], recursive: bool) -> (r: bool)
    ensures
        r == listed(name@, path@, recursive),
{
    let mut full: Vec<u8> = Vec::new();
    full.push(SLASH);
    let mut i: usize = 0;
    while i < name.len()
        invariant
            i <= name@.len(),
            full@ == seq![SLASH] + name@.take(i as int),
        decreases name@.len() - i,
    {
        full.push(name[i]);
        assert(full@ =~= seq![SLASH] + name@.take(i as int + 1));
        i = i + 1;
    }
    assert(name@.take(name@.len() as int) =~= name@);
    let mut prefix: Vec<u8> = Vec::new();
    if path.len() > 0 {
        prefix.push(SLASH);
        let mut j: usize = 0;
        while j < path.len()
            invariant
                j <= path@.len(),
                prefix@ == seq![SLASH] + path@.take(j as int),
            decreases path@.len() - j,
        {
            prefix.push(path[j]);
            assert(prefix@ =~= seq![SLASH] + path@.take(j as int + 1));
            j = j + 1;
        }
        assert(path@.take(path@.len() as int) =~= path@);
    }
    assert(prefix@ =~= list_prefix(path@));
    if !starts_with(full.as_slice(), prefix.as_slice()) {
        return false;
    }
    let rest = vstd::slice::slice_subrange(full.as_slice(), prefix.len(), full.len());
    if rest.len() > 0 && rest[0] != SLASH {
        return false;
    }
    recursive || rest.len() == 0 || slashes(rest) <= 1
}

impl Cpio {
    /// The lines of a listing: one for each entry at or below the path, or,
    /// unless `recursive`, at the path or directly below it.
    pub fn ls(&self, path: &str, recursive: bool) -> (lines: Vec<String>)
        requires
            self.wf(),
        ensures
            lines.deep_view() == listing(
                self.items(),
                norm_path_spec(path.spec_bytes()),
                recursive,
            ),
    {
        let ghost items = self.items();
        let ghost key = norm_path_spec(path.spec_bytes());
        let normal = norm_path(path);
        let prefix = normal.as_str().as_bytes();
        let mut lines: Vec<String> = Vec::new();
        let n: usize = self.len();
        let mut i: usize = 0;
        proof {
            reveal_strlit("\t");
            assert(items.take(0) =~= Seq::<(Seq<u8>, EntryView)>::empty());
            assert(lines.deep_view() =~= listing(items.take(0), key, recursive));
        }
        while i < n
            invariant
                i <= n,
                n == items.len(),
                items == self.items(),
                prefix@ == key,
                lines.deep_view() == listing(items.take(i as int), key, recursive),
                "\t"@ == seq!['\t'],
            decreases n - i,
        {
            let name = self.name_at(i);
            let entry = self.entry_at(i);
            proof {
                assert(items.take(i as int + 1).drop_last() =~= items.take(i as int));
                assert(items.take(i as int + 1).last() == items[i as int]);
                encode_utf8_decode_utf8(name@);
            }
            if is_listed(name.as_bytes(), prefix, recursive) {
                let mut line = entry.render();
                line.append("\t");
                line.append(name);
                let ghost before = lines.deep_view();
                lines.push(line);
                assert(lines.deep_view() =~= before.push(list_line(items[i as int].0, items[i as int].1)));
            }
            i = i + 1;
        }
        assert(items.take(n as int) =~= items);
        lines
    }
}

} // verus!
