//! Helpers for text that is handed to C: copying into fixed buffers with a
//! terminating null byte, a validated null-terminated string, and the check
//! of a C return value.

use vstd::prelude::*;
use vstd::slice::{slice_subrange, slice_to_vec};
use vstd::string::StringSliceAdditionalSpecFns;
use vstd::utf8::{decode_utf8, encode_utf8, encode_utf8_valid_utf8, valid_utf8};
use crate::text::{find_nul, from_utf8, nul_at};

verus! {

/// The smaller of two numbers.
pub open spec fn least(a: int, b: int) -> int {
    if a <= b {
        a
    } else {
        b
    }
}

/// Copies the first `len` bytes of `src` to `dest`, from position `at` on.
fn copy_at(dest: &mut [u8], at: usize, src: &[u8], len: usize)
    requires
        at + len <= old(dest)@.len(),
        len <= src@.len(),
    ensures
        final(dest)@ == old(dest)@.take(at as int) + src@.take(len as int) + old(dest)@.skip(
            at + len,
        ),
{
    let ghost before = dest@;
    let total: usize = dest.len();
    let mut i: usize = 0;
    assert(dest@ =~= before.take(at as int) + src@.take(0) + before.skip(at as int));
    while i < len
        invariant
            i <= len,
            total == before.len(),
            at + len <= before.len(),
            len <= src@.len(),
            dest@ == before.take(at as int) + src@.take(i as int) + before.skip(at + i),
        decreases len - i,
    {
        let ghost cur = dest@;
        dest[at + i] = src[i];
        assert(dest@ =~= before.take(at as int) + src@.take(i + 1) + before.skip(at + i + 1));
        i = i + 1;
    }
}

/// What a buffer holds after text was copied to it from position `used` on:
/// as much of the text as leaves room for a null byte, and the null byte.
/// Nothing changes where not even the null byte has room.
pub open spec fn text_in_buf(buf: Seq<u8>, used: int, text: Seq<u8>) -> Seq<u8> {
    if used >= buf.len() - 1 {
        buf
    } else {
        let n = least(text.len() as int, buf.len() - used - 1);
        buf.take(used) + text.take(n) + seq![0u8] + buf.skip(used + n + 1)
    }
}

/// How many bytes of a buffer are in use after text was copied to it from
/// position `used` on.
pub open spec fn used_after(len: int, used: int, text_len: int) -> int {
    if used >= len - 1 {
        used
    } else {
        used + least(text_len, len - used - 1)
    }
}

/// Copies `src` to `dest` and puts a null byte behind it. Where `src` is too
/// long, only as much of it is copied as leaves room for the null byte.
/// Returns the number of bytes copied, not counting the null byte.
pub fn copy_str(dest: &mut [u8], src: &[u8]) -> (len: usize)
    requires
        old(dest)@.len() >= 1,
    ensures
        len == least(src@.len() as int, old(dest)@.len() - 1),
        final(dest)@ == src@.take(len as int) + seq![0u8] + old(dest)@.skip(len + 1),
{
    let ghost before = dest@;
    let room: usize = dest.len() - 1;
    let len: usize = if src.len() < room {
        src.len()
    } else {
        room
    };
    copy_at(dest, 0, src, len);
    dest[len] = 0u8;
    assert(dest@ =~= src@.take(len as int) + seq![0u8] + before.skip(len + 1));
    len
}

/// Writes text into a fixed buffer and keeps it null-terminated. Text that
/// has no room is silently cut off.
pub struct BufFmtWriter<'a> {
    pub buf: &'a mut [u8],
    pub used: usize,
}

impl<'a> BufFmtWriter<'a> {
    /// A writer that has written nothing to `buf` yet.
    pub fn new(buf: &'a mut [u8]) -> (w: Self)
        ensures
            w.used == 0,
            w.buf@ == old(buf)@,
            final(w.buf)@ == final(buf)@,
    {
        BufFmtWriter { buf, used: 0 }
    }

    /// Writes `s` behind what was written before, as far as there is room.
    pub fn write_str(&mut self, s: &str)
        requires
            old(self).buf@.len() >= 1,
        ensures
            final(self).buf@ == text_in_buf(
                old(self).buf@,
                old(self).used as int,
                s.spec_bytes(),
            ),
            final(self).used == used_after(
                old(self).buf@.len() as int,
                old(self).used as int,
                s.spec_bytes().len() as int,
            ),
            final(final(self).buf)@ == final(old(self).buf)@,
    {
        let ghost before = self.buf@;
        let total: usize = self.buf.len();
        if self.used >= total - 1 {
            return ;
        }
        let src = s.as_bytes();
        let room: usize = total - self.used - 1;
        let len: usize = if src.len() < room {
            src.len()
        } else {
            room
        };
        copy_at(self.buf, self.used, src, len);
        self.buf[self.used + len] = 0u8;
        assert(self.buf@ =~= text_in_buf(before, self.used as int, src@));
        self.used = self.used + len;
    }
}

/// Writes `text` to `buf`, null-terminated and cut off where it has no room.
/// Returns the number of bytes of text written.
pub fn text_to_buf(buf: &mut [u8], text: &str) -> (used: usize)
    requires
        old(buf)@.len() >= 1,
    ensures
        final(buf)@ == text_in_buf(old(buf)@, 0, text.spec_bytes()),
        used == used_after(old(buf)@.len() as int, 0, text.spec_bytes().len() as int),
{
    let mut w = BufFmtWriter::new(buf);
    w.write_str(text);
    w.used
}

/// Format arguments as std's `format_args!` builds them.
#[verifier::external_type_specification]
#[verifier::external_body]
pub struct ExArguments<'a>(core::fmt::Arguments<'a>);

/// Calls `core::fmt::write` into a fresh string. Trusted; nothing is claimed
/// of the text, which depends on how the arguments display themselves. None
/// stands for a formatting error.
#[verifier::external_body]
fn render_args(args: core::fmt::Arguments<'_>) -> (r: Option<String>) {
    let mut text = String::new();
    match core::fmt::write(&mut text, args) {
        Ok(()) => Some(text),
        Err(_) => None,
    }
}

/// Formats `args` into `buf`, null-terminated and cut off where the text has
/// no room. Returns the number of bytes of text written, which is 0 where
/// formatting fails. Behind the null byte the buffer keeps what it held.
pub fn fmt_to_buf(buf: &mut [u8], args: core::fmt::Arguments<'_>) -> (used: usize)
    requires
        old(buf)@.len() >= 1,
    ensures
        used < old(buf)@.len(),
        final(buf)@.len() == old(buf)@.len(),
        final(buf)@.skip(used + 1) == old(buf)@.skip(used + 1),
        final(buf)@ == old(buf)@ || final(buf)@[used as int] == 0,
        (final(buf)@ == old(buf)@ && used == 0) || (exists|text: Seq<u8>|
            final(buf)@ == #[trigger] text_in_buf(old(buf)@, 0, text) && used == used_after(
                old(buf)@.len() as int,
                0,
                text.len() as int,
            )),
{
    match render_args(args) {
        Some(text) => {
            let ghost before = buf@;
            let used = text_to_buf(buf, text.as_str());
            proof {
                let bytes = encode_utf8(text@);
                if !(0 >= before.len() - 1) {
                    assert(buf@.skip(used + 1) =~= before.skip(used + 1));
                }
                assert(buf@ == text_in_buf(before, 0, bytes) && used == used_after(
                    before.len() as int,
                    0,
                    bytes.len() as int,
                ));
            }
            used
        },
        None => 0,
    }
}

/// Why bytes are no null-terminated string: a null byte stands before the
/// end, or none stands at the end.
#[derive(Clone, Copy, Debug, PartialEq, Eq, Structural)]
pub enum NulError {
    InteriorNul { position: usize },
    NotNulTerminated,
}

/// Why a validated string could not be made.
#[derive(Debug)]
pub enum StrErr {
    /// The bytes are not UTF-8.
    Utf8Error(core::str::Utf8Error),
    /// The bytes are not terminated by their only null byte.
    CStrError(NulError),
    /// There are no bytes: the pointer was null.
    NullPointerError,
}

/// A string for C: UTF-8 text and a null byte behind it.
pub struct Utf8CStr {
    inner: Vec<u8>,
}

impl View for Utf8CStr {
    type V = Seq<char>;

    /// The text, without the null byte.
    closed spec fn view(&self) -> Seq<char> {
        decode_utf8(self.inner@.drop_last())
    }
}

impl Utf8CStr {
    /// The string is well formed: it ends with a null byte, and what stands
    /// before it is UTF-8.
    pub closed spec fn wf(&self) -> bool {
        &&& self.inner@.len() >= 1
        &&& self.inner@.last() == 0
        &&& valid_utf8(self.inner@.drop_last())
    }

    /// The bytes of the text, without the null byte.
    pub closed spec fn bytes(&self) -> Seq<u8> {
        self.inner@.drop_last()
    }

    /// The text is what its bytes decode to.
    pub proof fn lemma_view_bytes(&self)
        requires
            self.wf(),
        ensures
            valid_utf8(self.bytes()),
            self@ == decode_utf8(self.bytes()),
            encode_utf8(self@) == self.bytes(),
    {
        vstd::utf8::decode_utf8_encode_utf8(self.bytes());
    }

    /// Validates bytes: they must end with their only null byte, and be UTF-8
    /// before it.
    pub fn from_bytes(buf: &[u8]) -> (r: Result<Utf8CStr, StrErr>)
        ensures
            match r {
                Ok(s) => s.wf() && s.bytes() == buf@.drop_last() && nul_at(buf@, 0) == buf@.len()
                    - 1,
                Err(StrErr::CStrError(NulError::NotNulTerminated)) => nul_at(buf@, 0) < 0,
                Err(StrErr::CStrError(NulError::InteriorNul { position })) => position == nul_at(
                    buf@,
                    0,
                ) && position < buf@.len() - 1,
                Err(StrErr::Utf8Error(_)) => nul_at(buf@, 0) == buf@.len() - 1 && !valid_utf8(
                    buf@.drop_last(),
                ),
                Err(StrErr::NullPointerError) => false,
            },
    {
        let total: usize = buf.len();
        let nul: usize = match find_nul(buf, 0) {
            Some(i) => i,
            None => {
                return Err(StrErr::CStrError(NulError::NotNulTerminated));
            },
        };
        if nul + 1 != total {
            return Err(StrErr::CStrError(NulError::InteriorNul { position: nul }));
        }
        let text = slice_subrange(buf, 0, nul);
        assert(text@ =~= buf@.drop_last());
        match from_utf8(text) {
            Ok(_) => {
                let s = Utf8CStr { inner: slice_to_vec(buf) };
                Ok(s)
            },
            Err(e) => Err(StrErr::Utf8Error(e)),
        }
    }

    /// Validates the bytes that a pointer leads to, up to the first null
    /// byte. No bytes stand for a null pointer.
    pub fn from_ptr(ptr: Option<&[u8]>) -> (r: Result<Utf8CStr, StrErr>)
        ensures
            match ptr {
                None => r matches Err(StrErr::NullPointerError),
                Some(mem) => {
                    let nul = nul_at(mem@, 0);
                    match r {
                        Ok(s) => nul >= 0 && s.wf() && s.bytes() == mem@.take(nul),
                        Err(StrErr::CStrError(NulError::NotNulTerminated)) => nul < 0,
                        Err(StrErr::Utf8Error(_)) => nul >= 0 && !valid_utf8(mem@.take(nul)),
                        Err(_) => false,
                    }
                },
            },
    {
        match ptr {
            None => Err(StrErr::NullPointerError),
            Some(mem) => {
                let total: usize = mem.len();
                let nul: usize = match find_nul(mem, 0) {
                    Some(i) => i,
                    None => {
                        return Err(StrErr::CStrError(NulError::NotNulTerminated));
                    },
                };
                let text = slice_subrange(mem, 0, nul);
                assert(text@ =~= mem@.take(nul as int));
                match from_utf8(text) {
                    Ok(_) => {
                        let inner = slice_to_vec(slice_subrange(mem, 0, nul + 1));
                        assert(inner@.drop_last() =~= mem@.take(nul as int));
                        Ok(Utf8CStr { inner })
                    },
                    Err(e) => Err(StrErr::Utf8Error(e)),
                }
            },
        }
    }

    /// The text of `s` with a null byte behind it.
    pub fn from_string(s: &str) -> (r: Utf8CStr)
        ensures
            r.wf(),
            r.bytes() == s.spec_bytes(),
            r@ == s@,
    {
        let mut inner = slice_to_vec(s.as_bytes());
        inner.push(0u8);
        proof {
            assert(inner@.drop_last() =~= s.spec_bytes());
            encode_utf8_valid_utf8(s@);
            vstd::utf8::encode_utf8_decode_utf8(s@);
        }
        Utf8CStr { inner }
    }

    /// The bytes of the text, without the null byte.
    pub fn as_bytes(&self) -> (r: &[u8])
        requires
            self.wf(),
        ensures
            r@ == self.bytes(),
    {
        let r = slice_subrange(self.inner.as_slice(), 0, self.inner.len() - 1);
        assert(r@ =~= self.inner@.drop_last());
        r
    }

    /// The bytes of the text and the null byte behind them.
    pub fn as_bytes_with_nul(&self) -> (r: &[u8])
        ensures
            r@ == self.bytes_with_nul(),
            self.wf() ==> r@ == self.bytes() + seq![0u8],
    {
        proof {
            if self.wf() {
                assert(self.inner@ =~= self.inner@.drop_last() + seq![0u8]);
            }
        }
        self.inner.as_slice()
    }

    /// All the bytes of the string.
    pub closed spec fn bytes_with_nul(&self) -> Seq<u8> {
        self.inner@
    }

    /// The text.
    pub fn as_str(&self) -> (r: &str)
        requires
            self.wf(),
        ensures
            r@ == self@,
            r.spec_bytes() == self.bytes(),
    {
        match from_utf8(self.as_bytes()) {
            Ok(s) => {
                proof {
                    vstd::utf8::encode_utf8_decode_utf8(s@);
                }
                s
            },
            Err(_) => {
                proof {
                    assert(false);
                }
                ""
            },
        }
    }
}

/// Copies as much of a string and its null byte to `dest` as has room.
/// Returns the number of bytes copied less one.
pub fn copy_cstr(dest: &mut [u8], src: &Utf8CStr) -> (r: usize)
    requires
        old(dest)@.len() >= 1,
        src.wf(),
    ensures
        r + 1 == least(src.bytes().len() as int + 1, old(dest)@.len() as int),
        final(dest)@ == (src.bytes() + seq![0u8]).take(r + 1) + old(dest)@.skip(r + 1),
{
    let ghost before = dest@;
    let bytes = src.as_bytes_with_nul();
    let len: usize = if bytes.len() < dest.len() {
        bytes.len()
    } else {
        dest.len()
    };
    copy_at(dest, 0, bytes, len);
    assert(dest@ =~= bytes@.take(len as int) + before.skip(len as int));
    len - 1
}

/// The text that a pointer leads to, for messages: `(null)` for a null
/// pointer, and nothing where the bytes before the first null byte are not
/// UTF-8.
pub fn ptr_to_str<'a>(ptr: Option<&'a [u8]>) -> (r: &'a str)
    ensures
        match ptr {
            None => r@ == "(null)"@,
            Some(mem) => {
                let text = c_text(mem@);
                if valid_utf8(text) {
                    r.spec_bytes() == text
                } else {
                    r@ == Seq::<char>::empty()
                }
            },
        },
{
    match ptr {
        None => "(null)",
        Some(mem) => {
            let end: usize = match find_nul(mem, 0) {
                Some(i) => i,
                None => mem.len(),
            };
            let text = slice_subrange(mem, 0, end);
            assert(text@ =~= c_text(mem@));
            match from_utf8(text) {
                Ok(s) => s,
                Err(_) => {
                    proof {
                        reveal_strlit("");
                        assert(""@ =~= Seq::<char>::empty());
                    }
                    ""
                },
            }
        },
    }
}

/// The bytes before the first null byte, or all of them where there is none.
pub open spec fn c_text(mem: Seq<u8>) -> Seq<u8> {
    if nul_at(mem, 0) >= 0 {
        mem.take(nul_at(mem, 0))
    } else {
        mem
    }
}

/// The error that the operating system reports.
#[verifier::external_type_specification]
#[verifier::external_body]
pub struct ExIoError(std::io::Error);

/// Calls `std::io::Error::last_os_error`. Trusted; nothing is claimed of the
/// error, which is what the operating system reported last.
#[verifier::external_body]
fn last_os_error() -> (e: std::io::Error) {
    std::io::Error::last_os_error()
}

/// A value that a C function returns, and that may stand for an error.
pub trait LibcReturn: Copy {
    /// Whether the value stands for an error.
    spec fn is_error_spec(&self) -> bool;

    /// Whether the value stands for an error.
    fn is_error(&self) -> (r: bool)
        ensures
            r == self.is_error_spec(),
    ;

    /// The value itself, or the error that the operating system reports
    /// where the value stands for one.
    fn check_os_err(self) -> (r: Result<Self, std::io::Error>)
        ensures
            self.is_error_spec() ==> r is Err,
            !self.is_error_spec() ==> r == Ok::<Self, std::io::Error>(self),
    {
        if self.is_error() {
            return Err(last_os_error());
        }
        Ok(self)
    }
}

impl LibcReturn for i32 {
    open spec fn is_error_spec(&self) -> bool {
        *self < 0
    }

    fn is_error(&self) -> (r: bool) {
        *self < 0
    }
}

impl LibcReturn for isize {
    open spec fn is_error_spec(&self) -> bool {
        *self < 0
    }

    fn is_error(&self) -> (r: bool) {
        *self < 0
    }
}

} // verus!
