//! The header of a record: a magic marker and thirteen numbers, each written
//! as eight hexadecimal digits.

use vstd::prelude::*;
use crate::cpio::error::CpioError;

verus! {

/// Length of the magic marker.
pub const MAGIC_LEN: usize = 6;

/// Length of a header: the marker and thirteen fields of eight digits.
pub const HEADER_LEN: usize = 110;

/// The marker every header starts with: the ASCII text `070701`.
pub open spec fn magic() -> Seq<u8> {
    seq![0x30u8, 0x37u8, 0x30u8, 0x37u8, 0x30u8, 0x31u8]
}

/// The lowercase hexadecimal digit for a value below sixteen.
pub open spec fn hex_digit(d: u32) -> u8 {
    if d < 10 {
        (0x30 + d) as u8
    } else {
        (0x61 + d - 10) as u8
    }
}

/// Whether a byte is a hexadecimal digit, of either case.
pub open spec fn is_hex_digit(c: u8) -> bool {
    (0x30 <= c <= 0x39) || (0x41 <= c <= 0x46) || (0x61 <= c <= 0x66)
}

/// The value of a hexadecimal digit.
pub open spec fn digit_value(c: u8) -> int {
    if 0x30 <= c <= 0x39 {
        c - 0x30
    } else if 0x41 <= c <= 0x46 {
        c - 0x41 + 10
    } else {
        c - 0x61 + 10
    }
}

/// The eight digits of a number, most significant first.
#[verifier::opaque]
pub open spec fn hex8(v: u32) -> Seq<u8> {
    seq![
        hex_digit(v / 0x1000_0000 % 16),
        hex_digit(v / 0x100_0000 % 16),
        hex_digit(v / 0x10_0000 % 16),
        hex_digit(v / 0x1_0000 % 16),
        hex_digit(v / 0x1000 % 16),
        hex_digit(v / 0x100 % 16),
        hex_digit(v / 0x10 % 16),
        hex_digit(v % 16),
    ]
}

/// The number that a field of eight digits stands for; none where the field
/// has another length or holds a byte that is no digit.
#[verifier::opaque]
pub open spec fn field_value(x: Seq<u8>) -> Option<u32> {
    if x.len() == 8 && (forall|i: int| 0 <= i < 8 ==> is_hex_digit(#[trigger] x[i])) {
        Some(
            (digit_value(x[0]) * 0x1000_0000 + digit_value(x[1]) * 0x100_0000 + digit_value(x[2])
                * 0x10_0000 + digit_value(x[3]) * 0x1_0000 + digit_value(x[4]) * 0x1000
                + digit_value(x[5]) * 0x100 + digit_value(x[6]) * 0x10 + digit_value(x[7])) as u32,
        )
    } else {
        None
    }
}

/// Reading the digits of a number gives the number back.
pub proof fn lemma_field_round_trip(v: u32)
    ensures
        hex8(v).len() == 8,
        field_value(hex8(v)) == Some(v),
{
    reveal(hex8);
    reveal(field_value);
    let x = hex8(v);
    assert forall|i: int| 0 <= i < 8 implies is_hex_digit(#[trigger] x[i]) by {}
    assert(digit_value(x[0]) == v / 0x1000_0000 % 16);
    assert(digit_value(x[1]) == v / 0x100_0000 % 16);
    assert(digit_value(x[2]) == v / 0x10_0000 % 16);
    assert(digit_value(x[3]) == v / 0x1_0000 % 16);
    assert(digit_value(x[4]) == v / 0x1000 % 16);
    assert(digit_value(x[5]) == v / 0x100 % 16);
    assert(digit_value(x[6]) == v / 0x10 % 16);
    assert(digit_value(x[7]) == v % 16);
    assert((v / 0x1000_0000 % 16) * 0x1000_0000 + (v / 0x100_0000 % 16) * 0x100_0000 + (v
        / 0x10_0000 % 16) * 0x10_0000 + (v / 0x1_0000 % 16) * 0x1_0000 + (v / 0x1000 % 16) * 0x1000
        + (v / 0x100 % 16) * 0x100 + (v / 0x10 % 16) * 0x10 + v % 16 == v) by (bit_vector);
}

/// The value of the first `n` digits of a field, read as a number.
spec fn prefix_value(x: Seq<u8>, n: int) -> int
    decreases n,
{
    if n <= 0 {
        0
    } else {
        prefix_value(x, n - 1) * 16 + digit_value(x[n - 1])
    }
}

/// The first number that `n` digits cannot express.
spec fn digits_limit(n: int) -> int {
    if n <= 0 {
        0x1
    } else if n == 1 {
        0x10
    } else if n == 2 {
        0x100
    } else if n == 3 {
        0x1000
    } else if n == 4 {
        0x1_0000
    } else if n == 5 {
        0x10_0000
    } else if n == 6 {
        0x100_0000
    } else if n == 7 {
        0x1000_0000
    } else {
        0x1_0000_0000
    }
}

/// Eight digits read one after the other give the sum of their place values.
proof fn lemma_prefix_value_all(x: Seq<u8>)
    ensures
        prefix_value(x, 8) == digit_value(x[0]) * 0x1000_0000 + digit_value(x[1]) * 0x100_0000
            + digit_value(x[2]) * 0x10_0000 + digit_value(x[3]) * 0x1_0000 + digit_value(x[4])
            * 0x1000 + digit_value(x[5]) * 0x100 + digit_value(x[6]) * 0x10 + digit_value(x[7]),
{
    reveal_with_fuel(prefix_value, 9);
}

/// Parses a field of eight hexadecimal digits.
pub fn x8u(x: &[u8]) -> (r: Result<u32, CpioError>)
    requires
        x@.len() == 8,
    ensures
        match r {
            Ok(v) => field_value(x@) == Some(v),
            Err(e) => field_value(x@) is None && e == CpioError::BadHeader,
        },
{
    proof {
        reveal(field_value);
    }
    let mut ret: u32 = 0;
    let mut i: usize = 0;
    while i < 8
        invariant
            i <= 8,
            x@.len() == 8,
            forall|j: int| 0 <= j < i ==> is_hex_digit(#[trigger] x@[j]),
            ret == prefix_value(x@, i as int),
            ret < digits_limit(i as int),
        decreases 8 - i,
    {
        let c: u8 = x[i];
        let v: u32 = if 0x30 <= c && c <= 0x39 {
            (c - 0x30) as u32
        } else if 0x41 <= c && c <= 0x46 {
            (c - 0x41) as u32 + 10
        } else if 0x61 <= c && c <= 0x66 {
            (c - 0x61) as u32 + 10
        } else {
            proof {
                reveal(field_value);
                assert(!is_hex_digit(x@[i as int]));
            }
            return Err(CpioError::BadHeader);
        };
        assert(v == digit_value(c));
        assert(ret * 16 + v < digits_limit(i as int + 1));
        ret = ret * 16 + v;
        i = i + 1;
    }
    proof {
        reveal(field_value);
        lemma_prefix_value_all(x@);
    }
    Ok(ret)
}

/// The thirteen numbers of a header, in the order in which they are written.
#[derive(Clone, Copy, Debug)]
pub struct Header {
    pub ino: u32,
    pub mode: u32,
    pub uid: u32,
    pub gid: u32,
    pub nlink: u32,
    pub mtime: u32,
    pub filesize: u32,
    pub devmajor: u32,
    pub devminor: u32,
    pub rdevmajor: u32,
    pub rdevminor: u32,
    pub namesize: u32,
    pub check: u32,
}

/// The 110 bytes of a header.
#[verifier::opaque]
pub open spec fn header_bytes(h: Header) -> Seq<u8> {
    magic() + hex8(h.ino) + hex8(h.mode) + hex8(h.uid) + hex8(h.gid) + hex8(h.nlink) + hex8(
        h.mtime,
    ) + hex8(h.filesize) + hex8(h.devmajor) + hex8(h.devminor) + hex8(h.rdevmajor) + hex8(
        h.rdevminor,
    ) + hex8(h.namesize) + hex8(h.check)
}

/// Appends the eight digits of `v` to `out`.
pub fn push_hex8(out: &mut Vec<u8>, v: u32)
    ensures
        final(out)@ == old(out)@ + hex8(v),
{
    proof {
        reveal(hex8);
    }
    let ghost before = out@;
    let mut shift: u32 = 0x1000_0000;
    let mut i: usize = 0;
    while i < 8
        invariant
            i <= 8,
            out@ == before + hex8(v).take(i as int),
            shift == if i == 0 {
                0x1000_0000u32
            } else if i == 1 {
                0x100_0000u32
            } else if i == 2 {
                0x10_0000u32
            } else if i == 3 {
                0x1_0000u32
            } else if i == 4 {
                0x1000u32
            } else if i == 5 {
                0x100u32
            } else if i == 6 {
                0x10u32
            } else {
                1u32
            },
        decreases 8 - i,
    {
        proof {
            reveal(hex8);
        }
        let d: u32 = v / shift % 16;
        let c: u8 = if d < 10 {
            0x30 + d as u8
        } else {
            0x61 + (d - 10) as u8
        };
        assert(c == hex8(v)[i as int]);
        out.push(c);
        assert(hex8(v).take(i as int + 1) =~= hex8(v).take(i as int).push(c));
        if i < 7 {
            shift = shift / 16;
        }
        i = i + 1;
    }
    proof {
        reveal(hex8);
        assert(hex8(v).take(8) =~= hex8(v));
    }
}

/// Concatenation of byte strings associates.
proof fn lemma_add_assoc(a: Seq<u8>, b: Seq<u8>, c: Seq<u8>)
    ensures
        (a + b) + c == a + (b + c),
{
    assert((a + b) + c =~= a + (b + c));
}

/// Appends the eight digits of `v` to what `out` holds after `before`.
fn push_field(out: &mut Vec<u8>, v: u32, Ghost(before): Ghost<Seq<u8>>, Ghost(part): Ghost<Seq<u8>>)
    requires
        old(out)@ == before + part,
    ensures
        final(out)@ == before + (part + hex8(v)),
{
    push_hex8(out, v);
    proof {
        lemma_add_assoc(before, part, hex8(v));
    }
}

impl Header {
    /// Appends the header's 110 bytes to `out`.
    pub fn encode(&self, out: &mut Vec<u8>)
        ensures
            final(out)@ == old(out)@ + header_bytes(*self),
            header_bytes(*self).len() == HEADER_LEN,
    {
        let ghost before = out@;
        out.push(0x30);
        out.push(0x37);
        out.push(0x30);
        out.push(0x37);
        out.push(0x30);
        out.push(0x31);
        assert(out@ =~= before + magic());
        let ghost p0 = magic();
        push_field(out, self.ino, Ghost(before), Ghost(p0));
        let ghost p1 = p0 + hex8(self.ino);
        push_field(out, self.mode, Ghost(before), Ghost(p1));
        let ghost p2 = p1 + hex8(self.mode);
        push_field(out, self.uid, Ghost(before), Ghost(p2));
        let ghost p3 = p2 + hex8(self.uid);
        push_field(out, self.gid, Ghost(before), Ghost(p3));
        let ghost p4 = p3 + hex8(self.gid);
        push_field(out, self.nlink, Ghost(before), Ghost(p4));
        let ghost p5 = p4 + hex8(self.nlink);
        push_field(out, self.mtime, Ghost(before), Ghost(p5));
        let ghost p6 = p5 + hex8(self.mtime);
        push_field(out, self.filesize, Ghost(before), Ghost(p6));
        let ghost p7 = p6 + hex8(self.filesize);
        push_field(out, self.devmajor, Ghost(before), Ghost(p7));
        let ghost p8 = p7 + hex8(self.devmajor);
        push_field(out, self.devminor, Ghost(before), Ghost(p8));
        let ghost p9 = p8 + hex8(self.devminor);
        push_field(out, self.rdevmajor, Ghost(before), Ghost(p9));
        let ghost p10 = p9 + hex8(self.rdevmajor);
        push_field(out, self.rdevminor, Ghost(before), Ghost(p10));
        let ghost p11 = p10 + hex8(self.rdevminor);
        push_field(out, self.namesize, Ghost(before), Ghost(p11));
        let ghost p12 = p11 + hex8(self.namesize);
        push_field(out, self.check, Ghost(before), Ghost(p12));
        proof {
            reveal(header_bytes);
            lemma_header_len(*self);
        }
    }
}

/// The digits of a number are eight.
pub proof fn lemma_hex8_len(v: u32)
    ensures
        hex8(v).len() == 8,
{
    reveal(hex8);
}

/// A header is 110 bytes long.
pub proof fn lemma_header_len(h: Header)
    ensures
        header_bytes(h).len() == HEADER_LEN,
{
    reveal(header_bytes);
    lemma_hex8_len(h.ino);
    lemma_hex8_len(h.mode);
    lemma_hex8_len(h.uid);
    lemma_hex8_len(h.gid);
    lemma_hex8_len(h.nlink);
    lemma_hex8_len(h.mtime);
    lemma_hex8_len(h.filesize);
    lemma_hex8_len(h.devmajor);
    lemma_hex8_len(h.devminor);
    lemma_hex8_len(h.rdevmajor);
    lemma_hex8_len(h.rdevminor);
    lemma_hex8_len(h.namesize);
    lemma_hex8_len(h.check);
}

/// The number of field `index` of a header, counting from zero.
pub open spec fn header_field(h: Header, index: int) -> u32 {
    if index == 0 {
        h.ino
    } else if index == 1 {
        h.mode
    } else if index == 2 {
        h.uid
    } else if index == 3 {
        h.gid
    } else if index == 4 {
        h.nlink
    } else if index == 5 {
        h.mtime
    } else if index == 6 {
        h.filesize
    } else if index == 7 {
        h.devmajor
    } else if index == 8 {
        h.devminor
    } else if index == 9 {
        h.rdevmajor
    } else if index == 10 {
        h.rdevminor
    } else if index == 11 {
        h.namesize
    } else {
        h.check
    }
}

/// Appending keeps what a byte string held, and what is appended stands
/// behind it.
proof fn lemma_append_parts(a: Seq<u8>, b: Seq<u8>, from: int, to: int)
    requires
        0 <= from <= to <= a.len(),
    ensures
        (a + b).subrange(from, to) == a.subrange(from, to),
        (a + b).subrange(a.len() as int, (a.len() + b.len()) as int) == b,
{
    assert((a + b).subrange(from, to) =~= a.subrange(from, to));
    assert((a + b).subrange(a.len() as int, (a.len() + b.len()) as int) =~= b);
}

/// A header starts with the magic marker, and its field `index` stands at
/// byte `6 + 8 * index` as eight digits.
pub proof fn lemma_header_layout(h: Header, index: int)
    requires
        0 <= index < 13,
    ensures
        header_bytes(h).len() == HEADER_LEN,
        header_bytes(h).subrange(0, MAGIC_LEN as int) == magic(),
        header_bytes(h).subrange(MAGIC_LEN + 8 * index, MAGIC_LEN + 8 * index + 8) == hex8(
            header_field(h, index),
        ),
{
    lemma_hex8_len(h.ino);
    lemma_hex8_len(h.mode);
    lemma_hex8_len(h.uid);
    lemma_hex8_len(h.gid);
    lemma_hex8_len(h.nlink);
    lemma_hex8_len(h.mtime);
    lemma_hex8_len(h.filesize);
    lemma_hex8_len(h.devmajor);
    lemma_hex8_len(h.devminor);
    lemma_hex8_len(h.rdevmajor);
    lemma_hex8_len(h.rdevminor);
    lemma_hex8_len(h.namesize);
    lemma_hex8_len(h.check);
    let p0 = magic();
    let p1 = p0 + hex8(h.ino);
    let p2 = p1 + hex8(h.mode);
    let p3 = p2 + hex8(h.uid);
    let p4 = p3 + hex8(h.gid);
    let p5 = p4 + hex8(h.nlink);
    let p6 = p5 + hex8(h.mtime);
    let p7 = p6 + hex8(h.filesize);
    let p8 = p7 + hex8(h.devmajor);
    let p9 = p8 + hex8(h.devminor);
    let p10 = p9 + hex8(h.rdevmajor);
    let p11 = p10 + hex8(h.rdevminor);
    let p12 = p11 + hex8(h.namesize);
    let p13 = p12 + hex8(h.check);
    assert(p13 == header_bytes(h)) by {
        reveal(header_bytes);
    }
    let a = MAGIC_LEN + 8 * index;
    let b = a + 8;
    lemma_append_parts(p0, hex8(h.ino), 0, 6);
    lemma_append_parts(p1, hex8(h.mode), 0, 6);
    lemma_append_parts(p2, hex8(h.uid), 0, 6);
    lemma_append_parts(p3, hex8(h.gid), 0, 6);
    lemma_append_parts(p4, hex8(h.nlink), 0, 6);
    lemma_append_parts(p5, hex8(h.mtime), 0, 6);
    lemma_append_parts(p6, hex8(h.filesize), 0, 6);
    lemma_append_parts(p7, hex8(h.devmajor), 0, 6);
    lemma_append_parts(p8, hex8(h.devminor), 0, 6);
    lemma_append_parts(p9, hex8(h.rdevmajor), 0, 6);
    lemma_append_parts(p10, hex8(h.rdevminor), 0, 6);
    lemma_append_parts(p11, hex8(h.namesize), 0, 6);
    lemma_append_parts(p12, hex8(h.check), 0, 6);
    assert(p0.subrange(0, 6) =~= magic());
    if index < 1 {
        lemma_append_parts(p1, hex8(h.mode), a, b);
    }
    if index < 2 {
        lemma_append_parts(p2, hex8(h.uid), a, b);
    }
    if index < 3 {
        lemma_append_parts(p3, hex8(h.gid), a, b);
    }
    if index < 4 {
        lemma_append_parts(p4, hex8(h.nlink), a, b);
    }
    if index < 5 {
        lemma_append_parts(p5, hex8(h.mtime), a, b);
    }
    if index < 6 {
        lemma_append_parts(p6, hex8(h.filesize), a, b);
    }
    if index < 7 {
        lemma_append_parts(p7, hex8(h.devmajor), a, b);
    }
    if index < 8 {
        lemma_append_parts(p8, hex8(h.devminor), a, b);
    }
    if index < 9 {
        lemma_append_parts(p9, hex8(h.rdevmajor), a, b);
    }
    if index < 10 {
        lemma_append_parts(p10, hex8(h.rdevminor), a, b);
    }
    if index < 11 {
        lemma_append_parts(p11, hex8(h.namesize), a, b);
    }
    if index < 12 {
        lemma_append_parts(p12, hex8(h.check), a, b);
    }
}

} // verus!
