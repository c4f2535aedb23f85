//! Entry paths: the normal form under which an entry is stored.

use vstd::prelude::*;
use vstd::string::StringSliceAdditionalSpecFns;
use vstd::utf8::{encode_utf8, encode_utf8_valid_utf8, is_char_boundary_start_end_of_seq};
use crate::text::{lemma_boundary_after_ascii, lemma_boundary_at_ascii, owned, substr};

verus! {

/// The path separator, `/`.
pub const SLASH: u8 = 0x2f;

/// The normal form of a path: one leading and then one trailing separator
/// are taken off where present, and nothing else is changed.
pub open spec fn norm_path_spec(path: Seq<u8>) -> Seq<u8> {
    let p = if path.len() > 0 && path[0] == SLASH {
        path.subrange(1, path.len() as int)
    } else {
        path
    };
    if p.len() > 0 && p.last() == SLASH {
        p.subrange(0, p.len() - 1)
    } else {
        p
    }
}

/// Normalizes a path.
pub fn norm_path(path: &str) -> (r: String)
    ensures
        encode_utf8(r@) == norm_path_spec(path.spec_bytes()),
{
    let bytes = path.as_bytes();
    let n: usize = bytes.len();
    proof {
        encode_utf8_valid_utf8(path@);
        is_char_boundary_start_end_of_seq(bytes@);
    }
    let from: usize = if n > 0 && bytes[0] == SLASH {
        proof {
            lemma_boundary_after_ascii(bytes@, 0);
        }
        1
    } else {
        0
    };
    let to: usize = if n > from && bytes[n - 1] == SLASH {
        proof {
            lemma_boundary_at_ascii(bytes@, n - 1);
        }
        n - 1
    } else {
        n
    };
    let part = substr(path, from, to);
    proof {
        let p = bytes@.subrange(from as int, n as int);
        assert(p.subrange(0, to - from) =~= bytes@.subrange(from as int, to as int));
        assert(bytes@.subrange(0, n as int) =~= bytes@);
        if n > from {
            assert(p.last() == bytes@[n - 1]);
        }
    }
    owned(part)
}

/// A path from which nothing is taken off is its own normal form, and so is
/// what remains of it between one leading and one trailing separator.
pub proof fn lemma_norm_path_plain(path: Seq<u8>)
    requires
        path.len() > 0 ==> path[0] != SLASH && path.last() != SLASH,
    ensures
        norm_path_spec(path) == path,
        norm_path_spec(seq![SLASH] + path) == path,
        norm_path_spec(path + seq![SLASH]) == path,
        norm_path_spec(seq![SLASH] + path + seq![SLASH]) == path,
{
    assert((seq![SLASH] + path).subrange(1, path.len() as int + 1) =~= path);
    assert((path + seq![SLASH]).subrange(0, path.len() as int) =~= path);
    let both = seq![SLASH] + path + seq![SLASH];
    let inner = both.subrange(1, both.len() as int);
    assert(inner =~= path + seq![SLASH]);
    assert(inner.subrange(0, inner.len() - 1) =~= path);
    if path.len() > 0 {
        assert((seq![SLASH] + path).last() == path.last());
        assert((path + seq![SLASH])[0] == path[0]);
    }
}

} // verus!
