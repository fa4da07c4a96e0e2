//! Strings, cut and compared by their bytes, with contracts on their
//! characters.

use vstd::prelude::*;
use vstd::string::*;
use vstd::utf8::*;
use crate::encoding::{
    lemma_boundary_after_prefix, lemma_cut_in_bytes, lemma_encode_concat, lemma_encode_injective,
};
use crate::pattern::{
    cut, find_bytes, first_at, lemma_cut_parts, lemma_first_index_is, matches_at,
};

verus! {

/// Where the bytes of a pattern first stand in the bytes of a text, the text
/// is cut: the bytes before the index and those behind the pattern encode its
/// two parts, and both ends of the pattern are character boundaries.
proof fn lemma_cut_at_bytes(t: Seq<char>, pat: Seq<char>, i: int)
    requires
        first_at(encode_utf8(t), encode_utf8(pat), i),
    ensures
        cut(t, pat) is Some,
        ({
            let (before, after) = cut(t, pat)->0;
            let bytes = encode_utf8(t);
            let m = encode_utf8(pat).len() as int;
            &&& encode_utf8(before) == bytes.subrange(0, i)
            &&& encode_utf8(pat + after) == bytes.subrange(i, bytes.len() as int)
            &&& encode_utf8(after) == encode_utf8(pat + after).subrange(
                m,
                encode_utf8(pat + after).len() as int,
            )
            &&& is_char_boundary(bytes, i)
            &&& is_char_boundary(encode_utf8(pat + after), m)
        }),
{
    let bytes = encode_utf8(t);
    lemma_cut_in_bytes(t, pat);
    lemma_first_index_is(bytes, encode_utf8(pat), i);
    lemma_cut_parts(t, pat);
    let (before, after) = cut(t, pat)->0;
    assert(t =~= before + (pat + after));
    lemma_encode_concat(before, pat + after);
    lemma_encode_concat(pat, after);
    lemma_boundary_after_prefix(before, pat + after);
    lemma_boundary_after_prefix(pat, after);
}

/// Cuts `s` at the leftmost `pat`: what stands before it and what stands
/// behind it, or `None` where `pat` does not stand in `s`.
pub fn split_once<'a>(s: &'a str, pat: &str) -> (r: Option<(&'a str, &'a str)>)
    ensures
        match r {
            Some((head, tail)) => cut(s@, pat@) == Some((head@, tail@)),
            None => cut(s@, pat@) is None,
        },
{
    let bytes = s.as_bytes();
    let pat_bytes = pat.as_bytes();
    match find_bytes(bytes, pat_bytes) {
        None => {
            proof {
                lemma_cut_in_bytes(s@, pat@);
            }
            None
        },
        Some(i) => {
            let ghost (before, after) = cut(s@, pat@)->0;
            proof {
                lemma_cut_at_bytes(s@, pat@, i as int);
            }
            let (head, rest) = s.split_at(i);
            proof {
                lemma_encode_injective(rest@, pat@ + after);
            }
            let (_, tail) = rest.split_at(pat_bytes.len());
            proof {
                lemma_encode_injective(head@, before);
                lemma_encode_injective(tail@, after);
            }
            Some((head, tail))
        },
    }
}

/// Whether two strings hold the same text.
pub fn same_text(a: &str, b: &str) -> (r: bool)
    ensures
        r == (a@ == b@),
{
    let x = a.as_bytes();
    let y = b.as_bytes();
    if x.len() != y.len() {
        return false;
    }
    let same = matches_at(x, y, 0);
    proof {
        if same {
            assert(x@.subrange(0, y@.len() as int) =~= x@);
            lemma_encode_injective(a@, b@);
        }
    }
    same
}

} // verus!
