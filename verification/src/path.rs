//! Paths of directories, as the links of a listing name them.

use vstd::prelude::*;
use vstd::string::*;
use vstd::utf8::*;
use crate::cfg::PUBLIC_PFX;
use crate::encoding::{
    lemma_ascii_bytes_text, lemma_boundary_after_prefix, lemma_encode_concat,
    lemma_encode_injective, lemma_encode_nonempty, lemma_item_in_bytes, lemma_prefix,
};
use crate::route::{resolved, unescaped};

verus! {

/// `t` without the `c`s at its end.
pub open spec fn trimmed_end(t: Seq<char>, c: char) -> Seq<char>
    decreases t.len(),
{
    if t.len() > 0 && t.last() == c {
        trimmed_end(t.drop_last(), c)
    } else {
        t
    }
}

/// Trimming takes away a run of `c`s at the end, and what it leaves of the
/// text before the run.
pub proof fn lemma_trimmed_run(head: Seq<char>, run: Seq<char>, c: char)
    requires
        forall|i: int| 0 <= i < run.len() ==> run[i] == c,
    ensures
        trimmed_end(head + run, c) == trimmed_end(head, c),
    decreases run.len(),
{
    if run.len() == 0 {
    } else {
        assert((head + run).drop_last() =~= head + run.drop_last());
        lemma_trimmed_run(head, run.drop_last(), c);
    }
}

/// `s` without the slashes at its end.
fn trim_slashes<'a>(s: &'a str) -> (r: &'a str)
    ensures
        r@ == trimmed_end(s@, '/'),
{
    let bytes = s.as_bytes();
    let n: usize = bytes.len();
    let ghost c = '/';
    let mut j: usize = n;
    while j > 0 && bytes[j - 1] == 0x2f
        invariant
            j <= n,
            n == bytes@.len(),
            forall|x: int| j <= x < n ==> bytes@[x] == 0x2f,
        decreases j,
    {
        j -= 1;
    }
    proof {
        encode_utf8_valid_utf8(s@);
        if j < n {
            is_char_boundary_iff_not_is_continuation_byte(bytes@, j as int);
        } else {
            is_char_boundary_start_end_of_seq(bytes@);
        }
    }
    let (head, run) = s.split_at(j);
    proof {
        lemma_encode_concat(head@, run@);
        assert(encode_utf8(head@ + run@) =~= encode_utf8(s@));
        lemma_encode_injective(head@ + run@, s@);
        lemma_ascii_bytes_text(run@);
        assert(forall|i: int| 0 <= i < run@.len() ==> run@[i] == c);
        lemma_trimmed_run(head@, run@, c);
        if head@.len() > 0 && head@.last() == c {
            assert(head@ =~= head@.drop_last() + seq![c]);
            lemma_encode_concat(head@.drop_last(), seq![c]);
            is_ascii_chars_encode_utf8(seq![c]);
        }
    }
    head
}

/// The path of a directory as links name it: what follows the bytes of the
/// public directory's name, without the slashes at its end. There is none
/// where the path is shorter than that name, or where the name's length does
/// not fall between two characters of the path.
pub open spec fn relative_path(path: Seq<char>) -> Option<Seq<char>> {
    let bytes = encode_utf8(path);
    let n = encode_utf8(PUBLIC_PFX@).len() as int;
    if n <= bytes.len() && is_char_boundary(bytes, n) {
        Some(trimmed_end(decode_utf8(bytes.skip(n)), '/'))
    } else {
        None
    }
}

/// `i` is the rightmost index at which `t` holds `c`.
pub open spec fn last_at(t: Seq<char>, c: char, i: int) -> bool {
    &&& 0 <= i < t.len()
    &&& t[i] == c
    &&& forall|j: int| i < j < t.len() ==> t[j] != c
}

/// Where the link to the parent directory leads: the relative path up to its
/// last slash; without a slash, the relative path less its last character.
pub open spec fn parent(rel: Seq<char>) -> Seq<char> {
    if rel.len() == 0 {
        rel
    } else if rel.contains('/') {
        rel.subrange(0, choose|i: int| last_at(rel, '/', i))
    } else {
        rel.drop_last()
    }
}

/// A path under the public directory has what follows the directory's name,
/// less the slashes at its end, as its relative path.
pub proof fn lemma_relative_under_root(rest: Seq<char>)
    ensures
        relative_path(PUBLIC_PFX@ + rest) == Some(trimmed_end(rest, '/')),
{
    let n = encode_utf8(PUBLIC_PFX@).len() as int;
    lemma_encode_concat(PUBLIC_PFX@, rest);
    lemma_boundary_after_prefix(PUBLIC_PFX@, rest);
    assert(encode_utf8(PUBLIC_PFX@ + rest).skip(n) =~= encode_utf8(rest));
    encode_utf8_decode_utf8(rest);
}

/// Every path that a route resolves to has a relative path: what the
/// resolver put behind the public directory, less the slashes at its end.
pub proof fn lemma_resolved_has_relative(route: Seq<char>)
    ensures
        relative_path(resolved(route)) == Some(
            trimmed_end(
                if unescaped(route) == seq!['/'] {
                    "/index.html"@
                } else {
                    unescaped(route)
                },
                '/',
            ),
        ),
{
    lemma_relative_under_root("/index.html"@);
    lemma_relative_under_root(unescaped(route));
}

/// The relative path of `dir_path`.
pub fn relative<'a>(dir_path: &'a str) -> (r: Option<&'a str>)
    ensures
        match r {
            Some(rel) => relative_path(dir_path@) == Some(rel@),
            None => relative_path(dir_path@) is None,
        },
{
    let n: usize = PUBLIC_PFX.as_bytes().len();
    if dir_path.as_bytes().len() < n || !dir_path.is_char_boundary(n) {
        return None;
    }
    let (_, tail) = dir_path.split_at(n);
    proof {
        encode_utf8_decode_utf8(tail@);
    }
    Some(trim_slashes(tail))
}

/// The rightmost `c` of a text is the one that `parent` cuts at.
proof fn lemma_last_at_is(t: Seq<char>, c: char, i: int)
    requires
        last_at(t, c, i),
    ensures
        t.contains(c),
        (choose|j: int| last_at(t, c, j)) == i,
{
}

/// Where the link to the parent directory of `rel` leads.
pub fn parent_of<'a>(rel: &'a str) -> (r: &'a str)
    ensures
        r@ == parent(rel@),
{
    let bytes = rel.as_bytes();
    let n: usize = bytes.len();
    proof {
        encode_utf8_valid_utf8(rel@);
        is_char_boundary_start_end_of_seq(bytes@);
    }
    if n == 0 {
        proof {
            if rel@.len() > 0 {
                lemma_encode_nonempty(rel@);
            }
        }
        return rel;
    }
    let mut j: usize = n;
    while j > 0 && bytes[j - 1] != 0x2f
        invariant
            j <= n,
            n == bytes@.len(),
            forall|x: int| j <= x < n ==> bytes@[x] != 0x2f,
        decreases j,
    {
        j -= 1;
    }
    if j > 0 {
        proof {
            is_char_boundary_iff_not_is_continuation_byte(bytes@, j - 1);
        }
        let (head, rest) = rel.split_at(j - 1);
        proof {
            let slash = seq!['/'];
            is_ascii_chars_encode_utf8(slash);
            lemma_prefix(rest@, slash);
            let after = rest@.skip(1);
            if after.contains('/') {
                lemma_item_in_bytes(after, '/');
            }
            lemma_encode_concat(head@, rest@);
            assert(encode_utf8(head@ + rest@) =~= encode_utf8(rel@));
            lemma_encode_injective(head@ + rest@, rel@);
            let k = head@.len() as int;
            assert forall|q: int| k < q < rel@.len() implies rel@[q] != '/' by {
                assert(rel@[q] == after[q - k - 1]);
            }
            lemma_last_at_is(rel@, '/', k);
        }
        head
    } else {
        let mut k: usize = n - 1;
        while !rel.is_char_boundary(k)
            invariant
                k < n,
                n == bytes@.len(),
                bytes@ == encode_utf8(rel@),
                is_char_boundary(bytes@, 0),
                forall|x: int| k < x < n ==> !is_char_boundary(bytes@, x),
            decreases k,
        {
            k -= 1;
        }
        let (head, last) = rel.split_at(k);
        proof {
            lemma_encode_concat(head@, last@);
            assert(encode_utf8(head@ + last@) =~= encode_utf8(rel@));
            lemma_encode_injective(head@ + last@, rel@);
            if last@.len() > 1 {
                let first = head@ + seq![last@[0]];
                let more = last@.drop_first();
                assert(rel@ =~= first + more);
                lemma_boundary_after_prefix(first, more);
                lemma_encode_concat(head@, seq![last@[0]]);
                lemma_encode_concat(first, more);
                lemma_encode_nonempty(seq![last@[0]]);
                lemma_encode_nonempty(more);
            }
            if rel@.contains('/') {
                lemma_item_in_bytes(rel@, '/');
            }
        }
        head
    }
}

} // verus!
