//! Text and its UTF-8 encoding: what a fact about the bytes says of the
//! characters, and the other way round.

use vstd::prelude::*;
use vstd::utf8::*;
use crate::pattern::{cut, lemma_cut_is, lemma_cut_parts, lemma_first_exists, occurs_at};

verus! {

/// Encoding a concatenation encodes its parts.
pub proof fn lemma_encode_concat(a: Seq<char>, b: Seq<char>)
    ensures
        encode_utf8(a + b) =~= encode_utf8(a) + encode_utf8(b),
    decreases a.len(),
{
    if a.len() > 0 {
        assert((a + b).drop_first() =~= a.drop_first() + b);
        lemma_encode_concat(a.drop_first(), b);
    }
}

/// Text with a character in it has a byte in it.
pub proof fn lemma_encode_nonempty(t: Seq<char>)
    requires
        t.len() > 0,
    ensures
        encode_utf8(t).len() > 0,
{
}

/// Two texts with the same encoding are the same text.
pub proof fn lemma_encode_injective(a: Seq<char>, b: Seq<char>)
    requires
        encode_utf8(a) == encode_utf8(b),
    ensures
        a == b,
{
    encode_utf8_decode_utf8(a);
    encode_utf8_decode_utf8(b);
}

/// Where `pat` stands in a text, its encoding stands in the text's encoding,
/// behind the encoding of what precedes it.
pub proof fn lemma_occurrence_in_bytes(t: Seq<char>, pat: Seq<char>, k: int)
    requires
        occurs_at(t, pat, k),
    ensures
        occurs_at(encode_utf8(t), encode_utf8(pat), encode_utf8(t.subrange(0, k)).len() as int),
{
    let head = t.subrange(0, k);
    let tail = t.subrange(k + pat.len(), t.len() as int);
    assert(t =~= head + pat + tail);
    lemma_encode_concat(head + pat, tail);
    lemma_encode_concat(head, pat);
}

/// The first byte of a character's encoding is no continuation byte.
pub proof fn lemma_first_byte_leads(c: char)
    ensures
        encode_scalar(c as u32).len() > 0,
        !is_continuation_byte(encode_scalar(c as u32)[0]),
{
    let v = c as u32;
    char_is_scalar(c);
    assert(has_width_1_encoding(v) ==> leading_byte_width_1(v) < 0x80) by (bit_vector);
    assert(leading_byte_width_2(v) >= 0xc0) by (bit_vector);
    assert(leading_byte_width_3(v) >= 0xc0) by (bit_vector);
    assert(leading_byte_width_4(v) >= 0xc0) by (bit_vector);
}

/// Where the encoding of a text begins with the encoding of a pattern, the
/// text begins with the pattern, and the pattern's end is a character
/// boundary behind which the rest of the text is encoded.
pub proof fn lemma_prefix(t: Seq<char>, pat: Seq<char>)
    requires
        occurs_at(encode_utf8(t), encode_utf8(pat), 0),
    ensures
        occurs_at(t, pat, 0),
        is_char_boundary(encode_utf8(t), encode_utf8(pat).len() as int),
        encode_utf8(t.skip(pat.len() as int)) =~= encode_utf8(t).skip(
            encode_utf8(pat).len() as int,
        ),
    decreases pat.len(),
{
    let x = encode_utf8(t);
    let y = encode_utf8(pat);
    encode_utf8_valid_utf8(t);
    if pat.len() == 0 {
        assert(t.skip(0) =~= t);
    } else {
        lemma_encode_nonempty(pat);
        let w = length_of_first_scalar(y);
        encode_utf8_first_scalar(t);
        encode_utf8_first_scalar(pat);
        assert(decode_first_scalar(x) == decode_first_scalar(y));
        assert(t[0] == pat[0]) by {
            char_u32_cast(t[0], t[0] as u32);
            char_u32_cast(pat[0], pat[0] as u32);
        }
        let rest = t.drop_first();
        let pat_rest = pat.drop_first();
        assert(encode_utf8(rest).subrange(0, encode_utf8(pat_rest).len() as int) =~= x.subrange(
            0,
            y.len() as int,
        ).skip(w));
        lemma_prefix(rest, pat_rest);
        assert(pat =~= seq![pat[0]] + pat_rest);
        assert(t.skip(pat.len() as int) =~= rest.skip(pat_rest.len() as int));
        assert(pop_first_scalar(x) =~= encode_utf8(rest));
    }
}

/// Where the encoding of a pattern stands in the encoding of a text, its
/// first byte stands on a character boundary.
pub proof fn lemma_occurrence_on_boundary(t: Seq<char>, pat: Seq<char>, i: int)
    requires
        pat.len() > 0,
        occurs_at(encode_utf8(t), encode_utf8(pat), i),
    ensures
        is_char_boundary(encode_utf8(t), i),
{
    let bytes = encode_utf8(t);
    encode_utf8_valid_utf8(t);
    lemma_first_byte_leads(pat[0]);
    assert(bytes.subrange(i, i + encode_utf8(pat).len())[0] == encode_utf8(pat)[0]);
    is_char_boundary_iff_not_is_continuation_byte(bytes, i);
}

/// Where the encoding of a pattern stands in the encoding of a text, the
/// pattern stands in the text, behind the characters that the preceding
/// bytes encode. The pattern is not empty.
pub proof fn lemma_occurrence_in_text(t: Seq<char>, pat: Seq<char>, i: int) -> (k: int)
    requires
        pat.len() > 0,
        occurs_at(encode_utf8(t), encode_utf8(pat), i),
    ensures
        occurs_at(t, pat, k),
        encode_utf8(t.subrange(0, k)).len() == i,
{
    let bytes = encode_utf8(t);
    let n = bytes.len() as int;
    encode_utf8_valid_utf8(t);
    encode_utf8_decode_utf8(t);
    lemma_occurrence_on_boundary(t, pat, i);
    valid_utf8_split(bytes, i);
    decode_utf8_split(bytes, i);
    let head = decode_utf8(bytes.subrange(0, i));
    let rest = decode_utf8(bytes.subrange(i, n));
    decode_utf8_encode_utf8(bytes.subrange(0, i));
    decode_utf8_encode_utf8(bytes.subrange(i, n));
    lemma_prefix(rest, pat);
    let k = head.len() as int;
    assert(t.subrange(0, k) =~= head);
    k
}

/// Cutting a text at a pattern is cutting its bytes at the pattern's bytes:
/// the leftmost occurrence in the text and the leftmost in the bytes are the
/// same, and the two parts of the bytes encode the two parts of the text.
pub proof fn lemma_cut_in_bytes(t: Seq<char>, pat: Seq<char>)
    ensures
        match cut(t, pat) {
            Some((head, tail)) => cut(encode_utf8(t), encode_utf8(pat)) == Some(
                (encode_utf8(head), encode_utf8(tail)),
            ),
            None => cut(encode_utf8(t), encode_utf8(pat)) is None,
        },
{
    let bytes = encode_utf8(t);
    let pat_bytes = encode_utf8(pat);
    if cut(t, pat) is Some {
        lemma_cut_parts(t, pat);
        let (head, tail) = cut(t, pat)->0;
        let k = head.len() as int;
        lemma_encode_concat(head + pat, tail);
        lemma_encode_concat(head, pat);
        assert forall|i: int| 0 <= i < encode_utf8(head).len() implies !occurs_at(
            encode_utf8(head) + pat_bytes + encode_utf8(tail),
            pat_bytes,
            i,
        ) by {
            if occurs_at(bytes, pat_bytes, i) {
                if pat.len() == 0 {
                    assert(occurs_at(t, pat, 0));
                } else {
                    let j = lemma_occurrence_in_text(t, pat, i);
                    if j >= k {
                        assert(t.subrange(0, j) =~= head + t.subrange(k, j));
                        lemma_encode_concat(head, t.subrange(k, j));
                    }
                }
            }
        }
        lemma_cut_is(encode_utf8(head), pat_bytes, encode_utf8(tail));
    } else {
        assert forall|i: int| !occurs_at(bytes, pat_bytes, i) by {
            if occurs_at(bytes, pat_bytes, i) {
                if pat.len() == 0 {
                    lemma_first_exists(t, pat, 0);
                } else {
                    let j = lemma_occurrence_in_text(t, pat, i);
                    lemma_first_exists(t, pat, j);
                }
            }
        }
    }
}

/// The end of a prefix of a text is a character boundary of its encoding.
pub proof fn lemma_boundary_after_prefix(a: Seq<char>, b: Seq<char>)
    ensures
        is_char_boundary(encode_utf8(a + b), encode_utf8(a).len() as int),
    decreases a.len(),
{
    let bytes = encode_utf8(a + b);
    encode_utf8_valid_utf8(a + b);
    lemma_encode_concat(a, b);
    if a.len() > 0 {
        encode_utf8_first_scalar(a + b);
        assert((a + b).drop_first() =~= a.drop_first() + b);
        assert(pop_first_scalar(bytes) =~= encode_utf8(a.drop_first() + b));
        lemma_boundary_after_prefix(a.drop_first(), b);
    }
}

/// A character whose encoding begins with an ASCII byte is that byte.
proof fn lemma_ascii_first_byte(c: char)
    requires
        encode_scalar(c as u32)[0] < 0x80,
    ensures
        encode_scalar(c as u32) =~= seq![c as u8],
        '\0' <= c <= '\u{7f}',
{
    let v = c as u32;
    char_is_scalar(c);
    assert(has_width_1_encoding(v) ==> leading_byte_width_1(v) == v as u8) by (bit_vector);
    assert(leading_byte_width_2(v) >= 0x80) by (bit_vector);
    assert(leading_byte_width_3(v) >= 0x80) by (bit_vector);
    assert(leading_byte_width_4(v) >= 0x80) by (bit_vector);
}

/// A text whose encoding is all ASCII has one character for each byte.
pub proof fn lemma_ascii_bytes_text(t: Seq<char>)
    requires
        forall|i: int| 0 <= i < encode_utf8(t).len() ==> encode_utf8(t)[i] < 0x80,
    ensures
        t.len() == encode_utf8(t).len(),
        forall|i: int| 0 <= i < t.len() ==> (#[trigger] t[i]) as u8 == encode_utf8(t)[i],
        is_ascii_chars(t),
    decreases t.len(),
{
    if t.len() > 0 {
        let rest = t.drop_first();
        assert(encode_utf8(t)[0] < 0x80);
        lemma_ascii_first_byte(t[0]);
        assert forall|i: int| 0 <= i < encode_utf8(rest).len() implies encode_utf8(rest)[i]
            < 0x80 by {
            assert(encode_utf8(rest)[i] == encode_utf8(t)[i + 1]);
        }
        lemma_ascii_bytes_text(rest);
        assert forall|i: int| 0 <= i < t.len() implies (#[trigger] t[i]) as u8 == encode_utf8(
            t,
        )[i] && '\0' <= t[i] <= '\u{7f}' by {
            if i > 0 {
                assert(t[i] == rest[i - 1]);
            }
        }
    }
}

/// A text holds an ASCII character only where its encoding holds the byte.
pub proof fn lemma_item_in_bytes(t: Seq<char>, c: char)
    requires
        c <= '\u{7f}',
        t.contains(c),
    ensures
        encode_utf8(t).contains(c as u8),
{
    let k = choose|k: int| 0 <= k < t.len() && t[k] == c;
    lemma_occurrence_in_bytes(t, seq![c], k);
    is_ascii_chars_encode_utf8(seq![c]);
}

} // verus!
