//! Responses: a head of two lines, a blank line, and the body as it is.

use vstd::prelude::*;
use vstd::string::*;
use vstd::utf8::*;
use crate::cfg::STYLES;
use crate::decimal::{append_decimal, decimal, lemma_decimal_digits};
use crate::encoding::{lemma_encode_concat, lemma_occurrence_in_text};
use crate::pattern::{cut, includes, lemma_cut_is, occurs_at};
use crate::request::line_break;

verus! {

/// The first line of a response.
pub open spec fn status_line(protocol: Seq<char>, code: nat, status: Seq<char>) -> Seq<char> {
    protocol + seq![' '] + decimal(code) + seq![' '] + status
}

/// The line that declares the length of the body.
pub open spec fn length_line(length: nat) -> Seq<char> {
    "Content-Length: "@ + decimal(length)
}

/// The head of a response: the status line, the length of the body, and the
/// blank line that ends the head.
pub open spec fn head(protocol: Seq<char>, code: nat, status: Seq<char>, length: nat) -> Seq<char> {
    status_line(protocol, code, status) + line_break() + length_line(length) + line_break()
        + line_break()
}

/// A response: the head as UTF-8, then the body byte for byte.
pub open spec fn packaged(protocol: Seq<char>, code: nat, status: Seq<char>, body: Seq<u8>) -> Seq<
    u8,
> {
    encode_utf8(head(protocol, code, status, body.len())) + body
}

/// Frames `content` as the body of a response.
pub fn package(protocol: &str, code: u16, status: &str, content: Vec<u8>) -> (r: Vec<u8>)
    ensures
        r@ == packaged(protocol@, code as nat, status@, content@),
{
    let mut content = content;
    let mut text = String::from_str(protocol);
    text.append(" ");
    append_decimal(&mut text, code as usize);
    text.append(" ");
    text.append(status);
    text.append("\r\nContent-Length: ");
    append_decimal(&mut text, content.len());
    text.append("\r\n\r\n");
    proof {
        reveal_strlit(" ");
        reveal_strlit("\r\nContent-Length: ");
        reveal_strlit("Content-Length: ");
        reveal_strlit("\r\n\r\n");
        assert(text@ =~= head(protocol@, code as nat, status@, content@.len()));
    }
    let mut r = text.as_str().as_bytes_vec();
    r.append(&mut content);
    r
}

/// The page that tells of an error.
pub open spec fn error_page(code: nat, status: Seq<char>, detail: Seq<char>) -> Seq<char> {
    "<html><head><title>amykia</title><style>"@ + STYLES@
        + "</style></head><body><div class=\"col\"><h1>"@ + decimal(code) + " "@ + status
        + "</h1>"@ + detail + "</div></body></html>"@
}

/// Writes the page that tells of the error `e`, under `code` and `status`.
pub fn err_html(code: u16, status: &str, e: String) -> (r: Vec<u8>)
    ensures
        r@ == encode_utf8(error_page(code as nat, status@, e@)),
{
    let mut page = String::from_str("<html><head><title>amykia</title><style>");
    page.append(STYLES);
    page.append("</style></head><body><div class=\"col\"><h1>");
    append_decimal(&mut page, code as usize);
    page.append(" ");
    page.append(status);
    page.append("</h1>");
    page.append(e.as_str());
    page.append("</div></body></html>");
    page.as_str().as_bytes_vec()
}

/// The bytes of a blank line behind a line: two line breaks.
pub open spec fn blank_line() -> Seq<u8> {
    seq![13u8, 10u8, 13u8, 10u8]
}

/// What a reader takes for the body of a response: the bytes behind the first
/// blank line, where the line before it declares their number.
pub open spec fn body_of(response: Seq<u8>) -> Option<Seq<u8>> {
    match cut(response, blank_line()) {
        Some((lines, body)) => if encode_utf8(line_break() + length_line(body.len())).is_suffix_of(
            lines,
        ) {
            Some(body)
        } else {
            None
        },
        None => None,
    }
}

/// The line that declares the length holds no line break, so a blank line
/// that begins before the end of that line stands in what precedes it.
proof fn lemma_length_line_unbroken(first: Seq<char>, length: nat, k: int)
    requires
        occurs_at(
            first + length_line(length) + line_break() + line_break(),
            line_break() + line_break(),
            k,
        ),
        k < first.len() + length_line(length).len(),
    ensures
        occurs_at(first, line_break() + line_break(), k),
{
    let field = length_line(length);
    let t = first + field + line_break() + line_break();
    reveal_strlit("Content-Length: ");
    lemma_decimal_digits(length);
    let found = t.subrange(k, k + 4);
    assert(found[0] == '\r' && found[1] == '\n' && found[2] == '\r' && found[3] == '\n');
    assert(forall|j: int| 0 <= j < field.len() ==> field[j] != '\r' && field[j] != '\n');
}

/// The bytes of a head: those of its lines, then a blank line; nothing in
/// them stands for a blank line before that.
proof fn lemma_head_bytes(first: Seq<char>, length: nat)
    requires
        !includes(first, line_break() + line_break()),
    ensures
        ({
            let lines = first + length_line(length);
            let h = lines + line_break() + line_break();
            &&& encode_utf8(h) =~= encode_utf8(lines) + blank_line()
            &&& forall|i: int|
                0 <= i < encode_utf8(lines).len() ==> !occurs_at(encode_utf8(h), blank_line(), i)
        }),
{
    let blank = line_break() + line_break();
    let lines = first + length_line(length);
    let h = lines + line_break() + line_break();
    assert(h =~= lines + blank);
    lemma_encode_concat(lines, blank);
    is_ascii_chars_encode_utf8(blank);
    assert forall|i: int| 0 <= i < encode_utf8(lines).len() implies !occurs_at(
        encode_utf8(h),
        blank_line(),
        i,
    ) by {
        if occurs_at(encode_utf8(h), blank_line(), i) {
            let k = lemma_occurrence_in_text(h, blank, i);
            if k >= lines.len() {
                let more = h.subrange(lines.len() as int, k);
                assert(h.subrange(0, k) =~= lines + more);
                lemma_encode_concat(lines, more);
            }
            lemma_length_line_unbroken(first, length, k);
        }
    }
}

/// A response is cut at the blank line that ends its head.
proof fn lemma_response_cut(first: Seq<char>, length: nat, body: Seq<u8>)
    requires
        !includes(first, line_break() + line_break()),
    ensures
        ({
            let lines = first + length_line(length);
            let h = lines + line_break() + line_break();
            cut(encode_utf8(h) + body, blank_line()) == Some((encode_utf8(lines), body))
        }),
{
    let lines = first + length_line(length);
    let h = lines + line_break() + line_break();
    let before = encode_utf8(lines);
    let response = encode_utf8(h) + body;
    lemma_head_bytes(first, length);
    assert forall|i: int| 0 <= i < before.len() implies !occurs_at(response, blank_line(), i) by {
        if occurs_at(response, blank_line(), i) {
            assert(occurs_at(encode_utf8(h), blank_line(), i));
        }
    }
    lemma_cut_is(before, blank_line(), body);
}

/// Reading a response gives back the body that was framed, byte for byte,
/// whatever the body holds. The status line holds no blank line of its own.
pub proof fn lemma_body_round_trip(
    protocol: Seq<char>,
    code: nat,
    status: Seq<char>,
    body: Seq<u8>,
)
    requires
        !includes(status_line(protocol, code, status) + line_break(), line_break() + line_break()),
    ensures
        body_of(packaged(protocol, code, status, body)) == Some(body),
{
    let line = status_line(protocol, code, status);
    let first = line + line_break();
    let field = length_line(body.len());
    let lines = first + field;
    lemma_response_cut(first, body.len(), body);
    assert(lines =~= line + (line_break() + field));
    lemma_encode_concat(line, line_break() + field);
}

} // verus!
