//! The request line: the only part of a request that the server reads.

use vstd::prelude::*;
use vstd::string::*;
use vstd::utf8::*;
use core::str::Utf8Error;
use crate::pattern::{
    cut, first_at, includes, lemma_cut_at_item, lemma_cut_is, lemma_cut_parts, lemma_first_exists,
    lemma_no_cut_at_item, occurs_at,
};
use crate::text::{same_text, split_once};

verus! {

/// The error that `core::str::from_utf8` reports, carried through unread.
#[verifier::external_type_specification]
#[verifier::external_body]
pub struct ExUtf8Error(Utf8Error);

/// `core::str::from_utf8` accepts exactly the byte strings that are well-formed
/// UTF-8, and the string it hands back has the given bytes as its encoding.
pub assume_specification<'a>[ core::str::from_utf8 ](v: &'a [u8]) -> (r: Result<
    &'a str,
    Utf8Error,
>)
    ensures
        r is Ok <==> valid_utf8(v@),
        r matches Ok(s) ==> s.spec_bytes() == v@,
;

/// A request, as read from its first line. The fields borrow from the buffer.
#[derive(Debug)]
pub struct Request<'a> {
    pub method: &'a str,
    pub route: &'a str,
    pub protocol: &'a str,
}

/// The text of a request's three tokens.
pub struct RequestLine {
    pub method: Seq<char>,
    pub route: Seq<char>,
    pub protocol: Seq<char>,
}

impl<'a> View for Request<'a> {
    type V = RequestLine;

    open spec fn view(&self) -> RequestLine {
        RequestLine { method: self.method@, route: self.route@, protocol: self.protocol@ }
    }
}

/// Why a buffer holds no request that the server can answer.
#[derive(Debug)]
pub enum AKErr<'a> {
    /// The buffer is not text.
    ParseError(Utf8Error),
    /// The first line is not a request line of a supported method.
    HeaderError(&'a str),
}

/// What an `AKErr` says, without the detail that the decoder adds.
pub enum Fault {
    /// The buffer is not well-formed UTF-8.
    Encoding,
    /// The first line is refused, with these words.
    Header(Seq<char>),
}

impl<'a> View for AKErr<'a> {
    type V = Fault;

    open spec fn view(&self) -> Fault {
        match *self {
            AKErr::ParseError(_) => Fault::Encoding,
            AKErr::HeaderError(m) => Fault::Header(m@),
        }
    }
}

impl<'a> From<Utf8Error> for AKErr<'a> {
    fn from(e: Utf8Error) -> (r: Self) {
        AKErr::ParseError(e)
    }
}

impl<'a> vstd::std_specs::convert::FromSpecImpl<Utf8Error> for AKErr<'a> {
    open spec fn obeys_from_spec() -> bool {
        true
    }

    open spec fn from_spec(e: Utf8Error) -> Self {
        AKErr::ParseError(e)
    }
}

/// What is said of a fault; `detail` is what the decoder said of the buffer,
/// and is read only where the fault is one of encoding.
pub open spec fn said(fault: Fault, detail: Seq<char>) -> Seq<char> {
    match fault {
        Fault::Encoding => "[!] Error parsing the request body: "@ + detail,
        Fault::Header(m) => "[!] Error parsing the HTTP header: "@ + m,
    }
}

impl<'a> AKErr<'a> {
    /// The error in words. For a buffer that is not text, the words end with
    /// what the decoder says of it.
    pub fn message(&self) -> (s: String)
        ensures
            exists|detail: Seq<char>| s@ == said(self@, detail),
    {
        match self {
            AKErr::ParseError(e) => {
                let detail = e.to_string();
                let mut s = String::from_str("[!] Error parsing the request body: ");
                s.append(detail.as_str());
                assert(s@ == said(self@, detail@));
                s
            },
            AKErr::HeaderError(m) => {
                let mut s = String::from_str("[!] Error parsing the HTTP header: ");
                s.append(m);
                assert(s@ == said(self@, Seq::empty()));
                s
            },
        }
    }
}

/// The sequence that ends a line.
pub open spec fn line_break() -> Seq<char> {
    seq!['\r', '\n']
}

/// The separator of the tokens of a request line.
pub open spec fn space() -> Seq<char> {
    seq![' ']
}

/// The only method that the server answers.
pub open spec fn get_method() -> Seq<char> {
    seq!['G', 'E', 'T']
}

/// What is said of a line without a second token.
pub open spec fn route_missing() -> Seq<char> {
    "HTTP route unretrievable"@
}

/// What is said of a line without a third token.
pub open spec fn protocol_missing() -> Seq<char> {
    "HTTP protocol unretrievable"@
}

/// What is said of a line whose first token is not the one method.
pub open spec fn method_unsupported() -> Seq<char> {
    "Only GET method is currently supported"@
}

/// What stands before the leftmost line break of `text`; all of it where it
/// holds no line break.
pub open spec fn first_line(text: Seq<char>) -> Seq<char> {
    match cut(text, line_break()) {
        Some((line, _)) => line,
        None => text,
    }
}

/// The tokens of a line, at most three: the line is cut at its first space
/// and what follows at its first space again. The third token keeps whatever
/// spaces it holds.
pub open spec fn tokens(line: Seq<char>) -> Seq<Seq<char>> {
    match cut(line, space()) {
        None => seq![line],
        Some((first, rest)) => match cut(rest, space()) {
            None => seq![first, rest],
            Some((second, third)) => seq![first, second, third],
        },
    }
}

/// Reads a request line: method, route and protocol, in this order. A missing
/// token is reported before an unsupported method is.
pub open spec fn request_line(line: Seq<char>) -> Result<RequestLine, Seq<char>> {
    let t = tokens(line);
    if t.len() < 2 {
        Err(route_missing())
    } else if t.len() < 3 {
        Err(protocol_missing())
    } else if t[0] != get_method() {
        Err(method_unsupported())
    } else {
        Ok(RequestLine { method: t[0], route: t[1], protocol: t[2] })
    }
}

/// What `parse` makes of a buffer.
pub open spec fn parsed(bytes: Seq<u8>) -> Result<RequestLine, Fault> {
    if !valid_utf8(bytes) {
        Err(Fault::Encoding)
    } else {
        match request_line(first_line(decode_utf8(bytes))) {
            Ok(request) => Ok(request),
            Err(m) => Err(Fault::Header(m)),
        }
    }
}

/// Parses the request line at the head of `buf`. Lines behind the first are
/// not read, but the whole buffer has to be text.
pub fn parse<'a>(buf: &'a [u8]) -> (r: Result<Request<'a>, AKErr<'a>>)
    ensures
        match r {
            Ok(request) => parsed(buf@) == Ok::<RequestLine, Fault>(request@),
            Err(e) => parsed(buf@) == Err::<RequestLine, Fault>(e@),
        },
{
    let text = match core::str::from_utf8(buf) {
        Ok(text) => text,
        Err(e) => {
            return Err(AKErr::from(e));
        },
    };
    proof {
        encode_utf8_decode_utf8(text@);
        reveal_strlit("\r\n");
        reveal_strlit(" ");
        reveal_strlit("GET");
        assert("\r\n"@ =~= line_break());
        assert(" "@ =~= space());
        assert("GET"@ =~= get_method());
    }
    let line = match split_once(text, "\r\n") {
        Some((line, _)) => line,
        None => text,
    };
    let (method, rest) = match split_once(line, " ") {
        Some(pair) => pair,
        None => {
            return Err(AKErr::HeaderError("HTTP route unretrievable"));
        },
    };
    let (route, protocol) = match split_once(rest, " ") {
        Some(pair) => pair,
        None => {
            return Err(AKErr::HeaderError("HTTP protocol unretrievable"));
        },
    };
    if !same_text(method, "GET") {
        return Err(AKErr::HeaderError("Only GET method is currently supported"));
    }
    Ok(Request { method, route, protocol })
}

/// A line without a line break, followed by a line break, is the first line.
pub proof fn lemma_first_line_is(line: Seq<char>, rest: Seq<char>)
    requires
        !includes(line, line_break()),
    ensures
        first_line(line + line_break() + rest) == line,
{
    let text = line + line_break() + rest;
    assert forall|j: int| 0 <= j < line.len() implies !occurs_at(text, line_break(), j) by {
        if occurs_at(text, line_break(), j) && j + 1 < line.len() {
            assert(occurs_at(line, line_break(), j));
        }
    }
    lemma_cut_is(line, line_break(), rest);
}

/// A request line for `GET` holds a line break only where its route or its
/// protocol does.
pub proof fn lemma_get_line_unbroken(route: Seq<char>, protocol: Seq<char>)
    requires
        !includes(route, line_break()),
        !includes(protocol, line_break()),
    ensures
        !includes(get_method() + space() + route + space() + protocol, line_break()),
{
    let line = get_method() + space() + route + space() + protocol;
    let route_at = 4int;
    let protocol_at = 5 + route.len();
    assert forall|j: int| !occurs_at(line, line_break(), j) by {
        if occurs_at(line, line_break(), j) {
            if route_at <= j && j + 1 < route_at + route.len() {
                assert(occurs_at(route, line_break(), j - route_at));
            } else if protocol_at <= j {
                assert(occurs_at(protocol, line_break(), j - protocol_at));
            }
        }
    }
}

/// A request line for `GET` has its three parts as its tokens, where the
/// route holds no space.
pub proof fn lemma_get_line_tokens(route: Seq<char>, protocol: Seq<char>)
    requires
        !route.contains(' '),
    ensures
        tokens(get_method() + space() + route + space() + protocol) == seq![get_method(), route, protocol],
{
    let after = route + space() + protocol;
    lemma_cut_at_item(get_method(), ' ', after);
    lemma_cut_at_item(route, ' ', protocol);
    assert(get_method() + space() + route + space() + protocol =~= get_method() + seq![' '] + after);
}

/// A buffer with `GET`, a route and a protocol on its first line parses to
/// these three, whatever follows the line. The route holds no space, and
/// neither token holds a line break.
pub proof fn lemma_get_line_parses(route: Seq<char>, protocol: Seq<char>, rest: Seq<char>)
    requires
        !route.contains(' '),
        !includes(route, line_break()),
        !includes(protocol, line_break()),
    ensures
        parsed(
            encode_utf8(get_method() + space() + route + space() + protocol + line_break() + rest),
        ) == Ok::<RequestLine, Fault>(RequestLine { method: get_method(), route, protocol }),
{
    let line = get_method() + space() + route + space() + protocol;
    let text = line + line_break() + rest;
    encode_utf8_valid_utf8(text);
    encode_utf8_decode_utf8(text);
    lemma_get_line_unbroken(route, protocol);
    lemma_first_line_is(line, rest);
    lemma_get_line_tokens(route, protocol);
}

/// A buffer that holds nothing but a request line for `GET` parses to the
/// three tokens of the line. The route holds no space, and neither token
/// holds a line break.
pub proof fn lemma_lone_get_line_parses(route: Seq<char>, protocol: Seq<char>)
    requires
        !route.contains(' '),
        !includes(route, line_break()),
        !includes(protocol, line_break()),
    ensures
        parsed(encode_utf8(get_method() + space() + route + space() + protocol)) == Ok::<
            RequestLine,
            Fault,
        >(RequestLine { method: get_method(), route, protocol }),
{
    let line = get_method() + space() + route + space() + protocol;
    encode_utf8_valid_utf8(line);
    encode_utf8_decode_utf8(line);
    lemma_get_line_unbroken(route, protocol);
    assert(cut(line, line_break()) is None) by {
        if cut(line, line_break()) is Some {
            lemma_cut_parts(line, line_break());
        }
    }
    lemma_get_line_tokens(route, protocol);
}

/// A buffer of text whose first line holds fewer than two spaces, and so
/// fewer than three tokens, is refused for the token that is missing.
pub proof fn lemma_short_line_refused(bytes: Seq<u8>)
    requires
        valid_utf8(bytes),
        ({
            let line = first_line(decode_utf8(bytes));
            forall|i: int, j: int|
                0 <= i < j < line.len() ==> !(#[trigger] line[i] == ' ' && #[trigger] line[j] == ' ')
        }),
    ensures
        parsed(bytes) == Err::<RequestLine, Fault>(
            Fault::Header(
                if first_line(decode_utf8(bytes)).contains(' ') {
                    protocol_missing()
                } else {
                    route_missing()
                },
            ),
        ),
{
    let line = first_line(decode_utf8(bytes));
    if line.contains(' ') {
        let i = choose|i: int| 0 <= i < line.len() && line[i] == ' ';
        if cut(line, space()) is None {
            lemma_first_exists(line, space(), i);
        }
        lemma_cut_parts(line, space());
        let (first, after) = cut(line, space())->0;
        if cut(after, space()) is Some {
            lemma_cut_parts(after, space());
            let (second, _) = cut(after, space())->0;
            assert(line[first.len() + 1 + second.len() as int] == ' ');
        }
    } else {
        lemma_no_cut_at_item(line, ' ');
    }
}

/// A buffer that is not text is refused as such.
pub proof fn lemma_not_text_refused(bytes: Seq<u8>)
    requires
        !valid_utf8(bytes),
    ensures
        parsed(bytes) == Err::<RequestLine, Fault>(Fault::Encoding),
{
}

/// A buffer of text whose first token is not `GET` is refused for its header;
/// with all three tokens on the line, for its method.
pub proof fn lemma_other_method_refused(bytes: Seq<u8>)
    requires
        valid_utf8(bytes),
        tokens(first_line(decode_utf8(bytes)))[0] != get_method(),
    ensures
        parsed(bytes) matches Err(Fault::Header(_)),
        tokens(first_line(decode_utf8(bytes))).len() == 3 ==> parsed(bytes) == Err::<
            RequestLine,
            Fault,
        >(Fault::Header(method_unsupported())),
{
}

} // verus!
