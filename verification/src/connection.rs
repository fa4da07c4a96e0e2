//! One connection, step by step: read, parse, resolve, serve, write.
//!
//! The steps that touch a socket or a disk are the caller's. After each, the
//! caller hands what it brought to the function named by the step, and gets
//! the next step. Every chain of steps ends in one `Write`.

use vstd::prelude::*;
use vstd::string::*;
use vstd::utf8::*;
use crate::request::{parse, parsed, said, Fault};
use crate::response::{err_html, error_page, package, packaged};
use crate::route::{resolve_route, resolved};

verus! {

/// What the caller does next for a connection.
#[derive(Debug)]
pub enum Step<'a> {
    /// Read the file at `path`, and hand its bytes, or their absence, to
    /// `serve`.
    ReadFile { protocol: &'a str, path: String },
    /// List the directory at `path`, and hand the listing to
    /// `package_directory`.
    ListDirectory { protocol: &'a str, path: String },
    /// Write these bytes to the connection, and close it.
    Write(Vec<u8>),
}

/// The answer to a buffer that holds no request. A buffer that could not be
/// parsed names no protocol, so the answer names the usual one.
pub open spec fn bad_request(fault: Fault, detail: Seq<char>) -> Seq<u8> {
    packaged(
        "HTTP/1.1"@,
        400,
        "BAD REQUEST"@,
        encode_utf8(error_page(400, "BAD REQUEST"@, said(fault, detail))),
    )
}

/// The answer to a request whose file was read.
pub open spec fn file_response(protocol: Seq<char>, contents: Seq<u8>) -> Seq<u8> {
    packaged(protocol, 200, "OK"@, contents)
}

/// The first step for the bytes read from a connection: to read the file that
/// the request resolves to, or to write why the bytes hold no request.
pub fn respond<'a>(buf: &'a [u8]) -> (step: Step<'a>)
    ensures
        match parsed(buf@) {
            Ok(request) => step matches Step::ReadFile { protocol, path } && protocol@
                == request.protocol && path@ == resolved(request.route),
            Err(fault) => step matches Step::Write(bytes) && exists|detail: Seq<char>|
                bytes@ == bad_request(fault, detail),
        },
{
    match parse(buf) {
        Ok(request) => Step::ReadFile {
            protocol: request.protocol,
            path: resolve_route(request.route),
        },
        Err(e) => {
            let message = e.message();
            let ghost detail = choose|detail: Seq<char>| message@ == said(e@, detail);
            let bytes = package(
                "HTTP/1.1",
                400,
                "BAD REQUEST",
                err_html(400, "BAD REQUEST", message),
            );
            assert(bytes@ == bad_request(e@, detail));
            Step::Write(bytes)
        },
    }
}

/// The step after the file at `path` was read, or was not: to write the file
/// as it is, or to list the directory at the same path.
pub fn serve<'a>(protocol: &'a str, path: String, contents: Option<Vec<u8>>) -> (step: Step<'a>)
    ensures
        match contents {
            Some(bytes) => step matches Step::Write(response) && response@ == file_response(
                protocol@,
                bytes@,
            ),
            None => step matches Step::ListDirectory { protocol: same, path: again } && same@
                == protocol@ && again@ == path@,
        },
{
    match contents {
        Some(bytes) => Step::Write(package(protocol, 200, "OK", bytes)),
        None => Step::ListDirectory { protocol, path },
    }
}

} // verus!
