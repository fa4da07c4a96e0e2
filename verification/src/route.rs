//! From the route of a request to the path of the file that answers it.

use vstd::prelude::*;
use vstd::string::*;
use vstd::utf8::*;
use crate::cfg::PUBLIC_PFX;
use crate::encoding::lemma_encode_concat;
use crate::pattern::{cut, lemma_cut_parts};
use crate::text::{same_text, split_once};

verus! {

/// How a space is written in a route.
pub open spec fn escaped_space() -> Seq<char> {
    seq!['%', '2', '0']
}

/// The route with every escaped space, from left to right, replaced by a
/// space. Nothing else is decoded.
pub open spec fn unescaped(route: Seq<char>) -> Seq<char>
    decreases route.len(),
{
    match cut(route, escaped_space()) {
        None => route,
        Some((before, after)) => before + seq![' '] + unescaped(after),
    }
}

/// The path for a route: the index page for the root, the unescaped route
/// itself for any other, both under the public directory. Dots and repeated
/// slashes stay as they are.
pub open spec fn resolved(route: Seq<char>) -> Seq<char> {
    if unescaped(route) == seq!['/'] {
        PUBLIC_PFX@ + "/index.html"@
    } else {
        PUBLIC_PFX@ + unescaped(route)
    }
}

/// The root resolves to the index page and any other route to itself,
/// unescaped; either way the path begins with the public directory and is at
/// least as long, in characters and in bytes.
pub proof fn lemma_resolved(route: Seq<char>)
    ensures
        route == seq!['/'] ==> resolved(route) == PUBLIC_PFX@ + "/index.html"@,
        route != seq!['/'] ==> resolved(route) == PUBLIC_PFX@ + unescaped(route),
        PUBLIC_PFX@.is_prefix_of(resolved(route)),
        resolved(route).len() >= PUBLIC_PFX@.len(),
        encode_utf8(resolved(route)).len() >= encode_utf8(PUBLIC_PFX@).len(),
{
    if cut(route, escaped_space()) is Some {
        lemma_cut_parts(route, escaped_space());
    }
    lemma_encode_concat(PUBLIC_PFX@, "/index.html"@);
    lemma_encode_concat(PUBLIC_PFX@, unescaped(route));
}

/// Resolves `route` to the path of a file under the public directory.
pub fn resolve_route(route: &str) -> (path: String)
    ensures
        path@ == resolved(route@),
        PUBLIC_PFX@.is_prefix_of(path@),
        path@.len() >= PUBLIC_PFX@.len(),
        encode_utf8(path@).len() >= encode_utf8(PUBLIC_PFX@).len(),
{
    let mut plain = String::new();
    let mut rest = route;
    proof {
        reveal_strlit("%20");
        reveal_strlit(" ");
    }
    loop
        invariant_except_break
            plain@ + unescaped(rest@) == unescaped(route@),
            "%20"@ == escaped_space(),
            " "@ == seq![' '],
        ensures
            plain@ == unescaped(route@),
        decreases rest@.len(),
    {
        match split_once(rest, "%20") {
            None => {
                plain.append(rest);
                break;
            },
            Some((before, after)) => {
                proof {
                    lemma_cut_parts(rest@, escaped_space());
                }
                plain.append(before);
                plain.append(" ");
                rest = after;
            },
        }
    }
    proof {
        reveal_strlit("/");
        assert("/"@ =~= seq!['/']);
        lemma_resolved(route@);
    }
    let mut path = String::from_str(PUBLIC_PFX);
    if same_text(plain.as_str(), "/") {
        path.append("/index.html");
    } else {
        path.append(plain.as_str());
    }
    path
}

} // verus!
