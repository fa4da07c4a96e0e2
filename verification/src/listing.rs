//! The page that lists a directory.

use vstd::prelude::*;
use vstd::string::*;
use vstd::utf8::*;
use crate::cfg::STYLES;
use crate::path::{parent, parent_of, relative, relative_path};
use crate::response::{err_html, error_page, package, packaged};

verus! {

/// One entry of a directory: its name, and whether it is a directory itself.
#[derive(Debug)]
pub struct Entry {
    pub name: String,
    pub is_dir: bool,
}

/// An entry, with its name as text.
pub struct EntryView {
    pub name: Seq<char>,
    pub is_dir: bool,
}

impl View for Entry {
    type V = EntryView;

    open spec fn view(&self) -> EntryView {
        EntryView { name: self.name@, is_dir: self.is_dir }
    }
}

/// The entries of a listing as text, or the reason why there is no listing.
pub open spec fn listing_view(listing: Result<Vec<Entry>, String>) -> Result<
    Seq<EntryView>,
    Seq<char>,
> {
    match listing {
        Ok(entries) => Ok(entries@.map_values(|e: Entry| e@)),
        Err(why) => Err(why@),
    }
}

/// The page down to the link to the parent directory.
pub open spec fn listing_top(rel: Seq<char>) -> Seq<char> {
    "<html><head><title>"@ + rel + "</title><style>"@ + STYLES@
        + "</style></head><body><div class=\"col\"><h1>"@ + rel
        + "</h1><ul><li><a class=\"dir\" href=\""@ + parent(rel) + "\">../<a></li>"@
}

/// The link to one entry. A directory has a class of its own and a slash
/// behind its name.
pub open spec fn listing_item(rel: Seq<char>, entry: EntryView) -> Seq<char> {
    if entry.is_dir {
        "<li><a class=\"dir\" href=\""@ + rel + "/"@ + entry.name + "\">"@ + entry.name
            + "/<a></li>"@
    } else {
        "<li><a href=\""@ + rel + "/"@ + entry.name + "\">"@ + entry.name + "<a></li>"@
    }
}

/// The links to the entries, in the order of the listing.
pub open spec fn listing_items(rel: Seq<char>, entries: Seq<EntryView>) -> Seq<char>
    decreases entries.len(),
{
    if entries.len() == 0 {
        Seq::empty()
    } else {
        listing_items(rel, entries.drop_last()) + listing_item(rel, entries.last())
    }
}

/// The page that lists `entries` under the relative path `rel`.
pub open spec fn listing_page(rel: Seq<char>, entries: Seq<EntryView>) -> Seq<char> {
    listing_top(rel) + listing_items(rel, entries) + "</ul></div></body></html>"@
}

/// What is said of a path that has no relative path.
pub open spec fn outside_root() -> Seq<char> {
    "The path lies outside the public directory"@
}

/// The page for a directory, or the reason why there is none: the path has
/// no relative path, or the directory could not be listed.
pub open spec fn directory_page(
    path: Seq<char>,
    listing: Result<Seq<EntryView>, Seq<char>>,
) -> Result<Seq<char>, Seq<char>> {
    match relative_path(path) {
        None => Err(outside_root()),
        Some(rel) => match listing {
            Ok(entries) => Ok(listing_page(rel, entries)),
            Err(why) => Err(why),
        },
    }
}

/// Writes the page down to the link to the parent directory.
fn top_of(rel: &str) -> (page: String)
    ensures
        page@ == listing_top(rel@),
{
    let mut page = String::from_str("<html><head><title>");
    page.append(rel);
    page.append("</title><style>");
    page.append(STYLES);
    page.append("</style></head><body><div class=\"col\"><h1>");
    page.append(rel);
    page.append("</h1><ul><li><a class=\"dir\" href=\"");
    page.append(parent_of(rel));
    page.append("\">../<a></li>");
    page
}

/// Writes the link to `entry` at the end of `page`.
fn append_item(page: &mut String, rel: &str, entry: &Entry)
    ensures
        final(page)@ == old(page)@ + listing_item(rel@, entry@),
{
    let mut item = if entry.is_dir {
        String::from_str("<li><a class=\"dir\" href=\"")
    } else {
        String::from_str("<li><a href=\"")
    };
    item.append(rel);
    item.append("/");
    item.append(entry.name.as_str());
    item.append("\">");
    item.append(entry.name.as_str());
    if entry.is_dir {
        item.append("/<a></li>");
    } else {
        item.append("<a></li>");
    }
    page.append(item.as_str());
}

/// Writes the page that lists the directory at `dir_path`, given what listing
/// it brought: its entries, or the reason why there are none.
pub fn dir_html(dir_path: &String, listing: Result<Vec<Entry>, String>) -> (r: Result<
    Vec<u8>,
    String,
>)
    ensures
        match directory_page(dir_path@, listing_view(listing)) {
            Ok(page) => r matches Ok(html) && html@ == encode_utf8(page),
            Err(why) => r matches Err(e) && e@ == why,
        },
{
    let rel = match relative(dir_path.as_str()) {
        Some(rel) => rel,
        None => {
            return Err(String::from_str("The path lies outside the public directory"));
        },
    };
    let entries = match listing {
        Ok(entries) => entries,
        Err(why) => {
            return Err(why);
        },
    };
    let ghost views = entries@.map_values(|e: Entry| e@);
    let mut page = top_of(rel);
    for i in 0..entries.len()
        invariant
            views == entries@.map_values(|e: Entry| e@),
            page@ == listing_top(rel@) + listing_items(rel@, views.take(i as int)),
    {
        append_item(&mut page, rel, &entries[i]);
        proof {
            let next = views.take(i + 1);
            assert(next.drop_last() =~= views.take(i as int));
        }
    }
    page.append("</ul></div></body></html>");
    proof {
        assert(views.take(entries.len() as int) =~= views);
    }
    Ok(page.as_str().as_bytes_vec())
}

/// What is sent for the directory at `dir_path`.
pub open spec fn directory_response(
    protocol: Seq<char>,
    path: Seq<char>,
    listing: Result<Seq<EntryView>, Seq<char>>,
) -> Seq<u8> {
    match directory_page(path, listing) {
        Ok(page) => packaged(protocol, 200, "OK"@, encode_utf8(page)),
        Err(why) => packaged(
            protocol,
            404,
            "NOT FOUND"@,
            encode_utf8(error_page(404, "NOT FOUND"@, why)),
        ),
    }
}

/// Answers a request for a path that could not be read as a file: with the
/// page that lists the directory, or with a page that says why there is none.
pub fn package_directory(
    protocol: &str,
    dir_path: String,
    listing: Result<Vec<Entry>, String>,
) -> (r: Vec<u8>)
    ensures
        r@ == directory_response(protocol@, dir_path@, listing_view(listing)),
{
    match dir_html(&dir_path, listing) {
        Ok(html) => package(protocol, 200, "OK", html),
        Err(e) => package(protocol, 404, "NOT FOUND", err_html(404, "NOT FOUND", e)),
    }
}

} // verus!
