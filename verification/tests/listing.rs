use amykia::cfg::{PUBLIC_PFX, STYLES};
use amykia::listing::{dir_html, package_directory, Entry};

fn file(name: &str) -> Entry {
    Entry { name: name.to_string(), is_dir: false }
}

fn dir(name: &str) -> Entry {
    Entry { name: name.to_string(), is_dir: true }
}

/// The page for `path` with `entries`, as text.
fn page(path: &str, entries: Vec<Entry>) -> String {
    String::from_utf8(dir_html(&path.to_string(), Ok(entries)).unwrap()).unwrap()
}

/// The page as written by hand from its title, its parent link and its items.
fn expected(rel: &str, back: &str, items: &str) -> String {
    format!(
        "<html><head><title>{rel}</title><style>{STYLES}</style></head><body><div class=\"col\"><h1>{rel}</h1><ul><li><a class=\"dir\" href=\"{back}\">../<a></li>{items}</ul></div></body></html>"
    )
}

#[test]
fn empty_directory_at_the_root() {
    assert_eq!(page("./public", vec![]), expected("", "", ""));
    assert_eq!(page("./public/", vec![]), expected("", "", ""));
    assert_eq!(page("./public///", vec![]), expected("", "", ""));
}

#[test]
fn files_and_directories_are_told_apart() {
    let got = page("./public/sub", vec![file("a.txt"), dir("more"), file("b.txt")]);
    let items = "<li><a href=\"/sub/a.txt\">a.txt<a></li>\
                 <li><a class=\"dir\" href=\"/sub/more\">more/<a></li>\
                 <li><a href=\"/sub/b.txt\">b.txt<a></li>";
    assert_eq!(got, expected("/sub", "", items));
}

#[test]
fn entries_keep_the_order_of_the_listing() {
    let got = page("./public/d", vec![file("z"), file("a"), file("m")]);
    let z = got.find("href=\"/d/z\"").unwrap();
    let a = got.find("href=\"/d/a\"").unwrap();
    let m = got.find("href=\"/d/m\"").unwrap();
    assert!(z < a && a < m);
}

#[test]
fn same_name_twice_is_listed_twice() {
    let got = page("./public/d", vec![file("x"), file("x")]);
    assert_eq!(got.matches("<li><a href=\"/d/x\">x<a></li>").count(), 2);
}

#[test]
fn parent_link_stops_before_the_last_slash() {
    assert_eq!(page("./public/a/b", vec![]), expected("/a/b", "/a", ""));
    assert_eq!(page("./public/a/b/", vec![]), expected("/a/b", "/a", ""));
    assert_eq!(page("./public/a//b", vec![]), expected("/a//b", "/a/", ""));
    assert_eq!(page("./public/a", vec![]), expected("/a", "", ""));
}

#[test]
fn parent_link_without_a_slash_loses_a_character() {
    assert_eq!(page("./publicabc", vec![]), expected("abc", "ab", ""));
    assert_eq!(page("./publicx", vec![]), expected("x", "", ""));
    assert_eq!(page("./publicab\u{20ac}", vec![]), expected("ab\u{20ac}", "ab", ""));
    assert_eq!(page("./public\u{1f600}", vec![]), expected("\u{1f600}", "", ""));
}

#[test]
fn text_beyond_ascii_in_paths_and_names() {
    let got = page("./public/caf\u{e9}/\u{65e5}\u{672c}/", vec![dir("\u{fc}ber"), file("\u{1f600}.txt")]);
    let items = "<li><a class=\"dir\" href=\"/caf\u{e9}/\u{65e5}\u{672c}/\u{fc}ber\">\u{fc}ber/<a></li>\
                 <li><a href=\"/caf\u{e9}/\u{65e5}\u{672c}/\u{1f600}.txt\">\u{1f600}.txt<a></li>";
    assert_eq!(got, expected("/caf\u{e9}/\u{65e5}\u{672c}", "/caf\u{e9}", items));
}

#[test]
fn only_the_length_of_the_public_directory_is_taken_off() {
    assert_eq!(page("12345678/rest", vec![file("f")]), expected("/rest", "", "<li><a href=\"/rest/f\">f<a></li>"));
    assert_eq!(page("        ", vec![]), expected("", "", ""));
}

#[test]
fn short_paths_are_refused() {
    for path in ["", ".", "..", "...", "./publi", " "] {
        let e = dir_html(&path.to_string(), Ok(vec![file("a")])).unwrap_err();
        assert_eq!(e, "The path lies outside the public directory");
    }
}

#[test]
fn path_cut_inside_a_character_is_refused() {
    let path = "./publi\u{e9}/x".to_string();
    assert!(path.len() > PUBLIC_PFX.len());
    let e = dir_html(&path, Ok(vec![])).unwrap_err();
    assert_eq!(e, "The path lies outside the public directory");
}

#[test]
fn unlisted_directory_gives_its_reason() {
    let e = dir_html(&"./public/nope".to_string(), Err("Not a directory (os error 20)".to_string()));
    assert_eq!(e.unwrap_err(), "Not a directory (os error 20)");
}

#[test]
fn short_path_is_told_before_the_listing_is_read() {
    let e = dir_html(&"x".to_string(), Err("Permission denied (os error 13)".to_string()));
    assert_eq!(e.unwrap_err(), "The path lies outside the public directory");
}

#[test]
fn listed_directory_is_packaged_as_found() {
    let out = package_directory("HTTP/1.1", "./public/sub".to_string(), Ok(vec![file("a.txt")]));
    let body = page("./public/sub", vec![file("a.txt")]);
    let head = format!("HTTP/1.1 200 OK\r\nContent-Length: {}\r\n\r\n", body.len());
    assert_eq!(out, [head.into_bytes(), body.into_bytes()].concat());
}

#[test]
fn unlisted_directory_is_packaged_as_not_found() {
    let why = "No such file or directory (os error 2)";
    let out = package_directory("HTTP/1.0", "./public/missing.txt".to_string(), Err(why.to_string()));
    let body = format!(
        "<html><head><title>amykia</title><style>{STYLES}</style></head><body><div class=\"col\"><h1>404 NOT FOUND</h1>{why}</div></body></html>"
    );
    let head = format!("HTTP/1.0 404 NOT FOUND\r\nContent-Length: {}\r\n\r\n", body.len());
    assert_eq!(out, [head.into_bytes(), body.into_bytes()].concat());
}

#[test]
fn path_outside_is_packaged_as_not_found() {
    let out = package_directory("HTTP/1.1", ".".to_string(), Ok(vec![]));
    let text = String::from_utf8(out).unwrap();
    assert!(text.starts_with("HTTP/1.1 404 NOT FOUND\r\nContent-Length: "));
    assert!(text.ends_with("<h1>404 NOT FOUND</h1>The path lies outside the public directory</div></body></html>"));
}
