use amykia::cfg::PUBLIC_PFX;
use amykia::listing::{dir_html, Entry};
use amykia::route::resolve_route;

#[test]
fn route_resolver() {
    assert_eq!(resolve_route("/"), format!("{PUBLIC_PFX}/index.html"));
    assert_eq!(resolve_route("/asdf"), format!("{PUBLIC_PFX}/asdf"));
    assert_eq!(resolve_route("/jjtk//test"), format!("{PUBLIC_PFX}/jjtk//test"));
}

/// What listing a directory that does not exist brings.
fn no_such_directory() -> Result<Vec<Entry>, String> {
    Err("No such file or directory (os error 2)".to_string())
}

#[test]
fn invalid_dirs() {
    dir_html(&"".to_string(), no_such_directory()).unwrap_err();
    dir_html(&" ".to_string(), no_such_directory()).unwrap_err();
    dir_html(&" ".repeat(PUBLIC_PFX.len()), no_such_directory()).unwrap_err();
    dir_html(&"...".to_string(), no_such_directory()).unwrap_err();
}

#[test]
fn valid_dirs() {
    dir_html(&PUBLIC_PFX.to_string(), Ok(Vec::new())).unwrap();
}

#[test]
fn public_directory_is_dot_public() {
    assert_eq!(PUBLIC_PFX, "./public");
    assert_eq!(resolve_route("/"), "./public/index.html");
}

#[test]
fn escaped_spaces_are_decoded() {
    assert_eq!(resolve_route("/my%20file.txt"), "./public/my file.txt");
    assert_eq!(resolve_route("/a%20b%20c"), "./public/a b c");
    assert_eq!(resolve_route("%20"), "./public ");
    assert_eq!(resolve_route("/%20%20/"), "./public/  /");
    assert_eq!(resolve_route("/%2020"), "./public/ 20");
    assert_eq!(resolve_route("/%%2020"), "./public/% 20");
}

#[test]
fn nothing_else_is_decoded() {
    assert_eq!(resolve_route("/a%2Fb"), "./public/a%2Fb");
    assert_eq!(resolve_route("/a%2"), "./public/a%2");
    assert_eq!(resolve_route("/a+b"), "./public/a+b");
    assert_eq!(resolve_route("/%E2%82%AC"), "./public/%E2%82%AC");
    assert_eq!(resolve_route("/\u{20ac}%20\u{e9}"), "./public/\u{20ac} \u{e9}");
}

#[test]
fn dots_and_slashes_stay() {
    assert_eq!(resolve_route("/../secret"), "./public/../secret");
    assert_eq!(resolve_route("//"), "./public//");
    assert_eq!(resolve_route(""), "./public");
    assert_eq!(resolve_route("index.html"), "./publicindex.html");
}

#[test]
fn only_the_bare_root_is_the_index() {
    assert_eq!(resolve_route("/index.html"), "./public/index.html");
    assert_eq!(resolve_route("/%20"), "./public/ ");
    assert_eq!(resolve_route("/ "), "./public/ ");
}

#[test]
fn resolved_paths_begin_with_the_public_directory() {
    for route in ["/", "", "/a", "%20", "/%20/%20", "/\u{1f600}", "/../.."] {
        let path = resolve_route(route);
        assert!(path.starts_with(PUBLIC_PFX));
        assert!(path.len() >= PUBLIC_PFX.len());
        assert!(path.chars().count() >= PUBLIC_PFX.chars().count());
    }
}
