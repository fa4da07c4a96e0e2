use amykia::cfg::STYLES;
use amykia::response::{err_html, package};

/// Reads a response as a client would: the head up to the first blank line,
/// the declared length from its last line, and that many bytes behind it.
fn read_back(response: &[u8]) -> Option<(String, Vec<u8>)> {
    let at = response.windows(4).position(|w| w == b"\r\n\r\n")?;
    let head = String::from_utf8(response[..at].to_vec()).ok()?;
    let body = response[at + 4..].to_vec();
    let declared: usize = head.rsplit("\r\n").next()?.strip_prefix("Content-Length: ")?.parse().ok()?;
    if declared == body.len() {
        Some((head, body))
    } else {
        None
    }
}

#[test]
fn package_writes_head_then_body() {
    let out = package("HTTP/1.1", 200, "OK", b"<h1>hi</h1>".to_vec());
    assert_eq!(out, b"HTTP/1.1 200 OK\r\nContent-Length: 11\r\n\r\n<h1>hi</h1>".to_vec());
}

#[test]
fn package_of_nothing() {
    let out = package("HTTP/1.0", 404, "NOT FOUND", Vec::new());
    assert_eq!(out, b"HTTP/1.0 404 NOT FOUND\r\nContent-Length: 0\r\n\r\n".to_vec());
}

#[test]
fn package_writes_codes_in_decimal() {
    assert!(package("P", 0, "S", vec![]).starts_with(b"P 0 S\r\n"));
    assert!(package("P", 7, "S", vec![]).starts_with(b"P 7 S\r\n"));
    assert!(package("P", 10, "S", vec![]).starts_with(b"P 10 S\r\n"));
    assert!(package("P", 1009, "S", vec![]).starts_with(b"P 1009 S\r\n"));
    assert!(package("P", 65535, "S", vec![]).starts_with(b"P 65535 S\r\n"));
}

#[test]
fn package_counts_bytes_not_characters() {
    let body = "\u{e9}\u{20ac}".as_bytes().to_vec();
    let out = package("HTTP/1.1", 200, "OK", body);
    assert_eq!(out, b"HTTP/1.1 200 OK\r\nContent-Length: 5\r\n\r\n\xc3\xa9\xe2\x82\xac".to_vec());
}

#[test]
fn package_keeps_text_beyond_ascii_in_the_head() {
    let out = package("HTTP/\u{e9}", 200, "\u{4f60}\u{597d}", vec![1, 2, 3]);
    let mut expected = "HTTP/\u{e9} 200 \u{4f60}\u{597d}\r\nContent-Length: 3\r\n\r\n".as_bytes().to_vec();
    expected.extend_from_slice(&[1, 2, 3]);
    assert_eq!(out, expected);
}

#[test]
fn package_of_a_long_body() {
    let body = vec![b'x'; 123_456];
    let out = package("HTTP/1.1", 200, "OK", body.clone());
    let head = b"HTTP/1.1 200 OK\r\nContent-Length: 123456\r\n\r\n";
    assert_eq!(out.len(), head.len() + body.len());
    assert_eq!(&out[..head.len()], head);
    assert_eq!(&out[head.len()..], &body[..]);
}

#[test]
fn body_comes_back_byte_for_byte() {
    let all: Vec<u8> = (0u8..=255).collect();
    let bodies: Vec<Vec<u8>> = vec![
        Vec::new(),
        b"plain".to_vec(),
        all,
        b"\r\n\r\n".to_vec(),
        b"\r\n\r\nContent-Length: 0\r\n\r\n".to_vec(),
        vec![0xff, 0xfe, 0x00, 0x80],
        vec![0; 1000],
    ];
    for body in bodies {
        let out = package("HTTP/1.1", 200, "OK", body.clone());
        let (head, back) = read_back(&out).unwrap();
        assert_eq!(head, format!("HTTP/1.1 200 OK\r\nContent-Length: {}", body.len()));
        assert_eq!(back, body);
    }
}

#[test]
fn body_comes_back_behind_a_status_with_a_line_break() {
    let body = b"\x00\x01binary\xff".to_vec();
    let out = package("HTTP/1.1", 200, "OK\r\nServer: amykia", body.clone());
    let (_, back) = read_back(&out).unwrap();
    assert_eq!(back, body);
}

#[test]
fn blank_line_in_the_status_breaks_the_frame() {
    let body = b"body".to_vec();
    let out = package("HTTP/1.1", 200, "OK\r\n\r\nX", body.clone());
    assert_ne!(read_back(&out).map(|(_, back)| back), Some(body));
}

#[test]
fn error_page_in_full() {
    let page = err_html(404, "NOT FOUND", "No such file or directory (os error 2)".to_string());
    let expected = format!(
        "<html><head><title>amykia</title><style>{}</style></head><body><div class=\"col\"><h1>404 NOT FOUND</h1>No such file or directory (os error 2)</div></body></html>",
        STYLES
    );
    assert_eq!(page, expected.into_bytes());
}

#[test]
fn error_page_with_nothing_to_say() {
    let page = String::from_utf8(err_html(400, "", String::new())).unwrap();
    assert!(page.ends_with("<h1>400 </h1></div></body></html>"));
    assert!(page.starts_with("<html><head><title>amykia</title><style>\n  :root {"));
}

#[test]
fn error_page_keeps_text_beyond_ascii() {
    let page = String::from_utf8(err_html(500, "\u{d6}", "\u{1f4a5} <b>".to_string())).unwrap();
    assert!(page.ends_with("<h1>500 \u{d6}</h1>\u{1f4a5} <b></div></body></html>"));
}

#[test]
fn style_sheet_is_carried_whole() {
    assert!(STYLES.starts_with("\n  :root {\n\t--primary: #8686f3;"));
    assert!(STYLES.contains("font-family: \"Lucida Console\", \"Courier New\", monospace;"));
    assert!(STYLES.ends_with("  .bg {\n\twidth: 70%;\n  }"));
    assert_eq!(STYLES.len(), 609);
}
