use amykia::cfg::{Config, RECV_BUFFER_SIZE};
use amykia::decimal::parse_count;

fn config(addr: Option<&str>, workers: Option<&str>) -> (String, usize) {
    let cfg = Config::new(addr.map(|a| a.to_string()), workers.map(|w| w.to_string()));
    (cfg.addr, cfg.workers)
}

#[test]
fn defaults_where_nothing_is_given() {
    assert_eq!(config(None, None), ("127.0.0.1:5000".to_string(), 4));
}

#[test]
fn address_and_workers_as_given() {
    assert_eq!(config(Some("0.0.0.0:80"), Some("16")), ("0.0.0.0:80".to_string(), 16));
    assert_eq!(config(Some("[::1]:8080"), None), ("[::1]:8080".to_string(), 4));
    assert_eq!(config(None, Some("2")), ("127.0.0.1:5000".to_string(), 2));
}

#[test]
fn address_is_taken_unread() {
    assert_eq!(config(Some(""), Some("1")), (String::new(), 1));
    assert_eq!(config(Some("not an address"), Some("1")).0, "not an address");
}

#[test]
fn unreadable_worker_count_falls_back() {
    for text in ["", "four", "-1", "4.0", " 4", "4 ", "0x10", "1_000", "+", "++1", "\u{664}", "4\u{e9}"] {
        assert_eq!(config(None, Some(text)).1, 4, "{:?}", text);
    }
}

#[test]
fn worker_count_too_large_falls_back() {
    assert_eq!(config(None, Some("99999999999999999999999999999999999999999")).1, 4);
    let over = format!("{}0", usize::MAX);
    assert_eq!(config(None, Some(&over)).1, 4);
}

#[test]
fn zero_workers_are_taken_as_asked() {
    assert_eq!(config(None, Some("0")).1, 0);
}

#[test]
fn counts_are_read_as_the_standard_library_reads_them() {
    let max = usize::MAX.to_string();
    let beyond = {
        let mut digits = max.clone().into_bytes();
        let last = digits.len() - 1;
        digits[last] += 1;
        String::from_utf8(digits).unwrap()
    };
    let texts = [
        "0", "7", "10", "+10", "007", "+0", "000", "65536", "18446744073709551615",
        "18446744073709551616", "4294967295", "4294967296", "", "+", "-", "-0", "+-1", "1+",
        "12a", "a12", "1 2", "\t1", "1\n", "\u{ff11}", "1\u{0}", max.as_str(), beyond.as_str(),
    ];
    for text in texts {
        assert_eq!(parse_count(text), text.parse::<usize>().ok(), "{:?}", text);
    }
}

#[test]
fn counts_in_full() {
    assert_eq!(parse_count("12345"), Some(12345));
    assert_eq!(parse_count("+42"), Some(42));
    assert_eq!(parse_count("0000000000000000000000000000000000000001"), Some(1));
    assert_eq!(parse_count(&usize::MAX.to_string()), Some(usize::MAX));
    assert_eq!(parse_count("1e3"), None);
}

#[test]
fn buffer_holds_a_kilobyte() {
    assert_eq!(RECV_BUFFER_SIZE, 1024);
}
