use tachyon::length::{announced_length, read_number};
use tachyon::logger::Logger;
use tachyon::rate::{rate_key, refuses};
use tachyon::stats::{hits_key, stats_page, Hits, HITS_PATTERN, HITS_PREFIX, PAGE_FOOT, PAGE_HEAD};
use tachyon::text::{append_decimal, remove_all};

#[test]
fn decimals_are_written_as_usual() {
    for n in [0, 7, 9, 10, 99, 100, 1234567890, u64::MAX] {
        let mut out = String::from("n=");
        append_decimal(&mut out, n);
        assert_eq!(out, format!("n={}", n));
    }
}

#[test]
fn remove_all_replaces_by_nothing() {
    for (text, cut) in [
        ("lb:hits:a", "lb:hits:"),
        ("lb:hits:lb:hits:a", "lb:hits:"),
        ("xlb:hits:ylb:hits:", "lb:hits:"),
        ("aaaaa", "aa"),
        ("abab", ""),
        ("", "a"),
        ("short", "longer text"),
        ("\u{e9}b\u{e9}bc", "\u{e9}b"),
        ("lb:hlb:hits:its:", "lb:hits:"),
    ] {
        assert_eq!(remove_all(text, cut), text.replace(cut, ""));
    }
}

#[test]
fn numbers_are_read_as_std_does() {
    for text in [
        "", "0", "7", "+7", "-7", "-0", "+", "++7", " 7", "7 ", "1_000", "007", "18446744073709551615",
        "18446744073709551616", "99999999999999999999999", "1a", "\u{661}",
    ] {
        assert_eq!(read_number(text.as_bytes()), text.parse::<usize>().ok());
    }
}

#[test]
fn a_length_that_is_not_announced_is_the_longest() {
    assert_eq!(announced_length(&None), usize::MAX);
    assert_eq!(announced_length(&Some(b"x".to_vec())), usize::MAX);
    assert_eq!(announced_length(&Some(vec![0xff])), usize::MAX);
    assert_eq!(announced_length(&Some(b"512".to_vec())), 512);
}

#[test]
fn stats_page_lists_all_counters() {
    let page = stats_page(&vec![
        Hits { key: hits_key("127.0.0.1:9001"), count: Some(42) },
        Hits { key: hits_key("127.0.0.1:9002"), count: None },
    ]);
    let rows = "<li><b>127.0.0.1:9001</b>: 42 hits</li><li><b>127.0.0.1:9002</b>: 0 hits</li>";
    assert_eq!(page, format!("{}{}{}", PAGE_HEAD, rows, PAGE_FOOT));
    assert_eq!(stats_page(&vec![]), format!("{}{}", PAGE_HEAD, PAGE_FOOT));
    assert!(PAGE_HEAD.ends_with("<ul id='stats-list'>\n    "));
    assert!(PAGE_FOOT.starts_with("\n            </ul>"));
}

#[test]
fn keys_carry_their_prefix() {
    assert_eq!(hits_key("h:1"), "lb:hits:h:1");
    assert_eq!(rate_key("10.0.0.1"), "rate_limit:10.0.0.1");
    assert_ne!(hits_key("h:1"), hits_key("h:2"));
    assert_ne!(rate_key("10.0.0.1"), rate_key("10.0.0.2"));
    assert_eq!(HITS_PATTERN.strip_suffix('*'), Some(HITS_PREFIX));
    assert!(hits_key("h:1").starts_with(HITS_PREFIX));
}

#[test]
fn a_count_at_the_limit_passes() {
    assert!(!refuses(&Some(vec![100, 1]), 100));
    assert!(refuses(&Some(vec![101, 1]), 100));
    assert!(!refuses(&Some(vec![-1]), 0));
    assert!(!refuses(&None, 0));
    assert!(refuses(&Some(vec![i64::MAX]), u32::MAX));
}

#[test]
fn logger_names_method_and_path() {
    let logger = Logger::new(7u8);
    assert_eq!(logger.inner, 7);
    assert_eq!(logger.log_line("GET", "/a"), "LOG: GET /a");
}
