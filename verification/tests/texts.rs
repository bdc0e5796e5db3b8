//! Escaping, sizes, tags and dates.
use std::collections::hash_map::DefaultHasher;
use std::hash::{Hash, Hasher};
use std::time::{Duration, SystemTime};

use vmod_fileserver::escape::{html_escape, is_display_spoofing_char, url_escape};
use vmod_fileserver::etag::{etag_text, generate_etag};
use vmod_fileserver::path::percent_decode_segment;
use vmod_fileserver::size::human_readable_size;
use vmod_fileserver::text::{contains, decimal, has_char, same, split_at_each, starts_with};
use vmod_fileserver::time::{openat_modified, Timestamp, MAX_SECS, MIN_SECS};

#[test]
fn url_escape_leaves_safe_chars_alone() {
    assert_eq!(url_escape("abc-123_.~/"), "abc-123_.~/");
}

#[test]
fn url_escape_encodes_space_and_reserved_chars() {
    assert_eq!(url_escape("a b#c?d"), "a%20b%23c%3Fd");
}

#[test]
fn url_escape_encodes_every_byte() {
    assert_eq!(url_escape("\u{e9}%\n"), "%C3%A9%25%0A");
    for n in 1..128u8 {
        let s = (n as char).to_string();
        if n != b'/' {
            assert_eq!(percent_decode_segment(&url_escape(&s)).unwrap(), s);
        }
    }
}

#[test]
fn html_escape_escapes_all_special_chars() {
    assert_eq!(
        html_escape("<a href=\"x\">&amp;</a>"),
        "&lt;a href=&quot;x&quot;&gt;&amp;amp;&lt;/a&gt;"
    );
}

#[test]
fn html_escape_neutralizes_control_characters() {
    assert_eq!(
        html_escape("evil\x1b[31mred\x1b[0m"),
        "evil\u{FFFD}[31mred\u{FFFD}[0m"
    );
    assert_eq!(html_escape("a\x7fb\u{0085}c"), "a\u{FFFD}b\u{FFFD}c");
    assert_eq!(html_escape("normal.txt"), "normal.txt");
}

#[test]
fn html_escape_neutralizes_bidi_and_invisible_chars() {
    assert_eq!(html_escape("evil\u{202e}gpj.exe"), "evil\u{FFFD}gpj.exe");
    assert_eq!(html_escape("a\u{200b}b"), "a\u{FFFD}b");
    assert_eq!(html_escape("a\u{FEFF}b"), "a\u{FFFD}b");
    assert_eq!(html_escape("a\u{061c}b"), "a\u{FFFD}b");
    assert_eq!(html_escape("a\u{2028}b\u{2029}c"), "a\u{FFFD}b\u{FFFD}c");
    assert_eq!(
        html_escape("a\u{00ad}b\u{180e}c\u{fe0f}d"),
        "a\u{FFFD}b\u{FFFD}c\u{FFFD}d"
    );
    assert_eq!(html_escape("a\u{e0001}b\u{e0061}c"), "a\u{FFFD}b\u{FFFD}c");
}

#[test]
fn html_escape_agrees_with_is_control() {
    for n in 0..0x11_0000u32 {
        let Some(c) = char::from_u32(n) else { continue };
        let expected = match c {
            '&' => "&amp;".to_string(),
            '<' => "&lt;".to_string(),
            '>' => "&gt;".to_string(),
            '"' => "&quot;".to_string(),
            c if c.is_control() || is_display_spoofing_char(c) => "\u{FFFD}".to_string(),
            c => c.to_string(),
        };
        assert_eq!(html_escape(&c.to_string()), expected);
    }
}

#[test]
fn spoofing_characters() {
    for c in ['\u{200F}', '\u{2060}', '\u{2069}', '\u{202A}', '\u{FE00}', '\u{E0020}', '\u{E007F}'] {
        assert!(is_display_spoofing_char(c));
    }
    for c in ['a', '\u{2010}', '\u{202F}', '\u{206A}', '\u{FE10}', '\u{E0000}', '\u{E0080}'] {
        assert!(!is_display_spoofing_char(c));
    }
}

#[test]
fn human_readable_size_bytes() {
    assert_eq!(human_readable_size(0), "0B");
    assert_eq!(human_readable_size(1023), "1023B");
}

#[test]
fn human_readable_size_kilobytes() {
    assert_eq!(human_readable_size(2048), "2.0K");
}

fn size_in_double_precision(bytes: u64) -> String {
    let units = ["B", "K", "M", "G", "T"];
    let mut size = bytes as f64;
    let mut unit = 0;
    while size >= 1024.0 && unit < units.len() - 1 {
        size /= 1024.0;
        unit += 1;
    }
    if unit == 0 {
        format!("{bytes}B")
    } else {
        format!("{size:.1}{}", units[unit])
    }
}

#[test]
fn human_readable_size_exact_values() {
    assert_eq!(human_readable_size(1024), "1.0K");
    // half way between two tenths: the even one
    assert_eq!(human_readable_size(1280), "1.2K");
    assert_eq!(human_readable_size(1792), "1.8K");
    assert_eq!(human_readable_size(4300), "4.2K");
    assert_eq!(human_readable_size(1024 * 1024 - 1), "1024.0K");
    assert_eq!(human_readable_size(5 * 1024 * 1024), "5.0M");
    assert_eq!(human_readable_size(3 << 30), "3.0G");
    assert_eq!(human_readable_size(7 << 40), "7.0T");
    assert_eq!(human_readable_size(u64::MAX), "16777216.0T");
}

#[test]
fn human_readable_size_follows_double_precision() {
    let mut n: u64 = 1;
    let mut samples: Vec<u64> = (0..20_000).collect();
    while n < 1 << 63 {
        for d in [0, 1, 2, 3, 51, 52, 1023, 1024, 1025] {
            samples.push(n.wrapping_add(d));
            samples.push(n.wrapping_sub(d));
            samples.push(n.wrapping_mul(5) / 4 + d);
            samples.push(n.wrapping_mul(7) / 4 + d);
        }
        n *= 2;
    }
    let mut x: u64 = 0x1234_5678_9abc_def1;
    for i in 0..20_000u32 {
        x = x.wrapping_mul(6364136223846793005).wrapping_add(1442695040888963407);
        samples.push(x >> (i % 64));
    }
    for s in samples {
        assert_eq!(human_readable_size(s), size_in_double_precision(s), "{s}");
    }
}

#[derive(Hash)]
struct Hashed {
    inode: u64,
    size: u64,
    modified: Option<SystemTime>,
}

fn hashed(inode: u64, size: u64, modified: Option<SystemTime>) -> String {
    let mut h = DefaultHasher::new();
    Hashed { inode, size, modified }.hash(&mut h);
    format!("\"{}\"", h.finish())
}

#[test]
fn etag_is_the_hash_of_inode_size_and_time() {
    assert_eq!(generate_etag(7, 1234, None), hashed(7, 1234, None));
    for (secs, nanos) in [(0, 0), (1_700_000_000, 123_456_789), (253_402_300_799, 999_999_999)] {
        let at = SystemTime::UNIX_EPOCH + Duration::new(secs, nanos);
        assert_eq!(
            generate_etag(u64::MAX, 0, Some(Timestamp { secs: secs as i64, nanos })),
            hashed(u64::MAX, 0, Some(at))
        );
    }
    let before = SystemTime::UNIX_EPOCH - Duration::new(1, 500_000_000);
    assert_eq!(
        generate_etag(1, 2, Some(Timestamp { secs: -2, nanos: 500_000_000 })),
        hashed(1, 2, Some(before))
    );
}

#[test]
fn etag_text_is_quoted_decimal() {
    assert_eq!(etag_text(0), "\"0\"");
    assert_eq!(etag_text(u64::MAX), "\"18446744073709551615\"");
}

#[test]
fn timestamps_have_a_date_within_bounds() {
    assert!(Timestamp::new(MIN_SECS, 0).is_some());
    assert!(Timestamp::new(MIN_SECS - 1, 0).is_none());
    assert!(Timestamp::new(MAX_SECS, 999_999_999).is_some());
    assert!(Timestamp::new(MAX_SECS + 1, 0).is_none());
    assert!(Timestamp::new(0, 1_000_000_000).is_none());
    // the bounds are those of the calendar that dates are written in
    assert!(chrono::DateTime::from_timestamp(MIN_SECS, 0).is_some());
    assert!(chrono::DateTime::from_timestamp(MIN_SECS - 1, 999_999_999).is_none());
    assert!(chrono::DateTime::from_timestamp(MAX_SECS, 999_999_999).is_some());
    assert!(chrono::DateTime::from_timestamp(MAX_SECS + 1, 0).is_none());
}

#[test]
fn timestamps_are_ordered() {
    let at = Timestamp { secs: 5, nanos: 7 };
    assert!(at.is_at_or_after(&at));
    assert!(at.is_at_or_after(&Timestamp { secs: 5, nanos: 6 }));
    assert!(!at.is_at_or_after(&Timestamp { secs: 5, nanos: 8 }));
    assert!(at.is_at_or_after(&Timestamp { secs: 4, nanos: 8 }));
    assert!(!at.is_at_or_after(&Timestamp { secs: 6, nanos: 0 }));
}

#[test]
fn modification_times_of_a_stat() {
    assert_eq!(openat_modified(12, 34), Some(Timestamp { secs: 12, nanos: 34 }));
    assert_eq!(openat_modified(-1, 0), None);
    assert_eq!(openat_modified(1, -1), None);
    assert_eq!(openat_modified(1, 1_000_000_000), None);
    assert_eq!(openat_modified(1, 999_999_999), Some(Timestamp { secs: 1, nanos: 999_999_999 }));
}

#[test]
fn text_helpers() {
    assert!(same("a\u{e9}", "a\u{e9}"));
    assert!(!same("ab", "a"));
    assert!(!same("a", "b"));
    assert!(starts_with("..x", ".."));
    assert!(!starts_with("x..", ".."));
    assert!(!starts_with(".", ".."));
    assert!(contains("text/html, application/json;q=1", "application/json"));
    assert!(contains("", ""));
    assert!(!contains("application/jso", "application/json"));
    assert!(has_char("a/b", '/'));
    assert!(!has_char("ab", '/'));
    assert_eq!(split_at_each("/a//b", '/'), ["", "a", "", "b"]);
    assert_eq!(split_at_each("", '/'), [""]);
    assert_eq!(decimal(0), "0");
    assert_eq!(decimal(1_000), "1000");
    assert_eq!(decimal(u64::MAX), "18446744073709551615");
}
