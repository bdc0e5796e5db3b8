//! Request URLs and the paths they stand for.
use std::path::{Path, PathBuf};

use vmod_fileserver::path::{
    assemble_file_path, clamp_segments, decoded_url_path, extension, join_segments,
    normalized_url_path, percent_decode_segment, percent_message, query, redirect_location,
    strip_query, PercentFault,
};

fn tc(root_path: &str, url: &str, expected: &str) {
    assert_eq!(
        PathBuf::from(assemble_file_path(root_path, url).unwrap()),
        PathBuf::from(expected)
    );
}

#[test]
fn simple() {
    tc("/foo/bar", "/baz/qux", "/foo/bar/baz/qux");
}

#[test]
fn simple_slash() {
    tc("/foo/bar/", "/baz/qux", "/foo/bar/baz/qux");
}

#[test]
fn parent() {
    tc("/foo/bar", "/bar/../qux", "/foo/bar/qux");
}

#[test]
fn too_many_parents() {
    tc("/foo/bar", "/bar/../../qux", "/foo/bar/qux");
}

#[test]
fn current() {
    tc("/foo/bar", "/bar/././qux", "/foo/bar/bar/qux");
}

#[test]
fn percent_decoded() {
    tc("/foo/bar", "/has%20space.txt", "/foo/bar/has space.txt");
}

#[test]
fn percent_encoded_parent_is_clamped() {
    tc("/foo/bar", "/bar/%2e%2e/qux", "/foo/bar/qux");
}

#[test]
fn percent_encoded_slash_is_rejected() {
    assert!(clamp_segments("/foo%2fbar").is_err());
}

#[test]
fn percent_encoded_nul_is_rejected() {
    assert!(clamp_segments("/foo%00bar").is_err());
}

#[test]
fn malformed_percent_encoding_is_rejected() {
    assert!(clamp_segments("/foo%2").is_err());
    assert!(clamp_segments("/foo%zz").is_err());
}

#[test]
fn strip_query_removes_suffix() {
    assert_eq!(strip_query("/app.js?v=123"), "/app.js");
}

#[test]
fn strip_query_no_query_string() {
    assert_eq!(strip_query("/app.js"), "/app.js");
}

#[test]
fn strip_query_empty_query_string() {
    assert_eq!(strip_query("/app.js?"), "/app.js");
}

#[test]
fn strip_query_only_query_string() {
    assert_eq!(strip_query("?v=123"), "");
}

#[test]
fn strip_query_multiple_question_marks() {
    assert_eq!(strip_query("/app.js?v=123?extra=456"), "/app.js");
}

#[test]
fn normalized_url_path_root() {
    assert_eq!(normalized_url_path(&[]), "/");
}

#[test]
fn normalized_url_path_nested() {
    let segments = ["a".to_string(), "has space".to_string()];
    assert_eq!(normalized_url_path(&segments), "/a/has%20space/");
}

#[test]
fn decoded_url_path_is_not_escaped() {
    let segments = ["a".to_string(), "has space".to_string()];
    assert_eq!(decoded_url_path(&segments), "/a/has space/");
    assert_eq!(decoded_url_path(&[]), "/");
}

#[test]
fn segments_are_decoded_and_joined() {
    let segments = clamp_segments("//a//%62/./c%C3%A9/").unwrap();
    assert_eq!(segments, ["a", "b", "c\u{e9}"]);
    assert_eq!(join_segments("/root", &segments), "/root/a/b/c\u{e9}");
    assert_eq!(join_segments("/root", &[]), "/root");
}

#[test]
fn parents_never_lead_above_the_root() {
    assert_eq!(clamp_segments("/../../../x").unwrap(), ["x"]);
    assert_eq!(clamp_segments("/a/%2E./..%2e").unwrap(), ["..."]);
    assert!(clamp_segments("/a/..").unwrap().is_empty());
    assert!(clamp_segments("").unwrap().is_empty());
}

#[test]
fn decoding_tells_what_is_wrong() {
    let e = percent_decode_segment("a%2Fb").unwrap_err();
    assert_eq!(e.fault, PercentFault::Forbidden);
    assert_eq!(
        e.message(),
        "fileserver: invalid percent-encoded byte in \"a%2Fb\""
    );
    let e = percent_decode_segment("a%0").unwrap_err();
    assert_eq!(e.fault, PercentFault::Malformed);
    assert_eq!(
        e.message(),
        "fileserver: malformed percent-encoding in \"a%0\""
    );
    let e = percent_decode_segment("%FF").unwrap_err();
    assert_eq!(e.fault, PercentFault::NotUtf8);
    assert_eq!(e.message(), "fileserver: invalid UTF-8 in \"%FF\"");
    // the quotation is the debug form of the segment
    let e = percent_decode_segment("\"\n%").unwrap_err();
    assert_eq!(
        e.message(),
        format!("fileserver: malformed percent-encoding in {:?}", "\"\n%")
    );
    // a sign is not a hexadecimal digit
    assert!(percent_decode_segment("%+5").is_err());
    assert!(percent_decode_segment("%\u{e9}").is_err());
}

#[test]
fn messages_about_a_quoted_segment() {
    assert_eq!(
        percent_message(PercentFault::Malformed, "<q>"),
        "fileserver: malformed percent-encoding in <q>"
    );
    assert_eq!(
        percent_message(PercentFault::Forbidden, "<q>"),
        "fileserver: invalid percent-encoded byte in <q>"
    );
    assert_eq!(
        percent_message(PercentFault::NotUtf8, "<q>"),
        "fileserver: invalid UTF-8 in <q>"
    );
}

#[test]
fn decoding_accepts_both_cases() {
    assert_eq!(percent_decode_segment("%c3%A9x").unwrap(), "\u{e9}x");
    assert_eq!(percent_decode_segment("").unwrap(), "");
    assert_eq!(percent_decode_segment("100%25").unwrap(), "100%");
}

#[test]
fn the_first_fault_is_reported() {
    let e = clamp_segments("/ok/%zz/%2f").unwrap_err();
    assert_eq!(e.fault, PercentFault::Malformed);
    assert_eq!(e.segment, "%zz");
}

#[test]
fn queries_are_found() {
    assert_eq!(query("/a?b?c"), Some("b?c"));
    assert_eq!(query("/a?"), Some(""));
    assert_eq!(query("/a"), None);
}

#[test]
fn redirects_are_rebuilt_from_the_segments() {
    let segments = clamp_segments("//evil.example.com").unwrap();
    assert_eq!(redirect_location(&segments, None), "/evil.example.com/");
    assert_eq!(
        redirect_location(&segments, Some("x=1&y")),
        "/evil.example.com/?x=1&y"
    );
    assert_eq!(redirect_location(&[], None), "/");
}

#[test]
fn redirect_resolves_to_the_same_segments() {
    let segments = clamp_segments("/a%20b/%25/../%3f").unwrap();
    let location = redirect_location(&segments, Some("q"));
    assert_eq!(location, "/a%20b/%3F/?q");
    assert_eq!(clamp_segments(strip_query(&location)).unwrap(), segments);
}

#[test]
fn extensions_are_those_of_std() {
    let paths = [
        "/a/b.txt",
        "/a/b",
        "/a/.hidden",
        "/a/.hidden.txt",
        "/a/b.tar.gz",
        "/a/b.",
        "/a/b.txt/",
        "/a/b.txt/.",
        "/a/b.txt/..",
        "/a.d/b",
        "/",
        "",
        ".",
        "..",
        "...",
        "x..y",
        "/a/b.\u{e9}",
    ];
    for p in paths {
        let expected = Path::new(p).extension().map(|e| e.to_str().unwrap().to_string());
        assert_eq!(extension(p), expected, "{p:?}");
    }
}
