//! Requests and their answers.
use vmod_fileserver::backend::{file_backend, FileBackend};
use vmod_fileserver::etag::generate_etag;
use vmod_fileserver::fetch::{sob_helper, Opened, Request, Step, StrOrBytes};
use vmod_fileserver::listing::{EntryFacts, Listing, RawEntry, SimpleType};
use vmod_fileserver::negotiation::AutoindexFormat;
use vmod_fileserver::reply::{is_not_modified, listing_reply, FileFacts, Reply};
use vmod_fileserver::time::Timestamp;
use vmod_fileserver::transfer::{FileTransfer, MemTransfer};
use vmod_fileserver::walk::{
    open_regular, open_regular_at, segment_name, walk_segments, Hop, OpenError,
};

#[test]
fn sob_helper_returns_the_str_for_utf8() {
    assert_eq!(sob_helper(StrOrBytes::Utf8("hello")), Some("hello"));
}

#[test]
fn sob_helper_returns_none_for_non_utf8_instead_of_panicking() {
    assert_eq!(sob_helper(StrOrBytes::Bytes(&[0xff, 0xfe])), None);
}

fn backend(follow_links: bool) -> FileBackend {
    let mut setup = file_backend::root("www", "/srv", None, follow_links).ok().unwrap();
    setup.load_mimes(Ok("text/html html\ntext/plain txt\n".to_string())).unwrap();
    setup.finish(Ok(())).ok().unwrap().backend
}

fn get(url: &str) -> Request<'_> {
    Request {
        url: StrOrBytes::Utf8(url),
        method: Some(StrOrBytes::Utf8("GET")),
        accept: None,
        if_none_match: None,
        if_modified_since: None,
    }
}

fn head(url: &str) -> Request<'_> {
    Request { method: Some(StrOrBytes::Utf8("HEAD")), ..get(url) }
}

fn file(size: u64) -> FileFacts {
    FileFacts { inode: 3, size, modified: Some(Timestamp { secs: 784_111_777, nanos: 0 }) }
}

fn reply(step: Step) -> Reply {
    match step {
        Step::Reply(r) => r,
        _ => panic!("not answered"),
    }
}

fn status(step: Step) -> u16 {
    reply(step).status
}

/// What answering a request asks for next, where the target is found to be this.
fn opened(b: &FileBackend, request: Request, found: Opened) -> u16 {
    match b.get_response(request) {
        Step::Open(s) => status(s.opened(found)),
        _ => panic!("nothing to open"),
    }
}

fn headers(r: &Reply) -> Vec<(&str, &str)> {
    r.headers.iter().map(|(n, v)| (n.as_str(), v.as_str())).collect()
}

#[test]
fn bad_requests_are_refused() {
    let b = backend(false);
    let request = Request { url: StrOrBytes::Bytes(&[0xff]), ..get("/") };
    assert_eq!(status(b.get_response(request)), 400);
    // a bad URL comes before a bad method, and that before a bad encoding
    let request = Request { method: None, ..request };
    assert_eq!(status(b.get_response(request)), 400);
    let request = Request { method: None, ..get("/%zz") };
    assert_eq!(status(b.get_response(request)), 405);
    for method in ["POST", "get", "", "GETX"] {
        let request = Request { method: Some(StrOrBytes::Utf8(method)), ..get("/") };
        assert_eq!(status(b.get_response(request)), 405);
    }
    let request = Request { method: Some(StrOrBytes::Bytes(b"GET")), ..get("/") };
    assert_eq!(status(b.get_response(request)), 405);
    assert_eq!(status(b.get_response(get("/%2f"))), 400);
    assert_eq!(status(b.get_response(head("/%"))), 400);
    // the query string is not decoded
    assert!(matches!(b.get_response(get("/?%")), Step::Open(_)));
    let r = reply(b.get_response(get("/%00")));
    assert!(r.headers.is_empty() && r.transfer.is_none() && r.proto.is_none());
}

#[test]
fn targets_lie_below_the_root() {
    let b = backend(false);
    let Step::Open(s) = b.get_response(get("/../a%20b/./c?x=../..")) else { panic!() };
    assert_eq!(s.target.segments, ["a b", "c"]);
    assert_eq!(s.target.path, "/srv/a b/c");
    assert_eq!(s.target.redirect.as_deref(), Some("/a%20b/c/?x=../.."));
    assert!(s.target.is_get);
    let Step::Open(s) = b.get_response(head("/?q")) else { panic!() };
    assert!(s.target.segments.is_empty());
    assert_eq!(s.target.path, "/srv");
    assert_eq!(s.target.redirect, None);
    assert!(!s.target.is_get);
}

#[test]
fn queries_play_no_part() {
    let b = backend(false);
    for url in ["/f.txt", "/f.txt?", "/f.txt?v=1", "/f.txt?a/../b?%zz"] {
        let Step::Open(s) = b.get_response(get(url)) else { panic!() };
        assert_eq!(s.target.path, "/srv/f.txt");
        let r = reply(s.opened(Opened::Regular(file(5))));
        assert_eq!(r.status, 200);
        assert_eq!(headers(&r)[3], ("content-type", "text/plain"));
    }
}

#[test]
fn targets_that_cannot_be_opened() {
    let b = backend(false);
    assert_eq!(opened(&b, get("/x"), Opened::Failed(OpenError::NotFound)), 404);
    assert_eq!(opened(&b, get("/x/y"), Opened::Failed(OpenError::NotADirectory)), 404);
    assert_eq!(opened(&b, get("/x"), Opened::Failed(OpenError::PermissionDenied)), 403);
    for found in [
        Opened::Failed(OpenError::Other("loop".to_string())),
        Opened::Unknown("loop".to_string()),
    ] {
        let Step::Open(s) = b.get_response(get("/x")) else { panic!() };
        assert!(matches!(s.opened(found), Step::Fail(reason) if reason == "loop"));
    }
}

#[test]
fn a_slash_is_for_directories() {
    let b = backend(false);
    assert_eq!(opened(&b, get("/f.txt/"), Opened::Regular(file(1))), 404);
    assert_eq!(opened(&b, get("/f.txt/?q"), Opened::Regular(file(1))), 404);
    let Step::Open(s) = b.get_response(get("/d?q=/")) else { panic!() };
    let r = reply(s.opened(Opened::Directory));
    assert_eq!(r.status, 301);
    assert_eq!(headers(&r), [("location", "/d/?q=/")]);
    assert!(r.transfer.is_none());
    assert_eq!(opened(&b, get("/d/"), Opened::Directory), 403);
}

#[test]
fn files_are_served() {
    let b = backend(false);
    let etag = generate_etag(3, 5, Some(Timestamp { secs: 784_111_777, nanos: 0 }));
    let expected = [
        ("content-length", "5"),
        ("etag", etag.as_str()),
        ("last-modified", "Sun, 06 Nov 1994 08:49:37 GMT"),
        ("content-type", "text/plain"),
    ];
    let Step::Open(s) = b.get_response(get("/f.txt")) else { panic!() };
    let r = reply(s.opened(Opened::Regular(file(5))));
    assert_eq!(r.status, 200);
    assert_eq!(r.proto.as_deref(), Some("HTTP/1.1"));
    assert_eq!(headers(&r), expected);
    assert!(matches!(r.transfer, Some(FileTransfer::File(5))));

    let Step::Open(s) = b.get_response(head("/f.txt")) else { panic!() };
    let r = reply(s.opened(Opened::Regular(file(5))));
    assert_eq!(r.status, 200);
    assert_eq!(headers(&r), expected);
    assert!(r.transfer.is_none());
}

#[test]
fn media_types_need_content_and_an_extension() {
    let b = backend(false);
    for (url, size) in [("/f.txt", 0), ("/f.bin", 5), ("/f", 5), ("/.txt", 5), ("/f.TXT", 5)] {
        let Step::Open(s) = b.get_response(get(url)) else { panic!() };
        let r = reply(s.opened(Opened::Regular(file(size))));
        assert_eq!(r.status, 200);
        assert_eq!(r.headers.len(), 3, "{url}");
    }
    let setup = file_backend::root("www", "/srv", Some(""), false).ok().unwrap();
    let b = setup.finish(Ok(())).ok().unwrap().backend;
    assert_eq!(b.content_type("/srv/f.txt"), None);
}

#[test]
fn files_without_a_modification_time() {
    let b = backend(false);
    let facts = FileFacts { modified: None, ..file(5) };
    let request =
        Request { if_modified_since: Some(StrOrBytes::Utf8("Sun, 06 Nov 2094 08:49:37 GMT")), ..get("/f.txt") };
    let Step::Open(s) = b.get_response(request) else { panic!() };
    let r = reply(s.opened(Opened::Regular(facts)));
    assert_eq!(r.status, 200);
    let names: Vec<&str> = r.headers.iter().map(|(n, _)| n.as_str()).collect();
    assert_eq!(names, ["content-length", "etag", "content-type"]);
}

fn conditional(
    b: &FileBackend,
    if_none_match: Option<&str>,
    if_modified_since: Option<&str>,
    nanos: u32,
) -> u16 {
    let request = Request {
        if_none_match: if_none_match.map(StrOrBytes::Utf8),
        if_modified_since: if_modified_since.map(StrOrBytes::Utf8),
        ..get("/f.txt")
    };
    let facts = FileFacts { inode: 3, size: 5, modified: Some(Timestamp { secs: 784_111_777, nanos }) };
    opened(b, request, Opened::Regular(facts))
}

#[test]
fn known_files_are_not_sent_again() {
    let b = backend(false);
    let etag = generate_etag(3, 5, Some(Timestamp { secs: 784_111_777, nanos: 0 }));
    let weak = format!("W/{etag}");
    assert_eq!(conditional(&b, Some(&etag), None, 0), 304);
    assert_eq!(conditional(&b, Some(&weak), None, 0), 304);
    assert_eq!(conditional(&b, Some(&format!("W/{weak}")), None, 0), 200);
    assert_eq!(conditional(&b, Some("*"), None, 0), 200);
    assert_eq!(conditional(&b, Some("W/"), None, 0), 200);
    // a tag takes precedence over a date
    let later = "Sun, 06 Nov 2094 08:49:37 GMT";
    assert_eq!(conditional(&b, Some("\"1\""), Some(later), 0), 200);
}

#[test]
fn unmodified_files_are_not_sent_again() {
    let b = backend(false);
    let same = "Sun, 06 Nov 1994 08:49:37 GMT";
    assert_eq!(conditional(&b, None, Some(same), 0), 304);
    assert_eq!(conditional(&b, None, Some("Sun, 06 Nov 1994 08:49:38 GMT"), 0), 304);
    assert_eq!(conditional(&b, None, Some("Sun, 06 Nov 1994 08:49:36 GMT"), 0), 200);
    assert_eq!(conditional(&b, None, Some("Sun, 06 Nov 1994 09:49:37 +0100"), 0), 304);
    assert_eq!(conditional(&b, None, Some("1994-11-06"), 0), 200);
    // the header has whole seconds only
    assert_eq!(conditional(&b, None, Some(same), 1), 200);
    assert_eq!(conditional(&b, None, None, 0), 200);
    // a tag that is not text is no tag
    let request = Request {
        if_none_match: Some(StrOrBytes::Bytes(&[0xff])),
        if_modified_since: Some(StrOrBytes::Utf8(same)),
        ..get("/f.txt")
    };
    assert_eq!(opened(&b, request, Opened::Regular(file(5))), 304);
}

#[test]
fn a_304_has_the_headers_and_no_body() {
    let b = backend(false);
    let request = Request {
        if_modified_since: Some(StrOrBytes::Utf8("Sun, 06 Nov 1994 08:49:37 GMT")),
        ..get("/f.txt")
    };
    let Step::Open(s) = b.get_response(request) else { panic!() };
    let r = reply(s.opened(Opened::Regular(file(5))));
    assert_eq!(r.status, 304);
    assert_eq!(r.headers.len(), 4);
    assert!(r.transfer.is_none());
}

#[test]
fn echoed_dates_are_read_back() {
    // from the first to the last second whose year has four digits
    for secs in [-62_167_219_200, -1, 0, 68_169_600, 951_782_400, 4_102_444_800, 253_402_300_799] {
        let b = backend(false);
        let facts = FileFacts { inode: 1, size: 1, modified: Some(Timestamp { secs, nanos: 0 }) };
        let Step::Open(s) = b.get_response(get("/f.txt")) else { panic!() };
        let r = reply(s.opened(Opened::Regular(facts)));
        let date = r.headers[2].1.clone();
        let request = Request { if_modified_since: Some(StrOrBytes::Utf8(&date)), ..get("/f.txt") };
        assert_eq!(opened(&b, request, Opened::Regular(facts)), 304, "{date}");
        let b = with_index(true, &["a.html"]);
        let request = Request { if_modified_since: Some(StrOrBytes::Utf8(&date)), ..get("/d/") };
        let Step::Open(s) = b.get_response(request) else { panic!() };
        let Step::Try(s) = s.opened(Opened::Directory) else { panic!() };
        assert_eq!(status(s.opened(Opened::Regular(facts))), 304, "{date}");
    }
}

#[test]
fn not_modified_by_tag_or_by_time() {
    let m = Some(Timestamp { secs: 10, nanos: 5 });
    assert!(is_not_modified("\"1\"", Some("\"1\""), None, m));
    assert!(is_not_modified("\"1\"", Some("W/\"1\""), None, None));
    assert!(!is_not_modified("\"1\"", Some("\"2\""), Some((11, 0)), m));
    assert!(is_not_modified("\"1\"", None, Some((10, 5)), m));
    assert!(!is_not_modified("\"1\"", None, Some((10, 4)), m));
    assert!(!is_not_modified("\"1\"", None, None, m));
    assert!(!is_not_modified("\"1\"", None, Some((11, 0)), None));
}

#[test]
fn replies_about_a_file() {
    let b = backend(false);
    let r = b.file_reply(true, "/srv/a.html", 7, "\"tag\"", Some("DATE"), false);
    assert_eq!(r.status, 200);
    assert_eq!(
        headers(&r),
        [
            ("content-length", "7"),
            ("etag", "\"tag\""),
            ("last-modified", "DATE"),
            ("content-type", "text/html")
        ]
    );
    assert!(matches!(r.transfer, Some(FileTransfer::File(7))));
    let r = b.file_reply(true, "/srv/a", 7, "\"tag\"", None, true);
    assert_eq!(r.status, 304);
    assert_eq!(headers(&r), [("content-length", "7"), ("etag", "\"tag\"")]);
    assert!(r.transfer.is_none());
}

fn with_index(follow_links: bool, names: &[&str]) -> FileBackend {
    let mut b = file_backend { backend: backend(follow_links) };
    for n in names {
        b.index_file(n).unwrap();
    }
    b.backend
}

#[test]
fn index_files_are_tried_in_order() {
    let b = with_index(false, &["a.html", "b.txt", "c.html"]);
    let Step::Open(s) = b.get_response(get("/d/")) else { panic!() };
    let Step::OpenDir(s) = s.opened(Opened::Directory) else { panic!() };
    let Step::Try(s) = s.opened(true) else { panic!() };
    assert_eq!((s.name.as_str(), s.path.as_str()), ("a.html", "/srv/d/a.html"));
    let Step::Try(s) = s.opened(Opened::Directory) else { panic!() };
    assert_eq!((s.name.as_str(), s.path.as_str()), ("b.txt", "/srv/d/b.txt"));
    let r = reply(s.opened(Opened::Regular(file(5))));
    assert_eq!(r.status, 200);
    assert_eq!(headers(&r)[3], ("content-type", "text/plain"));
    assert!(matches!(r.transfer, Some(FileTransfer::File(5))));
}

#[test]
fn directories_without_an_index_file_are_refused() {
    let b = with_index(true, &["a.html"]);
    let Step::Open(s) = b.get_response(get("/d/")) else { panic!() };
    let Step::Try(s) = s.opened(Opened::Directory) else { panic!() };
    assert_eq!(status(s.opened(Opened::Failed(OpenError::Other("loop".to_string())))), 403);
    let b = with_index(false, &["a.html"]);
    let Step::Open(s) = b.get_response(get("/d/")) else { panic!() };
    let Step::OpenDir(s) = s.opened(Opened::Directory) else { panic!() };
    assert_eq!(status(s.opened(false)), 403);
}

#[test]
fn index_files_of_a_root_that_ends_with_a_slash() {
    let setup = file_backend::root("www", "/srv/", Some(""), true).ok().unwrap();
    let mut b = setup.finish(Ok(())).ok().unwrap();
    b.index_file("index.html").unwrap();
    let Step::Open(s) = b.backend.get_response(get("/")) else { panic!() };
    let Step::Try(s) = s.opened(Opened::Directory) else { panic!() };
    assert_eq!(s.path, "/srv/index.html");
}

fn listing_backend() -> FileBackend {
    let mut b = file_backend { backend: backend(true) };
    b.autoindex(true);
    b.backend
}

fn listing() -> Listing {
    let mut l = Listing::new();
    for (name, kind) in [("b.txt", SimpleType::File), ("dir", SimpleType::Dir)] {
        l.examine(RawEntry::Named(name));
        l.record(name, Some(EntryFacts { kind, len: 9, modified: None }));
    }
    l
}

#[test]
fn directories_are_listed() {
    let b = listing_backend();
    let Step::Open(s) = b.get_response(get("/a%20b/")) else { panic!() };
    let Step::List(s) = s.opened(Opened::Directory) else { panic!() };
    let r = reply(s.listed(Some(listing())));
    assert_eq!(r.status, 200);
    assert_eq!(r.proto, None);
    let Some(FileTransfer::Mem(m)) = &r.transfer else { panic!() };
    let page = String::from_utf8(m.body.clone()).unwrap();
    assert!(page.contains("<title>Index of /a b/</title>"));
    assert!(page.find("dir/").unwrap() < page.find("b.txt").unwrap());
    let length = format!("{}", m.body.len());
    assert_eq!(
        headers(&r),
        [
            ("vary", "accept"),
            ("cache-control", "no-store, max-age=0"),
            ("content-length", length.as_str()),
            ("content-type", "text/html; charset=utf-8"),
        ]
    );

    let Step::Open(s) = b.get_response(head("/a%20b/")) else { panic!() };
    let Step::List(s) = s.opened(Opened::Directory) else { panic!() };
    let h = reply(s.listed(Some(listing())));
    assert_eq!(h.status, 200);
    assert_eq!(h.headers, r.headers);
    assert!(h.transfer.is_none());
}

#[test]
fn failed_listings_are_refused() {
    let b = listing_backend();
    let Step::Open(s) = b.get_response(get("/")) else { panic!() };
    let Step::List(s) = s.opened(Opened::Directory) else { panic!() };
    assert_eq!(status(s.listed(None)), 403);
    let request = Request { accept: Some(StrOrBytes::Utf8("text/yaml")), ..get("/") };
    let Step::Open(s) = b.get_response(request) else { panic!() };
    let Step::List(s) = s.opened(Opened::Directory) else { panic!() };
    let Step::Write(s) = s.listed(Some(listing())) else { panic!() };
    assert_eq!(s.format, AutoindexFormat::Yaml);
    assert_eq!(status(s.written(None)), 403);
}

#[test]
fn other_formats_are_written_elsewhere() {
    let b = listing_backend();
    let request = Request { accept: Some(StrOrBytes::Utf8("application/json")), ..get("/") };
    let Step::Open(s) = b.get_response(request) else { panic!() };
    let Step::List(s) = s.opened(Opened::Directory) else { panic!() };
    let mut l = listing();
    l.truncated = true;
    let Step::Write(s) = s.listed(Some(l)) else { panic!() };
    assert_eq!(s.format, AutoindexFormat::Json);
    assert_eq!(s.entries[0].name, "dir");
    assert_eq!(s.entries[1].name, "b.txt");
    let r = reply(s.written(Some(b"[]".to_vec())));
    assert_eq!(
        headers(&r),
        [
            ("vary", "accept"),
            ("cache-control", "no-store, max-age=0"),
            ("content-length", "2"),
            ("content-type", "application/json"),
            ("x-fileserver-truncated", "true"),
        ]
    );
}

#[test]
fn listing_replies() {
    let r = listing_reply(false, AutoindexFormat::Yaml, vec![1, 2, 3], false);
    assert_eq!(r.status, 200);
    assert_eq!(headers(&r)[2], ("content-length", "3"));
    assert_eq!(headers(&r)[3], ("content-type", "application/x-yaml"));
    assert!(r.transfer.is_none());
}

#[test]
fn bodies_in_memory_are_read_in_pieces() {
    let mut m = MemTransfer::new(b"hello world".to_vec());
    assert_eq!(m.len(), 11);
    let mut buf = [b'-'; 4];
    let mut all = Vec::new();
    loop {
        let n = m.read(&mut buf);
        if n == 0 {
            break;
        }
        all.extend_from_slice(&buf[..n]);
    }
    assert_eq!(all, b"hello world");
    assert_eq!(m.len(), 0);
    // the last read left the end of the buffer alone
    assert_eq!(&buf, b"rldo");
    assert_eq!(FileTransfer::File(7).len(), Some(7));
    let mut m = MemTransfer::new(b"abc".to_vec());
    m.read(&mut [0; 1]);
    assert_eq!(FileTransfer::Mem(m).len(), Some(2));
}

#[test]
fn the_length_is_what_is_left() {
    let mut buf = [b'-'; 4];
    let mut t = FileTransfer::File(10);
    assert_eq!(t.wanted(4), 4);
    assert_eq!(t.read(&mut buf, 4), 4);
    assert_eq!(t.len(), Some(6));
    // a file may give less than is wanted
    assert_eq!(t.read(&mut buf, 1), 1);
    assert_eq!(t.len(), Some(5));
    assert_eq!(t.wanted(100), 5);
    t.advance(5);
    assert_eq!(t.len(), Some(0));
    assert_eq!(t.wanted(4), 0);
    assert_eq!(t.read(&mut buf, 0), 0);
    assert_eq!(&buf, b"----");

    let mut t = FileTransfer::Mem(MemTransfer::new(b"hello".to_vec()));
    assert_eq!(t.wanted(4), 4);
    assert_eq!(t.read(&mut buf, 0), 4);
    assert_eq!(&buf, b"hell");
    assert_eq!(t.len(), Some(1));
    assert_eq!(t.wanted(4), 1);
    t.advance(1);
    assert_eq!(t.len(), Some(0));
    assert_eq!(FileTransfer::File(u64::MAX).wanted(7), 7);
}

#[test]
fn walks_follow_no_link() {
    let segments = ["a".to_string(), "b".to_string()];
    let kind = Some(SimpleType::Dir);
    assert!(matches!(walk_segments(&segments, 0, kind), Hop::Enter("a")));
    assert!(matches!(walk_segments(&segments, 0, None), Hop::Enter("a")));
    assert!(matches!(
        walk_segments(&segments, 0, Some(SimpleType::Symlink)),
        Hop::Fail(OpenError::Other(_))
    ));
    assert!(matches!(walk_segments(&segments, 1, Some(SimpleType::File)), Hop::Open("b")));
    // opening a link fails by itself
    assert!(matches!(walk_segments(&segments, 1, Some(SimpleType::Symlink)), Hop::Open("b")));
    assert!(matches!(
        walk_segments(&segments, 1, Some(SimpleType::Other)),
        Hop::Fail(OpenError::PermissionDenied)
    ));
    assert!(matches!(walk_segments(&[], 0, kind), Hop::Open(".")));
    assert_eq!(segment_name(&segments, 1), "b");
    assert_eq!(segment_name(&[], 0), ".");
}

#[test]
fn only_files_and_directories_are_opened() {
    assert!(open_regular(None).is_ok());
    assert!(open_regular(Some(SimpleType::Other)).is_err());
    assert!(open_regular_at(None).is_ok());
    assert!(open_regular_at(Some((true, false))).is_ok());
    assert!(open_regular_at(Some((false, true))).is_ok());
    assert!(matches!(
        open_regular_at(Some((false, false))),
        Err(OpenError::PermissionDenied)
    ));
}
