//! Responses.
use vstd::prelude::*;
use vstd::string::*;

use crate::backend::Config;
use crate::backend::FileBackend;
use crate::etag;
use crate::negotiation::AutoindexFormat;
use crate::path;
use crate::text;
use crate::time;
use crate::time::Timestamp;
use crate::transfer::Body;
use crate::transfer::FileTransfer;
use crate::transfer::MemTransfer;

verus! {

/// A response: its status, the protocol version where it is set, its headers in
/// order, and its body if it has one.
#[derive(Debug)]
pub struct Reply {
    pub status: u16,
    pub proto: Option<String>,
    pub headers: Vec<(String, String)>,
    pub transfer: Option<FileTransfer>,
}

/// What a response holds.
pub struct ReplyView {
    pub status: u16,
    pub proto: Option<Seq<char>>,
    pub headers: Seq<(Seq<char>, Seq<char>)>,
    pub body: Option<Body>,
}

/// The names and the values of headers.
pub open spec fn header_views(headers: Seq<(String, String)>) -> Seq<(Seq<char>, Seq<char>)> {
    Seq::new(headers.len(), |i: int| (headers[i].0@, headers[i].1@))
}

impl View for Reply {
    type V = ReplyView;

    open spec fn view(&self) -> ReplyView {
        ReplyView {
            status: self.status,
            proto: match self.proto {
                Some(p) => Some(p@),
                None => None,
            },
            headers: header_views(self.headers@),
            body: match self.transfer {
                Some(t) => Some(t@),
                None => None,
            },
        }
    }
}

impl Reply {
    /// A body of which no more was read than there is.
    pub open spec fn is_valid(&self) -> bool {
        self.transfer matches Some(t) ==> t.is_valid()
    }

    /// A response with neither headers nor a body.
    pub fn plain(status: u16) -> (r: Reply)
        ensures
            r@ == plain(status),
            r.is_valid(),
    {
        let r = Reply { status, proto: None, headers: Vec::new(), transfer: None };
        assert(r@.headers =~= seq![]);
        r
    }

    /// Adds a header.
    pub fn set_header(&mut self, name: &str, value: &str)
        ensures
            final(self)@ == (ReplyView {
                headers: old(self)@.headers.push((name@, value@)),
                ..old(self)@
            }),
            final(self).transfer == old(self).transfer,
    {
        self.headers.push((name.to_owned(), value.to_owned()));
        assert(self@.headers =~= old(self)@.headers.push((name@, value@)));
    }
}

/// A response with neither headers nor a body.
pub open spec fn plain(status: u16) -> ReplyView {
    ReplyView { status, proto: None, headers: seq![], body: None }
}

/// The redirect to a location.
pub open spec fn redirect(location: Seq<char>) -> ReplyView {
    ReplyView { headers: seq![("location"@, location)], ..plain(301) }
}

/// What a file holds, as far as a response tells of it.
#[derive(Clone, Copy, Debug)]
pub struct FileFacts {
    pub inode: u64,
    pub size: u64,
    pub modified: Option<Timestamp>,
}

impl FileFacts {
    /// Whether the modification time, if there is one, has a calendar date.
    pub open spec fn is_dated(self) -> bool {
        self.modified matches Some(m) ==> m.has_date()
    }
}

/// Whether the client has the file already: where it sent entity tags, if they
/// are the file's one, strong or weak; otherwise, if the file did not change
/// after the point in time that the client gave.
pub open spec fn not_modified(
    etag: Seq<char>,
    if_none_match: Option<Seq<char>>,
    since: Option<(i64, u32)>,
    modified: Option<Timestamp>,
) -> bool {
    match if_none_match {
        Some(t) => t == etag || t == "W/"@ + etag,
        None => match (since, modified) {
            (Some((secs, nanos)), Some(m)) => (Timestamp { secs, nanos }).not_before(m),
            _ => false,
        },
    }
}

/// The media type of a file, if it is known: it goes by the extension.
pub open spec fn content_type(config: Config, path: Seq<char>) -> Option<Seq<char>> {
    match (path::path_extension(path), config.mimes) {
        (Some(ext), Some(mimes)) => if mimes.contains_key(ext) {
            Some(mimes[ext])
        } else {
            None
        },
        _ => None,
    }
}

/// The headers of a response about a file. An empty file has no media type.
pub open spec fn file_headers(
    config: Config,
    path: Seq<char>,
    size: u64,
    etag: Seq<char>,
    last_modified: Option<Seq<char>>,
) -> Seq<(Seq<char>, Seq<char>)> {
    seq![("content-length"@, text::digits(size as nat)), ("etag"@, etag)] + (match last_modified {
        Some(t) => seq![("last-modified"@, t)],
        None => seq![],
    }) + (match content_type(config, path) {
        Some(t) if size > 0 => seq![("content-type"@, t)],
        _ => seq![],
    })
}

/// The response about a file that can be served: its content only for a `GET`,
/// and only if the client does not have it already.
pub open spec fn file_response(
    config: Config,
    is_get: bool,
    path: Seq<char>,
    size: u64,
    etag: Seq<char>,
    last_modified: Option<Seq<char>>,
    unchanged: bool,
) -> ReplyView {
    ReplyView {
        status: if unchanged {
            304
        } else {
            200
        },
        proto: Some("HTTP/1.1"@),
        headers: file_headers(config, path, size, etag, last_modified),
        body: if is_get && !unchanged {
            Some(Body::File(size))
        } else {
            None
        },
    }
}

/// The point in time that an `if-modified-since` header stands for, if any.
pub open spec fn since_instant(if_modified_since: Option<Seq<char>>) -> Option<(i64, u32)> {
    match if_modified_since {
        Some(t) => time::rfc2822_instant(t),
        None => None,
    }
}

/// The text of the `last-modified` header.
pub open spec fn last_modified_text(modified: Option<Timestamp>) -> Option<Seq<char>> {
    match modified {
        Some(m) => Some(time::utc_text(m.secs, m.nanos, time::http_pattern())),
        None => None,
    }
}

/// Whether a client sends back the `last-modified` header of the file, for a
/// year of four digits, and no entity tag. The header has whole seconds only.
pub open spec fn sends_back_the_date(
    if_none_match: Option<Seq<char>>,
    if_modified_since: Option<Seq<char>>,
    facts: FileFacts,
) -> bool {
    &&& if_none_match is None
    &&& facts.modified matches Some(m)
    &&& -62_167_219_200 <= m.secs <= 253_402_300_799
    &&& if_modified_since == last_modified_text(facts.modified)
}

/// The response to a request for a file.
pub open spec fn served(
    config: Config,
    is_get: bool,
    if_none_match: Option<Seq<char>>,
    if_modified_since: Option<Seq<char>>,
    path: Seq<char>,
    facts: FileFacts,
) -> ReplyView {
    let etag = etag::file_tag(facts.inode, facts.size, facts.modified);
    file_response(
        config,
        is_get,
        path,
        facts.size,
        etag,
        last_modified_text(facts.modified),
        not_modified(etag, if_none_match, since_instant(if_modified_since), facts.modified),
    )
}

/// The response that carries a listing of the given format.
pub open spec fn listing_response(
    is_get: bool,
    format: AutoindexFormat,
    body: Seq<u8>,
    truncated: bool,
) -> ReplyView {
    ReplyView {
        status: 200,
        proto: None,
        headers: seq![
            ("vary"@, "accept"@),
            ("cache-control"@, "no-store, max-age=0"@),
            ("content-length"@, text::digits(body.len())),
            ("content-type"@, format.media_type()),
        ] + if truncated {
            seq![("x-fileserver-truncated"@, "true"@)]
        } else {
            seq![]
        },
        body: if is_get {
            Some(Body::Mem(body))
        } else {
            None
        },
    }
}

/// Whether the client has the file already, given the file's entity tag, the
/// entity tag that the client sent, the point in time that it sent, and the
/// modification time of the file.
pub fn is_not_modified(
    etag: &str,
    if_none_match: Option<&str>,
    since: Option<(i64, u32)>,
    modified: Option<Timestamp>,
) -> (r: bool)
    ensures
        r == not_modified(etag@, text::opt_view(if_none_match), since, modified),
{
    match if_none_match {
        Some(t) => {
            let mut weak = "W/".to_owned();
            weak.append(etag);
            text::same(t, etag) || text::same(t, weak.as_str())
        },
        None => match (since, modified) {
            (Some((secs, nanos)), Some(m)) => (Timestamp { secs, nanos }).is_at_or_after(&m),
            _ => false,
        },
    }
}

/// The response that carries a listing. It depends on what the client accepts,
/// and is never to be stored.
pub fn listing_reply(is_get: bool, format: AutoindexFormat, body: Vec<u8>, truncated: bool) -> (r:
    Reply)
    ensures
        r@ == listing_response(is_get, format, body@, truncated),
        r.is_valid(),
{
    let length = text::decimal(body.len() as u64);
    let mut r = Reply::plain(200);
    r.set_header("vary", "accept");
    r.set_header("cache-control", "no-store, max-age=0");
    r.set_header("content-length", length.as_str());
    r.set_header("content-type", format.content_type());
    if truncated {
        r.set_header("x-fileserver-truncated", "true");
    }
    assert(r@.headers =~= listing_response(is_get, format, body@, truncated).headers);
    if is_get {
        r.transfer = Some(FileTransfer::Mem(MemTransfer::new(body)));
    }
    r
}

impl FileBackend {
    /// The media type of a file, if it is known.
    pub fn content_type(&self, path: &str) -> (r: Option<String>)
        ensures
            match r {
                Some(t) => content_type(self@, path@) == Some(t@),
                None => content_type(self@, path@) is None,
            },
    {
        match (path::extension(path), &self.mimes) {
            (Some(ext), Some(mimes)) => match mimes.get(ext.as_str()) {
                Some(t) => Some(t.to_owned()),
                None => None,
            },
            _ => None,
        }
    }

    /// The response about a file, given its entity tag, the text of its
    /// `last-modified` header, and whether the client has it already.
    pub fn file_reply(
        &self,
        is_get: bool,
        path: &str,
        size: u64,
        etag: &str,
        last_modified: Option<&str>,
        unchanged: bool,
    ) -> (r: Reply)
        ensures
            r@ == file_response(
                self@,
                is_get,
                path@,
                size,
                etag@,
                text::opt_view(last_modified),
                unchanged,
            ),
            r.is_valid(),
    {
        let length = text::decimal(size);
        let mut r = Reply::plain(
            if unchanged {
                304
            } else {
                200
            },
        );
        r.proto = Some("HTTP/1.1".to_owned());
        if is_get && !unchanged {
            r.transfer = Some(FileTransfer::File(size));
        }
        r.set_header("content-length", length.as_str());
        r.set_header("etag", etag);
        if let Some(t) = last_modified {
            r.set_header("last-modified", t);
        }
        if size > 0 {
            if let Some(t) = self.content_type(path) {
                r.set_header("content-type", t.as_str());
            }
        }
        assert(r@.headers =~= file_headers(
            self@,
            path@,
            size,
            etag@,
            text::opt_view(last_modified),
        ));
        r
    }

    /// The response to a request for the file at `path`.
    pub fn serve_file(
        &self,
        is_get: bool,
        if_none_match: Option<&str>,
        if_modified_since: Option<&str>,
        path: &str,
        facts: FileFacts,
    ) -> (r: Reply)
        requires
            facts.is_dated(),
        ensures
            r@ == served(
                self@,
                is_get,
                text::opt_view(if_none_match),
                text::opt_view(if_modified_since),
                path@,
                facts,
            ),
            r.is_valid(),
            sends_back_the_date(
                text::opt_view(if_none_match),
                text::opt_view(if_modified_since),
                facts,
            ) ==> (r@.status == 304 <==> facts.modified->Some_0.nanos == 0),
    {
        let etag = etag::generate_etag(facts.inode, facts.size, facts.modified);
        let since = match if_modified_since {
            Some(t) => time::parse_rfc2822(t),
            None => None,
        };
        let unchanged = is_not_modified(etag.as_str(), if_none_match, since, facts.modified);
        match facts.modified {
            Some(m) => {
                let date = time::format_utc(m, "%a, %d %b %Y %H:%M:%S GMT");
                self.file_reply(
                    is_get,
                    path,
                    facts.size,
                    etag.as_str(),
                    Some(date.as_str()),
                    unchanged,
                )
            },
            None => self.file_reply(is_get, path, facts.size, etag.as_str(), None, unchanged),
        }
    }
}

} // verus!
