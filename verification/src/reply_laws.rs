//! What each response says.
use vstd::prelude::*;

use crate::backend::Config;
use crate::etag;
use crate::negotiation::AutoindexFormat;
use crate::path;
use crate::path_meaning;
use crate::reply;
use crate::reply::{FileFacts, ReplyView};
use crate::text;
use crate::time;
use crate::transfer::Body;

verus! {

/// Whether a response has exactly one header of this name, with this value.
pub open spec fn says(r: ReplyView, name: Seq<char>, value: Seq<char>) -> bool {
    &&& r.headers.contains((name, value))
    &&& forall|i: int|
        0 <= i < r.headers.len() && (#[trigger] r.headers[i]).0 == name ==> r.headers[i].1 == value
    &&& forall|i: int, j: int|
        0 <= i < r.headers.len() && 0 <= j < r.headers.len() && (#[trigger] r.headers[i]).0 == name
            && (#[trigger] r.headers[j]).0 == name ==> i == j
}

/// Whether a response has no header of this name.
pub open spec fn says_nothing_of(r: ReplyView, name: Seq<char>) -> bool {
    forall|i: int| 0 <= i < r.headers.len() ==> (#[trigger] r.headers[i]).0 != name
}

proof fn lemma_names()
    ensures
        "content-length"@.len() == 14,
        "etag"@.len() == 4,
        "last-modified"@.len() == 13,
        "content-type"@.len() == 12,
        "vary"@.len() == 4,
        "vary"@[0] == 'v',
        "etag"@[0] == 'e',
        "cache-control"@.len() == 13,
        "cache-control"@[0] == 'c',
        "last-modified"@[0] == 'l',
        "x-fileserver-truncated"@.len() == 22,
        "location"@.len() == 8,
{
    reveal_strlit("content-length");
    reveal_strlit("etag");
    reveal_strlit("last-modified");
    reveal_strlit("content-type");
    reveal_strlit("vary");
    reveal_strlit("cache-control");
    reveal_strlit("x-fileserver-truncated");
    reveal_strlit("location");
}

/// Every response about a file, new to the client or not, to a `GET` or a
/// `HEAD`, has the size of the file, its entity tag and, whatever its fraction
/// of a second, its modification time where that is known. It has a media type
/// exactly if the file is not empty and its type is known, and nothing else.
pub proof fn law_headers_about_a_file(
    config: Config,
    is_get: bool,
    if_none_match: Option<Seq<char>>,
    if_modified_since: Option<Seq<char>>,
    path: Seq<char>,
    facts: FileFacts,
)
    ensures
        ({
            let r = reply::served(
                config,
                is_get,
                if_none_match,
                if_modified_since,
                path,
                facts,
            );
            let dated = if facts.modified is Some {
                1int
            } else {
                0
            };
            let typed = if facts.size > 0 && reply::content_type(config, path) is Some {
                1int
            } else {
                0
            };
            &&& r.headers.len() == 2 + dated + typed
            &&& r.headers[0].0 == "content-length"@
            &&& r.headers[1].0 == "etag"@
            &&& says(r, "content-length"@, text::digits(facts.size as nat))
            &&& says(r, "etag"@, etag::file_tag(facts.inode, facts.size, facts.modified))
            &&& match facts.modified {
                Some(m) => says(
                    r,
                    "last-modified"@,
                    time::utc_text(m.secs, m.nanos, "%a, %d %b %Y %H:%M:%S GMT"@),
                ),
                None => says_nothing_of(r, "last-modified"@),
            }
            &&& match reply::content_type(config, path) {
                Some(t) if facts.size > 0 => says(r, "content-type"@, t),
                _ => says_nothing_of(r, "content-type"@),
            }
        }),
{
    lemma_names();
    let r = reply::served(config, is_get, if_none_match, if_modified_since, path, facts);
    let h = r.headers;
    assert(h[0] == ("content-length"@, text::digits(facts.size as nat)));
    assert(h[1] == ("etag"@, etag::file_tag(facts.inode, facts.size, facts.modified)));
    if let Some(m) = facts.modified {
        assert(h[2] == (
            "last-modified"@,
            time::utc_text(m.secs, m.nanos, "%a, %d %b %Y %H:%M:%S GMT"@),
        ));
        assert(h.contains(h[2]));
    }
    assert(h.contains(h[0]) && h.contains(h[1]));
    if let Some(t) = reply::content_type(config, path) {
        if facts.size > 0 {
            assert(h[h.len() - 1] == ("content-type"@, t));
            assert(h.contains(h[h.len() - 1]));
        }
    }
}

/// A response about a file has one of two statuses. The file itself comes with
/// it, all of it, exactly for a `GET` with status 200.
pub proof fn law_body_is_the_file(
    config: Config,
    is_get: bool,
    if_none_match: Option<Seq<char>>,
    if_modified_since: Option<Seq<char>>,
    path: Seq<char>,
    facts: FileFacts,
)
    ensures
        ({
            let r = reply::served(
                config,
                is_get,
                if_none_match,
                if_modified_since,
                path,
                facts,
            );
            &&& r.status == 200 || r.status == 304
            &&& r.body == if is_get && r.status == 200 {
                Some(Body::File(facts.size))
            } else {
                None::<Body>
            }
            &&& r.proto == Some("HTTP/1.1"@)
        }),
{
}

/// When a client is told that it has the file already: if it sent a tag, exactly
/// if that is the file's, plain or behind `W/`; if it sent none, exactly if it
/// sent a date that can be read and the file has not changed since.
pub proof fn law_when_the_client_has_the_file(
    config: Config,
    is_get: bool,
    tag: Seq<char>,
    date: Seq<char>,
    path: Seq<char>,
    facts: FileFacts,
)
    ensures
        ({
            let own = etag::file_tag(facts.inode, facts.size, facts.modified);
            let with_tag = reply::served(config, is_get, Some(tag), None, path, facts);
            let with_both = reply::served(config, is_get, Some(tag), Some(date), path, facts);
            let with_date = reply::served(config, is_get, None, Some(date), path, facts);
            let with_none = reply::served(config, is_get, None, None, path, facts);
            &&& with_tag.status == 304 <==> tag == own || tag == "W/"@ + own
            &&& with_both == with_tag
            &&& with_date.status == 304 <==> {
                &&& facts.modified matches Some(m)
                &&& time::rfc2822_instant(date) matches Some((secs, nanos))
                &&& (secs > m.secs || (secs == m.secs && nanos >= m.nanos))
            }
            &&& with_none.status == 200
        }),
{
}

/// The media type of a file is the one that the table gives to its extension.
/// There is none without a table, without an extension, or where the table does
/// not have the extension.
pub proof fn law_media_type_goes_by_the_extension(config: Config, path: Seq<char>)
    ensures
        reply::content_type(config, path) is Some <==> {
            &&& config.mimes is Some
            &&& path::path_extension(path) is Some
            &&& config.mimes->Some_0.contains_key(path::path_extension(path)->Some_0)
        },
        reply::content_type(config, path) matches Some(t) ==> t
            == config.mimes->Some_0[path::path_extension(path)->Some_0],
{
}

/// A file that is not empty and whose extension is in the table has the media
/// type that the table gives.
pub proof fn law_typed_files_have_their_media_type(
    config: Config,
    is_get: bool,
    if_none_match: Option<Seq<char>>,
    if_modified_since: Option<Seq<char>>,
    dir: Seq<char>,
    stem: Seq<char>,
    ext: Seq<char>,
    facts: FileFacts,
)
    requires
        stem.len() > 0,
        !stem.contains('/'),
        !ext.contains('/'),
        !ext.contains('.'),
        stem + "."@ + ext != ".."@,
        facts.size > 0,
        config.mimes matches Some(mimes) && mimes.contains_key(ext),
    ensures
        says(
            reply::served(
                config,
                is_get,
                if_none_match,
                if_modified_since,
                dir + "/"@ + (stem + "."@ + ext),
                facts,
            ),
            "content-type"@,
            config.mimes->Some_0[ext],
        ),
{
    let path = dir + "/"@ + (stem + "."@ + ext);
    path_meaning::law_extension_of_a_file(dir, stem, ext);
    law_media_type_goes_by_the_extension(config, path);
    law_headers_about_a_file(config, is_get, if_none_match, if_modified_since, path, facts);
}

/// The response that carries a listing: what it depends on, that it is not to be
/// stored, the size and the type of the body, and whether entries are missing.
/// The body comes with it for a `GET`.
pub proof fn law_listing_response(
    is_get: bool,
    format: AutoindexFormat,
    body: Seq<u8>,
    truncated: bool,
)
    ensures
        ({
            let r = reply::listing_response(is_get, format, body, truncated);
            &&& r.status == 200
            &&& r.proto is None
            &&& r.headers.len() == if truncated {
                5int
            } else {
                4
            }
            &&& says(r, "vary"@, "accept"@)
            &&& says(r, "cache-control"@, "no-store, max-age=0"@)
            &&& says(r, "content-length"@, text::digits(body.len()))
            &&& says(r, "content-type"@, format.media_type())
            &&& if truncated {
                says(r, "x-fileserver-truncated"@, "true"@)
            } else {
                says_nothing_of(r, "x-fileserver-truncated"@)
            }
            &&& r.body == if is_get {
                Some(Body::Mem(body))
            } else {
                None::<Body>
            }
        }),
{
    lemma_names();
    let r = reply::listing_response(is_get, format, body, truncated);
    let h = r.headers;
    assert(h[0] == ("vary"@, "accept"@));
    assert(h[1] == ("cache-control"@, "no-store, max-age=0"@));
    assert(h[2] == ("content-length"@, text::digits(body.len())));
    assert(h[3] == ("content-type"@, format.media_type()));
    assert(h.contains(h[0]) && h.contains(h[1]) && h.contains(h[2]) && h.contains(h[3]));
    if truncated {
        assert(h[4] == ("x-fileserver-truncated"@, "true"@));
        assert(h.contains(h[4]));
    }
}

/// A refusal is a status and nothing else; a redirect is status 301, the
/// location and nothing else.
pub proof fn law_short_responses(status: u16, location: Seq<char>)
    ensures
        reply::plain(status).status == status,
        reply::plain(status).headers.len() == 0,
        reply::plain(status).proto is None,
        reply::plain(status).body is None,
        reply::redirect(location).status == 301,
        reply::redirect(location).headers == seq![("location"@, location)],
        reply::redirect(location).proto is None,
        reply::redirect(location).body is None,
{
}

} // verus!
