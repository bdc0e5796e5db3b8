//! What holds of every request and its answer.
use vstd::prelude::*;
use vstd::utf8::*;

use crate::backend::Config;
use crate::etag;
use crate::fetch;
use crate::fetch::OpenedView;
use crate::fetch::RequestView;
use crate::fetch::StepView;
use crate::fetch::TargetView;
use crate::listing;
use crate::listing::DirItem;
use crate::listing::EntryView;
use crate::listing::ListingView;
use crate::negotiation;
use crate::negotiation::AutoindexFormat;
use crate::order;
use crate::path;
use crate::path_laws;
use crate::reply;
use crate::reply::FileFacts;
use crate::reply::ReplyView;
use crate::text;
use crate::walk::OpenFault;

verus! {

/// What the file system tells while a request is answered.
pub struct Disk {
    /// What opening the target comes to.
    pub target: OpenedView,
    /// Whether the target can be opened as a directory.
    pub directory: bool,
    /// What opening each index file comes to.
    pub index_files: Seq<OpenedView>,
    /// What reading the directory gives.
    pub listing: Option<ListingView>,
    /// The entries in JSON and in YAML.
    pub json: Option<Seq<u8>>,
    pub yaml: Option<Seq<u8>>,
}

impl Disk {
    /// The entries in the given format.
    pub open spec fn written(self, format: AutoindexFormat) -> Option<Seq<u8>> {
        if format == AutoindexFormat::Json {
            self.json
        } else {
            self.yaml
        }
    }
}

/// How far a step is from the answer at most.
pub open spec fn distance(step: StepView) -> nat {
    match step {
        StepView::Open(t) => t.config.index_files.len() + 5,
        StepView::OpenDir(t) => t.config.index_files.len() + 4,
        StepView::Try(t, i) => if i < t.config.index_files.len() {
            (t.config.index_files.len() - i + 3) as nat
        } else {
            3
        },
        StepView::List(_) => 2,
        StepView::Write(_, _, _, _) => 1,
        _ => 0,
    }
}

/// What the steps from `step` on come to.
pub open spec fn end_of(disk: Disk, step: StepView) -> StepView
    decreases distance(step),
{
    match step {
        StepView::Open(t) => end_of(disk, fetch::after_open(t, disk.target)),
        StepView::OpenDir(t) => end_of(disk, fetch::after_open_dir(t, disk.directory)),
        StepView::Try(t, i) => if i >= 0 {
            end_of(disk, fetch::after_try(t, i, disk.index_files[i]))
        } else {
            step
        },
        StepView::List(t) => end_of(disk, fetch::after_list(t, disk.listing)),
        StepView::Write(t, format, _, truncated) => fetch::after_write(
            t,
            format,
            truncated,
            disk.written(format),
        ),
        _ => step,
    }
}

/// The answer to a request.
pub open spec fn answer(config: Config, request: RequestView, disk: Disk) -> StepView {
    end_of(disk, fetch::first_step(config, request))
}

/// The position of the first index file that is one, from `i` on, or their
/// number if there is none.
pub open spec fn first_file(found: Seq<OpenedView>, i: int, n: int) -> int
    decreases n - i,
{
    if i >= n || found[i] is Regular {
        i
    } else {
        first_file(found, i + 1, n)
    }
}

/// The bytes of a listing in the format that the client prefers.
pub open spec fn listing_body(t: TargetView, entries: Seq<EntryView>, disk: Disk) -> Option<
    Seq<u8>,
> {
    let format = negotiation::preferred(t.request.accept);
    if format == AutoindexFormat::Html {
        Some(encode_utf8(fetch::listing_page(t, entries)))
    } else {
        disk.written(format)
    }
}

/// The answer for a directory without an index file.
pub open spec fn listing_answer(t: TargetView, disk: Disk) -> ReplyView {
    match disk.listing {
        Some(l) if t.config.autoindex => match listing_body(t, order::sorted(l.entries), disk) {
            Some(body) => reply::listing_response(
                t.is_get,
                negotiation::preferred(t.request.accept),
                body,
                l.truncated,
            ),
            None => reply::plain(403),
        },
        _ => reply::plain(403),
    }
}

/// The answer for a file.
pub open spec fn file_answer(t: TargetView, path: Seq<char>, facts: FileFacts) -> ReplyView {
    reply::served(
        t.config,
        t.is_get,
        t.request.if_none_match,
        t.request.if_modified_since,
        path,
        facts,
    )
}

/// The answer for a directory whose URL ends with `/`.
pub open spec fn directory_answer(t: TargetView, disk: Disk) -> ReplyView {
    let n = t.config.index_files.len() as int;
    let k = first_file(disk.index_files, 0, n);
    if n == 0 && !t.config.autoindex {
        reply::plain(403)
    } else if !t.config.follow_links && !disk.directory {
        reply::plain(403)
    } else if k < n {
        file_answer(
            t,
            fetch::joined(t.path, t.config.index_files[k]),
            disk.index_files[k]->Regular_0,
        )
    } else {
        listing_answer(t, disk)
    }
}

proof fn lemma_end_of_list(disk: Disk, t: TargetView)
    requires
        t.config.autoindex,
    ensures
        end_of(disk, StepView::List(t)) == StepView::Reply(listing_answer(t, disk)),
{
    reveal_with_fuel(end_of, 3);
}

proof fn lemma_end_of_search(disk: Disk, t: TargetView, i: int)
    requires
        0 <= i <= t.config.index_files.len(),
    ensures
        ({
            let n = t.config.index_files.len() as int;
            let k = first_file(disk.index_files, i, n);
            &&& i <= k <= n
            &&& (forall|j: int| i <= j < k ==> !((#[trigger] disk.index_files[j]) is Regular))
            &&& (k < n ==> disk.index_files[k] is Regular)
            &&& end_of(disk, fetch::search_step(t, i)) == StepView::Reply(
                if k < n {
                    file_answer(
                        t,
                        fetch::joined(t.path, t.config.index_files[k]),
                        disk.index_files[k]->Regular_0,
                    )
                } else {
                    listing_answer(t, disk)
                },
            )
        }),
    decreases t.config.index_files.len() - i,
{
    let n = t.config.index_files.len() as int;
    if i < n {
        reveal_with_fuel(end_of, 2);
        if !(disk.index_files[i] is Regular) {
            lemma_end_of_search(disk, t, i + 1);
        }
    } else if t.config.autoindex {
        lemma_end_of_list(disk, t);
    }
}

/// What every request comes to: the outcome is that of its first step, unless
/// there is a target to open; then it depends on what the target is.
pub proof fn law_answer(config: Config, request: RequestView, disk: Disk)
    ensures
        match fetch::first_step(config, request) {
            StepView::Open(t) => answer(config, request, disk) == match disk.target {
                OpenedView::Directory => StepView::Reply(
                    match t.redirect {
                        Some(location) => reply::redirect(location),
                        None => directory_answer(t, disk),
                    },
                ),
                OpenedView::Regular(facts) => StepView::Reply(
                    if t.redirect is Some {
                        file_answer(t, t.path, facts)
                    } else {
                        reply::plain(404)
                    },
                ),
                OpenedView::Unknown(reason) => StepView::Fail(reason),
                OpenedView::Failed(OpenFault::NotFound) => StepView::Reply(reply::plain(404)),
                OpenedView::Failed(OpenFault::NotADirectory) => StepView::Reply(reply::plain(404)),
                OpenedView::Failed(OpenFault::PermissionDenied) => StepView::Reply(
                    reply::plain(403),
                ),
                OpenedView::Failed(OpenFault::Other(reason)) => StepView::Fail(reason),
            },
            first => first is Reply && answer(config, request, disk) == first,
        },
{
    if let StepView::Open(t) = fetch::first_step(config, request) {
        reveal_with_fuel(end_of, 3);
        lemma_end_of_search(disk, t, 0);
    }
}

/// Every request comes to an answer or fails, and an answer has one of seven
/// statuses. A body comes only with status 200, and only for a `GET`.
pub proof fn law_every_request_is_answered(config: Config, request: RequestView, disk: Disk)
    ensures
        match answer(config, request, disk) {
            StepView::Reply(r) => {
                &&& r.status == 200 || r.status == 301 || r.status == 304 || r.status == 400
                    || r.status == 403 || r.status == 404 || r.status == 405
                &&& (r.body is Some ==> r.status == 200 && request.method == Some("GET"@))
                &&& (r.status == 200 && request.method == Some("GET"@) ==> r.body is Some)
                &&& (r.status >= 400 ==> r == reply::plain(r.status))
            },
            StepView::Fail(reason) => true,
            _ => false,
        },
{
    law_answer(config, request, disk);
}

/// The size that is announced is the size of the body.
pub proof fn law_content_length_is_the_size_of_the_body(
    config: Config,
    request: RequestView,
    disk: Disk,
)
    ensures
        answer(config, request, disk) matches StepView::Reply(r) ==> (r.body matches Some(body)
            ==> r.headers.contains(("content-length"@, text::digits(body.size())))),
{
    law_answer(config, request, disk);
    if let StepView::Reply(r) = answer(config, request, disk) {
        if let Some(body) = r.body {
            let h = ("content-length"@, text::digits(body.size()));
            if body is File {
                assert(r.headers[0] == h);
            } else {
                assert(r.headers[2] == h);
            }
        }
    }
}

/// A `HEAD` is answered as a `GET` is, without the body.
pub proof fn law_head_is_get_without_the_body(config: Config, request: RequestView, disk: Disk)
    requires
        request.method == Some("GET"@),
    ensures
        ({
            let head = RequestView { method: Some("HEAD"@), ..request };
            match answer(config, request, disk) {
                StepView::Reply(r) => answer(config, head, disk) == StepView::Reply(
                    ReplyView { body: None, ..r },
                ),
                failed => answer(config, head, disk) == failed,
            }
        }),
{
    let head = RequestView { method: Some("HEAD"@), ..request };
    reveal_strlit("GET");
    reveal_strlit("HEAD");
    assert("GET"@.len() != "HEAD"@.len());
    law_answer(config, request, disk);
    law_answer(config, head, disk);
    if let StepView::Open(t) = fetch::first_step(config, request) {
        if let Some(l) = disk.listing {
            let entries = order::sorted(l.entries);
            let h = TargetView { request: head, is_get: false, ..t };
            assert(fetch::listing_page(h, entries) == fetch::listing_page(t, entries));
        }
    }
}

/// Which requests are refused before anything is looked up: status 400 for a URL
/// that is not text or is not encoded well, status 405 for a method that is
/// neither `GET` nor `HEAD`.
pub proof fn law_bad_requests_are_refused(config: Config, request: RequestView, disk: Disk)
    ensures
        ({
            let known = request.method == Some("GET"@) || request.method == Some("HEAD"@);
            let badly_encoded = request.url matches Some(url) && path::clamped(
                path::without_query(url),
            ) is Err;
            &&& (answer(config, request, disk) == StepView::Reply(reply::plain(400))
                <==> request.url is None || (known && badly_encoded))
            &&& (answer(config, request, disk) == StepView::Reply(reply::plain(405))
                <==> request.url is Some && !known)
        }),
{
    law_answer(config, request, disk);
}

/// What is not there gets 404: nothing is found, or something on the way is not
/// a directory, or the URL asks for a directory and there is a file.
pub proof fn law_missing_files_get_404(config: Config, request: RequestView, disk: Disk)
    ensures
        answer(config, request, disk) == StepView::Reply(reply::plain(404)) <==> {
            &&& fetch::first_step(config, request) matches StepView::Open(t)
            &&& disk.target == OpenedView::Failed(OpenFault::NotFound) || disk.target
                == OpenedView::Failed(OpenFault::NotADirectory) || (disk.target is Regular
                && t.redirect is None)
        },
{
    law_answer(config, request, disk);
}

/// What may not be read gets 403, whatever the request.
pub proof fn law_forbidden_files_get_403(config: Config, request: RequestView, disk: Disk)
    requires
        fetch::first_step(config, request) is Open,
        disk.target == OpenedView::Failed(OpenFault::PermissionDenied),
    ensures
        answer(config, request, disk) == StepView::Reply(reply::plain(403)),
{
    law_answer(config, request, disk);
}

/// A directory is redirected to its URL with a `/` at the end exactly when the
/// request lacks that `/`.
pub proof fn law_directories_are_redirected(config: Config, request: RequestView, disk: Disk)
    ensures
        (answer(config, request, disk) matches StepView::Reply(r) && r.status == 301) <==> {
            &&& fetch::first_step(config, request) matches StepView::Open(t)
            &&& disk.target is Directory
            &&& t.redirect is Some
        },
{
    law_answer(config, request, disk);
}

/// The redirect of a directory leads to the same directory under a URL that is
/// not redirected again.
pub proof fn law_redirect_is_followed_once(config: Config, request: RequestView, disk: Disk)
    requires
        request.url matches Some(url) && !url.contains('\0'),
        answer(config, request, disk) matches StepView::Reply(r) && r.status == 301,
    ensures
        ({
            let t = fetch::first_step(config, request)->Open_0;
            let location = t.redirect->Some_0;
            let next = RequestView { url: Some(location), ..request };
            &&& answer(config, request, disk) == StepView::Reply(reply::redirect(location))
            &&& fetch::first_step(config, next) == StepView::Open(
                TargetView { request: next, redirect: None, ..t },
            )
            &&& !(answer(config, next, disk) matches StepView::Reply(r) && r.status == 301)
        }),
{
    law_answer(config, request, disk);
    let url = request.url->Some_0;
    let t = fetch::first_step(config, request)->Open_0;
    let location = t.redirect->Some_0;
    let next = RequestView { url: Some(location), ..request };
    path_laws::law_redirect_leads_to_the_directory(url);
    law_answer(config, next, disk);
}

/// A directory is answered with the first index file that is one, as if that
/// file had been asked for; those before it are not files.
pub proof fn law_first_index_file_is_served(
    config: Config,
    request: RequestView,
    disk: Disk,
    k: int,
)
    requires
        fetch::first_step(config, request) matches StepView::Open(t) && t.redirect is None,
        disk.target is Directory,
        config.follow_links || disk.directory,
        0 <= k < config.index_files.len(),
        disk.index_files[k] is Regular,
        forall|j: int| 0 <= j < k ==> !((#[trigger] disk.index_files[j]) is Regular),
    ensures
        ({
            let t = fetch::first_step(config, request)->Open_0;
            answer(config, request, disk) == StepView::Reply(
                file_answer(
                    t,
                    fetch::joined(t.path, config.index_files[k]),
                    disk.index_files[k]->Regular_0,
                ),
            )
        }),
{
    law_answer(config, request, disk);
    let t = fetch::first_step(config, request)->Open_0;
    lemma_end_of_search(disk, t, 0);
    let n = config.index_files.len() as int;
    let found = first_file(disk.index_files, 0, n);
    if k < found {
        assert(!(disk.index_files[k] is Regular));
    }
}

/// A directory without an index file gets a listing where listings are on, and
/// 403 where they are off or where the listing fails.
pub proof fn law_directory_without_index_file(config: Config, request: RequestView, disk: Disk)
    requires
        fetch::first_step(config, request) matches StepView::Open(t) && t.redirect is None,
        disk.target is Directory,
        config.follow_links || disk.directory,
        forall|j: int|
            0 <= j < config.index_files.len() ==> !((#[trigger] disk.index_files[j]) is Regular),
    ensures
        ({
            let t = fetch::first_step(config, request)->Open_0;
            &&& answer(config, request, disk) == StepView::Reply(listing_answer(t, disk))
            &&& (!config.autoindex || disk.listing is None ==> answer(config, request, disk)
                == StepView::Reply(reply::plain(403)))
        }),
{
    law_answer(config, request, disk);
    let t = fetch::first_step(config, request)->Open_0;
    lemma_end_of_search(disk, t, 0);
}

/// A listing shows what is in the directory: of the entries that are examined,
/// those that are to be shown, in order. It says whether there are more, and
/// there is none where an entry cannot be read.
pub proof fn law_listing_shows_the_directory(
    config: Config,
    request: RequestView,
    disk: Disk,
    items: Seq<DirItem>,
)
    requires
        fetch::first_step(config, request) matches StepView::Open(t) && t.redirect is None,
        disk.target is Directory,
        config.follow_links || disk.directory,
        forall|j: int|
            0 <= j < config.index_files.len() ==> !((#[trigger] disk.index_files[j]) is Regular),
        config.autoindex,
        disk.listing == listing::collected(
            ListingView { entries: seq![], seen: 0, truncated: false },
            items,
        ),
    ensures
        ({
            let t = fetch::first_step(config, request)->Open_0;
            let read = listing::first_items(items, listing::MAX_LISTING_ENTRIES as int);
            let entries = order::sorted(listing::lines_of(read));
            let format = negotiation::preferred(request.accept);
            answer(config, request, disk) == StepView::Reply(
                match listing_body(t, entries, disk) {
                    Some(body) if listing::all_readable(read) => reply::listing_response(
                        t.is_get,
                        format,
                        body,
                        items.len() > listing::MAX_LISTING_ENTRIES,
                    ),
                    _ => reply::plain(403),
                },
            )
        }),
{
    law_directory_without_index_file(config, request, disk);
    listing::law_listing_of_a_directory(items);
}

/// Whether a response has a header.
pub open spec fn has_header(r: ReplyView, name: Seq<char>) -> bool {
    exists|i: int| 0 <= i < r.headers.len() && (#[trigger] r.headers[i]).0 == name
}

/// A listing is not to be stored, since it depends on what the client accepts,
/// and has neither an entity tag nor a modification time.
pub proof fn law_listings_are_not_stored(
    is_get: bool,
    format: AutoindexFormat,
    body: Seq<u8>,
    truncated: bool,
)
    ensures
        ({
            let r = reply::listing_response(is_get, format, body, truncated);
            &&& r.headers.contains(("vary"@, "accept"@))
            &&& r.headers.contains(("cache-control"@, "no-store, max-age=0"@))
            &&& !has_header(r, "etag"@)
            &&& !has_header(r, "last-modified"@)
            &&& (has_header(r, "x-fileserver-truncated"@) <==> truncated)
        }),
{
    let r = reply::listing_response(is_get, format, body, truncated);
    reveal_strlit("vary");
    reveal_strlit("cache-control");
    reveal_strlit("content-length");
    reveal_strlit("content-type");
    reveal_strlit("x-fileserver-truncated");
    reveal_strlit("etag");
    reveal_strlit("last-modified");
    assert(r.headers[0] == ("vary"@, "accept"@));
    assert(r.headers[1] == ("cache-control"@, "no-store, max-age=0"@));
    assert forall|i: int| 0 <= i < r.headers.len() implies (#[trigger] r.headers[i]).0
        != "etag"@ && r.headers[i].0 != "last-modified"@ by {
        assert("etag"@.len() == 4 && "etag"@[0] == 'e');
        assert("last-modified"@.len() == 13 && "last-modified"@[0] == 'l');
        assert("vary"@.len() == 4 && "vary"@[0] == 'v');
        assert("cache-control"@.len() == 13 && "cache-control"@[0] == 'c');
        assert("content-length"@.len() == 14);
        assert("content-type"@.len() == 12);
        assert("x-fileserver-truncated"@.len() == 22);
        assert(i == 0 || i == 1 || i == 2 || i == 3 || i == 4);
    }
    assert forall|i: int| 0 <= i < 4 implies (#[trigger] r.headers[i]).0
        != "x-fileserver-truncated"@ by {
        assert(r.headers[i].0.len() < 22);
    }
    if truncated {
        assert(r.headers[4].0 == "x-fileserver-truncated"@);
    }
}

/// The query string plays no part: requests that differ in it alone have the
/// same answer, but for the query string that a redirect hands on.
pub proof fn law_query_is_immaterial(
    config: Config,
    request: RequestView,
    url: Seq<char>,
    disk: Disk,
)
    requires
        request.url matches Some(first) && path::without_query(first) == path::without_query(url),
    ensures
        ({
            let other = RequestView { url: Some(url), ..request };
            let a = answer(config, request, disk);
            let b = answer(config, other, disk);
            let segments = path::clamped(path::without_query(url));
            ||| a == b
            ||| {
                &&& segments is Ok
                &&& a == StepView::Reply(
                    reply::redirect(
                        path::location(segments->Ok_0, path::query_of(request.url->Some_0)),
                    ),
                )
                &&& b == StepView::Reply(
                    reply::redirect(path::location(segments->Ok_0, path::query_of(url))),
                )
            }
        }),
{
    let other = RequestView { url: Some(url), ..request };
    law_answer(config, request, disk);
    law_answer(config, other, disk);
    if let StepView::Open(t) = fetch::first_step(config, request) {
        if let Some(l) = disk.listing {
            let entries = order::sorted(l.entries);
            let u = fetch::first_step(config, other)->Open_0;
            assert(fetch::listing_page(u, entries) == fetch::listing_page(t, entries));
        }
    }
}

/// A client that sends back the entity tag of a file, as a strong or as a weak
/// one, is told that it has the file already; with any other tag it gets the
/// file, whatever date it sent.
pub proof fn law_known_tag_gets_304(
    config: Config,
    is_get: bool,
    tag: Seq<char>,
    if_modified_since: Option<Seq<char>>,
    path: Seq<char>,
    facts: FileFacts,
)
    ensures
        ({
            let own = etag::file_tag(facts.inode, facts.size, facts.modified);
            let r = reply::served(config, is_get, Some(tag), if_modified_since, path, facts);
            let fresh = reply::served(config, is_get, None, None, path, facts);
            &&& fresh.status == 200
            &&& fresh.headers.contains(("etag"@, own))
            &&& (r.status == 304 <==> tag == own || tag == "W/"@ + own)
            &&& (r.status == 200 <==> r.status != 304)
            &&& r.headers == fresh.headers
            &&& (r.status == 304 ==> r.body is None)
        }),
{
    let own = etag::file_tag(facts.inode, facts.size, facts.modified);
    let fresh = reply::served(config, is_get, None, None, path, facts);
    assert(fresh.headers[1] == ("etag"@, own));
}

/// Without an entity tag, a client that has the file as of a point in time not
/// before the file's modification is told so, and no other client is.
pub proof fn law_unmodified_since_gets_304(
    config: Config,
    is_get: bool,
    if_modified_since: Option<Seq<char>>,
    path: Seq<char>,
    facts: FileFacts,
)
    ensures
        reply::served(config, is_get, None, if_modified_since, path, facts).status == 304 <==> {
            &&& facts.modified matches Some(m)
            &&& reply::since_instant(if_modified_since) matches Some((secs, nanos))
            &&& (secs > m.secs || (secs == m.secs && nanos >= m.nanos))
        },
{
}

/// Nothing outside the root is ever looked up: the target is the root and safe
/// segments below it, and each index file is one safe segment more.
pub proof fn law_lookups_stay_below_the_root(config: Config, request: RequestView)
    requires
        config.is_valid(),
    ensures
        fetch::first_step(config, request) matches StepView::Open(t) ==> {
            &&& path_laws::all_safe(t.segments)
            &&& t.path == config.path + path::below(t.segments)
            &&& forall|k: int|
                0 <= k < config.index_files.len() ==> {
                    let name = #[trigger] config.index_files[k];
                    &&& path_laws::is_safe_segment(name)
                    &&& fetch::joined(t.path, name) == if t.path.last() == '/' {
                        t.path + name
                    } else {
                        config.path + path::below(t.segments.push(name))
                    }
                }
        },
{
    if let StepView::Open(t) = fetch::first_step(config, request) {
        path_laws::law_clamped_segments_are_safe(path::without_query(request.url->Some_0));
        assert forall|k: int| 0 <= k < config.index_files.len() implies {
            let name = #[trigger] config.index_files[k];
            &&& path_laws::is_safe_segment(name)
            &&& fetch::joined(t.path, name) == if t.path.last() == '/' {
                t.path + name
            } else {
                config.path + path::below(t.segments.push(name))
            }
        } by {
            let name = config.index_files[k];
            assert(t.segments.push(name).drop_last() =~= t.segments);
            if t.path.last() != '/' {
                assert(fetch::joined(t.path, name) =~= config.path + path::below(
                    t.segments.push(name),
                ));
            }
        }
    }
}

} // verus!
