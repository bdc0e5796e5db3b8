//! How a request is answered, step by step.
//!
//! Each step either is the answer or asks for something that only the file
//! system can tell; what it told leads to the next step.
use vstd::prelude::*;
use vstd::string::*;
use vstd::utf8::*;

use crate::backend::Config;
use crate::backend::FileBackend;
use crate::negotiation;
use crate::negotiation::AutoindexFormat;
use crate::html;
use crate::listing;
use crate::listing::AutoindexEntry;
use crate::listing::EntryView;
use crate::listing::Listing;
use crate::listing::ListingView;
use crate::order;
use crate::path;
use crate::reply;
use crate::reply::FileFacts;
use crate::reply::Reply;
use crate::reply::ReplyView;
use crate::text;
use crate::walk::OpenError;
use crate::walk::OpenFault;

verus! {

/// A value that came with a request: text, or bytes that are not UTF-8.
#[derive(Clone, Copy, Debug)]
pub enum StrOrBytes<'a> {
    Utf8(&'a str),
    Bytes(&'a [u8]),
}

impl<'a> StrOrBytes<'a> {
    /// The text, if it is one.
    pub open spec fn text(self) -> Option<Seq<char>> {
        match self {
            StrOrBytes::Utf8(s) => Some(s@),
            StrOrBytes::Bytes(_) => None,
        }
    }
}

/// The text of a header that may be missing.
pub open spec fn header_text(value: Option<StrOrBytes>) -> Option<Seq<char>> {
    match value {
        Some(v) => v.text(),
        None => None,
    }
}

/// The text, if it is one.
pub fn sob_helper<'a>(sob: StrOrBytes<'a>) -> (r: Option<&'a str>)
    ensures
        text::opt_view(r) == sob.text(),
{
    match sob {
        StrOrBytes::Bytes(_) => None,
        StrOrBytes::Utf8(s) => Some(s),
    }
}

/// The text of a header, if there is the header and it is text.
fn header<'a>(value: Option<StrOrBytes<'a>>) -> (r: Option<&'a str>)
    ensures
        text::opt_view(r) == header_text(value),
{
    match value {
        Some(v) => sob_helper(v),
        None => None,
    }
}

/// What a request says, as far as the answer depends on it.
#[derive(Clone, Copy, Debug)]
pub struct Request<'a> {
    pub url: StrOrBytes<'a>,
    pub method: Option<StrOrBytes<'a>>,
    pub accept: Option<StrOrBytes<'a>>,
    pub if_none_match: Option<StrOrBytes<'a>>,
    pub if_modified_since: Option<StrOrBytes<'a>>,
}

/// The texts of a request.
pub struct RequestView {
    pub url: Option<Seq<char>>,
    pub method: Option<Seq<char>>,
    pub accept: Option<Seq<char>>,
    pub if_none_match: Option<Seq<char>>,
    pub if_modified_since: Option<Seq<char>>,
}

impl<'a> View for Request<'a> {
    type V = RequestView;

    open spec fn view(&self) -> RequestView {
        RequestView {
            url: self.url.text(),
            method: header_text(self.method),
            accept: header_text(self.accept),
            if_none_match: header_text(self.if_none_match),
            if_modified_since: header_text(self.if_modified_since),
        }
    }
}

/// What a request is led to.
pub struct Target<'a> {
    pub backend: &'a FileBackend,
    pub request: Request<'a>,
    /// Whether the answer has a body.
    pub is_get: bool,
    /// The segments below the root.
    pub segments: Vec<String>,
    /// The path on disk.
    pub path: String,
    /// The redirect to the same URL as that of a directory, where the URL of the
    /// request does not end with `/`.
    pub redirect: Option<String>,
}

/// What is known of a target.
pub struct TargetView {
    pub config: Config,
    pub request: RequestView,
    pub is_get: bool,
    pub segments: Seq<Seq<char>>,
    pub path: Seq<char>,
    pub redirect: Option<Seq<char>>,
}

impl<'a> View for Target<'a> {
    type V = TargetView;

    open spec fn view(&self) -> TargetView {
        TargetView {
            config: self.backend@,
            request: self.request@,
            is_get: self.is_get,
            segments: text::views(self.segments@),
            path: self.path@,
            redirect: match self.redirect {
                Some(l) => Some(l@),
                None => None,
            },
        }
    }
}

/// What opening a path came to.
#[derive(Debug)]
pub enum Opened {
    Directory,
    /// Something that is not a directory.
    Regular(FileFacts),
    /// It was opened, but what it is cannot be told, for this reason.
    Unknown(String),
    Failed(OpenError),
}

/// What is known of an attempt to open a path.
pub enum OpenedView {
    Directory,
    Regular(FileFacts),
    Unknown(Seq<char>),
    Failed(OpenFault),
}

impl View for Opened {
    type V = OpenedView;

    open spec fn view(&self) -> OpenedView {
        match self {
            Opened::Directory => OpenedView::Directory,
            Opened::Regular(facts) => OpenedView::Regular(*facts),
            Opened::Unknown(reason) => OpenedView::Unknown(reason@),
            Opened::Failed(e) => OpenedView::Failed(e@),
        }
    }
}

impl OpenedView {
    /// Whether a modification time, if there is one, has a calendar date.
    pub open spec fn is_dated(self) -> bool {
        self matches OpenedView::Regular(facts) ==> facts.is_dated()
    }
}

/// The target has to be opened.
pub struct Opening<'a> {
    pub target: Target<'a>,
}

/// The directory that the target is has to be opened as a directory, without
/// following links.
pub struct OpeningDir<'a> {
    pub target: Target<'a>,
}

/// An index file has to be looked for in the directory.
pub struct Search<'a> {
    pub target: Target<'a>,
    /// The position of its name in the configuration.
    pub index: usize,
    /// Its name.
    pub name: String,
    /// Its path on disk.
    pub path: String,
}

/// The directory has to be listed.
pub struct Unlisted<'a> {
    pub target: Target<'a>,
}

/// The entries of the directory have to be written in the given format, which
/// is not HTML.
pub struct Unwritten<'a> {
    pub target: Target<'a>,
    pub format: AutoindexFormat,
    pub entries: Vec<AutoindexEntry>,
    pub truncated: bool,
}

/// What is next for a request.
pub enum Step<'a> {
    Open(Opening<'a>),
    OpenDir(OpeningDir<'a>),
    Try(Search<'a>),
    List(Unlisted<'a>),
    Write(Unwritten<'a>),
    /// This is the answer.
    Reply(Reply),
    /// There is no answer, for this reason.
    Fail(String),
}

/// What a step holds.
pub enum StepView {
    Open(TargetView),
    OpenDir(TargetView),
    Try(TargetView, int),
    List(TargetView),
    Write(TargetView, AutoindexFormat, Seq<EntryView>, bool),
    Reply(ReplyView),
    Fail(Seq<char>),
}

impl<'a> View for Step<'a> {
    type V = StepView;

    open spec fn view(&self) -> StepView {
        match self {
            Step::Open(s) => StepView::Open(s.target@),
            Step::OpenDir(s) => StepView::OpenDir(s.target@),
            Step::Try(s) => StepView::Try(s.target@, s.index as int),
            Step::List(s) => StepView::List(s.target@),
            Step::Write(s) => StepView::Write(
                s.target@,
                s.format,
                listing::views(s.entries@),
                s.truncated,
            ),
            Step::Reply(r) => StepView::Reply(r@),
            Step::Fail(reason) => StepView::Fail(reason@),
        }
    }
}

impl<'a> Search<'a> {
    /// The name and the path are those of the index file at this position.
    pub open spec fn is_valid(&self) -> bool {
        let t = self.target@;
        &&& self.index < t.config.index_files.len()
        &&& self.name@ == t.config.index_files[self.index as int]
        &&& self.path@ == joined(t.path, self.name@)
    }
}

impl<'a> Step<'a> {
    /// A search is for an index file of the configuration, and a body is read
    /// from its start.
    pub open spec fn is_valid(&self) -> bool {
        match self {
            Step::Try(s) => s.is_valid(),
            Step::Reply(r) => r.is_valid(),
            _ => true,
        }
    }
}

/// The path of an entry of a directory.
pub open spec fn joined(dir: Seq<char>, name: Seq<char>) -> Seq<char> {
    if dir.len() > 0 && dir.last() != '/' {
        dir + seq!['/'] + name
    } else {
        dir + name
    }
}

/// Whether a URL path is that of a directory.
pub open spec fn ends_with_slash(url_path: Seq<char>) -> bool {
    url_path.len() > 0 && url_path.last() == '/'
}

/// What a request is led to, given the segments of its URL.
pub open spec fn target_of(
    config: Config,
    request: RequestView,
    url: Seq<char>,
    segments: Seq<Seq<char>>,
) -> TargetView {
    TargetView {
        config,
        request,
        is_get: request.method == Some("GET"@),
        segments,
        path: config.path + path::below(segments),
        redirect: if ends_with_slash(path::without_query(url)) {
            None
        } else {
            Some(path::location(segments, path::query_of(url)))
        },
    }
}

/// The first step for a request.
pub open spec fn first_step(config: Config, request: RequestView) -> StepView {
    match request.url {
        None => StepView::Reply(reply::plain(400)),
        Some(url) => if request.method != Some("HEAD"@) && request.method != Some("GET"@) {
            StepView::Reply(reply::plain(405))
        } else {
            match path::clamped(path::without_query(url)) {
                Err(_) => StepView::Reply(reply::plain(400)),
                Ok(segments) => StepView::Open(target_of(config, request, url, segments)),
            }
        },
    }
}

/// The answer that consists of the file at `path`.
pub open spec fn file_step(t: TargetView, path: Seq<char>, facts: FileFacts) -> StepView {
    StepView::Reply(
        reply::served(
            t.config,
            t.is_get,
            t.request.if_none_match,
            t.request.if_modified_since,
            path,
            facts,
        ),
    )
}

/// Whether a request sends back the date of a file, and no entity tag.
pub open spec fn sends_back_the_date(request: RequestView, facts: FileFacts) -> bool {
    reply::sends_back_the_date(request.if_none_match, request.if_modified_since, facts)
}

/// Whether a step is the answer for a file whose date was sent back: that the
/// client has the file already, where the date tells the whole modification
/// time, and the file otherwise.
pub open spec fn answered_by_date(step: StepView, facts: FileFacts) -> bool {
    &&& step matches StepView::Reply(r)
    &&& r.status == if facts.modified->Some_0.nanos == 0 {
        304u16
    } else {
        200u16
    }
}

/// The step that looks for an index file, from position `i` on: where there is
/// none left, the directory is listed if listings are on, and refused if not.
pub open spec fn search_step(t: TargetView, i: int) -> StepView {
    if i < t.config.index_files.len() {
        StepView::Try(t, i)
    } else if t.config.autoindex {
        StepView::List(t)
    } else {
        StepView::Reply(reply::plain(403))
    }
}

/// The step after the target was opened.
pub open spec fn after_open(t: TargetView, opened: OpenedView) -> StepView {
    match opened {
        OpenedView::Failed(OpenFault::NotFound) => StepView::Reply(reply::plain(404)),
        OpenedView::Failed(OpenFault::NotADirectory) => StepView::Reply(reply::plain(404)),
        OpenedView::Failed(OpenFault::PermissionDenied) => StepView::Reply(reply::plain(403)),
        OpenedView::Failed(OpenFault::Other(reason)) => StepView::Fail(reason),
        OpenedView::Unknown(reason) => StepView::Fail(reason),
        OpenedView::Directory => match t.redirect {
            Some(location) => StepView::Reply(reply::redirect(location)),
            None => if t.config.index_files.len() == 0 && !t.config.autoindex {
                StepView::Reply(reply::plain(403))
            } else if t.config.follow_links {
                search_step(t, 0)
            } else {
                StepView::OpenDir(t)
            },
        },
        OpenedView::Regular(facts) => if t.redirect is None {
            StepView::Reply(reply::plain(404))
        } else {
            file_step(t, t.path, facts)
        },
    }
}

/// The step after the directory was opened as one, or could not be.
pub open spec fn after_open_dir(t: TargetView, opened: bool) -> StepView {
    if opened {
        search_step(t, 0)
    } else {
        StepView::Reply(reply::plain(403))
    }
}

/// The step after the index file at position `i` was opened.
pub open spec fn after_try(t: TargetView, i: int, opened: OpenedView) -> StepView {
    match opened {
        OpenedView::Regular(facts) => file_step(t, joined(t.path, t.config.index_files[i]), facts),
        _ => search_step(t, i + 1),
    }
}

/// The HTML page that lists the entries of the target.
pub open spec fn listing_page(t: TargetView, entries: Seq<EntryView>) -> Seq<char> {
    html::page(
        path::directory_path(t.segments),
        entries,
        t.config.autoindex_human_size,
        t.config.autoindex_human_dates,
    )
}

/// The step for the entries of the target, which are in the order of a listing:
/// the answer, where the client prefers HTML.
pub open spec fn rendered(t: TargetView, entries: Seq<EntryView>, truncated: bool) -> StepView {
    let format = negotiation::preferred(t.request.accept);
    if format == AutoindexFormat::Html {
        StepView::Reply(
            reply::listing_response(
                t.is_get,
                format,
                encode_utf8(listing_page(t, entries)),
                truncated,
            ),
        )
    } else {
        StepView::Write(t, format, entries, truncated)
    }
}

/// The step after the directory was read, or could not be.
pub open spec fn after_list(t: TargetView, listed: Option<ListingView>) -> StepView {
    match listed {
        None => StepView::Reply(reply::plain(403)),
        Some(l) => rendered(t, order::sorted(l.entries), l.truncated),
    }
}

/// The step after the entries were written, or could not be.
pub open spec fn after_write(
    t: TargetView,
    format: AutoindexFormat,
    truncated: bool,
    written: Option<Seq<u8>>,
) -> StepView {
    match written {
        None => StepView::Reply(reply::plain(403)),
        Some(body) => StepView::Reply(
            reply::listing_response(t.is_get, format, body, truncated),
        ),
    }
}

/// What a listing holds, where there is one.
pub open spec fn listed_view(listed: Option<Listing>) -> Option<ListingView> {
    match listed {
        Some(l) => Some(l@),
        None => None,
    }
}

/// Whether every modification time has a calendar date.
pub open spec fn all_dated(entries: Seq<EntryView>) -> bool {
    forall|i: int|
        0 <= i < entries.len() ==> ((#[trigger] entries[i]).modified matches Some(m)
            ==> m.has_date())
}

proof fn lemma_sorted_dated(entries: Seq<EntryView>)
    requires
        all_dated(entries),
    ensures
        all_dated(order::sorted(entries)),
{
    let list = order::sorted(entries);
    order::law_entries_can_be_sorted(entries);
    entries.to_multiset_ensures();
    list.to_multiset_ensures();
    assert forall|i: int| 0 <= i < list.len() implies ((#[trigger] list[i]).modified matches Some(m)
        ==> m.has_date()) by {
        assert(list.contains(list[i]));
        assert(list.to_multiset().count(list[i]) > 0);
        assert(entries.to_multiset().count(list[i]) > 0);
        let j = choose|j: int| 0 <= j < entries.len() && entries[j] == list[i];
        assert(entries[j] == list[i]);
    }
}

/// The path of an entry of a directory.
fn join_name(dir: &str, name: &str) -> (r: String)
    ensures
        r@ == joined(dir@, name@),
{
    let mut out = dir.to_owned();
    let n: usize = dir.unicode_len();
    if n > 0 && dir.get_char(n - 1) != '/' {
        out.push('/');
    }
    out.append(name);
    assert(out@ =~= joined(dir@, name@));
    out
}

/// Whether a URL path is that of a directory.
fn is_directory_url(url_path: &str) -> (r: bool)
    ensures
        r == ends_with_slash(url_path@),
{
    let n: usize = url_path.unicode_len();
    n > 0 && url_path.get_char(n - 1) == '/'
}

impl FileBackend {
    /// The first step for a request. Only `GET` and `HEAD` are answered, and
    /// only for a URL that is text and is encoded well. The query string plays
    /// no part in the lookup.
    pub fn get_response<'a>(&'a self, request: Request<'a>) -> (r: Step<'a>)
        requires
            self@.path.len() > 0,
        ensures
            r@ == first_step(self@, request@),
            r.is_valid(),
    {
        let url = match sob_helper(request.url) {
            Some(url) => url,
            None => {
                return Step::Reply(Reply::plain(400));
            },
        };
        let (is_head, is_get) = match header(request.method) {
            Some(m) => (text::same(m, "HEAD"), text::same(m, "GET")),
            None => (false, false),
        };
        if !is_head && !is_get {
            return Step::Reply(Reply::plain(405));
        }
        let url_path = path::strip_query(url);
        let segments = match path::clamp_segments(url_path) {
            Ok(segments) => segments,
            Err(_) => {
                return Step::Reply(Reply::plain(400));
            },
        };
        let path = path::join_segments(self.path.as_str(), segments.as_slice());
        let redirect = if is_directory_url(url_path) {
            None
        } else {
            Some(path::redirect_location(segments.as_slice(), path::query(url)))
        };
        Step::Open(
            Opening { target: Target { backend: self, request, is_get, segments, path, redirect } },
        )
    }

    /// The step that looks for an index file, from position `i` on.
    fn find_index_file<'a>(target: Target<'a>, i: usize) -> (r: Step<'a>)
        ensures
            r@ == search_step(target@, i as int),
            r.is_valid(),
    {
        if i < target.backend.index_files.len() {
            let name = target.backend.index_files[i].clone();
            let path = join_name(target.path.as_str(), name.as_str());
            Step::Try(Search { target, index: i, name, path })
        } else {
            FileBackend::serve_missing_index(target)
        }
    }

    /// The step for a directory without an index file.
    fn serve_missing_index<'a>(target: Target<'a>) -> (r: Step<'a>)
        ensures
            r@ == (if target@.config.autoindex {
                StepView::List(target@)
            } else {
                StepView::Reply(reply::plain(403))
            }),
            r.is_valid(),
    {
        if target.backend.autoindex_enabled() {
            Step::List(Unlisted { target })
        } else {
            Step::Reply(Reply::plain(403))
        }
    }

    /// The step that answers with the file at `path`.
    fn answer_with<'a>(target: Target<'a>, path: &str, facts: FileFacts) -> (r: Step<'a>)
        requires
            facts.is_dated(),
        ensures
            r@ == file_step(target@, path@, facts),
            r.is_valid(),
            sends_back_the_date(target@.request, facts) ==> answered_by_date(r@, facts),
    {
        Step::Reply(
            target.backend.serve_file(
                target.is_get,
                header(target.request.if_none_match),
                header(target.request.if_modified_since),
                path,
                facts,
            ),
        )
    }

    /// The step for the entries of a directory, in the format that the client
    /// prefers.
    fn render_autoindex<'a>(
        target: Target<'a>,
        entries: Vec<AutoindexEntry>,
        truncated: bool,
    ) -> (r: Step<'a>)
        requires
            all_dated(listing::views(entries@)),
        ensures
            r@ == rendered(target@, listing::views(entries@), truncated),
            r.is_valid(),
    {
        let format = negotiation::pick_autoindex_format(header(target.request.accept));
        match format {
            AutoindexFormat::Html => {
                let url_path = path::decoded_url_path(target.segments.as_slice());
                proof {
                    let all = listing::views(entries@);
                    assert forall|i: int| 0 <= i < entries@.len() implies ((
                    #[trigger] entries@[i]).modified matches Some(m) ==> m.has_date()) by {
                        assert(all[i].modified == entries@[i].modified);
                    }
                }
                let page = html::render_autoindex_html(
                    url_path.as_str(),
                    &entries,
                    target.backend.autoindex_human_size,
                    target.backend.autoindex_human_dates,
                );
                let body = page.as_str().as_bytes_vec();
                Step::Reply(reply::listing_reply(target.is_get, format, body, truncated))
            },
            _ => Step::Write(Unwritten { target, format, entries, truncated }),
        }
    }
}

impl<'a> Opening<'a> {
    /// The step after the target was opened.
    pub fn opened(self, opened: Opened) -> (r: Step<'a>)
        requires
            opened@.is_dated(),
        ensures
            r@ == after_open(self.target@, opened@),
            r.is_valid(),
            opened@ matches OpenedView::Regular(facts) ==> self.target@.redirect is Some
                && sends_back_the_date(self.target@.request, facts) ==> answered_by_date(r@, facts),
    {
        let target = self.target;
        match opened {
            Opened::Failed(OpenError::NotFound) => Step::Reply(Reply::plain(404)),
            Opened::Failed(OpenError::NotADirectory) => Step::Reply(Reply::plain(404)),
            Opened::Failed(OpenError::PermissionDenied) => Step::Reply(Reply::plain(403)),
            Opened::Failed(OpenError::Other(reason)) => Step::Fail(reason),
            Opened::Unknown(reason) => Step::Fail(reason),
            Opened::Directory => {
                if let Some(location) = &target.redirect {
                    let mut r = Reply::plain(301);
                    r.set_header("location", location.as_str());
                    assert(r@.headers =~= reply::redirect(location@).headers);
                    return Step::Reply(r);
                }
                if target.backend.index_files.len() == 0 && !target.backend.autoindex_enabled() {
                    return Step::Reply(Reply::plain(403));
                }
                if target.backend.follow_links {
                    FileBackend::find_index_file(target, 0)
                } else {
                    Step::OpenDir(OpeningDir { target })
                }
            },
            Opened::Regular(facts) => {
                if target.redirect.is_none() {
                    return Step::Reply(Reply::plain(404));
                }
                let path = target.path.clone();
                FileBackend::answer_with(target, path.as_str(), facts)
            },
        }
    }
}

impl<'a> OpeningDir<'a> {
    /// The step after the directory was opened as one, or could not be.
    pub fn opened(self, opened: bool) -> (r: Step<'a>)
        ensures
            r@ == after_open_dir(self.target@, opened),
            r.is_valid(),
    {
        if opened {
            FileBackend::find_index_file(self.target, 0)
        } else {
            Step::Reply(Reply::plain(403))
        }
    }
}

impl<'a> Search<'a> {
    /// The step after this index file was opened. Whatever is not a file is
    /// passed over.
    pub fn opened(self, opened: Opened) -> (r: Step<'a>)
        requires
            self.is_valid(),
            opened@.is_dated(),
        ensures
            r@ == after_try(self.target@, self.index as int, opened@),
            r.is_valid(),
            opened@ matches OpenedView::Regular(facts) ==> sends_back_the_date(
                self.target@.request,
                facts,
            ) ==> answered_by_date(r@, facts),
    {
        match opened {
            Opened::Regular(facts) => FileBackend::answer_with(
                self.target,
                self.path.as_str(),
                facts,
            ),
            _ => {
                let count: usize = self.target.backend.index_files.len();
                assert(self.index < count);
                FileBackend::find_index_file(self.target, self.index + 1)
            },
        }
    }
}

impl<'a> Unlisted<'a> {
    /// The step after the directory was read, or could not be.
    pub fn listed(self, listed: Option<Listing>) -> (r: Step<'a>)
        requires
            listed_view(listed) matches Some(l) ==> all_dated(l.entries),
        ensures
            r@ == after_list(self.target@, listed_view(listed)),
            r.is_valid(),
    {
        match listed {
            Some(l) => {
                proof {
                    lemma_sorted_dated(l@.entries);
                }
                let (entries, truncated) = l.finish();
                FileBackend::render_autoindex(self.target, entries, truncated)
            },
            None => Step::Reply(Reply::plain(403)),
        }
    }
}

impl<'a> Unwritten<'a> {
    /// The step after the entries were written, or could not be.
    pub fn written(self, written: Option<Vec<u8>>) -> (r: Step<'a>)
        ensures
            r@ == after_write(
                self.target@,
                self.format,
                self.truncated,
                match written {
                    Some(body) => Some(body@),
                    None => None,
                },
            ),
            r.is_valid(),
    {
        match written {
            Some(body) => Step::Reply(
                reply::listing_reply(self.target.is_get, self.format, body, self.truncated),
            ),
            None => Step::Reply(Reply::plain(403)),
        }
    }
}

} // verus!
