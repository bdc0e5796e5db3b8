//! What a request and a configuration are taken to say.
use vstd::prelude::*;

use crate::backend;
use crate::backend::{Config, FileBackend, MimeFile, SetupError, SetupFault};
use crate::fetch;
use crate::fetch::{
    Opened, OpenedView, Opening, OpeningDir, Request, RequestView, Search, Step, StepView,
    StrOrBytes, Target, TargetView, Unlisted, Unwritten,
};
use crate::html;
use crate::listing;
use crate::listing::{AutoindexEntry, EntryView, Listing, RawEntry, RawName, SimpleType};
use crate::mime;
use crate::path;
use crate::path_laws;
use crate::reply::Reply;
use crate::text;
use crate::transfer;
use crate::transfer::{Body, FileTransfer, MemTransfer};
use crate::walk;
use crate::walk::{Hop, HopView, OpenError, OpenFault};

verus! {

/// What a well-formed `GET` or `HEAD` leads to: the segments of its URL without
/// the query string, and the path that they make below the root. Where the URL
/// path does not end with `/`, a directory there is redirected to.
pub proof fn law_target_of_a_request(config: Config, request: RequestView, url: Seq<char>)
    requires
        request.url == Some(url),
        request.method == Some("GET"@) || request.method == Some("HEAD"@),
    ensures
        ({
            let url_path = path::without_query(url);
            match path::clamped(url_path) {
                Err(_) => fetch::first_step(config, request) == StepView::Reply(
                    crate::reply::plain(400),
                ),
                Ok(segments) => {
                    &&& fetch::first_step(config, request) matches StepView::Open(t)
                    &&& t.config == config
                    &&& t.request == request
                    &&& t.is_get <==> request.method == Some("GET"@)
                    &&& t.segments == segments
                    &&& t.path == config.path + path::below(segments)
                    &&& t.redirect is None <==> url_path.len() > 0 && url_path[url_path.len() - 1]
                        == '/'
                    &&& t.redirect matches Some(l) ==> l == path::location(
                        segments,
                        path::query_of(url),
                    )
                },
            }
        }),
{
    reveal_strlit("GET");
    reveal_strlit("HEAD");
    assert("GET"@.len() != "HEAD"@.len());
}

/// The path of an entry of a directory: the directory, a `/` unless it ends with
/// one, and the name.
pub proof fn law_path_of_an_entry(dir: Seq<char>, name: Seq<char>)
    requires
        dir.len() > 0,
    ensures
        dir[dir.len() - 1] == '/' ==> fetch::joined(dir, name) == dir + name,
        dir[dir.len() - 1] != '/' ==> fetch::joined(dir, name) == dir + "/"@ + name,
{
    reveal_strlit("/");
    assert("/"@ =~= seq!['/']);
}

/// The page of a listing has the decoded path of the directory as its title, and
/// shows sizes and dates as the configuration says.
pub proof fn law_page_of_a_target(t: TargetView, entries: Seq<EntryView>)
    ensures
        fetch::listing_page(t, entries) == html::page(
            path::directory_path(t.segments),
            entries,
            t.config.autoindex_human_size,
            t.config.autoindex_human_dates,
        ),
{
}

/// A header is text exactly if it is there and is UTF-8.
pub proof fn law_texts_of_a_request<'a>(r: Request<'a>, text: &'a str, bytes: &'a [u8])
    ensures
        StrOrBytes::Utf8(text).text() == Some(text@),
        StrOrBytes::Bytes(bytes).text() is None,
        r@.url == r.url.text(),
        r.method is None ==> r@.method is None,
        r.method matches Some(v) ==> r@.method == v.text(),
        r.accept is None ==> r@.accept is None,
        r.accept matches Some(v) ==> r@.accept == v.text(),
        r.if_none_match is None ==> r@.if_none_match is None,
        r.if_none_match matches Some(v) ==> r@.if_none_match == v.text(),
        r.if_modified_since is None ==> r@.if_modified_since is None,
        r.if_modified_since matches Some(v) ==> r@.if_modified_since == v.text(),
{
}

/// What a target, a configuration and the outcome of opening a file hold is what
/// is known of them.
pub proof fn law_views_of_a_request(t: Target, b: FileBackend, o: Opened)
    ensures
        t@.config == t.backend@,
        t@.request == t.request@,
        t@.is_get == t.is_get,
        t@.segments.len() == t.segments@.len(),
        forall|i: int| 0 <= i < t.segments@.len() ==> #[trigger] t@.segments[i] == t.segments@[i]@,
        t@.path == t.path@,
        t.redirect matches Some(l) ==> t@.redirect == Some(l@),
        t.redirect is None ==> t@.redirect is None,
        b@.path == b.path@,
        b.mimes matches Some(m) ==> b@.mimes == Some(m@),
        b.mimes is None ==> b@.mimes is None,
        b@.follow_links == b.follow_links,
        b@.index_files.len() == b.index_files@.len(),
        forall|i: int|
            0 <= i < b.index_files@.len() ==> #[trigger] b@.index_files[i] == b.index_files@[i]@,
        b@.autoindex == b.autoindex,
        b@.autoindex_human_size == b.autoindex_human_size,
        b@.autoindex_human_dates == b.autoindex_human_dates,
        o is Directory <==> o@ is Directory,
        o matches Opened::Regular(facts) ==> o@ == OpenedView::Regular(facts),
        o matches Opened::Unknown(reason) ==> o@ == OpenedView::Unknown(reason@),
        o matches Opened::Failed(e) ==> o@ == OpenedView::Failed(e@),
{
}

/// Errors are known for what they are.
pub proof fn law_views_of_errors(e: OpenError, s: SetupError)
    ensures
        e is NotFound <==> e@ is NotFound,
        e is NotADirectory <==> e@ is NotADirectory,
        e is PermissionDenied <==> e@ is PermissionDenied,
        e matches OpenError::Other(t) ==> e@ == OpenFault::Other(t@),
        s matches SetupError::EmptyPath { name } ==> s@ == (SetupFault::EmptyPath { name: name@ }),
        s matches SetupError::IndexFileName { name } ==> s@ == (SetupFault::IndexFileName {
            name: name@,
        }),
        s matches SetupError::MimeFile { reason } ==> s@ == (SetupFault::MimeFile {
            reason: reason@,
        }),
        s matches SetupError::RootDir { path, reason } ==> s@ == (SetupFault::RootDir {
            path: path@,
            reason: reason@,
        }),
{
}

/// A response, its body, a listing and its entries are known by all that they
/// hold.
pub proof fn law_views_of_responses(
    r: Reply,
    m: MemTransfer,
    size: u64,
    e: AutoindexEntry,
    l: Listing,
    list: Seq<AutoindexEntry>,
    texts: Seq<String>,
)
    ensures
        r@.status == r.status,
        r.proto matches Some(p) ==> r@.proto == Some(p@),
        r.proto is None ==> r@.proto is None,
        r@.headers.len() == r.headers@.len(),
        forall|i: int|
            0 <= i < r.headers@.len() ==> #[trigger] r@.headers[i] == (
                r.headers@[i].0@,
                r.headers@[i].1@,
            ),
        r.transfer matches Some(t) ==> r@.body == Some(t@),
        r.transfer is None ==> r@.body is None,
        FileTransfer::File(size)@ == Body::File(size),
        FileTransfer::Mem(m)@ == Body::Mem(m@),
        m.position == 0 ==> m@ == m.body@,
        m.position <= m.body@.len() ==> m@.len() == m.body@.len() - m.position,
        forall|i: int|
            m.position <= i < m.body@.len() ==> m@[i - m.position] == #[trigger] m.body@[i],
        e@.name == e.name@,
        e@.is_dir == e.is_dir,
        e@.size == e.size,
        e@.modified == e.modified,
        l@.entries == listing::views(l.entries@),
        l@.seen == l.seen,
        l@.truncated == l.truncated,
        listing::views(list).len() == list.len(),
        forall|i: int| 0 <= i < list.len() ==> #[trigger] listing::views(list)[i] == list[i]@,
        text::views(texts).len() == texts.len(),
        forall|i: int| 0 <= i < texts.len() ==> #[trigger] text::views(texts)[i] == texts[i]@,
{
    if m.position == 0 {
        assert(m@ =~= m.body@);
    }
}

/// The next entry of a directory is known by its name, or by why it has none.
pub proof fn law_views_of_raw_entries<'a>(name: &'a str)
    ensures
        RawEntry::Named(name)@ == RawName::Named(name@),
        RawEntry::NotUtf8@ is NotUtf8,
        RawEntry::Unreadable@ is Unreadable,
        text::opt_view(Some(name)) == Some(name@),
        text::opt_view(None) is None,
{
}

/// A step is known for what it asks for.
pub proof fn law_views_of_steps<'a>(
    open: Opening<'a>,
    dir: OpeningDir<'a>,
    search: Search<'a>,
    list: Unlisted<'a>,
    write: Unwritten<'a>,
    r: Reply,
    reason: String,
)
    ensures
        Step::Open(open)@ == StepView::Open(open.target@),
        Step::OpenDir(dir)@ == StepView::OpenDir(dir.target@),
        Step::Try(search)@ == StepView::Try(search.target@, search.index as int),
        Step::List(list)@ == StepView::List(list.target@),
        Step::Write(write)@ == StepView::Write(
            write.target@,
            write.format,
            listing::views(write.entries@),
            write.truncated,
        ),
        Step::Reply(r)@ == StepView::Reply(r@),
        Step::Fail(reason)@ == StepView::Fail(reason@),
        Step::Try(search).is_valid() ==> {
            &&& search.index < search.target@.config.index_files.len()
            &&& search.name@ == search.target@.config.index_files[search.index as int]
            &&& search.path@ == fetch::joined(search.target@.path, search.name@)
        },
        Step::Reply(r).is_valid() && r.transfer is Some && r.transfer->Some_0 is Mem
            ==> r.transfer->Some_0->Mem_0.position <= r.transfer->Some_0->Mem_0.body@.len(),
{
}

/// Hops and files of media types are known for what they are.
pub proof fn law_views_of_hops<'a>(name: &'a str, e: OpenError, path: String)
    ensures
        Hop::Enter(name)@ == HopView::Enter(name@),
        Hop::Open(name)@ == HopView::Open(name@),
        Hop::Fail(e)@ == HopView::Fail(e@),
        MimeFile::Off@ is None,
        MimeFile::Optional(path)@ == Some((path@, false)),
        MimeFile::Required(path)@ == Some((path@, true)),
{
}

/// Where the table of media types is read from: without a setting from
/// `/etc/mime.types` if that can be read; with the empty string from nowhere;
/// otherwise from the file that is named, which must be readable.
pub proof fn law_file_of_media_types(path: Seq<char>)
    ensures
        backend::mime_file(None) == Some(("/etc/mime.types"@, false)),
        backend::mime_file(Some(""@)) is None,
        path != ""@ ==> backend::mime_file(Some(path)) == Some((path, true)),
{
    reveal_strlit("");
    if path.len() == 0 {
        assert(path =~= ""@);
    }
}

/// What reading the table of media types changes: the table alone. Where the
/// file cannot be read there is none, and that is an error where it had to be
/// readable.
pub proof fn law_reading_media_types(
    config: Config,
    file: Seq<char>,
    must: bool,
    content: Seq<char>,
    reason: Seq<char>,
)
    ensures
        backend::mimes_loaded(config, None, Ok(content)) == Ok::<Config, SetupFault>(config),
        backend::mimes_loaded(config, None, Err(reason)) == Ok::<Config, SetupFault>(config),
        backend::mimes_loaded(config, Some((file, must)), Ok(content)) == Ok::<Config, SetupFault>(
            Config { mimes: Some(mime::types_of(content)), ..config },
        ),
        backend::mimes_loaded(config, Some((file, false)), Err(reason)) == Ok::<
            Config,
            SetupFault,
        >(Config { mimes: None, ..config }),
        backend::mimes_loaded(config, Some((file, true)), Err(reason)) == Err::<
            Config,
            SetupFault,
        >(SetupFault::MimeFile { reason }),
{
}

/// What a backend begins with: no media types, no index files, no listings; and
/// where listings are switched on, rounded sizes and precise dates.
pub proof fn law_defaults(path: Seq<char>, follow_links: bool)
    ensures
        ({
            let c = Config::initial(path, follow_links);
            &&& c.path == path
            &&& c.follow_links == follow_links
            &&& c.mimes is None
            &&& c.index_files.len() == 0
            &&& !c.autoindex
            &&& c.autoindex_human_size
            &&& c.autoindex_human_dates
        }),
{
}

/// A configuration is valid if its root is not empty and every index file is a
/// bare name.
pub proof fn law_valid_configuration(config: Config)
    ensures
        config.is_valid() <==> config.path.len() > 0 && forall|i: int|
            0 <= i < config.index_files.len() ==> path_laws::is_safe_segment(
                #[trigger] config.index_files[i],
            ),
{
}

/// The texts of the errors of a configuration.
pub proof fn law_setup_messages(name: Seq<char>, reason: Seq<char>)
    ensures
        backend::setup_text(SetupFault::EmptyPath { name }) == "fileserver: can't create "@ + name
            + " with an empty path"@,
        backend::setup_text(SetupFault::IndexFileName { name })
            == "fileserver: index_file "@ + text::quoted_text(name)
            + " must be a bare filename, not a path"@,
        backend::index_file_text(name) == "fileserver: index_file "@ + name
            + " must be a bare filename, not a path"@,
        backend::setup_text(SetupFault::MimeFile { reason }) == reason,
        backend::setup_text(SetupFault::RootDir { path: name, reason })
            == "fileserver: can't open root "@ + name + ": "@ + reason,
{
}

/// What is done with each segment of a walk. On the way to the last one, a link
/// ends the walk and anything else is entered; the last one is opened unless it
/// is neither a file nor a directory nor a link. The root itself is `.`.
pub proof fn law_hops(segments: Seq<Seq<char>>, i: int, kind: Option<SimpleType>)
    requires
        0 <= i < segments.len(),
    ensures
        i < segments.len() - 1 && kind != Some(SimpleType::Symlink) ==> walk::hop(segments, i, kind)
            == HopView::Enter(segments[i]),
        i < segments.len() - 1 && kind == Some(SimpleType::Symlink) ==> {
            &&& walk::hop(segments, i, kind) matches HopView::Fail(e)
            &&& e is Other
        },
        i == segments.len() - 1 && kind != Some(SimpleType::Other) ==> walk::hop(segments, i, kind)
            == HopView::Open(segments[i]),
        i == segments.len() - 1 && kind == Some(SimpleType::Other) ==> walk::hop(segments, i, kind)
            == HopView::Fail(OpenFault::PermissionDenied),
        walk::hop_name(segments, i) == segments[i],
        walk::hop_count(segments) == segments.len(),
        walk::hop_count(seq![]) == 1,
        walk::hop_name(seq![], 0) == "."@,
        kind != Some(SimpleType::Other) ==> walk::hop(seq![], 0, kind) == HopView::Open("."@),
        walk::may_open(kind) <==> kind != Some(SimpleType::Other),
{
}

/// How much is asked for in a read: as much as there is room for, or as is left,
/// whichever is less; and what a read leaves.
pub proof fn law_reads(room: nat, left: nat, size: u64, rest: Seq<u8>, n: nat)
    ensures
        transfer::least(room, left) <= room,
        transfer::least(room, left) <= left,
        transfer::least(room, left) == room || transfer::least(room, left) == left,
        Body::File(size).size() == size,
        Body::Mem(rest).size() == rest.len(),
        n <= size ==> Body::File(size).after_read(n) == Body::File((size - n) as u64),
        n <= rest.len() ==> Body::Mem(rest).after_read(n) == Body::Mem(
            rest.subrange(n as int, rest.len() as int),
        ),
{
    if n <= rest.len() {
        assert(rest.skip(n as int) =~= rest.subrange(n as int, rest.len() as int));
    }
}

} // verus!
