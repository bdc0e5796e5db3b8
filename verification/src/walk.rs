//! How a request is led to a file, one segment at a time.
use vstd::prelude::*;
use vstd::string::*;

use crate::listing::SimpleType;
use crate::text;

verus! {

/// Why a file or a directory cannot be opened.
#[derive(Debug)]
pub enum OpenError {
    NotFound,
    /// A directory was expected on the way, and something else is there.
    NotADirectory,
    PermissionDenied,
    /// Any other reason, as a text.
    Other(String),
}

/// What is known of an error.
pub enum OpenFault {
    NotFound,
    NotADirectory,
    PermissionDenied,
    Other(Seq<char>),
}

impl View for OpenError {
    type V = OpenFault;

    open spec fn view(&self) -> OpenFault {
        match self {
            OpenError::NotFound => OpenFault::NotFound,
            OpenError::NotADirectory => OpenFault::NotADirectory,
            OpenError::PermissionDenied => OpenFault::PermissionDenied,
            OpenError::Other(text) => OpenFault::Other(text@),
        }
    }
}

/// What to do with the next segment.
pub enum Hop<'a> {
    /// Go into this directory, without following a link.
    Enter(&'a str),
    /// This is the last segment: open it.
    Open(&'a str),
    /// Give up.
    Fail(OpenError),
}

/// What a hop holds.
pub enum HopView {
    Enter(Seq<char>),
    Open(Seq<char>),
    Fail(OpenFault),
}

impl<'a> View for Hop<'a> {
    type V = HopView;

    open spec fn view(&self) -> HopView {
        match self {
            Hop::Enter(name) => HopView::Enter(name@),
            Hop::Open(name) => HopView::Open(name@),
            Hop::Fail(e) => HopView::Fail(e@),
        }
    }
}

/// The name that segment `i` of a walk is looked up under. The walk to the root
/// itself has the one segment `.`.
pub open spec fn hop_name(segments: Seq<Seq<char>>, i: int) -> Seq<char> {
    if segments.len() == 0 {
        "."@
    } else {
        segments[i]
    }
}

/// The number of hops of a walk.
pub open spec fn hop_count(segments: Seq<Seq<char>>) -> nat {
    if segments.len() == 0 {
        1
    } else {
        segments.len()
    }
}

/// Whether an attempt is made to open what a `stat` shows, if it shows anything.
/// Only files, directories and links are tried: opening a FIFO or a device may
/// block.
pub open spec fn may_open(kind: Option<SimpleType>) -> bool {
    kind != Some(SimpleType::Other)
}

/// What to do with segment `i`, given what a `stat` that follows no link shows
/// there, if it shows anything.
pub open spec fn hop(segments: Seq<Seq<char>>, i: int, kind: Option<SimpleType>) -> HopView {
    let name = hop_name(segments, i);
    if i + 1 < hop_count(segments) {
        if kind == Some(SimpleType::Symlink) {
            HopView::Fail(OpenFault::Other("symbolic link in the path"@))
        } else {
            HopView::Enter(name)
        }
    } else if may_open(kind) {
        HopView::Open(name)
    } else {
        HopView::Fail(OpenFault::PermissionDenied)
    }
}

/// The name that segment `i` of a walk is looked up under.
pub fn segment_name<'a>(segments: &'a [String], i: usize) -> (r: &'a str)
    requires
        i < hop_count(text::views(segments@)),
    ensures
        r@ == hop_name(text::views(segments@), i as int),
{
    if segments.len() == 0 {
        "."
    } else {
        segments[i].as_str()
    }
}

/// One hop of the walk along `segments`, from the root to what they lead to.
/// `kind` is what a `stat` of segment `i` shows that does not follow links, if
/// it shows anything. A link on the way is an error, wherever it points.
pub fn walk_segments<'a>(segments: &'a [String], i: usize, kind: Option<SimpleType>) -> (r: Hop<'a>)
    requires
        i < hop_count(text::views(segments@)),
    ensures
        r@ == hop(text::views(segments@), i as int, kind),
{
    let name = segment_name(segments, i);
    if segments.len() > 0 && i < segments.len() - 1 {
        match kind {
            Some(SimpleType::Symlink) => Hop::Fail(
                OpenError::Other("symbolic link in the path".to_owned()),
            ),
            _ => Hop::Enter(name),
        }
    } else {
        match open_regular(kind) {
            Ok(_) => Hop::Open(name),
            Err(e) => Hop::Fail(e),
        }
    }
}

/// Whether to open what a `stat` shows. A link is not refused here: opening it
/// fails by itself.
pub fn open_regular(kind: Option<SimpleType>) -> (r: Result<(), OpenError>)
    ensures
        match r {
            Ok(_) => may_open(kind),
            Err(e) => !may_open(kind) && e@ is PermissionDenied,
        },
{
    match kind {
        Some(SimpleType::Other) => Err(OpenError::PermissionDenied),
        _ => Ok(()),
    }
}

/// Whether to open a path, going by what a `stat` that follows links shows: if
/// it shows anything, whether that is a file and whether it is a directory.
pub fn open_regular_at(shown: Option<(bool, bool)>) -> (r: Result<(), OpenError>)
    ensures
        match r {
            Ok(_) => shown != Some((false, false)),
            Err(e) => shown == Some((false, false)) && e@ is PermissionDenied,
        },
{
    match shown {
        Some((is_file, is_dir)) => if !is_file && !is_dir {
            Err(OpenError::PermissionDenied)
        } else {
            Ok(())
        },
        None => Ok(()),
    }
}

/// What a walk comes to, from segment `i` on, where `kinds` is what the `stat`
/// of each segment shows: the names that were entered, and the last hop.
pub open spec fn walked(
    segments: Seq<Seq<char>>,
    kinds: Seq<Option<SimpleType>>,
    i: int,
) -> (Seq<Seq<char>>, HopView)
    decreases kinds.len() - i,
{
    match hop(segments, i, kinds[i]) {
        HopView::Enter(name) if i + 1 < kinds.len() => {
            let (names, end) = walked(segments, kinds, i + 1);
            (seq![name] + names, end)
        },
        end => (seq![], end),
    }
}

proof fn lemma_walked(segments: Seq<Seq<char>>, kinds: Seq<Option<SimpleType>>, i: int)
    requires
        kinds.len() == hop_count(segments),
        0 <= i < kinds.len(),
    ensures
        ({
            let (names, end) = walked(segments, kinds, i);
            let last = kinds.len() - 1;
            &&& !(end is Enter)
            &&& i + names.len() <= last
            &&& forall|k: int|
                0 <= k < names.len() ==> (#[trigger] names[k]) == segments[i + k] && kinds[i + k]
                    != Some(SimpleType::Symlink)
            &&& (forall|k: int| i <= k < last ==> kinds[k] != Some(SimpleType::Symlink)) ==> {
                &&& names.len() == last - i
                &&& end == hop(segments, last, kinds[last])
            }
            &&& (exists|k: int| i <= k < last && kinds[k] == Some(SimpleType::Symlink))
                ==> end == HopView::Fail(OpenFault::Other("symbolic link in the path"@))
        }),
    decreases kinds.len() - i,
{
    if i + 1 < kinds.len() {
        lemma_walked(segments, kinds, i + 1);
        let (names, end) = walked(segments, kinds, i);
        let (later, _) = walked(segments, kinds, i + 1);
        assert forall|k: int| 0 <= k < names.len() implies (#[trigger] names[k]) == segments[i + k]
            && kinds[i + k] != Some(SimpleType::Symlink) by {
            if k > 0 {
                assert(names[k] == later[k - 1]);
                assert(i + k == i + 1 + (k - 1));
            }
        }
    }
}

/// A walk enters no link: where one stands on the way, the walk fails, and
/// otherwise it enters every segment but the last and comes to the last one.
/// The last one is opened unless a `stat` shows that it is neither a file nor a
/// directory nor a link.
pub proof fn law_walk_enters_no_link(segments: Seq<Seq<char>>, kinds: Seq<Option<SimpleType>>)
    requires
        kinds.len() == hop_count(segments),
    ensures
        ({
            let (names, end) = walked(segments, kinds, 0);
            let last = kinds.len() - 1;
            let link = exists|k: int| 0 <= k < last && kinds[k] == Some(SimpleType::Symlink);
            &&& forall|k: int|
                0 <= k < names.len() ==> (#[trigger] names[k]) == segments[k] && kinds[k] != Some(
                    SimpleType::Symlink,
                )
            &&& link ==> end is Fail && !(end->Fail_0 is NotFound) && !(end->Fail_0 is NotADirectory)
                && !(end->Fail_0 is PermissionDenied)
            &&& !link ==> {
                &&& names == segments.take(last)
                &&& may_open(kinds[last]) ==> end == HopView::Open(hop_name(segments, last))
                &&& !may_open(kinds[last]) ==> end == HopView::Fail(OpenFault::PermissionDenied)
            }
        }),
{
    lemma_walked(segments, kinds, 0);
    let (names, end) = walked(segments, kinds, 0);
    let last = kinds.len() - 1;
    assert forall|k: int| 0 <= k < names.len() implies (#[trigger] names[k]) == segments[k]
        && kinds[k] != Some(SimpleType::Symlink) by {
        assert(names[k] == segments[0 + k]);
    }
    if !(exists|k: int| 0 <= k < last && kinds[k] == Some(SimpleType::Symlink)) {
        assert(names =~= segments.take(last));
    }
}

} // verus!
