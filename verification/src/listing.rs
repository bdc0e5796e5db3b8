//! The entries of a directory listing.
use vstd::prelude::*;
use vstd::string::*;

use crate::order;
use crate::text;
use crate::time::Timestamp;

verus! {

/// One line of a directory listing. A directory has no size: what the file
/// system reports for it says nothing about its content.
#[derive(Debug)]
pub struct AutoindexEntry {
    pub name: String,
    pub is_dir: bool,
    pub size: Option<u64>,
    pub modified: Option<Timestamp>,
}

/// What an entry holds.
pub struct EntryView {
    pub name: Seq<char>,
    pub is_dir: bool,
    pub size: Option<u64>,
    pub modified: Option<Timestamp>,
}

impl View for AutoindexEntry {
    type V = EntryView;

    open spec fn view(&self) -> EntryView {
        EntryView {
            name: self.name@,
            is_dir: self.is_dir,
            size: self.size,
            modified: self.modified,
        }
    }
}

/// What each entry of a list holds.
pub open spec fn views(list: Seq<AutoindexEntry>) -> Seq<EntryView> {
    Seq::new(list.len(), |i: int| list[i]@)
}

/// The number of directory entries that a listing examines. Entries that are
/// left out count as well: otherwise a directory full of them would be read to
/// its end for every request.
pub const MAX_LISTING_ENTRIES: usize = 10_000;

/// What a directory entry is, as a `stat` tells.
#[derive(Clone, Copy, Debug, PartialEq, Eq, Structural)]
pub enum SimpleType {
    Symlink,
    Dir,
    File,
    Other,
}

/// What a `stat` of a directory entry tells.
#[derive(Clone, Copy, Debug)]
pub struct EntryFacts {
    pub kind: SimpleType,
    pub len: u64,
    pub modified: Option<Timestamp>,
}

/// The next entry that reading a directory gives.
pub enum RawEntry<'a> {
    /// Reading it failed.
    Unreadable,
    /// Its name is not UTF-8.
    NotUtf8,
    /// Its name.
    Named(&'a str),
}

/// What is known of the next entry of a directory.
pub enum RawName {
    Unreadable,
    NotUtf8,
    Named(Seq<char>),
}

impl<'a> View for RawEntry<'a> {
    type V = RawName;

    open spec fn view(&self) -> RawName {
        match self {
            RawEntry::Unreadable => RawName::Unreadable,
            RawEntry::NotUtf8 => RawName::NotUtf8,
            RawEntry::Named(name) => RawName::Named(name@),
        }
    }
}

/// What to do about the next entry of a directory.
#[derive(Clone, Copy, Debug, PartialEq, Eq, Structural)]
pub enum Examined {
    /// Read no further: the listing is full.
    Stop,
    /// Give up: there is no listing.
    Fail,
    /// Leave the entry out.
    Skip,
    /// Find out what it is, and record it.
    Stat,
}

/// A listing that is being collected.
#[derive(Debug)]
pub struct Listing {
    pub entries: Vec<AutoindexEntry>,
    pub seen: usize,
    pub truncated: bool,
}

/// What a listing holds.
pub struct ListingView {
    pub entries: Seq<EntryView>,
    pub seen: nat,
    pub truncated: bool,
}

impl View for Listing {
    type V = ListingView;

    open spec fn view(&self) -> ListingView {
        ListingView {
            entries: views(self.entries@),
            seen: self.seen as nat,
            truncated: self.truncated,
        }
    }
}

/// Whether a name is kept out of listings: those that begin with a dot.
pub open spec fn is_dotfile(name: Seq<char>) -> bool {
    name.len() > 0 && name[0] == '.'
}

/// What is done about the next entry, and the listing after it.
pub open spec fn examined(state: ListingView, raw: RawName) -> (Examined, ListingView) {
    if state.seen >= MAX_LISTING_ENTRIES {
        (Examined::Stop, ListingView { truncated: true, ..state })
    } else {
        let next = ListingView { seen: state.seen + 1, ..state };
        match raw {
            RawName::Unreadable => (Examined::Fail, next),
            RawName::NotUtf8 => (Examined::Skip, next),
            RawName::Named(name) => if is_dotfile(name) {
                (Examined::Skip, next)
            } else {
                (Examined::Stat, next)
            },
        }
    }
}

/// The line that an entry gives: none where its `stat` failed, and none for a
/// symbolic link.
pub open spec fn entry_of(name: Seq<char>, facts: Option<EntryFacts>) -> Option<EntryView> {
    match facts {
        Some(f) if f.kind != SimpleType::Symlink => Some(
            EntryView {
                name,
                is_dir: f.kind == SimpleType::Dir,
                size: if f.kind == SimpleType::Dir {
                    None
                } else {
                    Some(f.len)
                },
                modified: f.modified,
            },
        ),
        _ => None,
    }
}

/// The listing after the entry `name` was recorded.
pub open spec fn recorded(
    state: ListingView,
    name: Seq<char>,
    facts: Option<EntryFacts>,
) -> ListingView {
    match entry_of(name, facts) {
        Some(e) => ListingView { entries: state.entries.push(e), ..state },
        None => state,
    }
}

impl Listing {
    /// A listing of nothing so far.
    pub fn new() -> (r: Listing)
        ensures
            r@ == (ListingView { entries: seq![], seen: 0, truncated: false }),
    {
        let r = Listing { entries: Vec::new(), seen: 0, truncated: false };
        assert(r@.entries =~= seq![]);
        r
    }

    /// Decides about the next entry of the directory.
    pub fn examine(&mut self, raw: RawEntry) -> (r: Examined)
        ensures
            (r, final(self)@) == examined(old(self)@, raw@),
    {
        if self.seen >= MAX_LISTING_ENTRIES {
            self.truncated = true;
            return Examined::Stop;
        }
        self.seen = self.seen + 1;
        match raw {
            RawEntry::Unreadable => Examined::Fail,
            RawEntry::NotUtf8 => Examined::Skip,
            RawEntry::Named(name) => {
                proof {
                    reveal_strlit(".");
                    if is_dotfile(name@) {
                        assert("."@ =~= name@.subrange(0, 1));
                    } else if "."@.is_prefix_of(name@) {
                        assert(name@.subrange(0, 1)[0] == '.');
                    }
                }
                if text::starts_with(name, ".") {
                    Examined::Skip
                } else {
                    Examined::Stat
                }
            },
        }
    }

    /// Records an entry that `examine` asked to find out about. `facts` is what
    /// its `stat` told, if it told anything.
    pub fn record(&mut self, name: &str, facts: Option<EntryFacts>)
        ensures
            final(self)@ == recorded(old(self)@, name@, facts),
    {
        if let Some(f) = facts {
            if f.kind != SimpleType::Symlink {
                let is_dir: bool = f.kind == SimpleType::Dir;
                let size: Option<u64> = if is_dir {
                    None
                } else {
                    Some(f.len)
                };
                let e = AutoindexEntry { name: name.to_owned(), is_dir, size, modified: f.modified };
                self.entries.push(e);
                assert(self@.entries =~= old(self)@.entries.push(e@));
            }
        }
    }

    /// The collected entries in the order of the listing, and whether entries
    /// were left unread.
    pub fn finish(self) -> (r: (Vec<AutoindexEntry>, bool))
        ensures
            views(r.0@) == order::sorted(self@.entries),
            r.1 == self@.truncated,
    {
        let truncated: bool = self.truncated;
        (order::sort_entries(self.entries), truncated)
    }
}

/// A directory entry as reading and `stat` would show it.
pub struct DirItem {
    pub raw: RawName,
    pub facts: Option<EntryFacts>,
}

/// The line that an item of a directory gives.
pub open spec fn line_of(item: DirItem) -> Option<EntryView> {
    match item.raw {
        RawName::Named(name) if !is_dotfile(name) => entry_of(name, item.facts),
        _ => None,
    }
}

/// What comes of reading the items one after the other, starting from `state`:
/// nothing where an item fails it.
pub open spec fn collected(state: ListingView, items: Seq<DirItem>) -> Option<ListingView>
    decreases items.len(),
{
    if items.len() == 0 {
        Some(state)
    } else {
        let (what, next) = examined(state, items[0].raw);
        match what {
            Examined::Stop => Some(next),
            Examined::Fail => None,
            Examined::Skip => collected(next, items.skip(1)),
            Examined::Stat => collected(
                recorded(next, items[0].raw->Named_0, items[0].facts),
                items.skip(1),
            ),
        }
    }
}

/// The lines of the items, in order.
pub open spec fn lines_of(items: Seq<DirItem>) -> Seq<EntryView> {
    items.filter_map(|item: DirItem| line_of(item))
}

proof fn lemma_lines_of_first(items: Seq<DirItem>)
    requires
        items.len() > 0,
    ensures
        lines_of(items) == (match line_of(items[0]) {
            Some(e) => seq![e],
            None => seq![],
        }) + lines_of(items.skip(1)),
    decreases items.len(),
{
    reveal(Seq::filter_map);
    if items.len() == 1 {
        reveal_with_fuel(Seq::filter_map, 2);
        assert(items.drop_last() =~= seq![]);
        assert(items.skip(1) =~= seq![]);
        assert(lines_of(items) =~= (match line_of(items[0]) {
            Some(e) => seq![e],
            None => seq![],
        }) + lines_of(items.skip(1)));
    } else {
        lemma_lines_of_first(items.drop_last());
        assert(items.drop_last().skip(1) =~= items.skip(1).drop_last());
        assert(items.skip(1).last() == items.last());
        assert(lines_of(items) =~= (match line_of(items[0]) {
            Some(e) => seq![e],
            None => seq![],
        }) + lines_of(items.skip(1)));
    }
}

/// The first `n` items, or all of them where there are fewer.
pub open spec fn first_items(items: Seq<DirItem>, n: int) -> Seq<DirItem> {
    if items.len() <= n {
        items
    } else {
        items.take(n)
    }
}

/// Whether reading each item succeeds.
pub open spec fn all_readable(items: Seq<DirItem>) -> bool {
    forall|i: int| 0 <= i < items.len() ==> !((#[trigger] items[i]).raw is Unreadable)
}

proof fn lemma_collected(state: ListingView, items: Seq<DirItem>)
    requires
        state.seen <= MAX_LISTING_ENTRIES,
    ensures
        ({
            let room = MAX_LISTING_ENTRIES - state.seen;
            let read = first_items(items, room);
            &&& (collected(state, items) is Some <==> all_readable(read))
            &&& (collected(state, items) matches Some(end) ==> {
                &&& end.entries == state.entries + lines_of(read)
                &&& end.truncated == (state.truncated || items.len() > room)
            })
        }),
    decreases items.len(),
{
    let room = MAX_LISTING_ENTRIES - state.seen;
    let read = first_items(items, room);
    if items.len() == 0 {
        reveal(Seq::filter_map);
        assert(state.entries + lines_of(read) =~= state.entries);
    } else if room == 0 {
        reveal(Seq::filter_map);
        assert(read =~= seq![]);
        assert(state.entries + lines_of(read) =~= state.entries);
    } else {
        let (what, next) = examined(state, items[0].raw);
        let rest = items.skip(1);
        let rest_read = first_items(rest, room - 1);
        assert(read[0] == items[0]);
        assert(rest_read =~= read.skip(1));
        lemma_lines_of_first(read);
        if what == Examined::Fail {
            assert(read[0].raw is Unreadable);
        } else {
            let after = if what == Examined::Stat {
                recorded(next, items[0].raw->Named_0, items[0].facts)
            } else {
                next
            };
            assert(collected(state, items) == collected(after, rest));
            lemma_collected(after, rest);
            assert(!(read[0].raw is Unreadable));
            assert(all_readable(read) <==> all_readable(rest_read)) by {
                if all_readable(rest_read) {
                    assert forall|i: int| 0 <= i < read.len() implies !((
                    #[trigger] read[i]).raw is Unreadable) by {
                        if i > 0 {
                            assert(read[i] == rest_read[i - 1]);
                        }
                    }
                }
                if all_readable(read) {
                    assert forall|i: int| 0 <= i < rest_read.len() implies !((
                    #[trigger] rest_read[i]).raw is Unreadable) by {
                        assert(rest_read[i] == read[i + 1]);
                    }
                }
            }
            assert(after.entries + lines_of(rest_read) =~= state.entries + lines_of(read));
        }
    }
}

/// What a listing shows of a directory: of the first entries, as many as a
/// listing examines, those with a UTF-8 name that does not begin with a dot,
/// whose `stat` succeeds and tells that they are no symbolic link. It is marked
/// as truncated exactly when the directory has more entries than that. There is
/// no listing exactly when reading one of those first entries fails.
pub proof fn law_listing_of_a_directory(items: Seq<DirItem>)
    ensures
        ({
            let start = ListingView { entries: seq![], seen: 0, truncated: false };
            let read = first_items(items, MAX_LISTING_ENTRIES as int);
            &&& (collected(start, items) is Some <==> all_readable(read))
            &&& (collected(start, items) matches Some(end) ==> {
                &&& end.entries == lines_of(read)
                &&& end.truncated == (items.len() > MAX_LISTING_ENTRIES)
            })
        }),
{
    let start = ListingView { entries: seq![], seen: 0, truncated: false };
    let read = first_items(items, MAX_LISTING_ENTRIES as int);
    lemma_collected(start, items);
    assert(start.entries + lines_of(read) =~= lines_of(read));
}

/// No listing shows a name that begins with a dot, and none has more lines than
/// it examines entries.
pub proof fn law_lines_of_a_listing(items: Seq<DirItem>)
    ensures
        ({
            let lines = lines_of(first_items(items, MAX_LISTING_ENTRIES as int));
            &&& lines.len() <= MAX_LISTING_ENTRIES
            &&& forall|i: int| 0 <= i < lines.len() ==> !is_dotfile((#[trigger] lines[i]).name)
        }),
{
    lemma_lines(first_items(items, MAX_LISTING_ENTRIES as int));
}

proof fn lemma_lines(items: Seq<DirItem>)
    ensures
        lines_of(items).len() <= items.len(),
        forall|i: int|
            0 <= i < lines_of(items).len() ==> !is_dotfile((#[trigger] lines_of(items)[i]).name),
    decreases items.len(),
{
    reveal(Seq::filter_map);
    if items.len() > 0 {
        lemma_lines(items.drop_last());
    }
}

} // verus!
