//! What a listing shows of each entry, and in what order.
use vstd::prelude::*;
use vstd::utf8::*;

use crate::listing;
use crate::listing::{DirItem, EntryFacts, EntryView, ListingView, RawName, SimpleType};
use crate::order;

verus! {

/// An entry is shown exactly if its name does not begin with a dot, its `stat`
/// succeeds and it is no link. It is shown under its name and with its
/// modification time, and with its size unless it is a directory.
pub proof fn law_line_of_an_entry(name: Seq<char>, facts: EntryFacts)
    ensures
        ({
            let line = listing::line_of(DirItem { raw: RawName::Named(name), facts: Some(facts) });
            let hidden = name.len() > 0 && name[0] == '.';
            &&& line is Some <==> !hidden && facts.kind != SimpleType::Symlink
            &&& line matches Some(e) ==> {
                &&& e.name == name
                &&& e.is_dir <==> facts.kind == SimpleType::Dir
                &&& e.size == if facts.kind == SimpleType::Dir {
                    None::<u64>
                } else {
                    Some(facts.len)
                }
                &&& e.modified == facts.modified
            }
        }),
        listing::line_of(DirItem { raw: RawName::Named(name), facts: None }) is None,
        listing::line_of(DirItem { raw: RawName::NotUtf8, facts: Some(facts) }) is None,
        listing::line_of(DirItem { raw: RawName::Unreadable, facts: Some(facts) }) is None,
{
}

/// At most ten thousand entries are examined, and every one of those that is to
/// be shown is shown, in its turn. The listing is marked exactly if there are
/// more than that.
pub proof fn law_every_entry_gets_its_line(items: Seq<DirItem>, more: DirItem)
    ensures
        ({
            let start = ListingView { entries: seq![], seen: 0, truncated: false };
            let before = listing::collected(start, items);
            let after = listing::collected(start, items.push(more));
            &&& items.len() == 0 ==> before == Some(start)
            &&& before is None ==> after is None
            &&& before matches Some(l) ==> if items.len() >= 10_000 {
                after matches Some(m) && m.entries == l.entries && m.truncated
            } else if more.raw is Unreadable {
                after is None
            } else {
                &&& after matches Some(m)
                &&& !m.truncated
                &&& m.entries == match listing::line_of(more) {
                    Some(e) => l.entries.push(e),
                    None => l.entries,
                }
            }
        }),
{
    let start = ListingView { entries: seq![], seen: 0, truncated: false };
    let all = items.push(more);
    let max = listing::MAX_LISTING_ENTRIES as int;
    listing::law_listing_of_a_directory(items);
    listing::law_listing_of_a_directory(all);
    let read = listing::first_items(items, max);
    let read_all = listing::first_items(all, max);
    assert(max == 10_000);
    if items.len() >= 10_000 {
        assert(all.take(max) =~= items.take(max));
        assert(items.take(max) =~= read);
        assert(read_all =~= read);
    } else {
        assert(read == items);
        assert(read_all == all);
        assert(all.last() == more);
        assert(all.drop_last() =~= items);
        assert(all[items.len() as int] == more);
        if listing::all_readable(all) {
            assert forall|i: int| 0 <= i < items.len() implies !((
            #[trigger] items[i]).raw is Unreadable) by {
                assert(items[i] == all[i]);
            }
        }
        if listing::all_readable(items) && !(more.raw is Unreadable) {
            assert forall|i: int| 0 <= i < all.len() implies !((
            #[trigger] all[i]).raw is Unreadable) by {
                if i < items.len() {
                    assert(all[i] == items[i]);
                }
            }
        }
        reveal(Seq::filter_map);
        assert(listing::lines_of(all) == match listing::line_of(more) {
            Some(e) => listing::lines_of(items).push(e),
            None => listing::lines_of(items),
        });
    }
}

/// Whether the bytes of one text are not after those of another: the first
/// byte in which they differ is the smaller one, or they end first.
pub open spec fn not_after(a: Seq<u8>, b: Seq<u8>) -> bool {
    ||| a.len() <= b.len() && a == b.take(a.len() as int)
    ||| exists|k: int|
        0 <= k < a.len() && k < b.len() && #[trigger] a[k] < b[k] && a.take(k) == b.take(k)
}

proof fn lemma_bytes_le(a: Seq<u8>, b: Seq<u8>)
    requires
        order::bytes_le(a, b),
    ensures
        not_after(a, b),
    decreases a.len(),
{
    if a.len() == 0 {
        assert(a =~= b.take(0));
    } else if a[0] != b[0] {
        assert(a.take(0) =~= b.take(0));
        assert(a[0] < b[0]);
    } else {
        let x = a.skip(1);
        let y = b.skip(1);
        lemma_bytes_le(x, y);
        if x.len() <= y.len() && x == y.take(x.len() as int) {
            assert(a =~= b.take(a.len() as int)) by {
                assert forall|i: int| 0 <= i < a.len() implies a[i] == b[i] by {
                    if i > 0 {
                        assert(x[i - 1] == y.take(x.len() as int)[i - 1]);
                    }
                }
            }
        } else {
            let k = choose|k: int|
                0 <= k < x.len() && k < y.len() && #[trigger] x[k] < y[k] && x.take(k) == y.take(k);
            assert(a[k + 1] < b[k + 1]);
            assert(a.take(k + 1) =~= b.take(k + 1)) by {
                assert forall|i: int| 0 <= i < k + 1 implies a[i] == b[i] by {
                    if i > 0 {
                        assert(x.take(k)[i - 1] == y.take(k)[i - 1]);
                    }
                }
            }
        }
    }
}

/// The order of a listing: directories stand before files, and of two of the
/// same kind the one whose name has the smaller bytes stands first. The entries
/// are those that were there, as often as they were there, and those with the
/// same name and kind stand as they stood.
pub proof fn law_order_of_a_listing(
    entries: Seq<EntryView>,
    i: int,
    j: int,
    is_dir: bool,
    name: Seq<char>,
)
    ensures
        ({
            let list = order::sorted(entries);
            &&& list.to_multiset() == entries.to_multiset()
            &&& list.len() == entries.len()
            &&& list.filter(|e: EntryView| e.is_dir == is_dir && e.name == name) == entries.filter(
                |e: EntryView| e.is_dir == is_dir && e.name == name,
            )
            &&& 0 <= i < j < list.len() ==> {
                &&& list[j].is_dir ==> list[i].is_dir
                &&& list[i].is_dir == list[j].is_dir ==> not_after(
                    encode_utf8(list[i].name),
                    encode_utf8(list[j].name),
                )
            }
        }),
{
    let list = order::sorted(entries);
    order::law_entries_can_be_sorted(entries);
    entries.to_multiset_ensures();
    list.to_multiset_ensures();
    assert(order::with_key(entries, is_dir, name) == order::with_key(list, is_dir, name));
    assert(order::with_key(entries, is_dir, name) == entries.filter(
        |e: EntryView| e.is_dir == is_dir && e.name == name,
    ));
    assert(order::with_key(list, is_dir, name) == list.filter(
        |e: EntryView| e.is_dir == is_dir && e.name == name,
    ));
    if 0 <= i < j < list.len() {
        assert(order::entry_le(list[i], list[j]));
        if list[i].is_dir == list[j].is_dir {
            lemma_bytes_le(encode_utf8(list[i].name), encode_utf8(list[j].name));
        }
    }
}

} // verus!
