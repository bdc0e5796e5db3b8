//! The order of a directory listing: directories before files, each group by
//! name.
use vstd::prelude::*;
use vstd::string::*;
use vstd::utf8::*;

use crate::encoding;
use crate::listing;
use crate::listing::{AutoindexEntry, EntryView};

verus! {

/// Lexicographic order of byte sequences.
pub open spec fn bytes_le(a: Seq<u8>, b: Seq<u8>) -> bool
    decreases a.len(),
{
    if a.len() == 0 {
        true
    } else if b.len() == 0 {
        false
    } else if a[0] != b[0] {
        a[0] < b[0]
    } else {
        bytes_le(a.skip(1), b.skip(1))
    }
}

/// Whether `a` may stand before `b`: directories come first, then names decide
/// by their bytes.
pub open spec fn entry_le(a: EntryView, b: EntryView) -> bool {
    if a.is_dir != b.is_dir {
        a.is_dir
    } else {
        bytes_le(encode_utf8(a.name), encode_utf8(b.name))
    }
}

/// Whether no entry stands before one that belongs in front of it.
pub open spec fn is_sorted(list: Seq<EntryView>) -> bool {
    forall|i: int, j: int| 0 <= i <= j < list.len() ==> entry_le(#[trigger] list[i], #[trigger] list[j])
}

/// The entries of `list` with the given name and kind, in order.
pub open spec fn with_key(list: Seq<EntryView>, is_dir: bool, name: Seq<char>) -> Seq<EntryView> {
    list.filter(|e: EntryView| e.is_dir == is_dir && e.name == name)
}

/// Whether both lists hold the same entries, and those that the order does not
/// tell apart in the same sequence.
pub open spec fn same_entries(a: Seq<EntryView>, b: Seq<EntryView>) -> bool {
    &&& a.to_multiset() == b.to_multiset()
    &&& forall|is_dir: bool, name: Seq<char>| #[trigger]
        with_key(a, is_dir, name) == with_key(b, is_dir, name)
}

/// The entries in the order of a listing.
pub open spec fn sorted(entries: Seq<EntryView>) -> Seq<EntryView> {
    choose|list: Seq<EntryView>| is_sorted(list) && #[trigger] same_entries(entries, list)
}

pub proof fn lemma_bytes_le_reflexive(a: Seq<u8>)
    ensures
        bytes_le(a, a),
    decreases a.len(),
{
    if a.len() > 0 {
        lemma_bytes_le_reflexive(a.skip(1));
    }
}

pub proof fn lemma_bytes_le_total(a: Seq<u8>, b: Seq<u8>)
    ensures
        bytes_le(a, b) || bytes_le(b, a),
    decreases a.len(),
{
    if a.len() > 0 && b.len() > 0 {
        lemma_bytes_le_total(a.skip(1), b.skip(1));
    }
}

pub proof fn lemma_bytes_le_antisymmetric(a: Seq<u8>, b: Seq<u8>)
    requires
        bytes_le(a, b),
        bytes_le(b, a),
    ensures
        a == b,
    decreases a.len(),
{
    if a.len() > 0 && b.len() > 0 {
        lemma_bytes_le_antisymmetric(a.skip(1), b.skip(1));
        assert(a =~= seq![a[0]] + a.skip(1));
        assert(b =~= seq![b[0]] + b.skip(1));
    } else {
        assert(a =~= b);
    }
}

pub proof fn lemma_bytes_le_transitive(a: Seq<u8>, b: Seq<u8>, c: Seq<u8>)
    requires
        bytes_le(a, b),
        bytes_le(b, c),
    ensures
        bytes_le(a, c),
    decreases a.len(),
{
    if a.len() > 0 && b.len() > 0 && c.len() > 0 && a[0] == b[0] && b[0] == c[0] {
        lemma_bytes_le_transitive(a.skip(1), b.skip(1), c.skip(1));
    }
}

/// The order of entries is total and transitive, and tells apart any two
/// entries that differ in name or kind.
pub proof fn lemma_entry_le(a: EntryView, b: EntryView, c: EntryView)
    ensures
        entry_le(a, a),
        entry_le(a, b) || entry_le(b, a),
        entry_le(a, b) && entry_le(b, c) ==> entry_le(a, c),
        entry_le(a, b) && entry_le(b, a) ==> a.is_dir == b.is_dir && a.name == b.name,
        a.is_dir == b.is_dir && a.name == b.name ==> entry_le(a, b),
{
    let x = encode_utf8(a.name);
    let y = encode_utf8(b.name);
    let z = encode_utf8(c.name);
    lemma_bytes_le_reflexive(x);
    lemma_bytes_le_total(x, y);
    if bytes_le(x, y) && bytes_le(y, z) {
        lemma_bytes_le_transitive(x, y, z);
    }
    if bytes_le(x, y) && bytes_le(y, x) {
        lemma_bytes_le_antisymmetric(x, y);
        encoding::lemma_encode_injective(a.name, b.name);
    }
}

/// Whether the bytes of `a` are not after those of `b`.
fn name_le(a: &str, b: &str) -> (r: bool)
    ensures
        r == bytes_le(encode_utf8(a@), encode_utf8(b@)),
{
    let x = a.as_bytes();
    let y = b.as_bytes();
    let n: usize = if x.len() < y.len() {
        x.len()
    } else {
        y.len()
    };
    assert(x@.skip(0) =~= x@);
    assert(y@.skip(0) =~= y@);
    for i in 0..n
        invariant
            n <= x@.len(),
            n <= y@.len(),
            n == x@.len() || n == y@.len(),
            bytes_le(x@, y@) == bytes_le(x@.skip(i as int), y@.skip(i as int)),
            x@ == encode_utf8(a@),
            y@ == encode_utf8(b@),
    {
        assert(x@.skip(i as int).skip(1) =~= x@.skip(i + 1));
        assert(y@.skip(i as int).skip(1) =~= y@.skip(i + 1));
        if x[i] != y[i] {
            return x[i] < y[i];
        }
    }
    x.len() == n
}

/// Whether `a` may stand before `b`.
fn may_precede(a: &AutoindexEntry, b: &AutoindexEntry) -> (r: bool)
    ensures
        r == entry_le(a@, b@),
{
    if a.is_dir != b.is_dir {
        a.is_dir
    } else {
        name_le(a.name.as_str(), b.name.as_str())
    }
}

/// Taking the last entry off a list.
proof fn lemma_take_last(list: Seq<AutoindexEntry>)
    requires
        list.len() > 0,
    ensures
        listing::views(list) == listing::views(list.drop_last()).push(list.last()@),
{
    assert(listing::views(list) =~= listing::views(list.drop_last()).push(list.last()@));
}

proof fn lemma_with_key_push(list: Seq<EntryView>, e: EntryView, is_dir: bool, name: Seq<char>)
    ensures
        with_key(list.push(e), is_dir, name) == if e.is_dir == is_dir && e.name == name {
            with_key(list, is_dir, name).push(e)
        } else {
            with_key(list, is_dir, name)
        },
{
    reveal(Seq::filter);
    assert(list.push(e).drop_last() =~= list);
}

proof fn lemma_with_key_concat(a: Seq<EntryView>, b: Seq<EntryView>, is_dir: bool, name: Seq<char>)
    ensures
        with_key(a + b, is_dir, name) == with_key(a, is_dir, name) + with_key(b, is_dir, name),
{
    Seq::filter_distributes_over_add(
        a,
        b,
        |e: EntryView| e.is_dir == is_dir && e.name == name,
    );
}

/// A list that ends before a given entry holds none with the same key.
proof fn lemma_no_key(list: Seq<EntryView>, e: EntryView)
    requires
        is_sorted(list),
        list.len() > 0 ==> !entry_le(e, list.last()),
    ensures
        with_key(list, e.is_dir, e.name) == Seq::<EntryView>::empty(),
{
    let p = |x: EntryView| x.is_dir == e.is_dir && x.name == e.name;
    assert forall|i: int| 0 <= i < list.len() implies !p(#[trigger] list[i]) by {
        lemma_entry_le(list[i], list.last(), list.last());
        if p(list[i]) {
            lemma_entry_le(e, list[i], list.last());
            assert(entry_le(list[i], list[list.len() - 1]));
        }
    }
    list.lemma_all_neg_filter_empty(p);
    assert(list.filter(p) =~= Seq::<EntryView>::empty());
}

/// Moving the last entry of `a` behind `b` keeps the entries, where `b` holds
/// none with the same key.
proof fn lemma_move_from_first(
    a: Seq<EntryView>,
    x: EntryView,
    b: Seq<EntryView>,
    done: Seq<EntryView>,
)
    requires
        with_key(b, x.is_dir, x.name) == Seq::<EntryView>::empty(),
    ensures
        same_entries(a.push(x) + b + done, a + b + (seq![x] + done)),
{
    let before = a.push(x) + b + done;
    let after = a + b + (seq![x] + done);
    assert forall|is_dir: bool, name: Seq<char>| #[trigger]
        with_key(before, is_dir, name) == with_key(after, is_dir, name) by {
        lemma_with_key_concat(a.push(x) + b, done, is_dir, name);
        lemma_with_key_concat(a.push(x), b, is_dir, name);
        lemma_with_key_push(a, x, is_dir, name);
        lemma_with_key_concat(a + b, seq![x] + done, is_dir, name);
        lemma_with_key_concat(a, b, is_dir, name);
        lemma_with_key_concat(seq![x], done, is_dir, name);
        lemma_with_key_push(Seq::<EntryView>::empty(), x, is_dir, name);
        assert(Seq::<EntryView>::empty().push(x) =~= seq![x]);
        assert(with_key(Seq::<EntryView>::empty(), is_dir, name) =~= Seq::<EntryView>::empty()) by {
            reveal(Seq::filter);
        }
        let fa = with_key(a, is_dir, name);
        let fb = with_key(b, is_dir, name);
        let fd = with_key(done, is_dir, name);
        if x.is_dir == is_dir && x.name == name {
            assert(fb == Seq::<EntryView>::empty());
            assert(fa.push(x) + fb + fd =~= fa + fb + (seq![x] + fd));
        } else {
            assert(fa + fb + fd =~= fa + fb + (Seq::<EntryView>::empty() + fd));
        }
    }
    broadcast use vstd::seq_lib::group_to_multiset_ensures;
    vstd::seq_lib::lemma_multiset_commutative(a.push(x) + b, done);
    vstd::seq_lib::lemma_multiset_commutative(a.push(x), b);
    vstd::seq_lib::lemma_multiset_commutative(a + b, seq![x] + done);
    vstd::seq_lib::lemma_multiset_commutative(a, b);
    vstd::seq_lib::lemma_multiset_commutative(seq![x], done);
    vstd::seq_lib::lemma_multiset_commutative(a, seq![x]);
    assert(a.push(x) =~= a + seq![x]);
    assert(before.to_multiset() =~= after.to_multiset());
}

/// Whether every entry of `a` may stand before every entry of `b`.
spec fn all_precede(a: Seq<EntryView>, b: Seq<EntryView>) -> bool {
    forall|i: int, j: int|
        0 <= i < a.len() && 0 <= j < b.len() ==> entry_le(#[trigger] a[i], #[trigger] b[j])
}

/// Putting a greatest entry in front of the sorted ones behind it.
proof fn lemma_step(rest: Seq<EntryView>, other: Seq<EntryView>, x: EntryView, done: Seq<EntryView>)
    requires
        is_sorted(rest.push(x)),
        is_sorted(other),
        other.len() > 0 ==> entry_le(other.last(), x),
        is_sorted(done),
        all_precede(rest.push(x), done),
        all_precede(other, done),
    ensures
        is_sorted(rest),
        is_sorted(seq![x] + done),
        all_precede(rest, seq![x] + done),
        all_precede(other, seq![x] + done),
{
    let whole = rest.push(x);
    let next = seq![x] + done;
    let n = rest.len() as int;
    assert(whole[n] == x);
    assert forall|i: int, j: int| 0 <= i <= j < rest.len() implies entry_le(
        #[trigger] rest[i],
        #[trigger] rest[j],
    ) by {
        assert(entry_le(whole[i], whole[j]));
    }
    assert forall|i: int, j: int| 0 <= i <= j < next.len() implies entry_le(
        #[trigger] next[i],
        #[trigger] next[j],
    ) by {
        if j == 0 {
            lemma_entry_le(x, x, x);
        } else if i == 0 {
            assert(entry_le(whole[n], done[j - 1]));
        } else {
            assert(entry_le(done[i - 1], done[j - 1]));
        }
    }
    assert forall|i: int, j: int| 0 <= i < rest.len() && 0 <= j < next.len() implies entry_le(
        #[trigger] rest[i],
        #[trigger] next[j],
    ) by {
        if j == 0 {
            assert(entry_le(whole[i], whole[n]));
        } else {
            assert(entry_le(whole[i], done[j - 1]));
        }
    }
    assert forall|i: int, j: int| 0 <= i < other.len() && 0 <= j < next.len() implies entry_le(
        #[trigger] other[i],
        #[trigger] next[j],
    ) by {
        if j == 0 {
            assert(entry_le(other[i], other[other.len() - 1]));
            lemma_entry_le(other[i], other.last(), x);
        } else {
            assert(entry_le(other[i], done[j - 1]));
        }
    }
}

/// The entries of `list`, last one first.
fn reversed(list: Vec<AutoindexEntry>) -> (r: Vec<AutoindexEntry>)
    ensures
        r@ == list@.reverse(),
{
    let mut from = list;
    let mut out: Vec<AutoindexEntry> = Vec::new();
    let ghost all = from@;
    while from.len() > 0
        invariant
            from@ == all.take(from@.len() as int),
            from@.len() <= all.len(),
            out@ == all.skip(from@.len() as int).reverse(),
        decreases from@.len(),
    {
        let ghost n = from@.len() as int;
        if let Some(e) = from.pop() {
            out.push(e);
            assert(from@ =~= all.take(n - 1));
            assert(out@ =~= all.skip(n - 1).reverse());
        }
    }
    assert(all.skip(0) =~= all);
    out
}

/// Merges two sorted lists. Of entries with the same key, those of `first` come
/// first.
fn merge(first: Vec<AutoindexEntry>, second: Vec<AutoindexEntry>) -> (r: Vec<AutoindexEntry>)
    requires
        is_sorted(listing::views(first@)),
        is_sorted(listing::views(second@)),
    ensures
        is_sorted(listing::views(r@)),
        same_entries(listing::views(first@) + listing::views(second@), listing::views(r@)),
{
    let mut a = first;
    let mut b = second;
    let mut back: Vec<AutoindexEntry> = Vec::new();
    let ghost all = listing::views(a@) + listing::views(b@);
    proof {
        let none = Seq::<EntryView>::empty();
        assert(listing::views(back@.reverse()) =~= none);
        assert(all + none =~= all);
    }
    while a.len() > 0 || b.len() > 0
        invariant
            is_sorted(listing::views(a@)),
            is_sorted(listing::views(b@)),
            is_sorted(listing::views(back@.reverse())),
            all_precede(listing::views(a@), listing::views(back@.reverse())),
            all_precede(listing::views(b@), listing::views(back@.reverse())),
            same_entries(
                all,
                listing::views(a@) + listing::views(b@) + listing::views(back@.reverse()),
            ),
        decreases a@.len() + b@.len(),
    {
        let take_second: bool = if a.len() == 0 {
            true
        } else if b.len() == 0 {
            false
        } else {
            may_precede(&a[a.len() - 1], &b[b.len() - 1])
        };
        let ghost va = listing::views(a@);
        let ghost vb = listing::views(b@);
        let ghost done = listing::views(back@.reverse());
        let ghost old_back = back@;
        proof {
            if a@.len() > 0 {
                lemma_take_last(a@);
            }
            if b@.len() > 0 {
                lemma_take_last(b@);
            }
        }
        if take_second {
            let ghost rest = listing::views(b@.drop_last());
            let ghost x = b@.last()@;
            proof {
                lemma_step(rest, va, x, done);
            }
            let ghost old_b = b@;
            if let Some(e) = b.pop() {
                assert(b@ =~= old_b.drop_last());
                back.push(e);
                assert(listing::views(back@.reverse()) =~= seq![x] + done);
                assert(va + vb + done =~= va + rest + (seq![x] + done));
            }
        } else {
            let ghost rest = listing::views(a@.drop_last());
            let ghost x = a@.last()@;
            proof {
                if vb.len() > 0 {
                    lemma_entry_le(x, vb.last(), x);
                    lemma_entry_le(vb.last(), x, x);
                }
                lemma_step(rest, vb, x, done);
                lemma_no_key(vb, x);
                lemma_move_from_first(rest, x, vb, done);
            }
            let ghost old_a = a@;
            if let Some(e) = a.pop() {
                assert(a@ =~= old_a.drop_last());
                back.push(e);
                assert(listing::views(back@.reverse()) =~= seq![x] + done);
            }
        }
    }
    let out = reversed(back);
    proof {
        let none = Seq::<EntryView>::empty();
        assert(listing::views(a@) =~= none);
        assert(listing::views(b@) =~= none);
        assert(none + none + listing::views(out@) =~= listing::views(out@));
    }
    out
}

/// Sorts entries by merging: the front half and the back half are sorted first.
fn merge_sort(entries: Vec<AutoindexEntry>) -> (r: Vec<AutoindexEntry>)
    ensures
        is_sorted(listing::views(r@)),
        same_entries(listing::views(entries@), listing::views(r@)),
    decreases entries@.len(),
{
    if entries.len() <= 1 {
        proof {
            let list = listing::views(entries@);
            assert forall|i: int, j: int| 0 <= i <= j < list.len() implies entry_le(
                #[trigger] list[i],
                #[trigger] list[j],
            ) by {
                lemma_entry_le(list[i], list[j], list[i]);
            }
        }
        return entries;
    }
    let mut front = entries;
    let ghost all = front@;
    let mid: usize = front.len() / 2;
    let back = front.split_off(mid);
    let ghost x = listing::views(front@);
    let ghost y = listing::views(back@);
    assert(listing::views(all) =~= x + y);
    let a = merge_sort(front);
    let b = merge_sort(back);
    let ghost sx = listing::views(a@);
    let ghost sy = listing::views(b@);
    let r = merge(a, b);
    proof {
        assert forall|is_dir: bool, name: Seq<char>| #[trigger]
            with_key(x + y, is_dir, name) == with_key(sx + sy, is_dir, name) by {
            lemma_with_key_concat(x, y, is_dir, name);
            lemma_with_key_concat(sx, sy, is_dir, name);
            assert(with_key(x, is_dir, name) == with_key(sx, is_dir, name));
            assert(with_key(y, is_dir, name) == with_key(sy, is_dir, name));
        }
        vstd::seq_lib::lemma_multiset_commutative(x, y);
        vstd::seq_lib::lemma_multiset_commutative(sx, sy);
        assert forall|is_dir: bool, name: Seq<char>| #[trigger]
            with_key(listing::views(all), is_dir, name) == with_key(
                listing::views(r@),
                is_dir,
                name,
            ) by {
            assert(with_key(sx + sy, is_dir, name) == with_key(listing::views(r@), is_dir, name));
            assert(with_key(x + y, is_dir, name) == with_key(sx + sy, is_dir, name));
        }
    }
    r
}

/// A list that is not empty holds the key of its last entry, and that entry
/// comes last of those with its key.
proof fn lemma_last_key(list: Seq<EntryView>)
    requires
        list.len() > 0,
    ensures
        with_key(list, list.last().is_dir, list.last().name).len() > 0,
        with_key(list, list.last().is_dir, list.last().name).last() == list.last(),
{
    lemma_with_key_push(
        list.drop_last(),
        list.last(),
        list.last().is_dir,
        list.last().name,
    );
    assert(list.drop_last().push(list.last()) =~= list);
}

/// If a key occurs in a sorted list, its entries are not after the last one.
proof fn lemma_key_not_after_last(list: Seq<EntryView>, e: EntryView)
    requires
        is_sorted(list),
        with_key(list, e.is_dir, e.name).len() > 0,
    ensures
        list.len() > 0,
        entry_le(e, list.last()),
{
    let p = |x: EntryView| x.is_dir == e.is_dir && x.name == e.name;
    if list.len() == 0 {
        reveal(Seq::filter);
        assert(list.filter(p).len() == 0);
    } else if !entry_le(e, list.last()) {
        lemma_no_key(list, e);
    }
}

/// The order leaves no choice: two sorted lists of the same entries are the
/// same list.
pub proof fn law_sorted_listing_is_unique(a: Seq<EntryView>, b: Seq<EntryView>)
    requires
        is_sorted(a),
        is_sorted(b),
        forall|is_dir: bool, name: Seq<char>| #[trigger]
            with_key(a, is_dir, name) == with_key(b, is_dir, name),
    ensures
        a == b,
    decreases a.len(),
{
    if a.len() == 0 {
        if b.len() > 0 {
            lemma_last_key(b);
            reveal(Seq::filter);
            assert(with_key(a, b.last().is_dir, b.last().name).len() == 0);
        }
        assert(a =~= b);
    } else {
        let x = a.last();
        lemma_last_key(a);
        assert(with_key(a, x.is_dir, x.name) == with_key(b, x.is_dir, x.name));
        lemma_key_not_after_last(b, x);
        let y = b.last();
        lemma_last_key(b);
        assert(with_key(a, y.is_dir, y.name) == with_key(b, y.is_dir, y.name));
        lemma_key_not_after_last(a, y);
        lemma_entry_le(x, y, x);
        assert(x == y);
        let ra = a.drop_last();
        let rb = b.drop_last();
        assert(ra.push(x) =~= a);
        assert(rb.push(x) =~= b);
        assert forall|i: int, j: int| 0 <= i <= j < ra.len() implies entry_le(
            #[trigger] ra[i],
            #[trigger] ra[j],
        ) by {
            assert(entry_le(a[i], a[j]));
        }
        assert forall|i: int, j: int| 0 <= i <= j < rb.len() implies entry_le(
            #[trigger] rb[i],
            #[trigger] rb[j],
        ) by {
            assert(entry_le(b[i], b[j]));
        }
        assert forall|is_dir: bool, name: Seq<char>| #[trigger]
            with_key(ra, is_dir, name) == with_key(rb, is_dir, name) by {
            lemma_with_key_push(ra, x, is_dir, name);
            lemma_with_key_push(rb, x, is_dir, name);
            assert(with_key(a, is_dir, name) == with_key(b, is_dir, name));
            if x.is_dir == is_dir && x.name == name {
                let fa = with_key(ra, is_dir, name);
                let fb = with_key(rb, is_dir, name);
                assert(fa.push(x).drop_last() =~= fa);
                assert(fb.push(x).drop_last() =~= fb);
            }
        }
        law_sorted_listing_is_unique(ra, rb);
    }
}

/// Adding an entry behind all those that may stand before it.
proof fn lemma_insert(list: Seq<EntryView>, e: EntryView, i: int) -> (r: Seq<EntryView>)
    requires
        is_sorted(list),
        0 <= i <= list.len(),
        forall|j: int| 0 <= j < i ==> entry_le(#[trigger] list[j], e),
        i < list.len() ==> !entry_le(list[i], e),
    ensures
        is_sorted(r),
        same_entries(list.push(e), r),
{
    let front = list.take(i);
    let back = list.skip(i);
    let r = front + seq![e] + back;
    assert(list =~= front + back);
    assert forall|j: int| 0 <= j < back.len() implies !entry_le(#[trigger] back[j], e) by {
        assert(entry_le(list[i], list[i + j]));
        lemma_entry_le(list[i], list[i + j], e);
    }
    assert forall|j: int, k: int| 0 <= j <= k < r.len() implies entry_le(
        #[trigger] r[j],
        #[trigger] r[k],
    ) by {
        lemma_entry_le(r[j], r[k], e);
        lemma_entry_le(e, r[k], e);
        if j < i && k > i {
            assert(r[j] == list[j] && r[k] == list[k - 1]);
        } else if j > i {
            assert(r[j] == list[j - 1] && r[k] == list[k - 1]);
        } else if k < i {
            assert(r[j] == list[j] && r[k] == list[k]);
        } else if j == i && k > i {
            assert(r[k] == back[k - i - 1]);
        }
    }
    assert forall|is_dir: bool, name: Seq<char>| #[trigger]
        with_key(list.push(e), is_dir, name) == with_key(r, is_dir, name) by {
        let none = Seq::<EntryView>::empty();
        lemma_with_key_push(list, e, is_dir, name);
        lemma_with_key_concat(front, back, is_dir, name);
        lemma_with_key_concat(front + seq![e], back, is_dir, name);
        lemma_with_key_concat(front, seq![e], is_dir, name);
        lemma_with_key_push(none, e, is_dir, name);
        assert(none.push(e) =~= seq![e]);
        reveal(Seq::filter);
        assert(with_key(none, is_dir, name) =~= none);
        if e.is_dir == is_dir && e.name == name {
            let p = |x: EntryView| x.is_dir == is_dir && x.name == name;
            assert forall|j: int| 0 <= j < back.len() implies !p(#[trigger] back[j]) by {
                lemma_entry_le(back[j], e, e);
            }
            back.lemma_all_neg_filter_empty(p);
            assert(with_key(back, is_dir, name) =~= none);
        }
        assert(with_key(list.push(e), is_dir, name) =~= with_key(r, is_dir, name));
    }
    vstd::seq_lib::lemma_multiset_commutative(front, back);
    vstd::seq_lib::lemma_multiset_commutative(front + seq![e], back);
    front.to_multiset_ensures();
    list.to_multiset_ensures();
    assert(front + seq![e] =~= front.push(e));
    assert(list.push(e).to_multiset() =~= r.to_multiset());
    r
}

proof fn lemma_can_be_sorted(entries: Seq<EntryView>) -> (r: Seq<EntryView>)
    ensures
        is_sorted(r),
        same_entries(entries, r),
    decreases entries.len(),
{
    if entries.len() == 0 {
        entries
    } else {
        let e = entries.last();
        let front = entries.drop_last();
        let list = lemma_can_be_sorted(front);
        let i = insertion_point(list, e);
        lemma_insertion_point(list, e);
        let r = lemma_insert(list, e, i);
        assert(entries =~= front.push(e));
        front.to_multiset_ensures();
        list.to_multiset_ensures();
        assert forall|is_dir: bool, name: Seq<char>| #[trigger]
            with_key(entries, is_dir, name) == with_key(r, is_dir, name) by {
            lemma_with_key_push(front, e, is_dir, name);
            lemma_with_key_push(list, e, is_dir, name);
            assert(with_key(front, is_dir, name) == with_key(list, is_dir, name));
            assert(with_key(list.push(e), is_dir, name) == with_key(r, is_dir, name));
        }
        r
    }
}

/// The position of the first entry that may not stand before `e`.
spec fn insertion_point(list: Seq<EntryView>, e: EntryView) -> int
    decreases list.len(),
{
    if list.len() == 0 || !entry_le(list[0], e) {
        0
    } else {
        1 + insertion_point(list.skip(1), e)
    }
}

proof fn lemma_insertion_point(list: Seq<EntryView>, e: EntryView)
    ensures
        ({
            let i = insertion_point(list, e);
            &&& 0 <= i <= list.len()
            &&& forall|j: int| 0 <= j < i ==> entry_le(#[trigger] list[j], e)
            &&& i < list.len() ==> !entry_le(list[i], e)
        }),
    decreases list.len(),
{
    if list.len() > 0 && entry_le(list[0], e) {
        let rest = list.skip(1);
        lemma_insertion_point(rest, e);
        assert forall|j: int| 0 <= j < insertion_point(list, e) implies entry_le(
            #[trigger] list[j],
            e,
        ) by {
            if j > 0 {
                assert(list[j] == rest[j - 1]);
            }
        }
    }
}

/// Any entries can be put in the order of a listing, in one way only.
pub proof fn law_entries_can_be_sorted(entries: Seq<EntryView>)
    ensures
        is_sorted(sorted(entries)),
        same_entries(entries, sorted(entries)),
        forall|list: Seq<EntryView>|
            is_sorted(list) && #[trigger] same_entries(entries, list) ==> list == sorted(entries),
{
    let r = lemma_can_be_sorted(entries);
    assert(is_sorted(r) && same_entries(entries, r));
    let s = sorted(entries);
    assert forall|list: Seq<EntryView>|
        is_sorted(list) && #[trigger] same_entries(entries, list) implies list == s by {
        assert forall|is_dir: bool, name: Seq<char>| #[trigger]
            with_key(list, is_dir, name) == with_key(s, is_dir, name) by {
            assert(with_key(entries, is_dir, name) == with_key(list, is_dir, name));
            assert(with_key(entries, is_dir, name) == with_key(s, is_dir, name));
        }
        law_sorted_listing_is_unique(list, s);
    }
}

/// Sorts the entries of a listing: directories before files, each group by
/// name. Entries with the same name and kind keep their sequence.
pub fn sort_entries(entries: Vec<AutoindexEntry>) -> (r: Vec<AutoindexEntry>)
    ensures
        listing::views(r@) == sorted(listing::views(entries@)),
        is_sorted(listing::views(r@)),
        same_entries(listing::views(entries@), listing::views(r@)),
{
    let r = merge_sort(entries);
    proof {
        law_entries_can_be_sorted(listing::views(entries@));
    }
    r
}

/// In a sorted listing every directory stands before every file.
pub proof fn law_directories_come_first(list: Seq<EntryView>, i: int, j: int)
    requires
        is_sorted(list),
        0 <= i < list.len(),
        0 <= j < list.len(),
        list[i].is_dir,
        !list[j].is_dir,
    ensures
        i < j,
{
    if j <= i {
        assert(entry_le(list[j], list[i]));
    }
}

} // verus!
