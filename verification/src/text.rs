//! Strings as sequences of characters: comparing, searching, splitting and
//! writing numbers.
use vstd::prelude::*;
use vstd::string::*;
use vstd::utf8::*;

verus! {

/// The contents of each string of a list.
pub open spec fn views(list: Seq<String>) -> Seq<Seq<char>> {
    Seq::new(list.len(), |i: int| list[i]@)
}

/// The content of a string that may be missing.
pub open spec fn opt_view(s: Option<&str>) -> Option<Seq<char>> {
    match s {
        Some(t) => Some(t@),
        None => None,
    }
}

/// The position of the first `c` in `s`, or the length of `s` if there is none.
pub open spec fn find(s: Seq<char>, c: char) -> int
    decreases s.len(),
{
    if s.len() == 0 || s[0] == c {
        0
    } else {
        1 + find(s.drop_first(), c)
    }
}

/// The pieces of `s` between the occurrences of `sep`; there is always one
/// more piece than there are separators.
pub open spec fn split(s: Seq<char>, sep: char) -> Seq<Seq<char>>
    decreases s.len(),
{
    let i = find(s, sep);
    if i == s.len() {
        seq![s]
    } else {
        proof {
            lemma_find(s, sep);
        }
        seq![s.take(i)] + split(s.skip(i + 1), sep)
    }
}

/// Whether `part` occurs in `s` as consecutive characters.
pub open spec fn has_part(s: Seq<char>, part: Seq<char>) -> bool {
    exists|i: int| 0 <= i <= s.len() - part.len() && #[trigger] s.subrange(i, i + part.len()) == part
}

/// The character of a decimal digit.
pub open spec fn digit(d: nat) -> char {
    (48 + d) as char
}

/// `n` written in base ten, without leading zeros.
pub open spec fn digits(n: nat) -> Seq<char>
    decreases n,
{
    if n < 10 {
        seq![digit(n)]
    } else {
        digits(n / 10).push(digit(n % 10))
    }
}

/// What `find` finds: nothing before that position is `c`, and what stands
/// there is.
pub proof fn lemma_find(s: Seq<char>, c: char)
    ensures
        0 <= find(s, c) <= s.len(),
        forall|i: int| 0 <= i < find(s, c) ==> s[i] != c,
        find(s, c) < s.len() ==> s[find(s, c)] == c,
        find(s, c) < s.len() <==> s.contains(c),
    decreases s.len(),
{
    if s.len() > 0 && s[0] != c {
        lemma_find(s.drop_first(), c);
        assert forall|i: int| 0 <= i < find(s, c) implies s[i] != c by {
            if i > 0 {
                assert(s[i] == s.drop_first()[i - 1]);
            }
        }
        if s.contains(c) {
            let i = choose|i: int| 0 <= i < s.len() && s[i] == c;
            assert(s.drop_first()[i - 1] == c);
        }
    }
}

/// A position with the two properties of `find` is the one that it finds.
pub proof fn lemma_find_unique(s: Seq<char>, c: char, i: int)
    requires
        0 <= i <= s.len(),
        forall|j: int| 0 <= j < i ==> s[j] != c,
        i < s.len() ==> s[i] == c,
    ensures
        find(s, c) == i,
{
    lemma_find(s, c);
    if find(s, c) < i {
        assert(s[find(s, c)] != c);
    }
}

/// Splitting: with no separator there is one piece; otherwise the first piece
/// ends before the first separator and the rest is split in turn.
pub proof fn lemma_split_cases(s: Seq<char>, sep: char)
    ensures
        !s.contains(sep) ==> split(s, sep) == seq![s],
        s.contains(sep) ==> split(s, sep) == seq![s.take(find(s, sep))] + split(
            s.skip(find(s, sep) + 1),
            sep,
        ),
        split(s, sep).len() > 0,
{
    lemma_find(s, sep);
}

/// A piece followed by a separator splits off as the first piece.
pub proof fn lemma_split_head(head: Seq<char>, sep: char, rest: Seq<char>)
    requires
        !head.contains(sep),
    ensures
        split(head + seq![sep] + rest, sep) == seq![head] + split(rest, sep),
{
    let s = head + seq![sep] + rest;
    assert forall|j: int| 0 <= j < head.len() implies s[j] != sep by {
        assert(s[j] == head[j]);
    }
    assert(s[head.len() as int] == sep);
    lemma_find_unique(s, sep, head.len() as int);
    lemma_split_cases(s, sep);
    assert(s.take(head.len() as int) =~= head);
    assert(s.skip(head.len() as int + 1) =~= rest);
}

/// No piece of a split holds the separator, and every character of a piece is
/// a character of the text.
pub proof fn lemma_split_pieces(s: Seq<char>, sep: char)
    ensures
        forall|i: int| 0 <= i < split(s, sep).len() ==> !(#[trigger] split(s, sep)[i]).contains(sep),
        forall|i: int, c: char|
            0 <= i < split(s, sep).len() && #[trigger] split(s, sep)[i].contains(c) ==> s.contains(c),
    decreases s.len(),
{
    lemma_find(s, sep);
    lemma_split_cases(s, sep);
    if s.contains(sep) {
        let k = find(s, sep);
        let rest = s.skip(k + 1);
        lemma_split_pieces(rest, sep);
        let head = s.take(k);
        assert(!head.contains(sep)) by {
            assert forall|j: int| 0 <= j < head.len() implies head[j] != sep by {
                assert(head[j] == s[j]);
            }
        }
        assert forall|i: int| 0 <= i < split(s, sep).len() implies !(#[trigger] split(
            s,
            sep,
        )[i]).contains(sep) by {
            if i > 0 {
                assert(split(s, sep)[i] == split(rest, sep)[i - 1]);
            }
        }
        assert forall|i: int, c: char|
            0 <= i < split(s, sep).len() && #[trigger] split(s, sep)[i].contains(c) implies s.contains(
            c,
        ) by {
            if i == 0 {
                let j = choose|j: int| 0 <= j < head.len() && head[j] == c;
                assert(s[j] == c);
            } else {
                assert(split(s, sep)[i] == split(rest, sep)[i - 1]);
                assert(split(rest, sep)[i - 1].contains(c));
                let j = choose|j: int| 0 <= j < rest.len() && rest[j] == c;
                assert(s[j + k + 1] == c);
            }
        }
    }
}

/// `String::push` appends the character to the end of the string.
pub assume_specification[ String::push ](s: &mut String, c: char)
    ensures
        final(s)@ == old(s)@.push(c),
;

/// `String::from_utf8` accepts exactly the byte sequences that are valid
/// UTF-8, and gives back the text that they encode.
#[verifier::external_body]
pub(crate) fn string_from_utf8(bytes: Vec<u8>) -> (r: Option<String>)
    ensures
        r is Some <==> valid_utf8(bytes@),
        r matches Some(s) ==> s@ == decode_utf8(bytes@),
{
    String::from_utf8(bytes).ok()
}

/// The text that the `Debug` form of `str` gives: `s` in double quotes, with
/// quotes, backslashes and characters that do not print escaped.
pub uninterp spec fn quoted_text(s: Seq<char>) -> Seq<char>;

/// The `Debug` form of `str`. It depends on the text alone.
#[verifier::external_body]
pub(crate) fn quoted(s: &str) -> (r: String)
    ensures
        r@ == quoted_text(s@),
{
    format!("{s:?}")
}

/// The characters of `s`, in order.
pub fn chars(s: &str) -> (r: Vec<char>)
    ensures
        r@ == s@,
{
    let mut out: Vec<char> = Vec::new();
    for c in it: s.chars()
        invariant
            out@ == s@.take(it.index()),
            it.seq() == s@,
    {
        out.push(c);
    }
    out
}

/// The characters of `list` from `from` up to `to`, as a string.
pub fn string_of(list: &Vec<char>, from: usize, to: usize) -> (r: String)
    requires
        from <= to <= list@.len(),
    ensures
        r@ == list@.subrange(from as int, to as int),
{
    let mut out = String::new();
    for i in from..to
        invariant
            from <= to <= list@.len(),
            out@ == list@.subrange(from as int, i as int),
    {
        out.push(list[i]);
    }
    out
}

/// Whether the two strings hold the same characters.
pub fn same(a: &str, b: &str) -> (r: bool)
    ensures
        r == (a@ == b@),
{
    let x = a.as_bytes();
    let y = b.as_bytes();
    proof {
        crate::encoding::lemma_encode_injective(a@, b@);
    }
    if x.len() != y.len() {
        return false;
    }
    let n: usize = x.len();
    for i in 0..n
        invariant
            n == x@.len() == y@.len(),
            x@ == encode_utf8(a@),
            y@ == encode_utf8(b@),
            forall|j: int| 0 <= j < i ==> x@[j] == y@[j],
            encode_utf8(a@) == encode_utf8(b@) <==> a@ == b@,
    {
        if x[i] != y[i] {
            return false;
        }
    }
    assert(x@ =~= y@);
    true
}

/// Whether `part` stands in `s` at position `at`.
fn stands_at(s: &Vec<char>, part: &Vec<char>, at: usize) -> (r: bool)
    requires
        at + part@.len() <= s@.len(),
    ensures
        r == (s@.subrange(at as int, at + part@.len()) == part@),
{
    let n: usize = part.len();
    let m: usize = s.len();
    for i in 0..n
        invariant
            n == part@.len(),
            m == s@.len(),
            at + n <= m,
            forall|j: int| 0 <= j < i ==> s@[at + j] == part@[j],
    {
        if s[at + i] != part[i] {
            assert(s@.subrange(at as int, at + part@.len())[i as int] != part@[i as int]);
            return false;
        }
    }
    assert(s@.subrange(at as int, at + part@.len()) =~= part@);
    true
}

/// Whether `s` begins with `prefix`.
pub fn starts_with(s: &str, prefix: &str) -> (r: bool)
    ensures
        r == prefix@.is_prefix_of(s@),
{
    let list = chars(s);
    let part = chars(prefix);
    if part.len() > list.len() {
        return false;
    }
    let r = stands_at(&list, &part, 0);
    assert(list@.subrange(0, part@.len() as int) == part@ <==> part@.is_prefix_of(s@));
    r
}

/// Whether `part` occurs in `s`.
pub fn contains(s: &str, part: &str) -> (r: bool)
    ensures
        r == has_part(s@, part@),
{
    let list = chars(s);
    let wanted = chars(part);
    if wanted.len() > list.len() {
        return false;
    }
    let last: usize = list.len() - wanted.len();
    let mut i: usize = 0;
    while i <= last
        invariant
            list@ == s@,
            wanted@ == part@,
            last == list@.len() - wanted@.len(),
            i <= last + 1,
            last < usize::MAX || i <= last,
            forall|j: int| 0 <= j < i ==> #[trigger] s@.subrange(j, j + part@.len()) != part@,
        decreases last + 1 - i,
    {
        if stands_at(&list, &wanted, i) {
            return true;
        }
        if i == last {
            return false;
        }
        i += 1;
    }
    false
}

/// Whether `c` occurs in `s`.
pub fn has_char(s: &str, c: char) -> (r: bool)
    ensures
        r == s@.contains(c),
{
    let list = chars(s);
    let n: usize = list.len();
    for i in 0..n
        invariant
            n == list@.len(),
            list@ == s@,
            forall|j: int| 0 <= j < i ==> s@[j] != c,
    {
        if list[i] == c {
            return true;
        }
    }
    false
}

/// The pieces of `s` between the occurrences of `sep`.
pub fn split_at_each(s: &str, sep: char) -> (r: Vec<String>)
    ensures
        views(r@) == split(s@, sep),
{
    let list = chars(s);
    let n: usize = list.len();
    let mut out: Vec<String> = Vec::new();
    let mut start: usize = 0;
    assert(s@.skip(0) =~= s@);
    assert(views(out@) + split(s@, sep) =~= split(s@, sep));
    for i in 0..n
        invariant
            n == list@.len(),
            list@ == s@,
            start <= i,
            forall|j: int| start <= j < i ==> s@[j] != sep,
            views(out@) + split(s@.skip(start as int), sep) == split(s@, sep),
    {
        if list[i] == sep {
            let piece = string_of(&list, start, i);
            proof {
                let rest = s@.skip(start as int);
                assert(rest =~= piece@ + seq![sep] + s@.skip(i + 1));
                assert(!piece@.contains(sep));
                lemma_split_head(piece@, sep, s@.skip(i + 1));
                assert(views(out@.push(piece)) =~= views(out@) + seq![piece@]);
                assert(views(out@.push(piece)) + split(s@.skip(i + 1), sep) =~= views(out@) + split(
                    rest,
                    sep,
                ));
            }
            out.push(piece);
            start = i + 1;
        }
    }
    let piece = string_of(&list, start, n);
    proof {
        assert(s@.skip(start as int) =~= piece@);
        assert(!piece@.contains(sep));
        lemma_split_cases(piece@, sep);
        assert(views(out@.push(piece)) =~= views(out@) + seq![piece@]);
    }
    out.push(piece);
    out
}

/// `n` in base ten.
pub fn decimal(n: u64) -> (r: String)
    ensures
        r@ == digits(n as nat),
    decreases n,
{
    if n < 10 {
        let mut out = String::new();
        out.push((48u8 + n as u8) as char);
        assert(out@ =~= digits(n as nat));
        out
    } else {
        let mut out = decimal(n / 10);
        out.push((48u8 + (n % 10) as u8) as char);
        out
    }
}

} // verus!
