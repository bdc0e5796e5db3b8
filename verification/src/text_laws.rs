//! What holds of every text that is split, searched or written as a number.
use vstd::prelude::*;

use crate::text;

verus! {

/// The number that a row of decimal digits stands for.
pub open spec fn number(s: Seq<char>) -> int
    decreases s.len(),
{
    if s.len() == 0 {
        0
    } else {
        10 * number(s.drop_last()) + (s.last() as int - '0' as int)
    }
}

/// A number is written in decimal digits that stand for it, and without a zero
/// in front unless it is zero.
pub proof fn law_digits_stand_for_the_number(n: nat)
    ensures
        text::digits(n).len() > 0,
        forall|i: int|
            0 <= i < text::digits(n).len() ==> '0' <= (#[trigger] text::digits(n)[i]) <= '9',
        number(text::digits(n)) == n,
        text::digits(n).len() > 1 ==> text::digits(n)[0] != '0',
        text::digits(n)[0] == '0' ==> n == 0,
    decreases n,
{
    let s = text::digits(n);
    reveal_with_fuel(number, 2);
    if n < 10 {
        assert(s.drop_last() =~= seq![]);
        assert(s.last() as int == 48 + n);
        assert(s[0] as int == 48 + n);
    } else {
        law_digits_stand_for_the_number(n / 10);
        let head = text::digits(n / 10);
        assert(s.drop_last() =~= head);
        assert(s.last() as int == 48 + n % 10);
        assert forall|i: int| 0 <= i < s.len() implies '0' <= (#[trigger] s[i]) <= '9' by {
            if i < head.len() {
                assert(s[i] == head[i]);
            }
        }
        assert(s[0] == head[0]);
    }
}

/// Texts with a separator between each two of them.
pub open spec fn joined(pieces: Seq<Seq<char>>, sep: char) -> Seq<char>
    decreases pieces.len(),
{
    if pieces.len() == 0 {
        seq![]
    } else if pieces.len() == 1 {
        pieces[0]
    } else {
        pieces[0] + seq![sep] + joined(pieces.skip(1), sep)
    }
}

/// Splitting loses nothing: the pieces, with the separator between them, are the
/// text, and no piece holds the separator.
pub proof fn law_split_pieces_make_the_text(s: Seq<char>, sep: char)
    ensures
        text::split(s, sep).len() > 0,
        joined(text::split(s, sep), sep) == s,
        forall|i: int|
            0 <= i < text::split(s, sep).len() ==> !(#[trigger] text::split(s, sep)[i]).contains(
                sep,
            ),
    decreases s.len(),
{
    let pieces = text::split(s, sep);
    text::lemma_find(s, sep);
    text::lemma_split_pieces(s, sep);
    let k = text::find(s, sep);
    if k < s.len() {
        let rest = s.skip(k + 1);
        law_split_pieces_make_the_text(rest, sep);
        assert(pieces.skip(1) =~= text::split(rest, sep));
        assert(s =~= s.take(k) + seq![sep] + rest);
    }
}

/// A text occurs in another exactly where that one is the text with something,
/// or nothing, before and behind it.
pub proof fn law_part_stands_between_others(s: Seq<char>, part: Seq<char>)
    ensures
        text::has_part(s, part) <==> exists|a: Seq<char>, b: Seq<char>|
            s == #[trigger] (a + part + b),
{
    if text::has_part(s, part) {
        let i = choose|i: int|
            0 <= i <= s.len() - part.len() && #[trigger] s.subrange(i, i + part.len()) == part;
        let a = s.take(i);
        let b = s.skip(i + part.len());
        assert(s.subrange(i, i + part.len()) == part);
        assert(s =~= a + part + b);
    }
    if exists|a: Seq<char>, b: Seq<char>| s == #[trigger] (a + part + b) {
        let (a, b) = choose|a: Seq<char>, b: Seq<char>| s == #[trigger] (a + part + b);
        let i = a.len() as int;
        assert(s.subrange(i, i + part.len()) =~= part);
    }
}

} // verus!
