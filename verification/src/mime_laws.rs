//! What a file of media types says, line by line.
use vstd::prelude::*;

use crate::mime;
use crate::text;

verus! {

/// Which characters part words.
pub proof fn law_white_space(c: char)
    ensures
        mime::is_whitespace(c) <==> {
            let v = c as int;
            ||| 0x9 <= v <= 0xd
            ||| v == 0x20
            ||| v == 0x85
            ||| v == 0xa0
            ||| v == 0x1680
            ||| 0x2000 <= v <= 0x200a
            ||| 0x2028 <= v <= 0x2029
            ||| v == 0x202f
            ||| v == 0x205f
            ||| v == 0x3000
        },
{
}

/// White space parts words, and a text without it is one word, unless it is
/// empty.
pub proof fn law_words_are_parted_by_white_space(a: Seq<char>, c: char, b: Seq<char>)
    requires
        mime::is_whitespace(c),
    ensures
        mime::words(a + seq![c] + b) == mime::words(a) + mime::words(b),
        a.len() > 0 && (forall|i: int| 0 <= i < a.len() ==> !mime::is_whitespace(#[trigger] a[i]))
            ==> mime::words(a) == seq![a],
        mime::words(seq![]).len() == 0,
    decreases a.len(),
{
    let s = a + seq![c] + b;
    if a.len() == 0 {
        assert(s[0] == c);
        assert(s.skip(1) =~= b);
        assert(mime::words(a) + mime::words(b) =~= mime::words(b));
    } else if mime::is_whitespace(a[0]) {
        law_words_are_parted_by_white_space(a.skip(1), c, b);
        assert(s[0] == a[0]);
        assert(s.skip(1) =~= a.skip(1) + seq![c] + b);
    } else {
        let k = mime::word_len(a);
        mime::lemma_word_len(a);
        assert(s[0] == a[0]);
        assert forall|i: int| 0 <= i < k implies !mime::is_whitespace(#[trigger] s[i]) by {
            assert(s[i] == a[i]);
        }
        assert(mime::is_whitespace(s[k]));
        mime::lemma_word_len_unique(s, k);
        law_words_are_parted_by_white_space(a.skip(k), c, b);
        assert(s.take(k) =~= a.take(k));
        assert(s.skip(k) =~= a.skip(k) + seq![c] + b);
        assert(mime::words(s) =~= mime::words(a) + mime::words(b));
        if forall|i: int| 0 <= i < a.len() ==> !mime::is_whitespace(#[trigger] a[i]) {
            assert(k == a.len()) by {
                if k < a.len() {
                    assert(mime::is_whitespace(a[k]));
                }
            }
            assert(a.take(k) =~= a);
            assert(a.skip(k) =~= seq![]);
            assert(mime::words(a) =~= seq![a]);
        }
    }
}

/// Whether `types` is `before` with what one line of these words says: the first
/// word is the type of the others, unless it begins with `#`.
pub open spec fn says_in_words(
    before: Map<Seq<char>, Seq<char>>,
    words: Seq<Seq<char>>,
    types: Map<Seq<char>, Seq<char>>,
    ext: Seq<char>,
) -> bool {
    if words.len() > 0 && words[0][0] != '#' && words.skip(1).contains(ext) {
        types.contains_key(ext) && types[ext] == words[0]
    } else {
        types.contains_key(ext) == before.contains_key(ext) && (before.contains_key(ext)
            ==> types[ext] == before[ext])
    }
}

/// Each line of a file adds what it says to what the lines before it said, and
/// the first one begins with nothing.
pub proof fn law_each_line_adds_what_it_says(content: Seq<char>, line: Seq<char>, ext: Seq<char>)
    requires
        !line.contains('\n'),
    ensures
        says_in_words(
            mime::types_of(content),
            mime::words(line),
            mime::types_of(content + seq!['\n'] + line),
            ext,
        ),
        says_in_words(Map::empty(), mime::words(line), mime::types_of(line), ext),
{
    mime::law_last_entry_wins(content, line, ext);
    text::lemma_split_cases(line, '\n');
    let none = Map::<Seq<char>, Seq<char>>::empty();
    let lines = seq![line];
    assert(lines.drop_last() =~= seq![]);
    assert(mime::types_of_lines(lines.drop_last()) == none);
    assert(mime::types_of(line) == mime::with_line(none, line));
    if mime::is_entry(line) {
        mime::lemma_with_extensions(none, mime::words(line).skip(1), mime::words(line)[0], ext);
    }
}

/// A type and an extension on a line give that extension that type, whatever
/// the file says before.
pub proof fn law_type_of_an_extension(content: Seq<char>, kind: Seq<char>, ext: Seq<char>)
    requires
        kind.len() > 0,
        ext.len() > 0,
        kind[0] != '#',
        forall|i: int| 0 <= i < kind.len() ==> !mime::is_whitespace(#[trigger] kind[i]),
        forall|i: int| 0 <= i < ext.len() ==> !mime::is_whitespace(#[trigger] ext[i]),
    ensures
        ({
            let types = mime::types_of(content + "\n"@ + (kind + " "@ + ext));
            types.contains_key(ext) && types[ext] == kind
        }),
{
    reveal_strlit("\n");
    reveal_strlit(" ");
    assert("\n"@ =~= seq!['\n']);
    assert(" "@ =~= seq![' ']);
    let line = kind + " "@ + ext;
    law_words_are_parted_by_white_space(kind, ' ', ext);
    law_words_are_parted_by_white_space(ext, ' ', ext);
    assert(mime::words(line) =~= seq![kind, ext]);
    assert(mime::words(line).skip(1) =~= seq![ext]);
    assert(mime::words(line).skip(1)[0] == ext);
    assert forall|j: int| 0 <= j < line.len() implies line[j] != '\n' by {
        if j < kind.len() {
            assert(line[j] == kind[j]);
            assert(!mime::is_whitespace(kind[j]));
        } else if j > kind.len() {
            assert(line[j] == ext[j - kind.len() - 1]);
            assert(!mime::is_whitespace(ext[j - kind.len() - 1]));
        }
    }
    assert(!line.contains('\n'));
    law_each_line_adds_what_it_says(content, line, ext);
}

} // verus!
