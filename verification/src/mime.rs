//! The table of media types, read from a `mime.types` file.
use vstd::hash_map::StringHashMap;
use vstd::prelude::*;
use vstd::string::*;

use crate::path_laws;
use crate::text;

verus! {

/// The characters that Unicode counts as white space.
pub open spec fn is_whitespace(c: char) -> bool {
    ||| '\u{9}' <= c <= '\u{d}'
    ||| c == '\u{20}'
    ||| c == '\u{85}'
    ||| c == '\u{a0}'
    ||| c == '\u{1680}'
    ||| '\u{2000}' <= c <= '\u{200a}'
    ||| c == '\u{2028}'
    ||| c == '\u{2029}'
    ||| c == '\u{202f}'
    ||| c == '\u{205f}'
    ||| c == '\u{3000}'
}

/// The number of characters before the first white space.
pub open spec fn word_len(s: Seq<char>) -> int
    decreases s.len(),
{
    if s.len() == 0 || is_whitespace(s[0]) {
        0
    } else {
        1 + word_len(s.skip(1))
    }
}

/// The words of `s`: its longest runs without white space, in order.
pub open spec fn words(s: Seq<char>) -> Seq<Seq<char>>
    decreases s.len(),
{
    if s.len() == 0 {
        seq![]
    } else if is_whitespace(s[0]) {
        words(s.skip(1))
    } else {
        proof {
            lemma_word_len(s);
        }
        seq![s.take(word_len(s))] + words(s.skip(word_len(s)))
    }
}

/// Whether a line lists extensions: it has a word, and the first one does not
/// begin with `#`.
pub open spec fn is_entry(line: Seq<char>) -> bool {
    words(line).len() > 0 && words(line)[0][0] != '#'
}

/// `types` with each of `extensions` given the type `mime`.
pub open spec fn with_extensions(
    types: Map<Seq<char>, Seq<char>>,
    extensions: Seq<Seq<char>>,
    mime: Seq<char>,
) -> Map<Seq<char>, Seq<char>>
    decreases extensions.len(),
{
    if extensions.len() == 0 {
        types
    } else {
        with_extensions(types, extensions.drop_last(), mime).insert(extensions.last(), mime)
    }
}

/// `types` after one more line: the first word of an entry is the media type,
/// the others are its extensions.
pub open spec fn with_line(types: Map<Seq<char>, Seq<char>>, line: Seq<char>) -> Map<
    Seq<char>,
    Seq<char>,
> {
    if is_entry(line) {
        with_extensions(types, words(line).skip(1), words(line)[0])
    } else {
        types
    }
}

/// The table that a list of lines gives; a later line overrides an earlier one.
pub open spec fn types_of_lines(lines: Seq<Seq<char>>) -> Map<Seq<char>, Seq<char>>
    decreases lines.len(),
{
    if lines.len() == 0 {
        Map::empty()
    } else {
        with_line(types_of_lines(lines.drop_last()), lines.last())
    }
}

/// The table that the text of a `mime.types` file gives.
pub open spec fn types_of(content: Seq<char>) -> Map<Seq<char>, Seq<char>> {
    types_of_lines(text::split(content, '\n'))
}

/// A word is as long as it can be.
pub proof fn lemma_word_len(s: Seq<char>)
    ensures
        0 <= word_len(s) <= s.len(),
        forall|i: int| 0 <= i < word_len(s) ==> !is_whitespace(#[trigger] s[i]),
        word_len(s) < s.len() ==> is_whitespace(s[word_len(s)]),
        s.len() > 0 && !is_whitespace(s[0]) ==> word_len(s) > 0,
    decreases s.len(),
{
    if s.len() > 0 && !is_whitespace(s[0]) {
        lemma_word_len(s.skip(1));
        assert forall|i: int| 0 <= i < word_len(s) implies !is_whitespace(#[trigger] s[i]) by {
            if i > 0 {
                assert(s[i] == s.skip(1)[i - 1]);
            }
        }
    }
}

pub proof fn lemma_word_len_unique(s: Seq<char>, k: int)
    requires
        0 <= k <= s.len(),
        forall|i: int| 0 <= i < k ==> !is_whitespace(#[trigger] s[i]),
        k < s.len() ==> is_whitespace(s[k]),
    ensures
        word_len(s) == k,
{
    lemma_word_len(s);
    if word_len(s) < k {
        assert(!is_whitespace(s[word_len(s)]));
    } else if k < word_len(s) {
        assert(!is_whitespace(s[k]));
    }
}

/// No word is empty, and no word holds white space.
pub proof fn lemma_words(s: Seq<char>)
    ensures
        forall|i: int| 0 <= i < words(s).len() ==> (#[trigger] words(s)[i]).len() > 0,
        forall|i: int, j: int|
            0 <= i < words(s).len() && 0 <= j < words(s)[i].len() ==> !is_whitespace(
                #[trigger] words(s)[i][j],
            ),
    decreases s.len(),
{
    if s.len() > 0 {
        if is_whitespace(s[0]) {
            lemma_words(s.skip(1));
            assert(words(s) == words(s.skip(1)));
        } else {
            lemma_word_len(s);
            let k = word_len(s);
            let rest = words(s.skip(k));
            lemma_words(s.skip(k));
            assert(words(s) == seq![s.take(k)] + rest);
            assert forall|i: int| 0 <= i < words(s).len() implies (#[trigger] words(s)[i]).len()
                > 0 by {
                if i > 0 {
                    assert(words(s)[i] == rest[i - 1]);
                }
            }
            assert forall|i: int, j: int| 0 <= i < words(s).len() && 0 <= j < words(s)[i].len() implies
                !is_whitespace(#[trigger] words(s)[i][j]) by {
                if i > 0 {
                    assert(words(s)[i] == rest[i - 1]);
                    assert(!is_whitespace(rest[i - 1][j]));
                } else {
                    assert(words(s)[0][j] == s[j]);
                }
            }
        }
    }
}

/// The table after a line: an extension that the line lists has the type of
/// the line, every other one is as before.
pub proof fn lemma_with_extensions(
    types: Map<Seq<char>, Seq<char>>,
    extensions: Seq<Seq<char>>,
    mime: Seq<char>,
    ext: Seq<char>,
)
    ensures
        ({
            let after = with_extensions(types, extensions, mime);
            if extensions.contains(ext) {
                after.contains_key(ext) && after[ext] == mime
            } else {
                after.contains_key(ext) == types.contains_key(ext) && after[ext] == types[ext]
            }
        }),
    decreases extensions.len(),
{
    if extensions.len() > 0 {
        let init = extensions.drop_last();
        lemma_with_extensions(types, init, mime, ext);
        if extensions.contains(ext) && extensions.last() != ext {
            let i = choose|i: int| 0 <= i < extensions.len() && extensions[i] == ext;
            assert(init[i] == ext);
        }
        if init.contains(ext) {
            let i = choose|i: int| 0 <= i < init.len() && init[i] == ext;
            assert(extensions[i] == ext);
        }
    }
}

/// The last entry for an extension wins: a line at the end of a file gives its
/// type to the extensions that it lists, and changes no other; a comment and a
/// line without words change nothing.
pub proof fn law_last_entry_wins(content: Seq<char>, line: Seq<char>, ext: Seq<char>)
    requires
        !line.contains('\n'),
    ensures
        ({
            let before = types_of(content);
            let after = types_of(content + seq!['\n'] + line);
            if is_entry(line) && words(line).skip(1).contains(ext) {
                after.contains_key(ext) && after[ext] == words(line)[0]
            } else {
                after.contains_key(ext) == before.contains_key(ext) && after[ext] == before[ext]
            }
        }),
{
    path_laws::lemma_split_concat(content, '\n', line);
    text::lemma_split_cases(line, '\n');
    let lines = text::split(content, '\n') + seq![line];
    assert(lines.drop_last() =~= text::split(content, '\n'));
    if is_entry(line) {
        lemma_with_extensions(types_of(content), words(line).skip(1), words(line)[0], ext);
    }
}

/// Whether `c` is white space.
pub fn is_space(c: char) -> (r: bool)
    ensures
        r == is_whitespace(c),
{
    ('\u{9}' <= c && c <= '\u{d}') || c == '\u{20}' || c == '\u{85}' || c == '\u{a0}' || c
        == '\u{1680}' || ('\u{2000}' <= c && c <= '\u{200a}') || c == '\u{2028}' || c == '\u{2029}'
        || c == '\u{202f}' || c == '\u{205f}' || c == '\u{3000}'
}

/// The words of `s`.
pub fn split_words(s: &str) -> (r: Vec<String>)
    ensures
        text::views(r@) == words(s@),
{
    let list = text::chars(s);
    let n: usize = list.len();
    let mut out: Vec<String> = Vec::new();
    let mut i: usize = 0;
    assert(s@.skip(0) =~= s@);
    assert(text::views(out@) + words(s@) =~= words(s@));
    while i < n
        invariant
            n == list@.len(),
            list@ == s@,
            i <= n,
            text::views(out@) + words(s@.skip(i as int)) == words(s@),
        decreases n - i,
    {
        let ghost rest = s@.skip(i as int);
        if is_space(list[i]) {
            assert(rest.skip(1) =~= s@.skip(i + 1));
            i += 1;
        } else {
            let start: usize = i;
            while i < n && !is_space(list[i])
                invariant
                    n == list@.len(),
                    list@ == s@,
                    start <= i <= n,
                    forall|j: int| start <= j < i ==> !is_whitespace(#[trigger] s@[j]),
                decreases n - i,
            {
                i += 1;
            }
            let word = text::string_of(&list, start, i);
            proof {
                let k = i - start;
                assert forall|j: int| 0 <= j < k implies !is_whitespace(#[trigger] rest[j]) by {
                    assert(rest[j] == s@[start + j]);
                }
                lemma_word_len_unique(rest, k);
                assert(rest.take(k) =~= word@);
                assert(rest.skip(k) =~= s@.skip(i as int));
                assert(text::views(out@.push(word)) =~= text::views(out@) + seq![word@]);
                assert(text::views(out@.push(word)) + words(s@.skip(i as int)) =~= text::views(out@)
                    + (seq![word@] + words(s@.skip(i as int))));
            }
            out.push(word);
        }
    }
    assert(s@.skip(n as int) =~= seq![]);
    assert(text::views(out@) + seq![] =~= text::views(out@));
    out
}

/// A table from file extensions to media types.
pub struct MimeDict {
    types: StringHashMap<String>,
}

impl View for MimeDict {
    type V = Map<Seq<char>, Seq<char>>;

    closed spec fn view(&self) -> Map<Seq<char>, Seq<char>> {
        self.types@.map_values(|mime: String| mime@)
    }
}

impl MimeDict {
    /// The table without entries.
    pub fn new() -> (r: MimeDict)
        ensures
            r@ == Map::<Seq<char>, Seq<char>>::empty(),
    {
        let r = MimeDict { types: StringHashMap::new() };
        assert(r@ =~= Map::empty());
        r
    }

    /// Gives `ext` the type `mime`, in place of the one that it had.
    pub fn insert(&mut self, ext: String, mime: String)
        ensures
            final(self)@ == old(self)@.insert(ext@, mime@),
    {
        self.types.insert(ext, mime);
        assert(self@ =~= old(self)@.insert(ext@, mime@));
    }

    /// The type of `ext`, if it has one.
    pub fn get(&self, ext: &str) -> (r: Option<&str>)
        ensures
            match r {
                Some(mime) => self@.contains_key(ext@) && mime@ == self@[ext@],
                None => !self@.contains_key(ext@),
            },
    {
        match self.types.get(ext) {
            Some(mime) => Some(mime.as_str()),
            None => None,
        }
    }
}

/// Reads the content of a `mime.types` file. Each line gives a media type and
/// its extensions; a line that begins with `#` is a comment.
pub fn build_mime_dict(content: &str) -> (r: MimeDict)
    ensures
        r@ == types_of(content@),
{
    let lines = text::split_at_each(content, '\n');
    let n: usize = lines.len();
    let mut out = MimeDict::new();
    let ghost all = text::views(lines@);
    assert(all.take(0) =~= seq![]);
    for i in 0..n
        invariant
            n == lines@.len(),
            all == text::views(lines@),
            out@ == types_of_lines(all.take(i as int)),
    {
        proof {
            assert(all.take(i + 1).drop_last() =~= all.take(i as int));
            assert(all.take(i + 1).last() == lines@[i as int]@);
        }
        add_line(&mut out, lines[i].as_str());
    }
    assert(all.take(n as int) =~= all);
    out
}

/// Adds what one line says.
fn add_line(types: &mut MimeDict, line: &str)
    ensures
        final(types)@ == with_line(old(types)@, line@),
{
    let list = split_words(line);
    let ghost found = words(line@);
    proof {
        lemma_words(line@);
        assert(text::views(list@).len() == list@.len());
    }
    if list.len() == 0 {
        return ;
    }
    assert(list@[0]@ == found[0]);
    if starts_comment(list[0].as_str()) {
        return ;
    }
    let ghost before = types@;
    let ghost exts = found.skip(1);
    let n: usize = list.len();
    assert(exts.take(0) =~= seq![]);
    for i in 1..n
        invariant
            n == list@.len(),
            n >= 1,
            found == text::views(list@),
            exts == found.skip(1),
            types@ == with_extensions(before, exts.take(i - 1), found[0]),
    {
        proof {
            assert(exts.take(i as int).drop_last() =~= exts.take(i - 1));
            assert(exts.take(i as int).last() == list@[i as int]@);
        }
        types.insert(list[i].clone(), list[0].clone());
    }
    assert(exts.take(n - 1) =~= exts);
}

/// Whether a word begins a comment.
fn starts_comment(word: &str) -> (r: bool)
    requires
        word@.len() > 0,
    ensures
        r == (word@[0] == '#'),
{
    let list = text::chars(word);
    list[0] == '#'
}

} // verus!
