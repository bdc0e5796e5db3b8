//! What the segments, the extension and the redirect of a URL are, told by
//! their characters.
use vstd::prelude::*;
use vstd::utf8::*;

use crate::encoding;
use crate::escape;
use crate::path;
use crate::path::PercentFault;
use crate::path_laws;
use crate::text;

verus! {

/// What a digit `d` is written as in base sixteen: one character below ten, one
/// of two, a small and a capital letter, from ten on.
pub open spec fn writes_hex_digit(b: u8, d: int) -> bool {
    ||| 0 <= d < 10 && b == '0' as int + d
    ||| 10 <= d < 16 && b == 'a' as int + (d - 10)
    ||| 10 <= d < 16 && b == 'A' as int + (d - 10)
}

/// Decoding what stands before `tail` to `byte` and going on with `tail`.
pub open spec fn goes_on(
    whole: Result<Seq<u8>, PercentFault>,
    byte: u8,
    tail: Result<Seq<u8>, PercentFault>,
) -> bool {
    match tail {
        Ok(bytes) => whole == Ok::<Seq<u8>, PercentFault>(seq![byte] + bytes),
        Err(fault) => whole == Err::<Seq<u8>, PercentFault>(fault),
    }
}

/// A byte other than `%` stands for itself.
pub proof fn law_plain_byte_stands_for_itself(b: u8, rest: Seq<u8>)
    requires
        b != '%' as u8,
    ensures
        goes_on(path::percent_decode(seq![b] + rest), b, path::percent_decode(rest)),
        path::percent_decode(seq![]) == Ok::<Seq<u8>, PercentFault>(seq![]),
{
    assert((seq![b] + rest).skip(1) =~= rest);
}

/// A `%` and two hexadecimal digits, in capital or small letters, stand for the
/// byte that the digits write, and are refused where that byte is `/` or NUL.
pub proof fn law_escape_stands_for_its_byte(high: u8, low: u8, h: int, l: int, rest: Seq<u8>)
    requires
        writes_hex_digit(high, h),
        writes_hex_digit(low, l),
    ensures
        ({
            let all = seq!['%' as u8, high, low] + rest;
            let byte = 16 * h + l;
            if byte == 0 || byte == '/' as int {
                path::percent_decode(all) == Err::<Seq<u8>, PercentFault>(PercentFault::Forbidden)
            } else {
                goes_on(path::percent_decode(all), byte as u8, path::percent_decode(rest))
            }
        }),
{
    let all = seq!['%' as u8, high, low] + rest;
    assert(all[0] == 0x25 && all[1] == high && all[2] == low);
    assert(all.skip(3) =~= rest);
    assert(path::hex_value(high) == Some(h));
    assert(path::hex_value(low) == Some(l));
}

/// A `%` that two hexadecimal digits do not follow is refused.
pub proof fn law_other_percent_is_malformed(rest: Seq<u8>)
    requires
        rest.len() < 2 || (forall|d: int| !writes_hex_digit(rest[0], d)) || (forall|d: int|
            !writes_hex_digit(rest[1], d)),
    ensures
        path::percent_decode(seq!['%' as u8] + rest) == Err::<Seq<u8>, PercentFault>(
            PercentFault::Malformed,
        ),
{
    let all = seq!['%' as u8] + rest;
    assert(all[0] == 0x25);
    if rest.len() >= 2 {
        assert(all[1] == rest[0] && all[2] == rest[1]);
        if path::hex_value(rest[0]) is Some && path::hex_value(rest[1]) is Some {
            assert(writes_hex_digit(rest[0], path::hex_value(rest[0])->0));
            assert(writes_hex_digit(rest[1], path::hex_value(rest[1])->0));
        }
    }
}

/// A segment stands for the text whose bytes are the decoded ones. Where there
/// is no such text it is refused.
pub proof fn law_segment_stands_for_a_text(s: Seq<char>)
    ensures
        match path::percent_decode(encode_utf8(s)) {
            Err(fault) => path::decoded_segment(s) == Err::<Seq<char>, PercentFault>(fault),
            Ok(bytes) => {
                &&& forall|t: Seq<char>|
                    path::decoded_segment(s) == Ok::<Seq<char>, PercentFault>(t) <==> (
                    #[trigger] encode_utf8(t)) == bytes
                &&& (forall|t: Seq<char>| #[trigger] encode_utf8(t) != bytes)
                    ==> path::decoded_segment(s) == Err::<Seq<char>, PercentFault>(
                    PercentFault::NotUtf8,
                )
            },
        },
{
    if let Ok(bytes) = path::percent_decode(encode_utf8(s)) {
        assert forall|t: Seq<char>|
            path::decoded_segment(s) == Ok::<Seq<char>, PercentFault>(t) <==> (
            #[trigger] encode_utf8(t)) == bytes by {
            encode_utf8_valid_utf8(t);
            encode_utf8_decode_utf8(t);
            if valid_utf8(bytes) {
                decode_utf8_encode_utf8(bytes);
            }
        }
        if valid_utf8(bytes) {
            decode_utf8_encode_utf8(bytes);
            assert(encode_utf8(decode_utf8(bytes)) == bytes);
        }
    }
}

proof fn lemma_plain_bytes(b: Seq<u8>)
    requires
        !b.contains('%' as u8),
    ensures
        path::percent_decode(b) == Ok::<Seq<u8>, PercentFault>(b),
    decreases b.len(),
{
    if b.len() > 0 {
        let rest = b.skip(1);
        assert(b[0] != '%' as u8);
        assert(!rest.contains('%' as u8)) by {
            if rest.contains('%' as u8) {
                let i = choose|i: int| 0 <= i < rest.len() && rest[i] == '%' as u8;
                assert(b[i + 1] == '%' as u8);
            }
        }
        lemma_plain_bytes(rest);
        law_plain_byte_stands_for_itself(b[0], rest);
        assert(seq![b[0]] + rest =~= b);
    } else {
        assert(b =~= seq![]);
    }
}

/// A segment without `%` stands for itself.
pub proof fn law_plain_segment_stands_for_itself(s: Seq<char>)
    requires
        !s.contains('%'),
    ensures
        path::decoded_segment(s) == Ok::<Seq<char>, PercentFault>(s),
{
    encoding::lemma_encode_contains_ascii(s, '%');
    lemma_plain_bytes(encode_utf8(s));
    law_segment_stands_for_a_text(s);
    assert(encode_utf8(s) == encode_utf8(s));
}

/// The segments so far and one more piece of a URL path: nothing and `.` change
/// nothing, `..` takes the last segment away, any other text is a segment more.
/// A piece that cannot be decoded is the error, unless there was one before.
pub open spec fn takes_a_piece(
    before: Result<Seq<Seq<char>>, (PercentFault, Seq<char>)>,
    piece: Seq<char>,
    after: Result<Seq<Seq<char>>, (PercentFault, Seq<char>)>,
) -> bool {
    match before {
        Err(_) => after == before,
        Ok(segments) => match path::decoded_segment(piece) {
            Err(fault) => after == Err::<Seq<Seq<char>>, (PercentFault, Seq<char>)>((fault, piece)),
            Ok(name) => {
                &&& after is Ok
                &&& name.len() == 0 ==> after->Ok_0 == segments
                &&& name == "."@ ==> after->Ok_0 == segments
                &&& name == ".."@ ==> after->Ok_0 == segments.take(
                    if segments.len() == 0 {
                        0
                    } else {
                        segments.len() - 1
                    },
                )
                &&& name.len() > 0 && name != "."@ && name != ".."@ ==> after->Ok_0
                    == segments.push(name)
            },
        },
    }
}

/// A URL path is resolved piece by piece: the first piece from no segments, and
/// each piece behind a `/` from the segments of what stands before that `/`.
pub proof fn law_url_is_resolved_piece_by_piece(url: Seq<char>, piece: Seq<char>)
    requires
        !piece.contains('/'),
    ensures
        takes_a_piece(
            Ok::<Seq<Seq<char>>, (PercentFault, Seq<char>)>(seq![]),
            piece,
            path::clamped(piece),
        ),
        takes_a_piece(path::clamped(url), piece, path::clamped(url + seq!['/'] + piece)),
{
    reveal_strlit(".");
    reveal_strlit("..");
    assert("."@ =~= seq!['.']);
    assert(".."@ =~= seq!['.', '.']);
    text::lemma_split_cases(piece, '/');
    path_laws::lemma_split_concat(url, '/', piece);
    let pieces = text::split(url, '/');
    lemma_resolve_one_more(seq![], piece);
    lemma_resolve_one_more(pieces, piece);
    assert(Seq::<Seq<char>>::empty().push(piece) =~= seq![piece]);
    assert(pieces + seq![piece] =~= pieces.push(piece));
    assert(path::resolve(seq![]) == Ok::<Seq<Seq<char>>, (PercentFault, Seq<char>)>(seq![]));
}

proof fn lemma_resolve_one_more(pieces: Seq<Seq<char>>, piece: Seq<char>)
    requires
        !piece.contains('/'),
        "."@ == seq!['.'],
        ".."@ == seq!['.', '.'],
    ensures
        takes_a_piece(path::resolve(pieces), piece, path::resolve(pieces.push(piece))),
{
    assert(pieces.push(piece).drop_last() =~= pieces);
    if piece.len() == 0 {
        law_plain_segment_stands_for_itself(piece);
    } else if let Ok(segments) = path::resolve(pieces) {
        if segments.len() > 0 {
            assert(segments.drop_last() =~= segments.take(segments.len() - 1));
        } else {
            assert(segments =~= segments.take(0));
        }
        if let Ok(name) = path::decoded_segment(piece) {
            path_laws::lemma_decoded_segment(piece);
        }
    }
}

/// A URL made of safe segments without `%` resolves to exactly those segments.
pub proof fn law_plain_url_resolves_to_its_segments(segments: Seq<Seq<char>>)
    requires
        path_laws::all_safe(segments),
        forall|i: int| 0 <= i < segments.len() ==> !(#[trigger] segments[i]).contains('%'),
    ensures
        path::clamped(path::below(segments)) == Ok::<Seq<Seq<char>>, (PercentFault, Seq<char>)>(
            segments,
        ),
    decreases segments.len(),
{
    reveal_strlit(".");
    reveal_strlit("..");
    assert("."@ =~= seq!['.']);
    assert(".."@ =~= seq!['.', '.']);
    if segments.len() == 0 {
        let empty = Seq::<char>::empty();
        law_url_is_resolved_piece_by_piece(empty, empty);
        law_plain_segment_stands_for_itself(empty);
        assert(path::below(segments) =~= empty);
        assert(segments =~= seq![]);
    } else {
        let init = segments.drop_last();
        let last = segments.last();
        assert(last == segments[segments.len() - 1]);
        assert(path_laws::is_safe_segment(last));
        assert(path_laws::all_safe(init));
        assert forall|i: int| 0 <= i < init.len() implies !(#[trigger] init[i]).contains('%') by {
            assert(init[i] == segments[i]);
        }
        law_plain_url_resolves_to_its_segments(init);
        law_url_is_resolved_piece_by_piece(path::below(init), last);
        law_plain_segment_stands_for_itself(last);
        assert(init.push(last) =~= segments);
    }
}

/// Which file names are safe ones.
pub proof fn law_safe_segments(s: Seq<char>)
    ensures
        path_laws::is_safe_segment(s) <==> {
            &&& s != ""@
            &&& s != "."@
            &&& s != ".."@
            &&& forall|i: int| 0 <= i < s.len() ==> s[i] != '/'
        },
{
    reveal_strlit("");
    reveal_strlit(".");
    reveal_strlit("..");
    assert("."@ =~= seq!['.']);
    assert(".."@ =~= seq!['.', '.']);
    if s.len() == 0 {
        assert(s =~= ""@);
    }
}

/// What is joined below the root is a `/` and a segment for each segment.
pub proof fn law_below_is_each_segment_behind_a_slash(
    segments: Seq<Seq<char>>,
    more: Seq<char>,
)
    ensures
        path::below(seq![]).len() == 0,
        path::below(segments.push(more)) == path::below(segments) + "/"@ + more,
{
    reveal_strlit("/");
    assert("/"@ =~= seq!['/']);
    assert(segments.push(more).drop_last() =~= segments);
}

/// A directory path is a `/`, and each segment with a `/` behind it.
pub proof fn law_directory_path_is_each_segment_before_a_slash(
    segments: Seq<Seq<char>>,
    more: Seq<char>,
)
    ensures
        path::directory_path(seq![]) == "/"@,
        path::directory_path(segments.push(more)) == path::directory_path(segments) + more + "/"@,
{
    reveal_strlit("/");
    assert("/"@ =~= seq!['/']);
    assert(segments.push(more).drop_last() =~= segments);
}

/// A redirect goes to the directory path of the escaped segments, and hands the
/// query string on behind a `?`.
pub proof fn law_location_of_a_directory(
    segments: Seq<Seq<char>>,
    escaped: Seq<Seq<char>>,
    query: Seq<char>,
)
    requires
        escaped.len() == segments.len(),
        forall|i: int|
            0 <= i < segments.len() ==> #[trigger] escaped[i] == escape::url_escaped(segments[i]),
    ensures
        path::location(segments, None) == path::directory_path(escaped),
        path::location(segments, Some(query)) == path::directory_path(escaped) + "?"@ + query,
{
    reveal_strlit("?");
    assert("?"@ =~= seq!['?']);
    assert(path::escaped_segments(segments) =~= escaped);
}

/// The position of the last `c`.
proof fn lemma_find_last(s: Seq<char>, c: char, k: int)
    requires
        -1 <= k < s.len(),
        k >= 0 ==> s[k] == c,
        forall|j: int| k < j < s.len() ==> s[j] != c,
    ensures
        path::find_last(s, c) == k,
    decreases s.len(),
{
    if s.len() > 0 && s.last() != c {
        lemma_find_last(s.drop_last(), c, k);
    } else if s.len() > 0 {
        assert(s[s.len() - 1] == c);
    }
}

/// The extension of a file name: what stands behind a dot that something stands
/// before, and that no dot follows. A name without such a dot has none.
pub proof fn law_extension_of_a_name(stem: Seq<char>, ext: Seq<char>)
    requires
        !ext.contains('.'),
    ensures
        stem.len() > 0 && stem + "."@ + ext != ".."@ ==> path::name_extension(stem + "."@ + ext)
            == Some(ext),
        path::name_extension("."@ + ext) is None,
        path::name_extension(ext) is None,
        path::name_extension(".."@) is None,
{
    reveal_strlit(".");
    reveal_strlit("..");
    assert("."@ =~= seq!['.']);
    assert(".."@ =~= seq!['.', '.']);
    let name = stem + "."@ + ext;
    let k = stem.len() as int;
    assert(name[k] == '.');
    assert forall|j: int| k < j < name.len() implies name[j] != '.' by {
        assert(name[j] == ext[j - k - 1]);
    }
    lemma_find_last(name, '.', k);
    assert(name.skip(k + 1) =~= ext);
    let hidden = "."@ + ext;
    assert(hidden[0] == '.');
    assert forall|j: int| 0 < j < hidden.len() implies hidden[j] != '.' by {
        assert(hidden[j] == ext[j - 1]);
    }
    lemma_find_last(hidden, '.', 0);
    lemma_find_last(ext, '.', -1);
}

proof fn lemma_last_component(pieces: Seq<Seq<char>>, name: Seq<char>)
    ensures
        path::last_component(pieces.push(name)) == if name.len() == 0 || name == seq!['.'] {
            path::last_component(pieces)
        } else {
            Some(name)
        },
{
    assert(pieces.push(name).drop_last() =~= pieces);
}

/// The extension of a path is that of its last name; a `/` or `/.` at its end
/// changes nothing.
pub proof fn law_extension_is_that_of_the_last_name(dir: Seq<char>, name: Seq<char>)
    requires
        !name.contains('/'),
    ensures
        name != ""@ && name != "."@ ==> path::path_extension(dir + "/"@ + name)
            == path::name_extension(name) && path::path_extension(name) == path::name_extension(
            name,
        ),
        path::path_extension(dir + "/"@) == path::path_extension(dir),
        path::path_extension(dir + "/."@) == path::path_extension(dir),
        path::path_extension(""@) is None,
        path::path_extension("."@) is None,
{
    let empty = Seq::<char>::empty();
    let none = Seq::<Seq<char>>::empty();
    reveal_strlit("");
    reveal_strlit(".");
    reveal_strlit("/");
    reveal_strlit("/.");
    assert(""@ =~= empty);
    assert("."@ =~= seq!['.']);
    assert("/"@ =~= seq!['/']);
    assert("/."@ =~= seq!['/'] + seq!['.']);
    let pieces = text::split(dir, '/');
    assert(!seq!['.'].contains('/'));
    text::lemma_split_cases(name, '/');
    text::lemma_split_cases(empty, '/');
    text::lemma_split_cases(seq!['.'], '/');
    path_laws::lemma_split_concat(dir, '/', name);
    path_laws::lemma_split_concat(dir, '/', empty);
    path_laws::lemma_split_concat(dir, '/', seq!['.']);
    assert(dir + "/"@ =~= dir + seq!['/'] + empty);
    assert(dir + "/."@ =~= dir + seq!['/'] + seq!['.']);
    assert(pieces + seq![name] =~= pieces.push(name));
    assert(pieces + seq![empty] =~= pieces.push(empty));
    assert(pieces + seq![seq!['.']] =~= pieces.push(seq!['.']));
    assert(seq![name] =~= none.push(name));
    assert(seq![empty] =~= none.push(empty));
    assert(seq![seq!['.']] =~= none.push(seq!['.']));
    lemma_last_component(pieces, name);
    lemma_last_component(pieces, empty);
    lemma_last_component(pieces, seq!['.']);
    lemma_last_component(none, name);
    lemma_last_component(none, empty);
    lemma_last_component(none, seq!['.']);
    assert(path::last_component(none) is None);
}

/// A file has the extension that stands behind the last dot of its name, in
/// whatever directory it is.
pub proof fn law_extension_of_a_file(dir: Seq<char>, stem: Seq<char>, ext: Seq<char>)
    requires
        stem.len() > 0,
        !stem.contains('/'),
        !ext.contains('/'),
        !ext.contains('.'),
        stem + "."@ + ext != ".."@,
    ensures
        path::path_extension(dir + "/"@ + (stem + "."@ + ext)) == Some(ext),
{
    reveal_strlit("");
    reveal_strlit(".");
    let name = stem + "."@ + ext;
    assert("."@ =~= seq!['.']);
    assert forall|j: int| 0 <= j < name.len() implies name[j] != '/' by {
        if j < stem.len() {
            assert(name[j] == stem[j]);
        } else if j > stem.len() {
            assert(name[j] == ext[j - stem.len() - 1]);
        }
    }
    law_extension_of_a_name(stem, ext);
    law_extension_is_that_of_the_last_name(dir, name);
}

/// The texts of the errors about a segment.
pub proof fn law_fault_messages(quoted: Seq<char>)
    ensures
        path::fault_message(PercentFault::Malformed, quoted)
            == "fileserver: malformed percent-encoding in "@ + quoted,
        path::fault_message(PercentFault::Forbidden, quoted)
            == "fileserver: invalid percent-encoded byte in "@ + quoted,
        path::fault_message(PercentFault::NotUtf8, quoted) == "fileserver: invalid UTF-8 in "@
            + quoted,
{
}

} // verus!
