//! What holds of every URL that is resolved or built.
use vstd::prelude::*;
use vstd::utf8::*;

use crate::encoding;
use crate::escape;
use crate::path;
use crate::text;

verus! {

/// A file name that names an entry of the directory it is looked up in: not
/// empty, not `.` or `..`, and without a `/`.
pub open spec fn is_safe_segment(s: Seq<char>) -> bool {
    &&& s.len() > 0
    &&& s != seq!['.']
    &&& s != seq!['.', '.']
    &&& !s.contains('/')
}

/// Whether every segment is a safe one.
pub open spec fn all_safe(segments: Seq<Seq<char>>) -> bool {
    forall|i: int| 0 <= i < segments.len() ==> is_safe_segment(#[trigger] segments[i])
}

/// Whether no segment holds a NUL.
pub open spec fn none_has_nul(segments: Seq<Seq<char>>) -> bool {
    forall|i: int| 0 <= i < segments.len() ==> !(#[trigger] segments[i]).contains('\0')
}

/// Decoding brings in neither `/` nor NUL, and loses nothing: only the empty
/// segment decodes to nothing.
proof fn lemma_percent_decode_bytes(b: Seq<u8>)
    ensures
        path::percent_decode(b) matches Ok(out) ==> {
            &&& (out.contains(0x2f) ==> b.contains(0x2f))
            &&& (out.contains(0) ==> b.contains(0))
            &&& (out.len() == 0 <==> b.len() == 0)
        },
    decreases b.len(),
{
    if b.len() > 0 {
        if let Ok(out) = path::percent_decode(b) {
            let k: int = if b[0] == 0x25 {
                3
            } else {
                1
            };
            let rest = b.skip(k);
            lemma_percent_decode_bytes(rest);
            let tail = path::percent_decode(rest)->Ok_0;
            assert(out.skip(1) =~= tail);
            assert forall|x: u8| (x == 0x2f || x == 0) && out.contains(x) implies b.contains(x) by {
                let j = choose|j: int| 0 <= j < out.len() && out[j] == x;
                if j == 0 {
                    assert(b[0] == x);
                } else {
                    assert(tail[j - 1] == x);
                    let m = choose|m: int| 0 <= m < rest.len() && rest[m] == x;
                    assert(b[m + k] == x);
                }
            }
        }
    }
}

/// The same of texts.
pub proof fn lemma_decoded_segment(s: Seq<char>)
    ensures
        path::decoded_segment(s) matches Ok(name) ==> {
            &&& (name.contains('/') ==> s.contains('/'))
            &&& (name.contains('\0') ==> s.contains('\0'))
            &&& (name.len() == 0 <==> s.len() == 0)
        },
{
    if let Ok(bytes) = path::percent_decode(encode_utf8(s)) {
        if valid_utf8(bytes) {
            let name = decode_utf8(bytes);
            lemma_percent_decode_bytes(encode_utf8(s));
            decode_utf8_encode_utf8(bytes);
            encoding::lemma_encode_contains_ascii(s, '/');
            encoding::lemma_encode_contains_ascii(s, '\0');
            encoding::lemma_encode_contains_ascii(name, '/');
            encoding::lemma_encode_contains_ascii(name, '\0');
            encoding::lemma_encode_empty(s);
            encoding::lemma_encode_empty(name);
        }
    }
}

proof fn lemma_resolve_safe(pieces: Seq<Seq<char>>)
    requires
        forall|i: int| 0 <= i < pieces.len() ==> !(#[trigger] pieces[i]).contains('/'),
    ensures
        path::resolve(pieces) matches Ok(segments) ==> {
            &&& all_safe(segments)
            &&& (none_has_nul(pieces) ==> none_has_nul(segments))
        },
    decreases pieces.len(),
{
    if pieces.len() > 0 {
        let init = pieces.drop_last();
        assert forall|i: int| 0 <= i < init.len() implies !(#[trigger] init[i]).contains('/') by {
            assert(init[i] == pieces[i]);
        }
        lemma_resolve_safe(init);
        if none_has_nul(pieces) {
            assert forall|i: int| 0 <= i < init.len() implies !(#[trigger] init[i]).contains('\0') by {
                assert(init[i] == pieces[i]);
            }
        }
        lemma_decoded_segment(pieces.last());
        assert(pieces.last() == pieces[pieces.len() - 1]);
    }
}

/// A URL never leads out of the root: every segment that it resolves to is a
/// safe one, however it was encoded. A URL without a NUL gives segments without
/// one.
pub proof fn law_clamped_segments_are_safe(url: Seq<char>)
    ensures
        path::clamped(url) matches Ok(segments) ==> {
            &&& all_safe(segments)
            &&& (!url.contains('\0') ==> none_has_nul(segments))
        },
{
    text::lemma_split_pieces(url, '/');
    lemma_resolve_safe(text::split(url, '/'));
    if !url.contains('\0') {
        assert(none_has_nul(text::split(url, '/')));
    }
}

/// Splitting around any separator: the pieces before it, then those after it.
pub proof fn lemma_split_concat(a: Seq<char>, sep: char, b: Seq<char>)
    ensures
        text::split(a + seq![sep] + b, sep) == text::split(a, sep) + text::split(b, sep),
    decreases a.len(),
{
    text::lemma_split_cases(a, sep);
    text::lemma_find(a, sep);
    if a.contains(sep) {
        let k = text::find(a, sep);
        let head = a.take(k);
        let rest = a.skip(k + 1);
        lemma_split_concat(rest, sep, b);
        assert(!head.contains(sep));
        assert(a + seq![sep] + b =~= head + seq![sep] + (rest + seq![sep] + b));
        text::lemma_split_head(head, sep, rest + seq![sep] + b);
        assert(seq![head] + (text::split(rest, sep) + text::split(b, sep)) =~= (seq![head]
            + text::split(rest, sep)) + text::split(b, sep));
    } else {
        text::lemma_split_head(a, sep, b);
    }
}

/// The pieces of the path below the root are the segments.
proof fn lemma_split_below(segments: Seq<Seq<char>>)
    requires
        all_safe(segments),
    ensures
        text::split(path::below(segments), '/') == seq![Seq::<char>::empty()] + segments,
    decreases segments.len(),
{
    if segments.len() == 0 {
        let empty = Seq::<char>::empty();
        text::lemma_split_cases(empty, '/');
        assert(path::below(segments) =~= empty);
        assert(seq![empty] + segments =~= seq![empty]);
    } else {
        let init = segments.drop_last();
        let last = segments.last();
        assert(all_safe(init));
        lemma_split_below(init);
        assert(is_safe_segment(segments[segments.len() - 1]));
        lemma_split_concat(path::below(init), '/', last);
        text::lemma_split_cases(last, '/');
        assert(seq![Seq::<char>::empty()] + init + seq![last] =~= seq![Seq::<char>::empty()]
            + segments);
    }
}

/// The assembled path is the root followed by a path whose components are
/// exactly the safe segments: it never leaves the root.
pub proof fn law_assembled_path_stays_below_root(root: Seq<char>, url: Seq<char>)
    ensures
        path::clamped(url) matches Ok(segments) ==> {
            let file = root + path::below(segments);
            &&& root.is_prefix_of(file)
            &&& text::split(file.skip(root.len() as int), '/') == seq![Seq::<char>::empty()] + segments
            &&& all_safe(segments)
        },
{
    law_clamped_segments_are_safe(url);
    if let Ok(segments) = path::clamped(url) {
        lemma_split_below(segments);
        let file = root + path::below(segments);
        assert(file.skip(root.len() as int) =~= path::below(segments));
        assert(file.take(root.len() as int) =~= root);
    }
}

/// Only what a piece decodes to matters: pieces that decode alike resolve
/// alike, so an encoded `..` is clamped as a plain one is.
pub proof fn law_encoding_of_pieces_is_immaterial(a: Seq<Seq<char>>, b: Seq<Seq<char>>)
    requires
        a.len() == b.len(),
        forall|i: int|
            0 <= i < a.len() ==> path::decoded_segment(#[trigger] a[i]) == path::decoded_segment(b[i]),
        path::resolve(a) is Ok,
    ensures
        path::resolve(b) == path::resolve(a),
    decreases a.len(),
{
    if a.len() > 0 {
        assert forall|i: int| 0 <= i < a.drop_last().len() implies path::decoded_segment(
            #[trigger] a.drop_last()[i],
        ) == path::decoded_segment(b.drop_last()[i]) by {
            assert(a.drop_last()[i] == a[i]);
        }
        law_encoding_of_pieces_is_immaterial(a.drop_last(), b.drop_last());
        let n = a.len() - 1;
        assert(path::decoded_segment(a[n]) == path::decoded_segment(b[n]));
        lemma_decoded_empty();
        if a[n].len() == 0 {
            assert(a[n] =~= Seq::<char>::empty());
            lemma_decoded_segment(b[n]);
        }
        if b[n].len() == 0 {
            assert(b[n] =~= Seq::<char>::empty());
            lemma_decoded_segment(a[n]);
        }
    }
}

proof fn lemma_decoded_empty()
    ensures
        path::decoded_segment(Seq::<char>::empty()) == Ok::<Seq<char>, path::PercentFault>(
            Seq::<char>::empty(),
        ),
{
    encoding::lemma_encode_empty(Seq::<char>::empty());
    assert(encode_utf8(Seq::<char>::empty()) =~= seq![]);
    encode_utf8_decode_utf8(Seq::<char>::empty());
}

/// One escaped byte, with more to follow, decodes to that byte.
proof fn lemma_decode_url_byte(b: u8, rest: Seq<u8>)
    requires
        b != 0,
    ensures
        path::percent_decode(encode_utf8(escape::url_byte(b)) + rest) == path::after(
            seq![b],
            path::percent_decode(rest),
        ),
{
    let e = escape::url_byte(b);
    if escape::is_url_safe(b) {
        assert(b as char as u32 == b);
        assert(b as char as u8 == b);
        assert(is_ascii_chars(e));
        is_ascii_chars_encode_utf8(e);
        assert(encode_utf8(e) =~= seq![b]);
        assert((seq![b] + rest).skip(1) =~= rest);
        assert((seq![b] + rest)[0] == b);
    } else {
        let h = b as int / 16;
        let l = b as int % 16;
        let hc = escape::hex_digit(h);
        let lc = escape::hex_digit(l);
        assert(is_ascii_chars(e)) by {
            assert(e[0] == '%' && e[1] == hc && e[2] == lc);
        }
        is_ascii_chars_encode_utf8(e);
        assert(encode_utf8(e) =~= seq![0x25u8, hc as u8, lc as u8]);
        let all = encode_utf8(e) + rest;
        assert(all[0] == 0x25 && all[1] == hc as u8 && all[2] == lc as u8);
        assert(path::hex_value(hc as u8) == Some(h));
        assert(path::hex_value(lc as u8) == Some(l));
        assert(all.skip(3) =~= rest);
        assert(h * 16 + l == b);
    }
}

proof fn lemma_decode_url_bytes(b: Seq<u8>)
    requires
        !b.contains(0),
    ensures
        path::percent_decode(encode_utf8(escape::url_bytes(b))) == Ok::<
            Seq<u8>,
            path::PercentFault,
        >(b),
    decreases b.len(),
{
    if b.len() == 0 {
        assert(encode_utf8(escape::url_bytes(b)) =~= seq![]);
        assert(b =~= seq![]);
    } else {
        let tail = b.skip(1);
        assert(!tail.contains(0)) by {
            if tail.contains(0) {
                let i = choose|i: int| 0 <= i < tail.len() && tail[i] == 0;
                assert(b[i + 1] == 0);
            }
        }
        lemma_decode_url_bytes(tail);
        assert(b[0] != 0);
        encoding::lemma_encode_concat(escape::url_byte(b[0]), escape::url_bytes(tail));
        lemma_decode_url_byte(b[0], encode_utf8(escape::url_bytes(tail)));
        assert(seq![b[0]] + tail =~= b);
    }
}

/// Decoding undoes escaping, for every text without a NUL.
pub proof fn law_decode_undoes_url_escape(s: Seq<char>)
    requires
        !s.contains('\0'),
    ensures
        path::decoded_segment(escape::url_escaped(s)) == Ok::<Seq<char>, path::PercentFault>(s),
{
    encoding::lemma_encode_contains_ascii(s, '\0');
    lemma_decode_url_bytes(encode_utf8(s));
    encode_utf8_valid_utf8(s);
    encode_utf8_decode_utf8(s);
}

/// A safe name, escaped, is one more segment.
proof fn lemma_resolve_escaped(pieces: Seq<Seq<char>>, name: Seq<char>)
    requires
        is_safe_segment(name),
        !name.contains('\0'),
    ensures
        path::resolve(pieces) matches Ok(done) ==> path::resolve(
            pieces.push(escape::url_escaped(name)),
        ) == Ok::<Seq<Seq<char>>, (path::PercentFault, Seq<char>)>(done.push(name)),
{
    let all = pieces.push(escape::url_escaped(name));
    assert(all.drop_last() =~= pieces);
    law_decode_undoes_url_escape(name);
    escape::law_url_escaped_chars(name);
}

/// Empty pieces at the end change nothing.
proof fn lemma_resolve_empty_piece(pieces: Seq<Seq<char>>)
    ensures
        path::resolve(pieces.push(Seq::<char>::empty())) == path::resolve(pieces),
{
    let all = pieces.push(Seq::<char>::empty());
    assert(all.drop_last() =~= pieces);
}

proof fn lemma_resolve_all_escaped(segments: Seq<Seq<char>>)
    requires
        all_safe(segments),
        none_has_nul(segments),
    ensures
        path::resolve(seq![Seq::<char>::empty()] + path::escaped_segments(segments)) == Ok::<
            Seq<Seq<char>>,
            (path::PercentFault, Seq<char>),
        >(segments),
    decreases segments.len(),
{
    let empty = Seq::<char>::empty();
    let names = path::escaped_segments(segments);
    if segments.len() == 0 {
        assert(seq![empty] + names =~= Seq::<Seq<char>>::empty().push(empty));
        lemma_resolve_empty_piece(Seq::<Seq<char>>::empty());
        assert(segments =~= seq![]);
    } else {
        let init = segments.drop_last();
        let n = segments.len() - 1;
        assert(is_safe_segment(segments[n]));
        assert(!segments[n].contains('\0'));
        assert(all_safe(init));
        assert(none_has_nul(init));
        lemma_resolve_all_escaped(init);
        lemma_resolve_escaped(seq![empty] + path::escaped_segments(init), segments[n]);
        assert(seq![empty] + names =~= (seq![empty] + path::escaped_segments(init)).push(
            escape::url_escaped(segments[n]),
        ));
        assert(init.push(segments[n]) =~= segments);
    }
}

proof fn lemma_split_directory_path(names: Seq<Seq<char>>)
    requires
        forall|i: int| 0 <= i < names.len() ==> !(#[trigger] names[i]).contains('/'),
    ensures
        text::split(path::directory_path(names), '/') == (seq![Seq::<char>::empty()] + names).push(
            Seq::<char>::empty(),
        ),
    decreases names.len(),
{
    let empty = Seq::<char>::empty();
    text::lemma_split_cases(empty, '/');
    if names.len() == 0 {
        assert(path::directory_path(names) =~= empty + seq!['/'] + empty);
        lemma_split_concat(empty, '/', empty);
        assert(seq![empty] + seq![empty] =~= (seq![empty] + names).push(empty));
    } else {
        let init = names.drop_last();
        let last = names.last();
        assert(!names[names.len() - 1].contains('/'));
        assert forall|i: int| 0 <= i < init.len() implies !(#[trigger] init[i]).contains('/') by {
            assert(init[i] == names[i]);
        }
        lemma_split_directory_path(init);
        lemma_directory_path_ends(init);
        let whole = path::directory_path(init);
        let body = whole.drop_last();
        assert(whole =~= body + seq!['/'] + empty);
        lemma_split_concat(body, '/', empty);
        assert(text::split(body, '/') =~= seq![empty] + init) by {
            assert(text::split(body, '/') + seq![empty] == (seq![empty] + init).push(empty));
            assert((text::split(body, '/') + seq![empty]).drop_last() =~= text::split(body, '/'));
            assert((seq![empty] + init).push(empty).drop_last() =~= seq![empty] + init);
        }
        assert(path::directory_path(names) =~= body + seq!['/'] + (last + seq!['/'] + empty));
        lemma_split_concat(body, '/', last + seq!['/'] + empty);
        text::lemma_split_head(last, '/', empty);
        assert((seq![empty] + init) + (seq![last] + seq![empty]) =~= (seq![empty] + names).push(
            empty,
        ));
    }
}

proof fn lemma_directory_path_ends(names: Seq<Seq<char>>)
    ensures
        path::directory_path(names).len() > 0,
        path::directory_path(names)[0] == '/',
        path::directory_path(names).last() == '/',
    decreases names.len(),
{
    if names.len() > 0 {
        lemma_directory_path_ends(names.drop_last());
    }
}

/// The normalized URL path of a directory resolves to that directory again.
pub proof fn law_normalized_url_path_round_trip(segments: Seq<Seq<char>>)
    requires
        all_safe(segments),
        none_has_nul(segments),
    ensures
        path::clamped(path::directory_path(path::escaped_segments(segments))) == Ok::<
            Seq<Seq<char>>,
            (path::PercentFault, Seq<char>),
        >(segments),
{
    let names = path::escaped_segments(segments);
    assert forall|i: int| 0 <= i < names.len() implies !(#[trigger] names[i]).contains('/') by {
        assert(is_safe_segment(segments[i]));
        escape::law_url_escaped_chars(segments[i]);
    }
    lemma_split_directory_path(names);
    lemma_resolve_empty_piece(seq![Seq::<char>::empty()] + names);
    lemma_resolve_all_escaped(segments);
}

proof fn lemma_directory_path_chars(names: Seq<Seq<char>>)
    requires
        forall|i: int, j: int|
            0 <= i < names.len() && 0 <= j < names[i].len() ==> escape::is_url_char(
                #[trigger] names[i][j],
            ),
    ensures
        forall|i: int|
            0 <= i < path::directory_path(names).len() ==> escape::is_url_char(
                #[trigger] path::directory_path(names)[i],
            ),
    decreases names.len(),
{
    assert(escape::is_url_char('/'));
    if names.len() > 0 {
        let init = names.drop_last();
        let n = names.len() - 1;
        assert forall|i: int, j: int| 0 <= i < init.len() && 0 <= j < init[i].len() implies
            escape::is_url_char(#[trigger] init[i][j]) by {
            assert(init[i] == names[i]);
            assert(escape::is_url_char(names[i][j]));
        }
        lemma_directory_path_chars(init);
        let all = path::directory_path(names);
        let before = path::directory_path(init);
        assert forall|i: int| 0 <= i < all.len() implies escape::is_url_char(#[trigger] all[i]) by {
            if i < before.len() {
                assert(all[i] == before[i]);
            } else if i < before.len() + names[n].len() {
                assert(all[i] == names[n][i - before.len()]);
            } else {
                assert(all[i] == '/');
            }
        }
    }
}

proof fn lemma_directory_path_single_slash(names: Seq<Seq<char>>)
    requires
        forall|i: int|
            0 <= i < names.len() ==> (#[trigger] names[i]).len() > 0 && !names[i].contains('/'),
    ensures
        path::directory_path(names).len() > 1 ==> path::directory_path(names)[1] != '/',
    decreases names.len(),
{
    if names.len() > 0 {
        let init = names.drop_last();
        let n = names.len() - 1;
        assert forall|i: int| 0 <= i < init.len() implies (#[trigger] init[i]).len() > 0
            && !init[i].contains('/') by {
            assert(init[i] == names[i]);
        }
        lemma_directory_path_single_slash(init);
        lemma_directory_path_ends(init);
        assert(names[n].len() > 0 && !names[n].contains('/'));
        let before = path::directory_path(init);
        if before.len() == 1 {
            assert(path::directory_path(names)[1] == names[n][0]);
        } else {
            assert(path::directory_path(names)[1] == before[1]);
        }
    }
}

/// A normalized URL path begins and ends with `/`, holds only characters that
/// need no escaping in a URL path, and never begins with two slashes: it cannot
/// be taken for a URL on another host.
pub proof fn law_normalized_url_path_is_local(segments: Seq<Seq<char>>)
    requires
        all_safe(segments),
    ensures
        ({
            let path = path::directory_path(path::escaped_segments(segments));
            &&& path.len() > 0
            &&& path[0] == '/'
            &&& path.last() == '/'
            &&& (path.len() > 1 ==> path[1] != '/')
            &&& !path.contains('?')
            &&& forall|i: int| 0 <= i < path.len() ==> escape::is_url_char(#[trigger] path[i])
        }),
{
    let names = path::escaped_segments(segments);
    let path = path::directory_path(names);
    assert forall|i: int| 0 <= i < names.len() implies (#[trigger] names[i]).len() > 0
        && !names[i].contains('/') by {
        assert(is_safe_segment(segments[i]));
        escape::law_url_escaped_chars(segments[i]);
    }
    assert forall|i: int, j: int| 0 <= i < names.len() && 0 <= j < names[i].len() implies
        escape::is_url_char(#[trigger] names[i][j]) by {
        escape::law_url_escaped_chars(segments[i]);
    }
    lemma_directory_path_ends(names);
    lemma_directory_path_single_slash(names);
    lemma_directory_path_chars(names);
    assert(!path.contains('?')) by {
        if path.contains('?') {
            let i = choose|i: int| 0 <= i < path.len() && path[i] == '?';
            assert(escape::is_url_char(path[i]));
        }
    }
}

/// Stripping the query string leaves a prefix without `?`, and stripping again
/// changes nothing.
pub proof fn law_strip_query(url: Seq<char>)
    ensures
        path::without_query(url).is_prefix_of(url),
        !path::without_query(url).contains('?'),
        path::without_query(path::without_query(url)) == path::without_query(url),
        path::query_of(url) matches Some(q) ==> url == path::without_query(url) + seq!['?'] + q,
        path::query_of(url) is None ==> url == path::without_query(url),
{
    text::lemma_find(url, '?');
    let p = path::without_query(url);
    assert(!p.contains('?'));
    text::lemma_find(p, '?');
    assert(p.take(p.len() as int) =~= p);
    if url.contains('?') {
        let k = text::find(url, '?');
        assert(url =~= p + seq!['?'] + url.skip(k + 1));
    } else {
        assert(url =~= p);
    }
}

/// A text without `?` followed by a query string comes apart at that `?`.
proof fn lemma_with_query(p: Seq<char>, query: Option<Seq<char>>)
    requires
        !p.contains('?'),
    ensures
        ({
            let url = match query {
                Some(q) => p + seq!['?'] + q,
                None => p,
            };
            path::without_query(url) == p && path::query_of(url) == query
        }),
{
    match query {
        Some(q) => {
            let url = p + seq!['?'] + q;
            let k = p.len() as int;
            assert forall|j: int| 0 <= j < k implies url[j] != '?' by {
                assert(url[j] == p[j]);
            }
            assert(url[k] == '?');
            text::lemma_find_unique(url, '?', k);
            assert(url.take(k) =~= p);
            assert(url.skip(k + 1) =~= q);
        },
        None => {
            text::lemma_find(p, '?');
            assert(p.take(p.len() as int) =~= p);
        },
    }
}

/// The redirect of a directory request leads to the same directory, with the
/// same query string and with the `/` at the end, so it is followed at most
/// once.
pub proof fn law_redirect_leads_to_the_directory(url: Seq<char>)
    requires
        !url.contains('\0'),
    ensures
        path::clamped(path::without_query(url)) matches Ok(segments) ==> {
            let target = path::location(segments, path::query_of(url));
            &&& path::query_of(target) == path::query_of(url)
            &&& path::without_query(target).len() > 0
            &&& path::without_query(target).last() == '/'
            &&& path::clamped(path::without_query(target)) == Ok::<
                Seq<Seq<char>>,
                (path::PercentFault, Seq<char>),
            >(segments)
        },
{
    let p = path::without_query(url);
    law_strip_query(url);
    assert(!p.contains('\0')) by {
        if p.contains('\0') {
            let i = choose|i: int| 0 <= i < p.len() && p[i] == '\0';
            assert(url[i] == '\0');
        }
    }
    law_clamped_segments_are_safe(p);
    if let Ok(segments) = path::clamped(p) {
        law_normalized_url_path_is_local(segments);
        law_normalized_url_path_round_trip(segments);
        lemma_with_query(
            path::directory_path(path::escaped_segments(segments)),
            path::query_of(url),
        );
    }
}

/// A link of a listing leads to the entry it was made from: the URL of a
/// directory, followed by the escaped name of an entry, resolves to that entry,
/// with or without a `/` behind it.
pub proof fn law_href_leads_to_the_entry(url: Seq<char>, name: Seq<char>)
    requires
        url.len() > 0,
        url.last() == '/',
        is_safe_segment(name),
        !name.contains('\0'),
    ensures
        path::clamped(url) matches Ok(segments) ==> {
            &&& path::clamped(url + escape::url_escaped(name)) == Ok::<
                Seq<Seq<char>>,
                (path::PercentFault, Seq<char>),
            >(segments.push(name))
            &&& path::clamped(url + escape::url_escaped(name + seq!['/'])) == Ok::<
                Seq<Seq<char>>,
                (path::PercentFault, Seq<char>),
            >(segments.push(name))
        },
{
    let empty = Seq::<char>::empty();
    let body = url.drop_last();
    let pieces = text::split(body, '/');
    let link = escape::url_escaped(name);
    escape::law_url_escaped_chars(name);
    text::lemma_split_cases(empty, '/');
    text::lemma_split_cases(link, '/');
    assert(url =~= body + seq!['/'] + empty);
    lemma_split_concat(body, '/', empty);
    assert(pieces + seq![empty] =~= pieces.push(empty));
    lemma_resolve_empty_piece(pieces);
    assert(url + link =~= body + seq!['/'] + link);
    lemma_split_concat(body, '/', link);
    assert(pieces + seq![link] =~= pieces.push(link));
    lemma_resolve_escaped(pieces, name);

    let slash = seq!['/'];
    encoding::lemma_encode_concat(name, slash);
    escape::lemma_url_bytes_concat(encode_utf8(name), encode_utf8(slash));
    assert(escape::url_escaped(slash) =~= slash) by {
        assert(is_ascii_chars(slash));
        is_ascii_chars_encode_utf8(slash);
        assert(encode_utf8(slash) =~= seq![0x2fu8]);
        assert(escape::url_bytes(seq![0x2fu8]) =~= escape::url_byte(0x2f) + escape::url_bytes(
            seq![0x2fu8].skip(1),
        ));
        assert(seq![0x2fu8].skip(1) =~= seq![]);
        assert(escape::url_byte(0x2f) =~= seq!['/']);
    }
    assert(url + escape::url_escaped(name + slash) =~= body + seq!['/'] + (link + seq!['/'] + empty));
    lemma_split_concat(body, '/', link + seq!['/'] + empty);
    lemma_split_concat(link, '/', empty);
    assert(pieces + (seq![link] + seq![empty]) =~= pieces.push(link).push(empty));
    lemma_resolve_empty_piece(pieces.push(link));
}

} // verus!
