//! Escaping text for URLs and for HTML.
use vstd::prelude::*;
use vstd::string::*;
use vstd::utf8::*;

use crate::encoding;
use crate::text;

verus! {

/// The bytes that stand unescaped in a URL path: letters, digits, `-`, `_`,
/// `.`, `~` and `/`.
pub open spec fn is_url_safe(b: u8) -> bool {
    ||| 0x41 <= b <= 0x5a
    ||| 0x61 <= b <= 0x7a
    ||| 0x30 <= b <= 0x39
    ||| b == 0x2d
    ||| b == 0x5f
    ||| b == 0x2e
    ||| b == 0x7e
    ||| b == 0x2f
}

/// The upper-case hexadecimal digit for `v`.
pub open spec fn hex_digit(v: int) -> char {
    if v < 10 {
        (48 + v) as char
    } else {
        (55 + v) as char
    }
}

/// One byte of a URL path: itself, or `%` and its two hexadecimal digits.
pub open spec fn url_byte(b: u8) -> Seq<char> {
    if is_url_safe(b) {
        seq![b as char]
    } else {
        seq!['%', hex_digit(b as int / 16), hex_digit(b as int % 16)]
    }
}

/// The bytes of `b`, each escaped.
pub open spec fn url_bytes(b: Seq<u8>) -> Seq<char>
    decreases b.len(),
{
    if b.len() == 0 {
        seq![]
    } else {
        url_byte(b[0]) + url_bytes(b.skip(1))
    }
}

/// `s` percent-encoded for a URL path.
pub open spec fn url_escaped(s: Seq<char>) -> Seq<char> {
    url_bytes(encode_utf8(s))
}

/// The C0 and C1 control characters and DEL.
pub open spec fn is_control(c: char) -> bool {
    c <= '\u{1f}' || '\u{7f}' <= c <= '\u{9f}'
}

/// Characters that are invisible or that reorder the text around them.
pub open spec fn is_spoofing(c: char) -> bool {
    ||| c == '\u{00AD}'
    ||| c == '\u{061C}'
    ||| c == '\u{180E}'
    ||| '\u{200B}' <= c <= '\u{200F}'
    ||| '\u{2028}' <= c <= '\u{2029}'
    ||| '\u{202A}' <= c <= '\u{202E}'
    ||| '\u{2060}' <= c <= '\u{2069}'
    ||| '\u{FE00}' <= c <= '\u{FE0F}'
    ||| c == '\u{FEFF}'
    ||| c == '\u{E0001}'
    ||| '\u{E0020}' <= c <= '\u{E007F}'
}

/// What stands for `c` in HTML text.
pub open spec fn html_char(c: char) -> Seq<char> {
    if c == '&' {
        "&amp;"@
    } else if c == '<' {
        "&lt;"@
    } else if c == '>' {
        "&gt;"@
    } else if c == '"' {
        "&quot;"@
    } else if is_control(c) || is_spoofing(c) {
        seq!['\u{FFFD}']
    } else {
        seq![c]
    }
}

/// `s` escaped for HTML text and for quoted attribute values.
pub open spec fn html_escaped(s: Seq<char>) -> Seq<char>
    decreases s.len(),
{
    if s.len() == 0 {
        seq![]
    } else {
        html_char(s[0]) + html_escaped(s.skip(1))
    }
}

/// Percent-encodes a file name for use in an href or a URL path. `/` is left
/// alone.
pub fn url_escape(s: &str) -> (r: String)
    ensures
        r@ == url_escaped(s@),
{
    let bytes = s.as_bytes();
    let n: usize = bytes.len();
    let mut out = String::new();
    assert(bytes@.skip(0) =~= bytes@);
    assert(out@ + url_bytes(bytes@) =~= url_bytes(bytes@));
    for i in 0..n
        invariant
            n == bytes@.len(),
            url_bytes(bytes@) == out@ + url_bytes(bytes@.skip(i as int)),
    {
        let b: u8 = bytes[i];
        let ghost before = out@;
        let ghost rest = bytes@.skip(i as int);
        assert(rest.skip(1) =~= bytes@.skip(i + 1));
        if (0x41 <= b && b <= 0x5a) || (0x61 <= b && b <= 0x7a) || (0x30 <= b && b <= 0x39) || b
            == 0x2d || b == 0x5f || b == 0x2e || b == 0x7e || b == 0x2f {
            out.push(b as char);
            assert(out@ =~= before + url_byte(b));
        } else {
            out.push('%');
            out.push(hex_char(b / 16));
            out.push(hex_char(b % 16));
            assert(out@ =~= before + url_byte(b));
        }
        assert(out@ + url_bytes(bytes@.skip(i + 1)) =~= before + (url_byte(b) + url_bytes(
            bytes@.skip(i + 1),
        )));
    }
    assert(bytes@.skip(n as int) =~= seq![]);
    assert(out@ + seq![] =~= out@);
    out
}

/// The upper-case hexadecimal digit for `v`.
fn hex_char(v: u8) -> (r: char)
    requires
        v < 16,
    ensures
        r == hex_digit(v as int),
{
    if v < 10 {
        (48 + v) as char
    } else {
        (55 + v) as char
    }
}

/// Whether `c` is one of the invisible or text-reordering characters that make
/// a file name look like another. The list covers those that are commonly used
/// for that; it is not a complete Unicode security profile.
pub fn is_display_spoofing_char(c: char) -> (r: bool)
    ensures
        r == is_spoofing(c),
{
    // Soft hyphen, Arabic letter mark, Mongolian vowel separator.
    c == '\u{00AD}' || c == '\u{061C}' || c == '\u{180E}'
    // Zero-width space and joiners, left-to-right and right-to-left marks.
     || ('\u{200B}' <= c && c <= '\u{200F}')
    // Line and paragraph separator: they break a line even inside <pre>.
     || ('\u{2028}' <= c && c <= '\u{2029}')
    // Embeddings and overrides of the text direction.
     || ('\u{202A}' <= c && c <= '\u{202E}')
    // Word joiner, invisible operators, isolates.
     || ('\u{2060}' <= c && c <= '\u{2069}')
    // Variation selectors, byte order mark.
     || ('\u{FE00}' <= c && c <= '\u{FE0F}') || c == '\u{FEFF}'
    // Language tag and the block of invisible tag characters.
     || c == '\u{E0001}' || ('\u{E0020}' <= c && c <= '\u{E007F}')
}

/// Escapes the characters that HTML gives a meaning to, and replaces control
/// and display-spoofing characters by U+FFFD, so that a file name can neither
/// inject markup or terminal escapes nor pass for another name.
pub fn html_escape(s: &str) -> (r: String)
    ensures
        r@ == html_escaped(s@),
{
    let list = text::chars(s);
    let n: usize = list.len();
    let mut out = String::new();
    assert(s@.skip(0) =~= s@);
    assert(out@ + html_escaped(s@) =~= html_escaped(s@));
    for i in 0..n
        invariant
            n == list@.len(),
            list@ == s@,
            html_escaped(s@) == out@ + html_escaped(s@.skip(i as int)),
    {
        let c: char = list[i];
        let ghost before = out@;
        assert(s@.skip(i as int).skip(1) =~= s@.skip(i + 1));
        if c == '&' {
            out.append("&amp;");
        } else if c == '<' {
            out.append("&lt;");
        } else if c == '>' {
            out.append("&gt;");
        } else if c == '"' {
            out.append("&quot;");
        } else if c <= '\u{1f}' || ('\u{7f}' <= c && c <= '\u{9f}') || is_display_spoofing_char(c) {
            out.push('\u{FFFD}');
            assert(out@ =~= before + html_char(c));
        } else {
            out.push(c);
            assert(out@ =~= before + html_char(c));
        }
        assert(out@ + html_escaped(s@.skip(i + 1)) =~= before + (html_char(c) + html_escaped(
            s@.skip(i + 1),
        )));
    }
    assert(s@.skip(n as int) =~= seq![]);
    assert(out@ + seq![] =~= out@);
    out
}

/// Whether `c` may occur in an escaped URL path.
pub open spec fn is_url_char(c: char) -> bool {
    c == '%' || (c as u32 <= 0x7f && is_url_safe(c as u8))
}

/// Escaping the bytes of a concatenation concatenates the escaped parts.
pub proof fn lemma_url_bytes_concat(a: Seq<u8>, b: Seq<u8>)
    ensures
        url_bytes(a + b) == url_bytes(a) + url_bytes(b),
    decreases a.len(),
{
    if a.len() == 0 {
        assert(a + b =~= b);
        assert(url_bytes(a) + url_bytes(b) =~= url_bytes(b));
    } else {
        lemma_url_bytes_concat(a.skip(1), b);
        assert((a + b).skip(1) =~= a.skip(1) + b);
        assert(url_byte(a[0]) + (url_bytes(a.skip(1)) + url_bytes(b)) =~= (url_byte(a[0])
            + url_bytes(a.skip(1))) + url_bytes(b));
    }
}

/// The characters of one escaped byte.
proof fn lemma_url_byte(b: u8)
    ensures
        url_byte(b).len() > 0,
        forall|i: int| 0 <= i < url_byte(b).len() ==> is_url_char(#[trigger] url_byte(b)[i]),
        url_byte(b).contains('/') <==> b == 0x2f,
{
    if is_url_safe(b) {
        assert(b as char as u32 == b);
        assert(b as char as u8 == b);
        if b == 0x2f {
            assert(url_byte(b)[0] == '/');
        }
    } else {
        let h = hex_digit(b as int / 16);
        let l = hex_digit(b as int % 16);
        assert(is_url_char(h));
        assert(is_url_char(l));
        assert(h != '/' && l != '/');
    }
}

/// An escaped URL path holds only letters, digits, `-`, `_`, `.`, `~`, `/` and
/// `%`; it holds a `/` only where the text does; and only the empty text gives
/// the empty path.
pub proof fn law_url_escaped_chars(s: Seq<char>)
    ensures
        forall|i: int| 0 <= i < url_escaped(s).len() ==> is_url_char(#[trigger] url_escaped(s)[i]),
        url_escaped(s).contains('/') <==> s.contains('/'),
        url_escaped(s).len() == 0 <==> s.len() == 0,
{
    lemma_url_bytes_chars(encode_utf8(s));
    encoding::lemma_encode_contains_ascii(s, '/');
    encoding::lemma_encode_empty(s);
}

proof fn lemma_url_bytes_chars(b: Seq<u8>)
    ensures
        forall|i: int| 0 <= i < url_bytes(b).len() ==> is_url_char(#[trigger] url_bytes(b)[i]),
        url_bytes(b).contains('/') <==> b.contains(0x2f),
        url_bytes(b).len() == 0 <==> b.len() == 0,
    decreases b.len(),
{
    if b.len() > 0 {
        let head = url_byte(b[0]);
        let tail = url_bytes(b.skip(1));
        lemma_url_byte(b[0]);
        lemma_url_bytes_chars(b.skip(1));
        assert forall|i: int| 0 <= i < url_bytes(b).len() implies is_url_char(
            #[trigger] url_bytes(b)[i],
        ) by {
            if i < head.len() {
                assert(url_bytes(b)[i] == head[i]);
            } else {
                assert(url_bytes(b)[i] == tail[i - head.len()]);
            }
        }
        if b.contains(0x2f) {
            let j = choose|j: int| 0 <= j < b.len() && b[j] == 0x2f;
            if j == 0 {
                let k = choose|k: int| 0 <= k < head.len() && head[k] == '/';
                assert(url_bytes(b)[k] == '/');
            } else {
                assert(b.skip(1)[j - 1] == 0x2f);
                let k = choose|k: int| 0 <= k < tail.len() && tail[k] == '/';
                assert(url_bytes(b)[k + head.len()] == '/');
            }
        }
        if url_bytes(b).contains('/') {
            let k = choose|k: int| 0 <= k < url_bytes(b).len() && url_bytes(b)[k] == '/';
            if k < head.len() {
                assert(head[k] == '/');
                assert(b[0] == 0x2f);
            } else {
                assert(tail[k - head.len()] == '/');
                let j = choose|j: int| 0 <= j < b.skip(1).len() && b.skip(1)[j] == 0x2f;
                assert(b[j + 1] == 0x2f);
            }
        }
    }
}

/// Whether the `&` at position `i` begins one of the four entities.
pub open spec fn entity_at(s: Seq<char>, i: int) -> bool {
    ||| "&amp;"@.is_prefix_of(s.skip(i))
    ||| "&lt;"@.is_prefix_of(s.skip(i))
    ||| "&gt;"@.is_prefix_of(s.skip(i))
    ||| "&quot;"@.is_prefix_of(s.skip(i))
}

/// Whether HTML text may hold `c` as it is.
pub open spec fn is_html_text(c: char) -> bool {
    c != '<' && c != '>' && c != '"' && !is_control(c) && !is_spoofing(c)
}

/// Escaped text holds no markup character, no control character and no
/// display-spoofing character, and every `&` in it begins an entity.
pub proof fn law_html_escaped_is_inert(s: Seq<char>)
    ensures
        forall|i: int| 0 <= i < html_escaped(s).len() ==> is_html_text(#[trigger] html_escaped(s)[i]),
        forall|i: int|
            0 <= i < html_escaped(s).len() && #[trigger] html_escaped(s)[i] == '&' ==> entity_at(
                html_escaped(s),
                i,
            ),
    decreases s.len(),
{
    reveal_strlit("&amp;");
    reveal_strlit("&lt;");
    reveal_strlit("&gt;");
    reveal_strlit("&quot;");
    if s.len() > 0 {
        let head = html_char(s[0]);
        let tail = html_escaped(s.skip(1));
        let all = html_escaped(s);
        assert(all == head + tail);
        law_html_escaped_is_inert(s.skip(1));
        assert forall|i: int| 0 <= i < head.len() implies is_html_text(head[i]) && (head[i] == '&'
            ==> i == 0) by {}
        assert forall|i: int| 0 <= i < all.len() implies is_html_text(#[trigger] all[i]) by {
            if i < head.len() {
                assert(all[i] == head[i]);
            } else {
                assert(all[i] == tail[i - head.len()]);
            }
        }
        assert forall|i: int| 0 <= i < all.len() && #[trigger] all[i] == '&' implies entity_at(
            all,
            i,
        ) by {
            if i < head.len() {
                assert(all[i] == head[i]);
                assert(i == 0);
                assert(all.skip(0) =~= all);
                assert(head.is_prefix_of(all));
            } else {
                assert(all[i] == tail[i - head.len()]);
                assert(all.skip(i) =~= tail.skip(i - head.len()));
            }
        }
    }
}

/// Text that holds none of the characters that are escaped is left as it is.
pub proof fn law_html_escaped_keeps_plain_text(s: Seq<char>)
    requires
        forall|i: int| 0 <= i < s.len() ==> is_html_text(#[trigger] s[i]) && s[i] != '&',
    ensures
        html_escaped(s) == s,
    decreases s.len(),
{
    if s.len() > 0 {
        assert forall|i: int| 0 <= i < s.skip(1).len() implies is_html_text(#[trigger] s.skip(1)[i])
            && s.skip(1)[i] != '&' by {
            assert(s.skip(1)[i] == s[i + 1]);
        }
        law_html_escaped_keeps_plain_text(s.skip(1));
        assert(seq![s[0]] + s.skip(1) =~= s);
    }
}

} // verus!
