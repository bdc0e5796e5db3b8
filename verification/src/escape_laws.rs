//! What each character becomes in an escaped text.
use vstd::prelude::*;
use vstd::utf8::*;

use crate::encoding;
use crate::escape;

verus! {

/// Escaping goes character by character, whatever stands before or behind.
pub proof fn law_escaping_goes_part_by_part(a: Seq<char>, b: Seq<char>)
    ensures
        escape::url_escaped(a + b) == escape::url_escaped(a) + escape::url_escaped(b),
        escape::html_escaped(a + b) == escape::html_escaped(a) + escape::html_escaped(b),
        escape::url_escaped(seq![]).len() == 0,
        escape::html_escaped(seq![]).len() == 0,
{
    encoding::lemma_encode_concat(a, b);
    escape::lemma_url_bytes_concat(encode_utf8(a), encode_utf8(b));
    lemma_html_concat(a, b);
    encoding::lemma_encode_empty(Seq::<char>::empty());
}

proof fn lemma_html_concat(a: Seq<char>, b: Seq<char>)
    ensures
        escape::html_escaped(a + b) == escape::html_escaped(a) + escape::html_escaped(b),
    decreases a.len(),
{
    if a.len() == 0 {
        assert(a + b =~= b);
        assert(escape::html_escaped(a) + escape::html_escaped(b) =~= escape::html_escaped(b));
    } else {
        let rest = a.skip(1);
        lemma_html_concat(rest, b);
        assert((a + b).skip(1) =~= rest + b);
        assert((a + b)[0] == a[0]);
        let head = escape::html_char(a[0]);
        assert(head + (escape::html_escaped(rest) + escape::html_escaped(b)) =~= (head
            + escape::html_escaped(rest)) + escape::html_escaped(b));
    }
}

/// Whether a character needs no escaping in a URL path.
pub open spec fn stands_in_a_url(c: char) -> bool {
    ||| 'A' <= c <= 'Z'
    ||| 'a' <= c <= 'z'
    ||| '0' <= c <= '9'
    ||| c == '-'
    ||| c == '_'
    ||| c == '.'
    ||| c == '~'
    ||| c == '/'
}

/// Whether `b` stands at position `i` as `%` and two hexadecimal digits in
/// capitals.
pub open spec fn is_percent_byte(s: Seq<char>, i: int, b: u8) -> bool {
    &&& s[i] == '%'
    &&& s[i + 1] == "0123456789ABCDEF"@[b as int / 16]
    &&& s[i + 2] == "0123456789ABCDEF"@[b as int % 16]
}

/// Whether a text is bytes as `%` and two hexadecimal digits in capitals each.
pub open spec fn is_percent_form(s: Seq<char>, bytes: Seq<u8>) -> bool {
    &&& s.len() == 3 * bytes.len()
    &&& forall|i: int| 0 <= i < bytes.len() ==> is_percent_byte(s, 3 * i, #[trigger] bytes[i])
}

proof fn lemma_hex_digit(v: int)
    requires
        0 <= v < 16,
    ensures
        escape::hex_digit(v) == "0123456789ABCDEF"@[v],
{
    reveal_strlit("0123456789ABCDEF");
    assert(escape::hex_digit(v) as int == if v < 10 {
        48 + v
    } else {
        55 + v
    });
    let hex = "0123456789ABCDEF"@;
    assert(hex[v] as int == escape::hex_digit(v) as int);
    lemma_same_char(hex[v], escape::hex_digit(v));
}

proof fn lemma_same_char(a: char, b: char)
    requires
        a as int == b as int,
    ensures
        a == b,
{
}

proof fn lemma_unsafe_bytes(b: Seq<u8>)
    requires
        forall|i: int| 0 <= i < b.len() ==> !escape::is_url_safe(#[trigger] b[i]),
    ensures
        is_percent_form(escape::url_bytes(b), b),
    decreases b.len(),
{
    if b.len() > 0 {
        let rest = b.skip(1);
        assert forall|i: int| 0 <= i < rest.len() implies !escape::is_url_safe(
            #[trigger] rest[i],
        ) by {
            assert(rest[i] == b[i + 1]);
        }
        lemma_unsafe_bytes(rest);
        let head = escape::url_byte(b[0]);
        let tail = escape::url_bytes(rest);
        let all = escape::url_bytes(b);
        assert(all == head + tail);
        lemma_hex_digit(b[0] as int / 16);
        lemma_hex_digit(b[0] as int % 16);
        assert(!escape::is_url_safe(b[0]));
        assert(head.len() == 3 && all.len() == 3 + tail.len() && tail.len() == 3 * rest.len());
        assert forall|i: int| 0 <= i < b.len() implies is_percent_byte(
            all,
            3 * i,
            #[trigger] b[i],
        ) by {
            if i == 0 {
                assert(all[0] == head[0] && all[1] == head[1] && all[2] == head[2]);
            } else {
                assert(b[i] == rest[i - 1]);
                assert(is_percent_byte(tail, 3 * (i - 1), rest[i - 1]));
                assert(all[3 * i] == tail[3 * (i - 1)]);
                assert(all[3 * i + 1] == tail[3 * (i - 1) + 1]);
                assert(all[3 * i + 2] == tail[3 * (i - 1) + 2]);
            }
        }
    }
}

/// In a URL, letters, digits, `-`, `_`, `.`, `~` and `/` stand for themselves;
/// any other character is written as its UTF-8 bytes, each as `%` and two
/// hexadecimal digits in capitals.
pub proof fn law_url_escape_of_a_character(c: char)
    ensures
        stands_in_a_url(c) ==> escape::url_escaped(seq![c]) == seq![c],
        !stands_in_a_url(c) ==> is_percent_form(
            escape::url_escaped(seq![c]),
            encode_utf8(seq![c]),
        ),
{
    let bytes = encode_utf8(seq![c]);
    encoding::lemma_encode_scalar(c);
    assert(seq![c].drop_first() =~= seq![]);
    assert(encode_utf8(Seq::<char>::empty()) =~= seq![]);
    assert(bytes =~= encode_scalar(c as u32));
    if c as u32 <= 0x7f {
        assert(c as u8 == c as u32);
        assert(bytes =~= seq![c as u8]);
        if stands_in_a_url(c) {
            assert(escape::is_url_safe(c as u8));
            assert(bytes.skip(1) =~= seq![]);
            reveal_with_fuel(escape::url_bytes, 2);
            assert(escape::url_bytes(bytes) =~= seq![c as u8 as char]);
            lemma_same_char(c as u8 as char, c);
        }
    }
    if !stands_in_a_url(c) {
        assert forall|i: int| 0 <= i < bytes.len() implies !escape::is_url_safe(
            #[trigger] bytes[i],
        ) by {
            if c as u32 > 0x7f {
                assert(encode_scalar(c as u32)[i] >= 0x80);
            }
        }
        lemma_unsafe_bytes(bytes);
    }
}

/// Whether a character does not print: C0, DEL and C1.
pub open spec fn does_not_print(c: char) -> bool {
    0 <= c as int <= 0x1f || 0x7f <= c as int <= 0x9f
}

/// Whether a character is invisible or changes how others are displayed.
pub open spec fn misleads(c: char) -> bool {
    let v = c as int;
    ||| v == 0xad
    ||| v == 0x61c
    ||| v == 0x180e
    ||| 0x200b <= v <= 0x200f
    ||| 0x2028 <= v <= 0x2029
    ||| 0x202a <= v <= 0x202e
    ||| 0x2060 <= v <= 0x2069
    ||| 0xfe00 <= v <= 0xfe0f
    ||| v == 0xfeff
    ||| v == 0xe0001
    ||| 0xe0020 <= v <= 0xe007f
}

/// In HTML, four characters become entities, those that do not print or that
/// mislead become U+FFFD, and every other character stands for itself.
pub proof fn law_html_escape_of_a_character(c: char)
    ensures
        escape::is_spoofing(c) <==> misleads(c),
        escape::html_escaped(seq!['&']) == "&amp;"@,
        escape::html_escaped(seq!['<']) == "&lt;"@,
        escape::html_escaped(seq!['>']) == "&gt;"@,
        escape::html_escaped(seq!['"']) == "&quot;"@,
        does_not_print(c) || misleads(c) ==> escape::html_escaped(seq![c]) == "\u{FFFD}"@,
        c != '&' && c != '<' && c != '>' && c != '"' && !does_not_print(c) && !misleads(c)
            ==> escape::html_escaped(seq![c]) == seq![c],
{
    reveal_strlit("\u{FFFD}");
    assert("\u{FFFD}"@ =~= seq!['\u{FFFD}']);
    lemma_html_one(c);
    lemma_html_one('&');
    lemma_html_one('<');
    lemma_html_one('>');
    lemma_html_one('"');
}

proof fn lemma_html_one(c: char)
    ensures
        escape::html_escaped(seq![c]) == escape::html_char(c),
{
    reveal_with_fuel(escape::html_escaped, 2);
    assert(seq![c].skip(1) =~= seq![]);
    assert(escape::html_char(c) + Seq::<char>::empty() =~= escape::html_char(c));
}

} // verus!
