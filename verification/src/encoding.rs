//! Facts about UTF-8 that relate characters to bytes.
use vstd::prelude::*;
use vstd::utf8::*;

verus! {

/// Encoding a concatenation concatenates the encodings.
pub proof fn lemma_encode_concat(a: Seq<char>, b: Seq<char>)
    ensures
        encode_utf8(a + b) == encode_utf8(a) + encode_utf8(b),
    decreases a.len(),
{
    if a.len() == 0 {
        assert(a + b =~= b);
        assert(encode_utf8(a) + encode_utf8(b) =~= encode_utf8(b));
    } else {
        lemma_encode_concat(a.drop_first(), b);
        assert((a + b).drop_first() =~= a.drop_first() + b);
        assert((a + b)[0] == a[0]);
        assert(encode_scalar(a[0] as u32) + (encode_utf8(a.drop_first()) + encode_utf8(b))
            =~= (encode_scalar(a[0] as u32) + encode_utf8(a.drop_first())) + encode_utf8(b));
    }
}

/// The bytes of one encoded character: an ASCII character is its own byte,
/// and every byte of any other character is at least `0x80`.
pub proof fn lemma_encode_scalar(c: char)
    ensures
        encode_scalar(c as u32).len() > 0,
        c as u32 <= 0x7f ==> encode_scalar(c as u32) == seq![c as u8],
        c as u32 > 0x7f ==> forall|i: int|
            0 <= i < encode_scalar(c as u32).len() ==> #[trigger] encode_scalar(c as u32)[i]
                >= 0x80,
{
    let v = c as u32;
    char_is_scalar(c);
    if v <= 0x7f {
        assert(v as u8 == leading_byte_width_1(v)) by (bit_vector)
            requires
                v <= 0x7f,
        ;
    } else {
        assert(leading_byte_width_2(v) >= 0x80) by (bit_vector);
        assert(leading_byte_width_3(v) >= 0x80) by (bit_vector);
        assert(leading_byte_width_4(v) >= 0x80) by (bit_vector);
        assert(last_continuation_byte(v) >= 0x80) by (bit_vector);
        assert(second_last_continuation_byte(v) >= 0x80) by (bit_vector);
        assert(third_last_continuation_byte(v) >= 0x80) by (bit_vector);
    }
}

/// Two ASCII characters with the same byte are the same character.
pub proof fn lemma_ascii_byte(a: char, b: char)
    requires
        a as u32 <= 0x7f,
        b as u32 <= 0x7f,
        a as u8 == b as u8,
    ensures
        a == b,
{
    assert(a as u8 == a as u32);
    assert(b as u8 == b as u32);
}

/// An ASCII byte occurs in an encoding exactly where its character occurs in
/// the text.
pub proof fn lemma_encode_contains_ascii(s: Seq<char>, c: char)
    requires
        c as u32 <= 0x7f,
    ensures
        encode_utf8(s).contains(c as u8) <==> s.contains(c),
    decreases s.len(),
{
    if s.len() > 0 {
        let head = encode_scalar(s[0] as u32);
        let rest = s.drop_first();
        lemma_encode_scalar(s[0]);
        lemma_encode_contains_ascii(rest, c);
        let all = encode_utf8(s);
        assert(all == head + encode_utf8(rest));
        if s.contains(c) {
            if s[0] == c {
                assert(all[0] == c as u8);
            } else {
                let i = choose|i: int| 0 <= i < s.len() && s[i] == c;
                assert(rest[i - 1] == c);
                let j = choose|j: int| 0 <= j < encode_utf8(rest).len() && encode_utf8(rest)[j]
                    == c as u8;
                assert(all[j + head.len()] == c as u8);
            }
        }
        if all.contains(c as u8) {
            let j = choose|j: int| 0 <= j < all.len() && all[j] == c as u8;
            if j < head.len() {
                assert(head[j] == c as u8);
                assert(s[0] as u32 <= 0x7f) by {
                    if s[0] as u32 > 0x7f {
                        assert(head[j] >= 0x80);
                        assert(c as u8 <= 0x7f);
                    }
                }
                lemma_ascii_byte(s[0], c);
                assert(s[0] == c);
            } else {
                assert(encode_utf8(rest)[j - head.len()] == c as u8);
                let i = choose|i: int| 0 <= i < rest.len() && rest[i] == c;
                assert(s[i + 1] == c);
            }
        }
    }
}

/// A text is empty exactly when its encoding is.
pub proof fn lemma_encode_empty(s: Seq<char>)
    ensures
        encode_utf8(s).len() == 0 <==> s.len() == 0,
{
    if s.len() > 0 {
        lemma_encode_scalar(s[0]);
    }
}

/// Two texts with the same encoding are the same text.
pub proof fn lemma_encode_injective(a: Seq<char>, b: Seq<char>)
    ensures
        encode_utf8(a) == encode_utf8(b) <==> a == b,
{
    encode_utf8_decode_utf8(a);
    encode_utf8_decode_utf8(b);
}

} // verus!
