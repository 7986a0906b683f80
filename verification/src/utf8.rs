//! Facts about UTF-8 encodings that the reading of lines rests on.

use vstd::prelude::*;
use vstd::utf8::{encode_scalar, encode_utf8, has_width_1_encoding};

verus! {

/// Bytes with the high bit set are no line feed.
proof fn lemma_high_bytes(x: u8)
    by (bit_vector)
    ensures
        0x80u8 | x >= 0x80u8,
        0xC0u8 | x >= 0x80u8,
        0xE0u8 | x >= 0x80u8,
        0xF0u8 | x >= 0x80u8,
{
}

/// A scalar below 128 is encoded as itself.
pub proof fn lemma_low_byte(v: u32)
    by (bit_vector)
    requires
        v <= 0x7F,
    ensures
        (v & 0x7F) as u8 == v,
{
}

/// Whether no character of `s` is a line feed.
pub open spec fn no_line_feed(s: Seq<char>) -> bool {
    forall|i: int| 0 <= i < s.len() ==> (#[trigger] s[i]) as u32 != 10
}

/// The encoding of a text is that of its parts, one after the other.
pub proof fn lemma_encode_concat(a: Seq<char>, b: Seq<char>)
    ensures
        encode_utf8(a + b) == encode_utf8(a) + encode_utf8(b),
    decreases a.len(),
{
    if a.len() == 0 {
        assert(a + b == b);
    } else {
        assert((a + b).drop_first() == a.drop_first() + b);
        lemma_encode_concat(a.drop_first(), b);
    }
}

/// The encoding of a text without line feeds holds no line feed.
pub proof fn lemma_encode_no_line_feed(s: Seq<char>)
    requires
        no_line_feed(s),
    ensures
        forall|k: int| 0 <= k < encode_utf8(s).len() ==> #[trigger] encode_utf8(s)[k] != 10,
    decreases s.len(),
{
    if s.len() > 0 {
        let v = s[0] as u32;
        let first = encode_scalar(v);
        let rest = encode_utf8(s.drop_first());
        assert(no_line_feed(s.drop_first())) by {
            assert forall|i: int| 0 <= i < s.drop_first().len() implies (#[trigger] s.drop_first()[i]) as u32
                != 10 by {
                assert(s.drop_first()[i] == s[i + 1]);
            }
        }
        lemma_encode_no_line_feed(s.drop_first());
        vstd::utf8::char_is_scalar(s[0]);
        assert forall|k: int| 0 <= k < first.len() implies #[trigger] first[k] != 10 by {
            if has_width_1_encoding(v) {
                lemma_low_byte(v);
            } else {
                lemma_high_bytes(((v >> 6) & 0x1F) as u8);
                lemma_high_bytes(((v >> 12) & 0x0F) as u8);
                lemma_high_bytes(((v >> 18) & 0x7) as u8);
                lemma_high_bytes((v & 0x3F) as u8);
                lemma_high_bytes(((v >> 6) & 0x3F) as u8);
                lemma_high_bytes(((v >> 12) & 0x3F) as u8);
            }
        }
        assert forall|k: int| 0 <= k < encode_utf8(s).len() implies #[trigger] encode_utf8(s)[k]
            != 10 by {
            if k >= first.len() {
                assert(encode_utf8(s)[k] == rest[k - first.len()]);
            } else {
                assert(encode_utf8(s)[k] == first[k]);
            }
        }
    }
}

/// The encoding of a text that begins with a character below 128 begins
/// with that character.
pub proof fn lemma_encode_first(s: Seq<char>)
    requires
        s.len() > 0,
        s[0] as u32 <= 0x7F,
    ensures
        encode_utf8(s).len() > 0,
        encode_utf8(s)[0] == s[0] as u32,
{
    lemma_low_byte(s[0] as u32);
}

} // verus!
