//! How offsets in characters and offsets in bytes meet.
//!
//! A string is held as the UTF-8 encoding of its characters. Over a prefix
//! of ASCII characters the two ways of counting agree: the byte at an
//! offset is the character at that offset. The scanner reads bytes and
//! states its results over characters on the strength of the lemmas here.

use vstd::prelude::*;
use vstd::utf8::*;

verus! {

/// Whether `c` is an ASCII character.
pub open spec fn is_ascii_char(c: char) -> bool {
    '\0' <= c <= '\u{7f}'
}

/// Whether the first `k` characters of `s` are all ASCII.
pub open spec fn ascii_prefix(s: Seq<char>, k: int) -> bool {
    &&& 0 <= k <= s.len()
    &&& forall|i: int| 0 <= i < k ==> is_ascii_char(#[trigger] s[i])
}

/// A character is a scalar value: it is not below NUL, and it fits a `u32`.
proof fn lemma_char_range(c: char)
    ensures
        '\0' <= c,
        c as u32 == c as int,
{
}

/// The encoding of a sequence that starts with an ASCII character is that
/// character as a byte, followed by the encoding of the rest.
proof fn lemma_encode_ascii_first(s: Seq<char>)
    requires
        s.len() > 0,
        is_ascii_char(s[0]),
    ensures
        encode_utf8(s) == seq![s[0] as u8] + encode_utf8(s.drop_first()),
{
    let c0 = s[0] as u32;
    assert(c0 as u8 == leading_byte_width_1(c0)) by (bit_vector)
        requires
            has_width_1_encoding(c0),
    ;
}

/// Over an ASCII prefix of `k` characters the encoding has one byte for
/// each character, the byte that the character is; what follows the
/// prefix is the encoding of what follows it in `s`; and `k` is a
/// character boundary of the encoding.
pub proof fn lemma_ascii_prefix(s: Seq<char>, k: int)
    requires
        ascii_prefix(s, k),
    ensures
        k <= encode_utf8(s).len(),
        forall|i: int| 0 <= i < k ==> #[trigger] encode_utf8(s)[i] as char == s[i],
        encode_utf8(s).subrange(k, encode_utf8(s).len() as int) == encode_utf8(
            s.subrange(k, s.len() as int),
        ),
        is_char_boundary(encode_utf8(s), k),
    decreases k,
{
    let bytes = encode_utf8(s);
    encode_utf8_valid_utf8(s);
    if k == 0 {
        assert(s.subrange(0, s.len() as int) =~= s);
        assert(bytes.subrange(0, bytes.len() as int) =~= bytes);
    } else {
        let rest = s.drop_first();
        let tail = encode_utf8(rest);
        lemma_encode_ascii_first(s);
        assert(ascii_prefix(rest, k - 1)) by {
            assert forall|i: int| 0 <= i < k - 1 implies is_ascii_char(#[trigger] rest[i]) by {
                assert(rest[i] == s[i + 1]);
            }
        }
        lemma_ascii_prefix(rest, k - 1);
        assert forall|i: int| 0 <= i < k implies #[trigger] bytes[i] as char == s[i] by {
            if i > 0 {
                assert(bytes[i] == tail[i - 1]);
                assert(rest[i - 1] == s[i]);
            }
        }
        assert(bytes.subrange(k, bytes.len() as int) =~= tail.subrange(k - 1, tail.len() as int));
        assert(s.subrange(k, s.len() as int) =~= rest.subrange(k - 1, rest.len() as int));
        encode_utf8_first_scalar(s);
        assert(pop_first_scalar(bytes) =~= tail);
        assert(length_of_first_scalar(bytes) == 1);
    }
}

/// The offset in bytes of the character at offset `k`: the length of the
/// encoding of the characters before it.
pub open spec fn byte_offset(s: Seq<char>, k: int) -> int {
    encode_utf8(s.subrange(0, k)).len() as int
}

/// Behind an ASCII prefix the offset in bytes is the offset in characters.
pub proof fn lemma_byte_offset(s: Seq<char>, k: int)
    requires
        ascii_prefix(s, k),
    ensures
        byte_offset(s, k) == k,
{
    let front = s.subrange(0, k);
    assert(is_ascii_chars(front));
    is_ascii_chars_encode_utf8(front);
}

/// The encoding of a sequence is empty exactly where the sequence is, and
/// its first byte tells whether the first character is ASCII; where it is,
/// the byte is the character.
pub proof fn lemma_first_byte(s: Seq<char>)
    ensures
        (encode_utf8(s).len() == 0) == (s.len() == 0),
        s.len() > 0 && is_ascii_char(s[0]) ==> encode_utf8(s)[0] as char == s[0],
        s.len() > 0 && !is_ascii_char(s[0]) ==> encode_utf8(s)[0] >= 0x80,
{
    if s.len() > 0 {
        if is_ascii_char(s[0]) {
            lemma_encode_ascii_first(s);
        } else {
            let c0 = s[0] as u32;
            encode_utf8_first_scalar(s);
            lemma_char_range(s[0]);
            assert(!has_width_1_encoding(c0));
            assert(encode_scalar(c0).len() >= 2);
            assert(length_of_first_scalar(encode_utf8(s)) >= 2);
            assert(!is_leading_byte_width_1(encode_utf8(s)[0]));
        }
    }
}

/// What the byte at offset `k` says of the character at offset `k`, behind
/// an ASCII prefix of `k` characters: the encoding ends there exactly where
/// the characters do; an ASCII character is that byte; any other character
/// shows as a byte of `0x80` or more.
pub proof fn lemma_byte_at(s: Seq<char>, k: int)
    requires
        ascii_prefix(s, k),
    ensures
        k <= encode_utf8(s).len(),
        (k == encode_utf8(s).len()) == (k == s.len()),
        k < s.len() && is_ascii_char(s[k]) ==> encode_utf8(s)[k] as char == s[k],
        k < s.len() && !is_ascii_char(s[k]) ==> encode_utf8(s)[k] >= 0x80,
{
    let bytes = encode_utf8(s);
    let after = s.subrange(k, s.len() as int);
    lemma_ascii_prefix(s, k);
    lemma_first_byte(after);
    assert(bytes.subrange(k, bytes.len() as int).len() == bytes.len() - k);
    if k < s.len() {
        assert(after[0] == s[k]);
        assert(bytes.subrange(k, bytes.len() as int)[0] == bytes[k]);
    }
}

/// The first `k` bytes of the encoding decode to the first `k` characters,
/// where these are all ASCII: a string whose encoding is those bytes holds
/// those characters.
pub proof fn lemma_prefix_decodes(s: Seq<char>, k: int, head: Seq<char>)
    requires
        ascii_prefix(s, k),
        encode_utf8(head) == encode_utf8(s).subrange(0, k),
    ensures
        head == s.subrange(0, k),
{
    let front = s.subrange(0, k);
    lemma_ascii_prefix(s, k);
    assert(is_ascii_chars(front));
    is_ascii_chars_encode_utf8(front);
    assert(encode_utf8(front) =~= encode_utf8(s).subrange(0, k)) by {
        assert forall|i: int| 0 <= i < k implies encode_utf8(front)[i] == encode_utf8(s)[i] by {
            assert(front[i] == s[i]);
        }
    }
    encode_utf8_decode_utf8(head);
    encode_utf8_decode_utf8(front);
}

} // verus!
