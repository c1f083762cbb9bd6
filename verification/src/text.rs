//! Reading source text by position in constant time.
//!
//! A string slice is stored as UTF-8, so the position of a character among
//! the bytes is in general not its position among the characters. The two
//! agree as long as only ASCII characters come before it, because each of
//! those takes one byte. Every character that the tokenizer accepts is an
//! ASCII character, so it can read by byte position what it specifies by
//! character position.

use vstd::prelude::*;
use vstd::utf8::{
    encode_scalar, encode_utf8, encode_utf8_decode_utf8, encode_utf8_valid_utf8,
    has_width_1_encoding, has_width_2_encoding, has_width_3_encoding, is_char_boundary,
    is_char_boundary_iff_not_is_continuation_byte, is_char_boundary_start_end_of_seq,
    leading_byte_width_1, leading_byte_width_2, leading_byte_width_3,
    leading_byte_width_4,
};

verus! {

/// An ASCII character: one that UTF-8 stores as a single byte.
pub open spec fn is_ascii(c: char) -> bool {
    c <= '\u{7f}'
}

/// Whether `text` holds at least `n` characters and its first `n` are ASCII.
pub open spec fn ascii_prefix(text: Seq<char>, n: int) -> bool {
    &&& 0 <= n <= text.len()
    &&& forall|i: int| 0 <= i < n ==> is_ascii(#[trigger] text[i])
}

/// A character's code is a number from 0 on, whichever expression denotes
/// the character.
proof fn lemma_char_range(c: char)
    ensures
        '\0' <= c,
        c as u32 == c as int,
{
}

/// The encoding of a text is the encoding of its parts, one after the other.
proof fn lemma_encode_append(head: Seq<char>, tail: Seq<char>)
    ensures
        encode_utf8(head + tail) == encode_utf8(head) + encode_utf8(tail),
    decreases head.len(),
{
    if head.len() == 0 {
        assert(head + tail =~= tail);
    } else {
        assert((head + tail).drop_first() =~= head.drop_first() + tail);
        lemma_encode_append(head.drop_first(), tail);
    }
}

/// The first byte of an encoded character is the character itself where it
/// is ASCII, and otherwise a byte from `0xc0` on.
proof fn lemma_leading_byte(c: char)
    ensures
        encode_scalar(c as u32).len() >= 1,
        is_ascii(c) ==> encode_scalar(c as u32) == seq![c as u8],
        !is_ascii(c) ==> encode_scalar(c as u32)[0] >= 0xc0,
{
    let scalar = c as u32;
    if has_width_1_encoding(scalar) {
        assert(leading_byte_width_1(scalar) == scalar as u8) by (bit_vector)
            requires
                scalar <= 0x7f,
        ;
    } else if has_width_2_encoding(scalar) {
        assert(leading_byte_width_2(scalar) >= 0xc0) by (bit_vector);
    } else if has_width_3_encoding(scalar) {
        assert(leading_byte_width_3(scalar) >= 0xc0) by (bit_vector);
    } else {
        assert(leading_byte_width_4(scalar) >= 0xc0) by (bit_vector);
    }
}

/// Behind an ASCII prefix of `n` characters, bytes and characters stand at
/// the same positions: the first `n` bytes are those characters, the bytes
/// from `n` on encode the characters from `n` on, and byte `n` tells whether
/// character `n` is ASCII.
proof fn lemma_ascii_prefix(text: Seq<char>, n: int)
    requires
        ascii_prefix(text, n),
    ensures
        encode_utf8(text).subrange(0, n) == encode_utf8(text.take(n)),
        encode_utf8(text).subrange(n, encode_utf8(text).len() as int) == encode_utf8(text.skip(n)),
        encode_utf8(text).len() >= n,
        encode_utf8(text).len() == n <==> text.len() == n,
        is_char_boundary(encode_utf8(text), n),
        n < text.len() ==> (encode_utf8(text)[n] < 0x80 <==> is_ascii(text[n])),
        n < text.len() && is_ascii(text[n]) ==> encode_utf8(text)[n] == text[n] as u8,
{
    let bytes = encode_utf8(text);
    let head = text.take(n);
    let tail = text.skip(n);
    assert(text =~= head + tail);
    lemma_encode_append(head, tail);
    assert(vstd::utf8::is_ascii_chars(head)) by {
        assert forall|i: int| 0 <= i < head.len() implies '\0' <= #[trigger] head[i]
            <= '\u{7f}' by {
            assert(is_ascii(text[i]));
            lemma_char_range(head[i]);
        }
    }
    vstd::utf8::is_ascii_chars_encode_utf8(head);
    encode_utf8_valid_utf8(text);
    if tail.len() > 0 {
        let leading = encode_scalar(tail[0] as u32);
        lemma_char_range(tail[0]);
        lemma_leading_byte(tail[0]);
        assert(bytes[n] == leading[0]);
        is_char_boundary_iff_not_is_continuation_byte(bytes, n);
    } else {
        is_char_boundary_start_end_of_seq(bytes);
    }
}

/// Texts with the same encoding are the same text.
proof fn lemma_encode_injective(first: Seq<char>, second: Seq<char>)
    requires
        encode_utf8(first) == encode_utf8(second),
    ensures
        first == second,
{
    encode_utf8_decode_utf8(first);
    encode_utf8_decode_utf8(second);
}

/// The character at position `at`, or `None` at the end of the text.
pub fn char_at(text: &str, at: usize) -> (found: Option<char>)
    requires
        ascii_prefix(text@, at as int),
    ensures
        found == if at < text@.len() {
            Some(text@[at as int])
        } else {
            None
        },
        found is Some ==> at < usize::MAX,
{
    proof {
        lemma_ascii_prefix(text@, at as int);
    }
    let bytes = text.as_bytes();
    if at >= bytes.len() {
        None
    } else {
        let byte = bytes[at];
        if byte < 0x80 {
            proof {
                lemma_char_range(text@[at as int]);
            }
            Some(byte as char)
        } else {
            Some(text.get_char(at))
        }
    }
}

/// The part of `text` from position `from` up to, and without, position `to`.
pub fn slice<'a>(text: &'a str, from: usize, to: usize) -> (part: &'a str)
    requires
        from <= to,
        ascii_prefix(text@, to as int),
    ensures
        part@ == text@.subrange(from as int, to as int),
{
    proof {
        lemma_ascii_prefix(text@, to as int);
    }
    let (head, _) = text.split_at(to);
    proof {
        lemma_encode_injective(head@, text@.take(to as int));
        lemma_ascii_prefix(head@, from as int);
    }
    let (_, part) = head.split_at(from);
    proof {
        lemma_encode_injective(part@, head@.skip(from as int));
    }
    part
}

} // verus!
