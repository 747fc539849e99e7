//! Bytes as lines of text: where a line ends, and the UTF-8 reading of its
//! bytes.

use vstd::prelude::*;
use vstd::utf8::*;

verus! {

/// The byte that ends a line.
pub const NEWLINE: u8 = 10;

/// The position of the first newline at or after `from`, or the length of
/// `bytes` where there is none.
pub open spec fn line_end(bytes: Seq<u8>, from: int) -> int
    decreases bytes.len() - from,
{
    if from < 0 || from >= bytes.len() {
        bytes.len() as int
    } else if bytes[from] == NEWLINE {
        from
    } else {
        line_end(bytes, from + 1)
    }
}

/// `line_end` lands on a newline, or on the end, and passes none before.
pub proof fn lemma_line_end(bytes: Seq<u8>, from: int)
    requires
        0 <= from <= bytes.len(),
    ensures
        from <= line_end(bytes, from) <= bytes.len(),
        line_end(bytes, from) < bytes.len() ==> bytes[line_end(bytes, from)] == NEWLINE,
        forall|i: int| from <= i < line_end(bytes, from) ==> #[trigger] bytes[i] != NEWLINE,
    decreases bytes.len() - from,
{
    if from < bytes.len() && bytes[from] != NEWLINE {
        lemma_line_end(bytes, from + 1);
    }
}

/// A stretch without a newline that ends at a newline, or at the end of
/// `bytes`, is where `line_end` stops.
pub proof fn lemma_line_end_stops(bytes: Seq<u8>, from: int, to: int)
    requires
        0 <= from <= to <= bytes.len(),
        forall|i: int| from <= i < to ==> #[trigger] bytes[i] != NEWLINE,
        to < bytes.len() ==> bytes[to] == NEWLINE,
    ensures
        line_end(bytes, from) == to,
    decreases to - from,
{
    if from < to {
        lemma_line_end_stops(bytes, from + 1, to);
    }
}

/// The position of the first newline at or after `from`, or the length of
/// `bytes` where there is none.
pub fn find_line_end(bytes: &[u8], from: usize) -> (end: usize)
    ensures
        end == line_end(bytes@, from as int),
        end <= bytes.len(),
        from <= bytes.len() ==> from <= end,
{
    if from >= bytes.len() {
        return bytes.len();
    }
    let mut i: usize = from;
    while i < bytes.len() && bytes[i] != NEWLINE
        invariant
            from <= i <= bytes.len(),
            line_end(bytes@, from as int) == line_end(bytes@, i as int),
        decreases bytes.len() - i,
    {
        i += 1;
    }
    i
}

/// Appends `bytes` to `out`.
pub fn append_bytes(out: &mut Vec<u8>, bytes: &[u8])
    ensures
        final(out)@ == old(out)@ + bytes@,
{
    let mut i: usize = 0;
    while i < bytes.len()
        invariant
            i <= bytes.len(),
            out@ == old(out)@ + bytes@.take(i as int),
        decreases bytes.len() - i,
    {
        out.push(bytes[i]);
        i += 1;
        assert(out@ =~= old(out)@ + bytes@.take(i as int));
    }
    assert(bytes@.take(bytes.len() as int) =~= bytes@);
}

/// Reads bytes as UTF-8 text, by `core::str::from_utf8`: the text is there
/// exactly when the bytes are valid UTF-8, and its characters are then
/// those that the bytes encode.
#[verifier::external_body]
pub(crate) fn text_of<'a>(bytes: &'a [u8]) -> (text: Option<&'a str>)
    ensures
        text is Some <==> valid_utf8(bytes@),
        text matches Some(s) ==> s@ == decode_utf8(bytes@),
{
    core::str::from_utf8(bytes).ok()
}

/// Every byte within the encoding of one character that lies in the ASCII
/// range is that character.
proof fn lemma_scalar_ascii_byte(c: u32, i: int)
    requires
        is_scalar(c),
        0 <= i < encode_scalar(c).len(),
        encode_scalar(c)[i] < 0x80,
    ensures
        encode_scalar(c)[i] as u32 == c,
{
    if has_width_1_encoding(c) {
        assert((c & 0x7F) as u8 as u32 == c) by (bit_vector)
            requires
                c <= 0x7F,
        ;
    } else {
        assert((0xC0 | ((c >> 6) & 0x1F) as u8) >= 0x80) by (bit_vector);
        assert((0xE0 | ((c >> 12) & 0x0F) as u8) >= 0x80) by (bit_vector);
        assert((0xF0 | ((c >> 18) & 0x7) as u8) >= 0x80) by (bit_vector);
        assert((0x80 | (c & 0x3F) as u8) >= 0x80) by (bit_vector);
        assert((0x80 | ((c >> 6) & 0x3F) as u8) >= 0x80) by (bit_vector);
        assert((0x80 | ((c >> 12) & 0x3F) as u8) >= 0x80) by (bit_vector);
    }
}

/// A byte in the ASCII range within the UTF-8 encoding of a text is one of
/// the characters of the text.
pub proof fn lemma_ascii_byte_is_char(chars: Seq<char>, i: int)
    requires
        0 <= i < encode_utf8(chars).len(),
        encode_utf8(chars)[i] < 0x80,
    ensures
        exists|j: int|
            0 <= j < chars.len() && #[trigger] chars[j] as u32 == encode_utf8(chars)[i] as u32,
    decreases chars.len(),
{
    let first = encode_scalar(chars[0] as u32);
    let rest = chars.drop_first();
    char_is_scalar(chars[0]);
    if i < first.len() {
        lemma_scalar_ascii_byte(chars[0] as u32, i);
        assert(chars[0] as u32 == encode_utf8(chars)[i] as u32);
    } else {
        let k = i - first.len();
        lemma_ascii_byte_is_char(rest, k);
        let j = choose|j: int|
            0 <= j < rest.len() && #[trigger] rest[j] as u32 == encode_utf8(rest)[k] as u32;
        assert(chars[j + 1] == rest[j]);
    }
}

/// A text without a newline character has no newline byte in its UTF-8
/// encoding.
pub proof fn lemma_no_newline_bytes(chars: Seq<char>)
    requires
        forall|j: int| 0 <= j < chars.len() ==> #[trigger] chars[j] != '\n',
    ensures
        forall|i: int|
            0 <= i < encode_utf8(chars).len() ==> #[trigger] encode_utf8(chars)[i] != NEWLINE,
{
    let bytes = encode_utf8(chars);
    assert forall|i: int| 0 <= i < bytes.len() implies #[trigger] bytes[i] != NEWLINE by {
        if bytes[i] == NEWLINE {
            lemma_ascii_byte_is_char(chars, i);
            let j = choose|j: int|
                0 <= j < chars.len() && #[trigger] chars[j] as u32 == bytes[i] as u32;
            char_u32_cast(chars[j], 10u32);
            char_u32_cast('\n', 10u32);
        }
    }
}

} // verus!
