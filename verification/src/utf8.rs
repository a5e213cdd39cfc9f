//! Characters as bytes.

use vstd::prelude::*;

verus! {

/// The bytes that stand for a character in UTF-8: one byte for ASCII, and
/// up to four bytes for other characters, the first of which tells how many
/// follow. Each following byte carries six bits.
pub open spec fn utf8(c: char) -> Seq<u8> {
    let v = c as u32;
    if v < 0x80 {
        seq![v as u8]
    } else if v < 0x800 {
        seq![(0xc0 + v / 0x40) as u8, (0x80 + v % 0x40) as u8]
    } else if v < 0x10000 {
        seq![
            (0xe0 + v / 0x1000) as u8,
            (0x80 + (v / 0x40) % 0x40) as u8,
            (0x80 + v % 0x40) as u8,
        ]
    } else {
        seq![
            (0xf0 + v / 0x40000) as u8,
            (0x80 + (v / 0x1000) % 0x40) as u8,
            (0x80 + (v / 0x40) % 0x40) as u8,
            (0x80 + v % 0x40) as u8,
        ]
    }
}

/// The bytes of a run of characters.
pub open spec fn utf8_text(text: Seq<char>) -> Seq<u8>
    decreases text.len(),
{
    if text.len() == 0 {
        Seq::empty()
    } else {
        utf8_text(text.drop_last()) + utf8(text.last())
    }
}

/// Appends the UTF-8 bytes of `c` to `buf`.
pub fn write_char(buf: &mut Vec<u8>, c: char)
    ensures
        final(buf)@ == old(buf)@ + utf8(c),
{
    let v: u32 = c as u32;
    if v < 0x80 {
        buf.push(v as u8);
    } else if v < 0x800 {
        buf.push((0xc0 + v / 0x40) as u8);
        buf.push((0x80 + v % 0x40) as u8);
    } else if v < 0x10000 {
        buf.push((0xe0 + v / 0x1000) as u8);
        buf.push((0x80 + (v / 0x40) % 0x40) as u8);
        buf.push((0x80 + v % 0x40) as u8);
    } else {
        buf.push((0xf0 + v / 0x40000) as u8);
        buf.push((0x80 + (v / 0x1000) % 0x40) as u8);
        buf.push((0x80 + (v / 0x40) % 0x40) as u8);
        buf.push((0x80 + v % 0x40) as u8);
    }
    assert(buf@ =~= old(buf)@ + utf8(c));
}

proof fn lemma_bytes_2(v: u32)
    by (bit_vector)
    requires
        0x80 <= v <= 0x7ff,
    ensures
        (0xc0 + v / 0x40) as u8 == 0xc0u8 | ((v >> 6) & 0x1f) as u8,
        (0x80 + v % 0x40) as u8 == 0x80u8 | (v & 0x3f) as u8,
{
}

proof fn lemma_bytes_3(v: u32)
    by (bit_vector)
    requires
        0x800 <= v <= 0xffff,
    ensures
        (0xe0 + v / 0x1000) as u8 == 0xe0u8 | ((v >> 12) & 0x0f) as u8,
        (0x80 + (v / 0x40) % 0x40) as u8 == 0x80u8 | ((v >> 6) & 0x3f) as u8,
        (0x80 + v % 0x40) as u8 == 0x80u8 | (v & 0x3f) as u8,
{
}

proof fn lemma_bytes_4(v: u32)
    by (bit_vector)
    requires
        0x10000 <= v <= 0x10ffff,
    ensures
        (0xf0 + v / 0x40000) as u8 == 0xf0u8 | ((v >> 18) & 0x7) as u8,
        (0x80 + (v / 0x1000) % 0x40) as u8 == 0x80u8 | ((v >> 12) & 0x3f) as u8,
        (0x80 + (v / 0x40) % 0x40) as u8 == 0x80u8 | ((v >> 6) & 0x3f) as u8,
        (0x80 + v % 0x40) as u8 == 0x80u8 | (v & 0x3f) as u8,
{
}

proof fn lemma_bytes_1(v: u32)
    by (bit_vector)
    requires
        v <= 0x7f,
    ensures
        v as u8 == (v & 0x7f) as u8,
{
}

/// The bytes of a character, as they are counted out here, are its UTF-8
/// encoding as the verification library spells it with bit operations.
pub proof fn lemma_utf8_is_encoding(c: char)
    ensures
        utf8(c) == vstd::utf8::encode_scalar(c as u32),
{
    let v = c as u32;
    if v < 0x80 {
        lemma_bytes_1(v);
    } else if v < 0x800 {
        lemma_bytes_2(v);
    } else if v < 0x10000 {
        lemma_bytes_3(v);
    } else {
        lemma_bytes_4(v);
    }
    assert(utf8(c) =~= vstd::utf8::encode_scalar(v));
}

/// The bytes of two runs of characters are the bytes of the first and then
/// those of the second.
pub proof fn lemma_utf8_text_concat(a: Seq<char>, b: Seq<char>)
    ensures
        utf8_text(a + b) == utf8_text(a) + utf8_text(b),
    decreases b.len(),
{
    if b.len() == 0 {
        assert(a + b =~= a);
        assert(utf8_text(a) + utf8_text(b) =~= utf8_text(a));
    } else {
        assert((a + b).drop_last() =~= a + b.drop_last());
        lemma_utf8_text_concat(a, b.drop_last());
        assert(utf8_text(a + b) =~= utf8_text(a) + utf8_text(b));
    }
}

/// The bytes of a run of characters are its UTF-8 encoding, which is what
/// a string of these characters holds.
pub proof fn lemma_utf8_text_is_encoding(text: Seq<char>)
    ensures
        utf8_text(text) == vstd::utf8::encode_utf8(text),
    decreases text.len(),
{
    if text.len() > 0 {
        let first = seq![text[0]];
        let rest = text.drop_first();
        assert(first + rest =~= text);
        lemma_utf8_text_concat(first, rest);
        lemma_utf8_text_is_encoding(rest);
        lemma_utf8_is_encoding(text[0]);
        assert(first.drop_last() =~= Seq::<char>::empty());
        assert(utf8_text(first) =~= utf8(text[0])) by {
            reveal_with_fuel(utf8_text, 2);
        }
    } else {
        assert(utf8_text(text) =~= vstd::utf8::encode_utf8(text));
    }
}

} // verus!
