//! Windows-1252 (CP1252) byte codec, as EDIABAS stores its text.
//!
//! SGBD strings are CP1252, not UTF-8: the German descriptions and unit symbols live in the
//! `0xA0..=0xFF` Latin-1 range, with a handful of typographic characters in `0x80..=0x9F`.
//! [`decode`] turns those bytes into a `String` and [`encode`] turns a `String` back into one
//! byte per character, the exact inverse over the CP1252 repertoire.
use vstd::prelude::*;
use crate::text::{from_chars, to_chars};

verus! {

/// CP1252 code points for the `0x80..=0x9F` block (Latin-1 differs only here).
///
/// The five positions CP1252 leaves undefined (`0x81`, `0x8D`, `0x8F`, `0x90`, `0x9D`) map to
/// their identity code point.
const HIGH_CONTROL_MAP: [char; 32] = [
    '\u{20AC}', '\u{0081}', '\u{201A}', '\u{0192}', '\u{201E}', '\u{2026}', '\u{2020}', '\u{2021}',
    '\u{02C6}', '\u{2030}', '\u{0160}', '\u{2039}', '\u{0152}', '\u{008D}', '\u{017D}', '\u{008F}',
    '\u{0090}', '\u{2018}', '\u{2019}', '\u{201C}', '\u{201D}', '\u{2022}', '\u{2013}', '\u{2014}',
    '\u{02DC}', '\u{2122}', '\u{0161}', '\u{203A}', '\u{0153}', '\u{009D}', '\u{017E}', '\u{0178}',
];

/// The character that a CP1252 byte stands for.
pub open spec fn char_of(b: u8) -> char {
    match b {
        0x80 => '\u{20AC}',
        0x82 => '\u{201A}',
        0x83 => '\u{0192}',
        0x84 => '\u{201E}',
        0x85 => '\u{2026}',
        0x86 => '\u{2020}',
        0x87 => '\u{2021}',
        0x88 => '\u{02C6}',
        0x89 => '\u{2030}',
        0x8A => '\u{0160}',
        0x8B => '\u{2039}',
        0x8C => '\u{0152}',
        0x8E => '\u{017D}',
        0x91 => '\u{2018}',
        0x92 => '\u{2019}',
        0x93 => '\u{201C}',
        0x94 => '\u{201D}',
        0x95 => '\u{2022}',
        0x96 => '\u{2013}',
        0x97 => '\u{2014}',
        0x98 => '\u{02DC}',
        0x99 => '\u{2122}',
        0x9A => '\u{0161}',
        0x9B => '\u{203A}',
        0x9C => '\u{0153}',
        0x9E => '\u{017E}',
        0x9F => '\u{0178}',
        _ => b as char,
    }
}

/// Whether some CP1252 byte stands for `c`.
pub open spec fn representable(c: char) -> bool {
    exists|b: u8| #[trigger] char_of(b) == c
}

/// The CP1252 byte for `c`; `?` where there is none.
pub open spec fn byte_of(c: char) -> u8 {
    if representable(c) {
        choose|b: u8| #[trigger] char_of(b) == c
    } else {
        0x3F
    }
}

/// The text that CP1252 bytes stand for.
pub open spec fn decoded(bytes: Seq<u8>) -> Seq<char> {
    Seq::new(bytes.len(), |i: int| char_of(bytes[i]))
}

/// The CP1252 bytes of a text.
pub open spec fn encoded(text: Seq<char>) -> Seq<u8> {
    Seq::new(text.len(), |i: int| byte_of(text[i]))
}

/// No two bytes stand for the same character.
pub proof fn lemma_char_of_injective(a: u8, b: u8)
    ensures
        char_of(a) == char_of(b) ==> a == b,
{
}

/// The byte of the character that a byte stands for is that byte.
pub proof fn lemma_byte_of_char_of(b: u8)
    ensures
        byte_of(char_of(b)) == b,
{
    let c = char_of(b);
    assert(representable(c));
    lemma_char_of_injective(b, byte_of(c));
}

/// Encoding what was decoded gives the same bytes back, for every byte sequence.
pub proof fn law_encode_inverts_decode(bytes: Seq<u8>)
    ensures
        encoded(decoded(bytes)) == bytes,
{
    assert forall|i: int| 0 <= i < bytes.len() implies #[trigger] encoded(decoded(bytes))[i]
        == bytes[i] by {
        lemma_byte_of_char_of(bytes[i]);
    }
    assert(encoded(decoded(bytes)) =~= bytes);
}

/// Decoding what was encoded gives the same text back, for every text within the repertoire.
pub proof fn law_decode_inverts_encode(text: Seq<char>)
    requires
        forall|i: int| 0 <= i < text.len() ==> representable(#[trigger] text[i]),
    ensures
        decoded(encoded(text)) == text,
{
    assert(decoded(encoded(text)) =~= text);
}

/// Decode a CP1252 byte slice into an owned `String`.
///
/// Total and lossless: every byte yields exactly one `char`, so this never fails.
pub fn decode(bytes: &[u8]) -> (r: String)
    ensures
        r@ == decoded(bytes@),
{
    let mut out: Vec<char> = Vec::new();
    let mut i: usize = 0;
    while i < bytes.len()
        invariant
            i <= bytes.len(),
            out@ == decoded(bytes@).take(i as int),
        decreases bytes.len() - i,
    {
        out.push(decode_byte(bytes[i]));
        assert(out@ =~= decoded(bytes@).take(i + 1));
        i = i + 1;
    }
    assert(decoded(bytes@).take(bytes@.len() as int) =~= decoded(bytes@));
    from_chars(out.as_slice())
}

/// Encode a `&str` into CP1252 bytes, EDIABAS's on-disk text encoding.
///
/// The inverse of [`decode`] over the CP1252 repertoire. A code point CP1252 cannot represent
/// maps to `?`, but text that came through [`decode`] always round-trips exactly.
pub fn encode(text: &str) -> (r: Vec<u8>)
    ensures
        r@ == encoded(text@),
{
    let chars = to_chars(text);
    let mut out: Vec<u8> = Vec::new();
    let mut i: usize = 0;
    while i < chars.len()
        invariant
            i <= chars.len(),
            chars@ == text@,
            out@ == encoded(text@).take(i as int),
        decreases chars.len() - i,
    {
        out.push(encode_char(chars[i]));
        assert(out@ =~= encoded(text@).take(i + 1));
        i = i + 1;
    }
    assert(encoded(text@).take(text@.len() as int) =~= encoded(text@));
    out
}

/// Map a single CP1252 byte to its Unicode `char`.
pub fn decode_byte(b: u8) -> (r: char)
    ensures
        r == char_of(b),
{
    if 0x80 <= b && b <= 0x9F {
        HIGH_CONTROL_MAP[(b - 0x80) as usize]
    } else {
        b as char
    }
}

/// Map a single `char` to its CP1252 byte, the inverse of [`decode_byte`].
pub fn encode_char(c: char) -> (r: u8)
    ensures
        r == byte_of(c),
{
    let n: u32 = c as u32;
    if n <= 0x7F || (0xA0 <= n && n <= 0xFF) {
        let b: u8 = n as u8;
        proof {
            assert(char_of(b) == c);
            lemma_byte_of_char_of(b);
        }
        return b;
    }
    let mut i: usize = 0;
    while i < 32
        invariant
            i <= 32,
            n == c as u32,
            !(n <= 0x7F || (0xA0 <= n && n <= 0xFF)),
            forall|b: u8| 0x80 <= b < 0x80 + i ==> #[trigger] char_of(b) != c,
        decreases 32 - i,
    {
        let b: u8 = 0x80 + i as u8;
        if HIGH_CONTROL_MAP[i] == c {
            proof {
                assert(char_of(b) == c);
                lemma_byte_of_char_of(b);
            }
            return b;
        }
        assert(char_of(b) != c);
        i = i + 1;
    }
    proof {
        if representable(c) {
            let b = choose|b: u8| #[trigger] char_of(b) == c;
            assert(b < 0x80 || b > 0x9F);
            assert(char_of(b) == b as char);
            assert(false);
        }
    }
    0x3F
}

/// Outside the block from `0x80` to `0x9F` a byte stands for the character of its own number.
pub proof fn law_most_bytes_stand_for_themselves(b: u8)
    ensures
        b < 0x80 || b >= 0xA0 ==> char_of(b) as int == b,
{
}

/// The block from `0x80` to `0x9F` holds the typographic characters of Windows-1252, and its five
/// undefined bytes stand for themselves.
pub proof fn law_the_high_block_is_typographic(b: u8)
    requires
        0x80 <= b < 0xA0,
    ensures
        char_of(b)
            == "\u{20AC}\u{81}\u{201A}\u{192}\u{201E}\u{2026}\u{2020}\u{2021}\u{2C6}\u{2030}\u{160}\u{2039}\u{152}\u{8D}\u{17D}\u{8F}\u{90}\u{2018}\u{2019}\u{201C}\u{201D}\u{2022}\u{2013}\u{2014}\u{2DC}\u{2122}\u{161}\u{203A}\u{153}\u{9D}\u{17E}\u{178}"@[b
            - 0x80],
{
    reveal_strlit(
        "\u{20AC}\u{81}\u{201A}\u{192}\u{201E}\u{2026}\u{2020}\u{2021}\u{2C6}\u{2030}\u{160}\u{2039}\u{152}\u{8D}\u{17D}\u{8F}\u{90}\u{2018}\u{2019}\u{201C}\u{201D}\u{2022}\u{2013}\u{2014}\u{2DC}\u{2122}\u{161}\u{203A}\u{153}\u{9D}\u{17E}\u{178}",
    );
}

/// A character that no byte stands for is stored as a question mark.
pub proof fn law_a_foreign_character_becomes_a_question_mark(text: Seq<char>, i: int)
    requires
        0 <= i < text.len(),
        forall|b: u8| #[trigger] char_of(b) != text[i],
    ensures
        encoded(text).len() == text.len(),
        encoded(text)[i] == '?' as u8,
{
}

} // verus!
