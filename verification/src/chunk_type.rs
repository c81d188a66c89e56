//! The 4-byte chunk-type tag and its per-byte case flags.
//!
//! A chunk type is exactly 4 bytes, each an ASCII letter.  The case of each
//! byte encodes one semantic flag of the PNG convention: byte 0 upper-case
//! means the chunk is critical, byte 1 upper-case means the type is publicly
//! defined, byte 2 upper-case means the type conforms to the current
//! revision of the format (the sole validity criterion), and byte 3
//! lower-case means the chunk is safe for an editor to copy unmodified.
//! Equality is byte-for-byte on the raw tag; no case normalization happens
//! anywhere.

use vstd::prelude::*;
use vstd::pervasive::unreached;
use crate::error::ChunkTypeParseError;
use crate::text::lemma_ascii_bytes_utf8;
use crate::text::utf8_to_string;

verus! {

/// Whether a byte is an upper-case ASCII letter.
pub open spec fn is_upper_byte(b: u8) -> bool {
    0x41 <= b <= 0x5a
}

/// Whether a byte is a lower-case ASCII letter.
pub open spec fn is_lower_byte(b: u8) -> bool {
    0x61 <= b <= 0x7a
}

/// Whether a byte is an ASCII letter of either case.
pub open spec fn is_letter_byte(b: u8) -> bool {
    is_upper_byte(b) || is_lower_byte(b)
}

/// Whether every byte of the sequence is an ASCII letter.
pub open spec fn all_letter_bytes(s: Seq<u8>) -> bool {
    forall|i: int| 0 <= i < s.len() ==> is_letter_byte(#[trigger] s[i])
}

/// Whether a character is an ASCII letter of either case.
pub open spec fn is_letter_char(c: char) -> bool {
    ('A' <= c && c <= 'Z') || ('a' <= c && c <= 'z')
}

/// The textual form of a tag: each byte read as the character with that
/// code.  For the letter bytes of a well-formed tag this is plain ASCII.
pub open spec fn type_text(s: Seq<u8>) -> Seq<char> {
    s.map(|i: int, b: u8| b as char)
}

/// The first byte of the tag that is not an ASCII letter, as a character.
/// Meaningful only when some byte is not a letter.
pub open spec fn first_bad_byte_char(s: Seq<u8>) -> char
    recommends
        s.len() == 4,
{
    if !is_letter_byte(s[0]) {
        s[0] as char
    } else if !is_letter_byte(s[1]) {
        s[1] as char
    } else if !is_letter_byte(s[2]) {
        s[2] as char
    } else {
        s[3] as char
    }
}

/// The first character of a 4-character text that is not an ASCII letter.
/// Meaningful only when some character is not a letter.
pub open spec fn first_bad_text_char(s: Seq<char>) -> char
    recommends
        s.len() == 4,
{
    if !is_letter_char(s[0]) {
        s[0]
    } else if !is_letter_char(s[1]) {
        s[1]
    } else if !is_letter_char(s[2]) {
        s[2]
    } else {
        s[3]
    }
}

/// A 4-byte chunk-type tag.  Constructed only through the parsers, so every
/// value in the program satisfies [`ChunkType::wf`].
#[derive(Debug, Clone, Copy, PartialEq, Eq)]
pub struct ChunkType {
    bytes: [u8; 4],
}

impl View for ChunkType {
    type V = Seq<u8>;

    closed spec fn view(&self) -> Seq<u8> {
        self.bytes@
    }
}

impl ChunkType {
    /// Well-formedness: the tag is 4 bytes, each an ASCII letter.
    pub open spec fn wf(self) -> bool {
        self@.len() == 4 && all_letter_bytes(self@)
    }

    /// Parses a tag from 4 raw bytes.  Succeeds exactly when every byte is
    /// an ASCII letter, and then returns the bytes unchanged; otherwise
    /// reports the first byte that is not a letter.
    pub fn parse_bytes(bytes: [u8; 4]) -> (r: Result<ChunkType, ChunkTypeParseError>)
        ensures
            r is Ok <==> all_letter_bytes(bytes@),
            r is Ok ==> r->Ok_0@ == bytes@ && r->Ok_0.wf(),
            r is Err ==> r == Err::<ChunkType, ChunkTypeParseError>(
                ChunkTypeParseError::NotAsciiChar(first_bad_byte_char(bytes@)),
            ),
    {
        if !is_letter(bytes[0]) {
            Err(ChunkTypeParseError::NotAsciiChar(bytes[0] as char))
        } else if !is_letter(bytes[1]) {
            Err(ChunkTypeParseError::NotAsciiChar(bytes[1] as char))
        } else if !is_letter(bytes[2]) {
            Err(ChunkTypeParseError::NotAsciiChar(bytes[2] as char))
        } else if !is_letter(bytes[3]) {
            Err(ChunkTypeParseError::NotAsciiChar(bytes[3] as char))
        } else {
            let t = ChunkType { bytes };
            assert(t@ =~= bytes@);
            Ok(t)
        }
    }

    /// Parses a tag from text.  Fails when the text is not exactly 4
    /// characters, then when some character is not an ASCII letter (first
    /// offender reported); otherwise the tag's bytes are the character
    /// codes.
    pub fn parse_text(s: &str) -> (r: Result<ChunkType, ChunkTypeParseError>)
        ensures
            r is Ok <==> s@.len() == 4 && (forall|i: int|
                0 <= i < 4 ==> is_letter_char(#[trigger] s@[i])),
            s@.len() != 4 ==> r == Err::<ChunkType, ChunkTypeParseError>(
                ChunkTypeParseError::FromStrInvalidNumberOfChars((s@.len() as usize)),
            ),
            s@.len() == 4 && r is Err ==> r == Err::<ChunkType, ChunkTypeParseError>(
                ChunkTypeParseError::NotAsciiChar(first_bad_text_char(s@)),
            ),
            r is Ok ==> r->Ok_0@ == s@.map(|i: int, c: char| c as u8) && r->Ok_0.wf()
                && type_text(r->Ok_0@) == s@,
    {
        let n = s.unicode_len();
        if n != 4 {
            return Err(ChunkTypeParseError::FromStrInvalidNumberOfChars(n));
        }
        let c0 = Self::validate_char(s.get_char(0))?;
        let c1 = Self::validate_char(s.get_char(1))?;
        let c2 = Self::validate_char(s.get_char(2))?;
        let c3 = Self::validate_char(s.get_char(3))?;
        let bytes: [u8; 4] = [char_code(c0), char_code(c1), char_code(c2), char_code(c3)];
        let t = ChunkType { bytes };
        assert(t@ =~= s@.map(|i: int, c: char| c as u8));
        assert(type_text(t@) =~= s@);
        Ok(t)
    }

    /// Accepts a character exactly when it is an ASCII letter, returning it
    /// unchanged; otherwise reports it as the offender.
    pub fn validate_char(ch: char) -> (r: Result<char, ChunkTypeParseError>)
        ensures
            r is Ok <==> is_letter_char(ch),
            r is Ok ==> r == Ok::<char, ChunkTypeParseError>(ch),
            r is Err ==> r == Err::<char, ChunkTypeParseError>(
                ChunkTypeParseError::NotAsciiChar(ch),
            ),
    {
        if ('A' <= ch && ch <= 'Z') || ('a' <= ch && ch <= 'z') {
            Ok(ch)
        } else {
            Err(ChunkTypeParseError::NotAsciiChar(ch))
        }
    }

    /// The 4 raw bytes of the tag, in original case.
    pub fn bytes(&self) -> (r: [u8; 4])
        ensures
            r@ == self@,
    {
        self.bytes
    }

    /// Validity of the whole tag: true exactly when the reserved bit is
    /// valid, that is, when byte 2 is upper-case.
    pub fn is_valid(&self) -> (r: bool)
        ensures
            r == is_upper_byte(self@[2]),
    {
        self.is_reserved_bit_valid()
    }

    /// Whether the chunk is critical to rendering: byte 0 is upper-case.
    pub fn is_critical(&self) -> (r: bool)
        ensures
            r == is_upper_byte(self@[0]),
    {
        0x41 <= self.bytes[0] && self.bytes[0] <= 0x5a
    }

    /// Whether the type is publicly defined: byte 1 is upper-case.
    pub fn is_public(&self) -> (r: bool)
        ensures
            r == is_upper_byte(self@[1]),
    {
        0x41 <= self.bytes[1] && self.bytes[1] <= 0x5a
    }

    /// Whether the tag conforms to the current revision of the format:
    /// byte 2 is upper-case.
    pub fn is_reserved_bit_valid(&self) -> (r: bool)
        ensures
            r == is_upper_byte(self@[2]),
    {
        0x41 <= self.bytes[2] && self.bytes[2] <= 0x5a
    }

    /// The textual form of the tag: its 4 characters in original case.
    pub fn to_text(&self) -> (r: String)
        requires
            self.wf(),
        ensures
            r@ == type_text(self@),
    {
        let mut v: Vec<u8> = Vec::new();
        v.push(self.bytes[0]);
        v.push(self.bytes[1]);
        v.push(self.bytes[2]);
        v.push(self.bytes[3]);
        proof {
            assert(v@ =~= self@);
            lemma_ascii_bytes_utf8(v@);
        }
        match utf8_to_string(v) {
            Some(s) => s,
            None => unreached(),
        }
    }

    /// Whether the tag's text equals the given string, character for
    /// character.
    pub fn matches_text(&self, s: &str) -> (r: bool)
        ensures
            r == (type_text(self@) == s@),
    {
        let n = s.unicode_len();
        assert(type_text(self@).len() == 4);
        if n != 4 {
            return false;
        }
        let b = self.bytes;
        let same = s.get_char(0) == b[0] as char && s.get_char(1) == b[1] as char
            && s.get_char(2) == b[2] as char && s.get_char(3) == b[3] as char;
        proof {
            if same {
                assert(type_text(self@) =~= s@);
            } else {
                if s@[0] != self@[0] as char {
                    assert(type_text(self@)[0] != s@[0]);
                } else if s@[1] != self@[1] as char {
                    assert(type_text(self@)[1] != s@[1]);
                } else if s@[2] != self@[2] as char {
                    assert(type_text(self@)[2] != s@[2]);
                } else {
                    assert(type_text(self@)[3] != s@[3]);
                }
            }
        }
        same
    }

    /// Whether an editor may copy the chunk unmodified: byte 3 is
    /// lower-case.
    pub fn is_safe_to_copy(&self) -> (r: bool)
        ensures
            r == is_lower_byte(self@[3]),
    {
        0x61 <= self.bytes[3] && self.bytes[3] <= 0x7a
    }
}

/// Whether a byte is an ASCII letter of either case.
fn is_letter(b: u8) -> (r: bool)
    ensures
        r == is_letter_byte(b),
{
    (0x41 <= b && b <= 0x5a) || (0x61 <= b && b <= 0x7a)
}

/// The code of an ASCII letter character as a byte.
fn char_code(c: char) -> (r: u8)
    requires
        is_letter_char(c),
    ensures
        r == c as u8,
        r as char == c,
        is_letter_byte(r),
{
    c as u8
}

} // verus!
