//! The four-byte type of a chunk, and the four flags that the case of
//! its letters encodes.

use core::str::FromStr;
use vstd::prelude::*;
use vstd::std_specs::cmp::PartialEqSpecImpl;
use vstd::std_specs::convert::TryFromSpecImpl;
use vstd::string::StringSliceAdditionalSpecFns;
use vstd::utf8::{encode_scalar, encode_utf8, is_ascii_chars, is_ascii_chars_encode_utf8};

use crate::error::ChunkError;
use crate::text::{decode_text, text_of};

verus! {

/// The bit that tells a lower-case ASCII letter from its upper-case twin.
pub const CASE_BIT: u8 = 0x20;

/// True when `byte` is one of `A` to `Z`.
pub open spec fn is_upper_letter(byte: u8) -> bool {
    0x41 <= byte <= 0x5a
}

/// True when `byte` is one of `a` to `z`.
pub open spec fn is_lower_letter(byte: u8) -> bool {
    0x61 <= byte <= 0x7a
}

/// True when `byte` is an ASCII letter of either case.
pub open spec fn is_letter(byte: u8) -> bool {
    is_upper_letter(byte) || is_lower_letter(byte)
}

/// True when the case bit of `byte` is 0, as it is in an upper-case letter.
pub open spec fn case_bit_clear(byte: u8) -> bool {
    byte & CASE_BIT == 0
}

/// What the bytes of a text give as a chunk type: the bytes themselves where
/// they are four ASCII letters, `InvalidFormat` where they are not four, and
/// `InvalidCharacter` where they are four and one of them is no letter.
pub open spec fn tag_of_text(bytes: Seq<u8>) -> Result<Seq<u8>, ChunkError> {
    if bytes.len() != 4 {
        Err(ChunkError::InvalidFormat)
    } else if forall|i: int| 0 <= i < 4 ==> is_letter(#[trigger] bytes[i]) {
        Ok(bytes)
    } else {
        Err(ChunkError::InvalidCharacter)
    }
}

/// Among the letters, the case bit is clear in the upper-case ones and set
/// in the lower-case ones.
pub proof fn lemma_case_bit_of_letter(byte: u8)
    by (bit_vector)
    requires
        is_letter(byte),
    ensures
        case_bit_clear(byte) <==> is_upper_letter(byte),
        !case_bit_clear(byte) <==> is_lower_letter(byte),
{
}

/// True when `c` is one of `A` to `Z` or `a` to `z`.
pub open spec fn is_letter_char(c: char) -> bool {
    ('A' <= c <= 'Z') || ('a' <= c <= 'z')
}

proof fn lemma_wide_scalar_starts_high(scalar: u32)
    by (bit_vector)
    requires
        scalar > 0x7f,
    ensures
        0xC0u8 | ((scalar >> 6) & 0x1F) as u8 >= 0x80,
        0xE0u8 | ((scalar >> 12) & 0x0F) as u8 >= 0x80,
        0xF0u8 | ((scalar >> 18) & 0x7) as u8 >= 0x80,
{
}

proof fn lemma_low_scalar_is_ascii(c: char)
    requires
        c as u32 <= 0x7f,
    ensures
        '\0' <= c <= '\u{7f}',
{
}

proof fn lemma_plain_bytes_are_ascii_text(chars: Seq<char>)
    requires
        forall|i: int| 0 <= i < encode_utf8(chars).len() ==> encode_utf8(chars)[i] < 0x80,
    ensures
        is_ascii_chars(chars),
    decreases chars.len(),
{
    if chars.len() > 0 {
        let first = encode_scalar(chars[0] as u32);
        let rest = encode_utf8(chars.drop_first());
        let bytes = encode_utf8(chars);
        assert(bytes == first + rest);
        assert(first.len() >= 1);
        assert(bytes[0] == first[0]);
        if chars[0] as u32 > 0x7f {
            lemma_wide_scalar_starts_high(chars[0] as u32);
            assert(false);
        }
        assert forall|i: int| 0 <= i < rest.len() implies rest[i] < 0x80 by {
            assert(rest[i] == bytes[first.len() + i]);
        }
        lemma_plain_bytes_are_ascii_text(chars.drop_first());
        assert forall|i: int| 0 <= i < chars.len() implies '\0' <= #[trigger] chars[i]
            <= '\u{7f}' by {
            if i > 0 {
                assert(chars[i] == chars.drop_first()[i - 1]);
                assert('\0' <= chars.drop_first()[i - 1] <= '\u{7f}');
            } else {
                lemma_low_scalar_is_ascii(chars[0]);
            }
        }
    }
}

/// In characters: a text gives a chunk type exactly when it is four ASCII
/// letters, and the bytes of the type are then those letters.
pub proof fn lemma_tag_of_text_by_characters(chars: Seq<char>)
    ensures
        tag_of_text(encode_utf8(chars)) is Ok <==> chars.len() == 4 && forall|i: int|
            0 <= i < 4 ==> is_letter_char(#[trigger] chars[i]),
        tag_of_text(encode_utf8(chars)) matches Ok(tag) ==> tag.len() == 4 && forall|i: int|
            0 <= i < 4 ==> #[trigger] tag[i] == chars[i] as u8,
{
    let bytes = encode_utf8(chars);
    if chars.len() == 4 && forall|i: int| 0 <= i < 4 ==> is_letter_char(#[trigger] chars[i]) {
        assert(is_ascii_chars(chars));
        is_ascii_chars_encode_utf8(chars);
        assert forall|i: int| 0 <= i < 4 implies is_letter(#[trigger] bytes[i]) by {
            assert(is_letter_char(chars[i]));
            assert(bytes[i] == chars[i] as u8);
        }
    }
    if tag_of_text(bytes) is Ok {
        assert forall|i: int| 0 <= i < bytes.len() implies bytes[i] < 0x80 by {
            assert(is_letter(bytes[i]));
        }
        lemma_plain_bytes_are_ascii_text(chars);
        is_ascii_chars_encode_utf8(chars);
        assert forall|i: int| 0 <= i < 4 implies is_letter_char(#[trigger] chars[i]) by {
            assert(is_letter(bytes[i]));
            assert(bytes[i] == chars[i] as u8);
            assert('\0' <= chars[i] <= '\u{7f}');
        }
    }
}

fn byte_is_letter(byte: u8) -> (answer: bool)
    ensures
        answer == is_letter(byte),
{
    (0x41 <= byte && byte <= 0x5a) || (0x61 <= byte && byte <= 0x7a)
}

/// A chunk type: four bytes, which are ASCII letters where the type was made
/// from text and may be anything where it was made from raw bytes.
#[derive(Debug, Clone, Copy)]
pub struct ChunkType {
    bytes: [u8; 4],
}

impl View for ChunkType {
    type V = Seq<u8>;

    closed spec fn view(&self) -> Seq<u8> {
        self.bytes@
    }
}

impl ChunkType {
    /// A chunk type always has four bytes.
    pub proof fn lemma_four_bytes(self)
        ensures
            self@.len() == 4,
    {
    }

    /// The four bytes of the type.
    pub fn bytes(&self) -> (out: [u8; 4])
        ensures
            out@ == self@,
    {
        self.bytes
    }

    /// Whether the type may stand in a file: its reserved bit, the case bit
    /// of the third byte, has to be clear.
    pub fn is_valid(&self) -> (answer: bool)
        ensures
            answer == case_bit_clear(self@[2]),
    {
        self.is_reserved_bit_valid()
    }

    /// Whether a decoder has to understand the chunk: the case bit of the
    /// first byte is clear.
    pub fn is_critical(&self) -> (answer: bool)
        ensures
            answer == case_bit_clear(self@[0]),
    {
        self.bytes[0] & CASE_BIT == 0
    }

    /// Whether the type is a registered, public one: the case bit of the
    /// second byte is clear.
    pub fn is_public(&self) -> (answer: bool)
        ensures
            answer == case_bit_clear(self@[1]),
    {
        self.bytes[1] & CASE_BIT == 0
    }

    /// Whether the reserved bit, the case bit of the third byte, is clear.
    pub fn is_reserved_bit_valid(&self) -> (answer: bool)
        ensures
            answer == case_bit_clear(self@[2]),
    {
        self.bytes[2] & CASE_BIT == 0
    }

    /// Whether an editor that does not know the chunk may copy it: the case
    /// bit of the fourth byte is set.
    pub fn is_safe_to_copy(&self) -> (answer: bool)
        ensures
            answer == !case_bit_clear(self@[3]),
    {
        self.bytes[3] & CASE_BIT != 0
    }

    /// The type as text: its four bytes read as UTF-8, case kept. Fails with
    /// `EncodingError` where the bytes are not UTF-8, which can only be so
    /// for a type made from raw bytes.
    pub fn to_string(&self) -> (text: Result<String, ChunkError>)
        ensures
            text matches Ok(s) ==> text_of(self@) == Ok::<Seq<char>, ChunkError>(s@),
            text matches Err(e) ==> text_of(self@) == Err::<Seq<char>, ChunkError>(e),
    {
        decode_text(self.bytes.as_slice())
    }
}

impl TryFrom<[u8; 4]> for ChunkType {
    type Error = ChunkError;

    /// Takes four raw bytes as a chunk type, whatever they are.
    fn try_from(value: [u8; 4]) -> (made: Result<ChunkType, ChunkError>)
        ensures
            made matches Ok(tag) && tag@ == value@,
    {
        Ok(ChunkType { bytes: value })
    }
}

impl TryFromSpecImpl<[u8; 4]> for ChunkType {
    open spec fn obeys_try_from_spec() -> bool {
        true
    }

    closed spec fn try_from_spec(value: [u8; 4]) -> Result<ChunkType, ChunkError> {
        Ok(ChunkType { bytes: value })
    }
}

impl FromStr for ChunkType {
    type Err = ChunkError;

    /// Reads a chunk type from text, which has to be four ASCII letters.
    fn from_str(s: &str) -> (made: Result<ChunkType, ChunkError>)
        ensures
            made matches Ok(tag) ==> tag_of_text(s.spec_bytes()) == Ok::<Seq<u8>, ChunkError>(tag@),
            made matches Err(e) ==> tag_of_text(s.spec_bytes()) == Err::<Seq<u8>, ChunkError>(e),
    {
        let text = s.as_bytes();
        if text.len() != 4 {
            return Err(ChunkError::InvalidFormat);
        }
        let mut bytes: [u8; 4] = [0, 0, 0, 0];
        let mut i: usize = 0;
        while i < 4
            invariant
                i <= 4,
                text@ == s.spec_bytes(),
                text@.len() == 4,
                forall|k: int| 0 <= k < i ==> is_letter(#[trigger] text@[k]),
                forall|k: int| 0 <= k < i ==> bytes@[k] == text@[k],
            decreases 4 - i,
        {
            let val = text[i];
            if !byte_is_letter(val) {
                assert(!is_letter(text@[i as int]));
                return Err(ChunkError::InvalidCharacter);
            }
            bytes[i] = val;
            i += 1;
        }
        assert(bytes@ =~= text@);
        Ok(ChunkType { bytes })
    }
}

impl PartialEq for ChunkType {
    /// Two chunk types are equal when their four bytes are.
    fn eq(&self, other: &ChunkType) -> (same: bool) {
        let same = self.bytes[0] == other.bytes[0] && self.bytes[1] == other.bytes[1]
            && self.bytes[2] == other.bytes[2] && self.bytes[3] == other.bytes[3];
        assert(same == (self@ =~= other@));
        same
    }
}

impl PartialEqSpecImpl for ChunkType {
    open spec fn obeys_eq_spec() -> bool {
        true
    }

    open spec fn eq_spec(&self, other: &ChunkType) -> bool {
        self@ == other@
    }
}

} // verus!
