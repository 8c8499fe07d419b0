//! Unsigned 32-bit integers as four bytes, most significant byte first.

use vstd::prelude::*;

verus! {

/// The number that four bytes spell, most significant byte first.
pub open spec fn be_value(bytes: Seq<u8>) -> int
    recommends
        bytes.len() == 4,
{
    bytes[0] * 0x100_0000 + bytes[1] * 0x1_0000 + bytes[2] * 0x100 + bytes[3]
}

/// The four bytes that spell `value`, most significant byte first.
pub open spec fn be_bytes(value: u32) -> Seq<u8> {
    seq![
        (value / 0x100_0000) as u8,
        (value / 0x1_0000 % 0x100) as u8,
        (value / 0x100 % 0x100) as u8,
        (value % 0x100) as u8,
    ]
}

/// Four bytes always spell a number that fits in 32 bits.
pub proof fn lemma_be_value_bounds(bytes: Seq<u8>)
    requires
        bytes.len() == 4,
    ensures
        0 <= be_value(bytes) <= u32::MAX,
{
}

/// Decoding the encoding of a number gives the number back.
pub proof fn lemma_be_value_of_be_bytes(value: u32)
    ensures
        be_bytes(value).len() == 4,
        be_value(be_bytes(value)) == value,
{
}

/// Encoding the number that four bytes spell gives the four bytes back.
pub proof fn lemma_be_bytes_of_be_value(bytes: Seq<u8>)
    requires
        bytes.len() == 4,
    ensures
        be_bytes(be_value(bytes) as u32) == bytes,
{
    let value = be_value(bytes) as u32;
    let low24 = bytes[1] * 0x1_0000 + bytes[2] * 0x100 + bytes[3];
    let low16 = bytes[2] * 0x100 + bytes[3];
    assert(value == bytes[0] * 0x100_0000 + low24 && 0 <= low24 < 0x100_0000);
    assert(value / 0x100_0000 == bytes[0]);
    assert(value / 0x1_0000 == bytes[0] * 0x100 + bytes[1]) by {
        assert(value == (bytes[0] * 0x100 + bytes[1]) * 0x1_0000 + low16 && 0 <= low16 < 0x1_0000);
    }
    assert(value / 0x100 == bytes[0] * 0x1_0000 + bytes[1] * 0x100 + bytes[2]) by {
        assert(value == (bytes[0] * 0x1_0000 + bytes[1] * 0x100 + bytes[2]) * 0x100 + bytes[3]);
    }
    assert(be_bytes(value) =~= bytes);
}

/// Two different runs of four bytes spell two different numbers.
pub proof fn lemma_be_value_injective(left: Seq<u8>, right: Seq<u8>)
    requires
        left.len() == 4,
        right.len() == 4,
        be_value(left) == be_value(right),
    ensures
        left == right,
{
    lemma_be_bytes_of_be_value(left);
    lemma_be_bytes_of_be_value(right);
}

/// Encodes `value` as four bytes, most significant byte first.
pub fn u32_to_be_bytes(value: u32) -> (out: [u8; 4])
    ensures
        out@ == be_bytes(value),
{
    let out: [u8; 4] = [
        (value / 0x100_0000) as u8,
        (value / 0x1_0000 % 0x100) as u8,
        (value / 0x100 % 0x100) as u8,
        (value % 0x100) as u8,
    ];
    assert(out@ =~= be_bytes(value));
    out
}

/// Decodes the four bytes of `input` that start at `start`, most significant
/// byte first.
pub fn u32_from_be_bytes(input: &[u8], start: usize) -> (value: u32)
    requires
        start + 4 <= input@.len(),
    ensures
        value == be_value(input@.subrange(start as int, start + 4)),
{
    let b0: u32 = input[start] as u32;
    let b1: u32 = input[start + 1] as u32;
    let b2: u32 = input[start + 2] as u32;
    let b3: u32 = input[start + 3] as u32;
    b0 * 0x100_0000 + b1 * 0x1_0000 + b2 * 0x100 + b3
}

} // verus!
