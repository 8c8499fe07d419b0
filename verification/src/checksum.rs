//! The CRC-32 of PNG, zlib and gzip: the IEEE 802.3 polynomial with bits
//! reflected, a register that starts as all ones and is inverted at the end.

use vstd::prelude::*;

verus! {

/// The IEEE 802.3 generator polynomial, written with its bits reflected.
pub const IEEE_POLYNOMIAL: u32 = 0xedb8_8320;

/// The checksum register after one more message bit has been shifted out of it.
pub open spec fn shift_once(value: u32) -> u32 {
    if value & 1 == 1 {
        (value >> 1) ^ IEEE_POLYNOMIAL
    } else {
        value >> 1
    }
}

/// Entry `index` of the byte-wise lookup table: eight shifts of `index`.
pub open spec fn table_entry(index: u8) -> u32 {
    shift_once(
        shift_once(
            shift_once(
                shift_once(shift_once(shift_once(shift_once(shift_once(index as u32))))),
            ),
        ),
    )
}

/// The checksum register after it has taken in one more message byte.
pub open spec fn absorb(state: u32, byte: u8) -> u32 {
    table_entry((state as u8) ^ byte) ^ (state >> 8)
}

/// The checksum register after it has taken in all of `bytes`, first byte
/// first, starting from all ones.
pub open spec fn register_after(bytes: Seq<u8>) -> u32
    decreases bytes.len(),
{
    if bytes.len() == 0 {
        0xffff_ffff
    } else {
        absorb(register_after(bytes.drop_last()), bytes.last())
    }
}

/// The CRC-32 of `bytes`: the final register with every bit inverted.
pub open spec fn crc32_ieee(bytes: Seq<u8>) -> u32 {
    !register_after(bytes)
}

/// Computes the CRC-32 of `bytes` with `crc::crc32::checksum_ieee`.
///
/// Trusted, not proved: that function starts its register at all ones, folds
/// each byte in through a 256-entry table whose entry `i` is eight
/// shift-and-conditionally-xor rounds of `i` with the polynomial
/// `0xedb88320`, and returns the inverted register. `crc32_ieee` says the
/// same, step for step.
#[verifier::external_body]
pub(crate) fn checksum_ieee(bytes: &[u8]) -> (sum: u32)
    ensures
        sum == crc32_ieee(bytes@),
{
    crc::crc32::checksum_ieee(bytes)
}

proof fn lemma_absorb_injective_in_state(left: u32, right: u32, byte: u8)
    by (bit_vector)
    requires
        absorb(left, byte) == absorb(right, byte),
    ensures
        left == right,
{
}

proof fn lemma_absorb_injective_in_byte(state: u32, left: u8, right: u8)
    by (bit_vector)
    requires
        absorb(state, left) == absorb(state, right),
    ensures
        left == right,
{
}

proof fn lemma_inversion_injective(left: u32, right: u32)
    by (bit_vector)
    requires
        !left == !right,
    ensures
        left == right,
{
}

/// Folding a byte in through the table is the same as xoring it into the low
/// end of the register and shifting eight times.
pub proof fn lemma_absorb_is_eight_shifts(state: u32, byte: u8)
    by (bit_vector)
    ensures
        absorb(state, byte) == shift_once(
            shift_once(
                shift_once(
                    shift_once(
                        shift_once(shift_once(shift_once(shift_once(state ^ (byte as u32))))),
                    ),
                ),
            ),
        ),
{
}

proof fn lemma_register_sees_byte_change(bytes: Seq<u8>, index: int, byte: u8)
    requires
        0 <= index < bytes.len(),
        byte != bytes[index],
    ensures
        register_after(bytes.update(index, byte)) != register_after(bytes),
    decreases bytes.len(),
{
    let changed = bytes.update(index, byte);
    if index == bytes.len() - 1 {
        assert(changed.drop_last() =~= bytes.drop_last());
        if register_after(changed) == register_after(bytes) {
            lemma_absorb_injective_in_byte(register_after(bytes.drop_last()), byte, bytes[index]);
        }
    } else {
        assert(changed.drop_last() =~= bytes.drop_last().update(index, byte));
        lemma_register_sees_byte_change(bytes.drop_last(), index, byte);
        if register_after(changed) == register_after(bytes) {
            lemma_absorb_injective_in_state(
                register_after(changed.drop_last()),
                register_after(bytes.drop_last()),
                bytes.last(),
            );
        }
    }
}

/// Changing one byte of a message, in any way, changes its CRC-32.
pub proof fn lemma_crc32_sees_byte_change(bytes: Seq<u8>, index: int, byte: u8)
    requires
        0 <= index < bytes.len(),
        byte != bytes[index],
    ensures
        crc32_ieee(bytes.update(index, byte)) != crc32_ieee(bytes),
{
    lemma_register_sees_byte_change(bytes, index, byte);
    if crc32_ieee(bytes.update(index, byte)) == crc32_ieee(bytes) {
        lemma_inversion_injective(
            register_after(bytes.update(index, byte)),
            register_after(bytes),
        );
    }
}

} // verus!
