//! Saturation of symmetric 4-bit codes in the per-layer report.
use vstd::prelude::*;
use vstd::arithmetic::power2::*;
use crate::bits::{spec_max_int, spec_min_int};
use crate::packed::{code_at, field_value, stream_bit};

verus! {

/// Nibble `i` of a 4-bit packed stream: the low nibble of byte `i / 2` for
/// even `i`, the high nibble for odd `i`.
pub open spec fn nibble(bytes: Seq<u8>, i: int) -> u8 {
    if i % 2 == 0 {
        bytes[i / 2] & 0x0fu8
    } else {
        bytes[i / 2] >> 4u8
    }
}

/// Nibble `i` is one of the two end codes of the 4-bit grid: `0x7` or `0x8`.
pub open spec fn saturated(bytes: Seq<u8>, i: int) -> bool {
    nibble(bytes, i) == 0x7u8 || nibble(bytes, i) == 0x8u8
}

/// Number of saturated nibbles among the first `n`.
pub open spec fn saturated_in(bytes: Seq<u8>, n: nat) -> nat
    decreases n,
{
    if n == 0 {
        0
    } else {
        saturated_in(bytes, (n - 1) as nat) + if saturated(bytes, n - 1) {
            1nat
        } else {
            0nat
        }
    }
}

/// Counts the codes among the first `values` 4-bit codes that sit at either
/// end of the grid.
pub fn saturated_count(bytes: &[u8], values: usize) -> (r: usize)
    requires
        values <= 2 * bytes@.len(),
    ensures
        r == saturated_in(bytes@, values as nat),
{
    let mut saturated: usize = 0;
    let mut index: usize = 0;
    while index < values
        invariant
            values <= 2 * bytes@.len(),
            index <= values,
            saturated == saturated_in(bytes@, index as nat),
            saturated <= index,
        decreases values - index,
    {
        let byte = bytes[index / 2];
        let nib = if index % 2 == 0 {
            byte & 0x0F
        } else {
            byte >> 4
        };
        if nib == 0x7 || nib == 0x8 {
            saturated = saturated + 1;
        }
        index = index + 1;
    }
    saturated
}

/// A byte's low nibble is its four low bits.
proof fn lemma_low_nibble(b: u8)
    by (bit_vector)
    ensures
        (b & 0x0fu8) as int == ((b >> 0u8) & 1u8) as int + 2 * ((b >> 1u8) & 1u8) as int + 4 * ((b
            >> 2u8) & 1u8) as int + 8 * ((b >> 3u8) & 1u8) as int,
{
}

/// A byte's high nibble is its four high bits.
proof fn lemma_high_nibble(b: u8)
    by (bit_vector)
    ensures
        (b >> 4u8) as int == ((b >> 4u8) & 1u8) as int + 2 * ((b >> 5u8) & 1u8) as int + 4 * ((b
            >> 6u8) & 1u8) as int + 8 * ((b >> 7u8) & 1u8) as int,
{
}

/// A 4-bit field value is the nibble it lies in.
pub proof fn lemma_field_is_nibble(bytes: Seq<u8>, i: int)
    requires
        0 <= i,
        i < 2 * bytes.len(),
    ensures
        field_value(bytes, i * 4, 4) as int == nibble(bytes, i) as int,
{
    lemma2_to64();
    reveal_with_fuel(field_value, 5);
    let s = i * 4;
    let b = bytes[i / 2];
    assert(s / 8 == i / 2);
    assert(stream_bit(bytes, s) == ((b >> ((s % 8) as u8)) & 1u8 == 1u8));
    assert(stream_bit(bytes, s + 1) == ((b >> (((s + 1) % 8) as u8)) & 1u8 == 1u8));
    assert(stream_bit(bytes, s + 2) == ((b >> (((s + 2) % 8) as u8)) & 1u8 == 1u8));
    assert(stream_bit(bytes, s + 3) == ((b >> (((s + 3) % 8) as u8)) & 1u8 == 1u8));
    crate::packed::lemma_bit_is_bit(b, 0);
    crate::packed::lemma_bit_is_bit(b, 1);
    crate::packed::lemma_bit_is_bit(b, 2);
    crate::packed::lemma_bit_is_bit(b, 3);
    crate::packed::lemma_bit_is_bit(b, 4);
    crate::packed::lemma_bit_is_bit(b, 5);
    crate::packed::lemma_bit_is_bit(b, 6);
    crate::packed::lemma_bit_is_bit(b, 7);
    assert(field_value(bytes, s, 4) == (if stream_bit(bytes, s) { 1nat } else { 0nat }) + (
    if stream_bit(bytes, s + 1) { 2nat } else { 0nat }) + (if stream_bit(bytes, s + 2) { 4nat } else { 0nat })
        + (if stream_bit(bytes, s + 3) { 8nat } else { 0nat }));
    if i % 2 == 0 {
        assert(s % 8 == 0);
        lemma_low_nibble(b);
    } else {
        assert(s % 8 == 4);
        lemma_high_nibble(b);
    }
}

/// A nibble is saturated exactly when the 4-bit code there is the largest or
/// the smallest code of the grid: `0x7` reads as `+7`, `0x8` as `-8`.
pub proof fn lemma_saturated_is_extreme_code(bytes: Seq<u8>, i: int)
    requires
        0 <= i,
        i < 2 * bytes.len(),
    ensures
        saturated(bytes, i) <==> (code_at(bytes, 4, i) == spec_max_int(4) || code_at(bytes, 4, i)
            == spec_min_int(4)),
{
    lemma2_to64();
    lemma_field_is_nibble(bytes, i);
    crate::packed::lemma_field_bound(bytes, i * 4, 4);
}

} // verus!
