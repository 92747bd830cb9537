//! Single-bit even-parity codec: appending a parity bit to a byte and
//! checking the syndrome of a received codeword.

use vstd::prelude::*;
use crate::bitmath::popcount;
use crate::bitmath::popcount_u8;
use crate::bitmath::popcount_u16;

verus! {

/// The even-parity codeword for `dataword`: the byte shifted up by one,
/// with the parity bit in the least-significant bit of the result.
pub open spec fn spec_even_parity_codeword(dataword: u8) -> u16 {
    (dataword * 2 + popcount(dataword as nat) % 2) as u16
}

/// The syndrome of a received codeword: 1 when the codeword has an odd
/// number of set bits (an error is detected), else 0.
pub open spec fn spec_syndrome(codeword: u16) -> u8 {
    (popcount(codeword as nat) % 2) as u8
}

/// Computes the even-parity codeword for `dataword`: the count of set
/// bits is taken, and a parity bit making the total count even is
/// appended as the least-significant bit below the shifted-up byte.
pub fn compute_even_parity_bit(dataword: u8) -> (codeword: u16)
    ensures
        codeword == spec_even_parity_codeword(dataword),
{
    let set_bits = popcount_u8(dataword);
    let parity_bit: u16 = {
        if set_bits % 2 == 0 {
            0
        } else {
            1
        }
    };
    proof {
        assert(((dataword as u16) << 1u16) | parity_bit == (dataword as u16) * 2 + parity_bit
            && ((dataword as u16) << 1u16) == (dataword as u16) * 2) by (bit_vector)
            requires
                parity_bit <= 1,
        ;
    }
    ((dataword as u16) << 1) | parity_bit
}

/// Returns 1 when `received_codeword` has an odd number of set bits, so
/// that a single-bit transmission error is detected, else 0.
pub fn check_syndrome(received_codeword: u16) -> (syndrome: u8)
    ensures
        syndrome == spec_syndrome(received_codeword),
{
    if popcount_u16(received_codeword) % 2 == 0 {
        0
    } else {
        1
    }
}

/// Checks a received codeword against the value it was computed from:
/// the expected codeword is recomputed from `original` and compared for
/// equality. This is a stricter check than the syndrome alone, which
/// looks at the received codeword only and accepts any even-parity word.
pub fn check_parity_bit(original: u8, received: u16) -> (ok: bool)
    ensures
        ok == (received == spec_even_parity_codeword(original)),
{
    let expected = compute_even_parity_bit(original);
    expected == received
}

/// Parity is xor-homomorphic: the parity of `a ^ b` is the parity of the
/// two population counts added.
proof fn lemma_popcount_xor_parity(a: u16, b: u16)
    ensures
        popcount((a ^ b) as nat) % 2 == (popcount(a as nat) + popcount(b as nat)) % 2,
    decreases a,
{
    if a == 0 {
        assert(0u16 ^ b == b) by (bit_vector);
    } else {
        assert((a ^ b) % 2 == ((a % 2) + (b % 2)) % 2) by (bit_vector);
        assert((a ^ b) / 2 == (a / 2) ^ (b / 2)) by (bit_vector);
        lemma_popcount_xor_parity(a / 2, b / 2);
    }
}

/// A word with exactly one bit set has population count 1.
proof fn lemma_popcount_single_bit(k: u16)
    requires
        k < 16,
    ensures
        popcount((1u16 << k) as nat) == 1,
    decreases k,
{
    if k == 0 {
        assert(1u16 << k == 1) by (bit_vector)
            requires
                k == 0,
        ;
        reveal_with_fuel(popcount, 2);
        assert(popcount(1) == 1);
    } else {
        let x = 1u16 << ((k - 1) as u16);
        assert(1u16 << k == (1u16 << ((k - 1) as u16)) * 2 && (1u16 << k) > 0) by (bit_vector)
            requires
                1 <= k < 16,
        ;
        lemma_popcount_single_bit((k - 1) as u16);
        let c = (1u16 << k) as nat;
        assert(c % 2 == 0 && c / 2 == x as nat);
        assert(popcount(c) == c % 2 + popcount(c / 2));
    }
}

/// Every codeword the even-parity codec produces has syndrome 0: the
/// appended parity bit makes the total count of set bits even.
pub proof fn lemma_clean_codeword_syndrome(dataword: u8)
    ensures
        spec_syndrome(spec_even_parity_codeword(dataword)) == 0,
{
    let d = dataword as nat;
    let p = popcount(d) % 2;
    let c = (2 * d + p) as nat;
    if c > 0 {
        assert(c % 2 == p && c / 2 == d);
    }
}

/// Flipping exactly one bit of a codeword the even-parity codec produced
/// flips its syndrome to 1, so every single-bit error is detected.
pub proof fn lemma_single_bit_flip_detected(dataword: u8, k: u16)
    requires
        k < 16,
    ensures
        spec_syndrome(spec_even_parity_codeword(dataword) ^ (1u16 << k)) == 1,
{
    lemma_clean_codeword_syndrome(dataword);
    lemma_popcount_single_bit(k);
    lemma_popcount_xor_parity(spec_even_parity_codeword(dataword), 1u16 << k);
}

} // verus!
