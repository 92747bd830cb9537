//! Fixed-generator cyclic redundancy check. The codes here are defined by
//! integer modulo arithmetic (addition, subtraction, remainder), not by
//! carry-less GF(2) polynomial division; codewords match only under that
//! reading.

use vstd::prelude::*;
use vstd::arithmetic::power2::lemma2_to64;
use vstd::bits::lemma_u16_shl_is_mul;
use vstd::bits::lemma_u8_shl_is_mul;
use vstd::bits::lemma_u8_shr_is_div;

verus! {

/// The codeword for a 4-bit `data` value under the 3-bit generator
/// `0b1011`: `data` is padded with 3 zero low bits and the generator's
/// complement of the padding remainder is added. When the remainder is
/// already 0 the formula adds a full generator rather than 0, so that one
/// case produces a codeword larger than the padded data plus the
/// generator would suggest; the behaviour is kept exactly as stated.
pub fn generate_crc_3_gsm(data: u8) -> (codeword: u16)
    ensures
        codeword == (data as int) * 8 + 11 - ((data as int) * 8) % 11,
{
    let padding: u16 = 3;
    let generator: u16 = 0b1011;

    proof {
        lemma2_to64();
        lemma_u16_shl_is_mul(data as u16, 3);
    }
    let padded_data: u16 = (data as u16) << padding;
    let remainder: u16 = padded_data % generator;

    padded_data + (generator - remainder)
}

/// The remainder of `message` modulo the fixed generator `0b1011`. A
/// clean codeword from [`generate_crc_3_gsm`] leaves the fixed remainder
/// that the generation formula's rounding produces, not necessarily 0.
pub fn verify_crc_3_gsm(message: u16) -> (remainder: u8)
    ensures
        remainder == (message as int) % 11,
{
    let generator: u16 = 0b1011;

    (message % generator) as u8
}

/// Splits `message` into a 3-bit low crc field and a high data field,
/// recomputes the remainder of the re-padded data modulo `generator`, and
/// reports whether it matches the embedded crc field. This check is
/// defined on its own; no round trip with [`generate_crc_3_gsm`] is
/// implied.
pub fn verify_weird_crc(message: &u8, generator: u8) -> (ok: bool)
    requires
        generator != 0,
    ensures
        ok == ((*message as int) % 8 == (((*message as int) / 8) * 8) % (generator as int)),
{
    proof {
        lemma2_to64();
        assert(*message & 0b111 == *message % 8) by (bit_vector);
        lemma_u8_shr_is_div(*message, 3);
        lemma_u8_shl_is_mul(*message / 8, 3);
    }
    let crc: u8 = *message & 0b111;
    let data: u8 = *message >> 3;

    let padded_data: u8 = data << 3;
    let remainder: u8 = padded_data % generator;

    crc == remainder
}

} // verus!
