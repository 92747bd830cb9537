//! Fold-and-complement checksum over a chunked bit stream: mask-loop
//! stream decomposition, and the end-around-carry checksum used to verify
//! a transmission.

use vstd::prelude::*;
use vstd::arithmetic::power2::pow2;
use vstd::arithmetic::power2::lemma_pow2_pos;
use vstd::arithmetic::power2::lemma_pow2_strictly_increases;
use vstd::arithmetic::power2::lemma2_to64;
use vstd::bits::low_bits_mask;
use vstd::bits::lemma_u64_shl_is_mul;
use vstd::bits::lemma_u64_shr_is_div;
use vstd::bits::lemma_u64_low_bits_mask_is_mod;
use vstd::bits::lemma_u16_shl_is_mul;
use vstd::bits::lemma_u16_shr_is_div;
use vstd::bits::lemma_u16_low_bits_mask_is_mod;
use crate::bitmath::mask_chunks;
use crate::CodecError;

verus! {

/// One end-around-carry step: add `chunk` to `acc`, then fold the bits
/// above `width` back into the low `width` bits.
pub open spec fn fold_carry(acc: nat, chunk: nat, width: nat) -> nat
    recommends
        width >= 1,
{
    (acc + chunk) % pow2(width) + (acc + chunk) / pow2(width)
}

/// The running end-around-carry sum after consuming every chunk of
/// `chunks` in order, starting from 0.
pub open spec fn fold_chunks(chunks: Seq<u16>, width: nat) -> nat
    recommends
        width >= 1,
    decreases chunks.len(),
{
    if chunks.len() == 0 {
        0
    } else {
        fold_carry(fold_chunks(chunks.drop_last(), width), chunks.last() as nat, width)
    }
}

/// The checksum verdict over `chunks`: the bitwise complement, masked to
/// `width` bits, of the folded sum. 0 signals "no error detected".
pub open spec fn spec_verify_checksum(chunks: Seq<u16>, width: nat) -> nat
    recommends
        width >= 1,
{
    (pow2(width) - 1 - fold_chunks(chunks, width) % pow2(width)) as nat
}

/// Splits `stream` into `chunk_length`-bit chunks, most-significant chunk
/// first, by repeatedly extracting the low bits until the remaining value
/// reaches 0. A stream of 0 yields an empty sequence, and all-zero chunks
/// above the highest nonzero chunk are dropped.
pub fn decompose_stream(stream: u64, chunk_length: u16) -> (chunks: Vec<u16>)
    requires
        1 <= chunk_length <= 16,
    ensures
        chunks@ == mask_chunks(stream as nat, chunk_length as nat),
{
    let ghost w = chunk_length as nat;
    let mut chunks: Vec<u16> = Vec::new();
    let mut remaining_bits: u64 = stream;
    proof {
        lemma_pow2_pos(w);
        lemma_pow2_strictly_increases(w, 17);
        lemma2_to64();
        lemma_u64_shl_is_mul(1u64, chunk_length as u64);
        assert(0b1u64 << chunk_length == 1u64 << (chunk_length as u64)) by (bit_vector);
    }
    let mask: u64 = (0b1 << chunk_length) - 1;
    proof {
        assert(mask == low_bits_mask(w));
        assert(mask_chunks(stream as nat, w) =~= mask_chunks(remaining_bits as nat, w)
            + chunks@.reverse());
    }
    while remaining_bits > 0
        invariant
            1 <= chunk_length <= 16,
            w == chunk_length as nat,
            mask == low_bits_mask(w),
            mask_chunks(stream as nat, w) == mask_chunks(remaining_bits as nat, w)
                + chunks@.reverse(),
        decreases remaining_bits,
    {
        let ghost prev_rem = remaining_bits as nat;
        let ghost prev_chunks = chunks@;
        proof {
            lemma_u64_low_bits_mask_is_mod(remaining_bits, w);
            lemma_pow2_pos(w);
            lemma_pow2_strictly_increases(w, 17);
            lemma2_to64();
        }
        let chunk: u16 = (remaining_bits & mask) as u16;
        chunks.push(chunk);
        proof {
            lemma_u64_shr_is_div(remaining_bits, chunk_length as u64);
            assert(remaining_bits >> chunk_length == remaining_bits >> (chunk_length as u64))
                by (bit_vector);
        }
        remaining_bits >>= chunk_length;
        proof {
            assert(remaining_bits as nat == prev_rem / pow2(w));
            assert(mask_chunks(prev_rem, w)
                == mask_chunks(remaining_bits as nat, w).push(chunk));
            assert(chunks@.reverse() =~= seq![chunk] + prev_chunks.reverse());
            assert(mask_chunks(remaining_bits as nat, w).push(chunk) + prev_chunks.reverse()
                =~= mask_chunks(remaining_bits as nat, w) + chunks@.reverse());
        }
    }
    let chunks = reversed(&chunks);
    proof {
        assert(mask_chunks(0, w) + chunks@.reverse() =~= chunks@.reverse());
        assert(chunks@.reverse().reverse() =~= chunks@);
        assert(chunks@ =~= mask_chunks(stream as nat, w));
    }
    chunks
}

/// A copy of `v` with the chunk order reversed.
fn reversed(v: &Vec<u16>) -> (r: Vec<u16>)
    ensures
        r@ == v@.reverse(),
{
    let mut r: Vec<u16> = Vec::new();
    let mut i: usize = v.len();
    while i > 0
        invariant
            i <= v@.len(),
            r@.len() == v@.len() - i,
            forall|j: int| 0 <= j < r@.len() ==> r@[j] == v@[v@.len() - 1 - j],
        decreases i,
    {
        i = i - 1;
        let x: u16 = v[i];
        r.push(x);
    }
    proof {
        assert(r@ =~= v@.reverse());
    }
    r
}

/// Folds every chunk into an end-around-carry sum and returns the bitwise
/// complement of the sum, masked to `chunk_length` bits. Recomputing the
/// checksum over data chunks together with their appended checksum chunk
/// yields 0 on a clean transmission; any nonzero result signals a
/// detected corruption.
pub fn verify_checksum(chunks: Vec<u16>, chunk_length: u8) -> (r: u8)
    requires
        1 <= chunk_length <= 8,
        chunks@.len() >= 1,
        forall|i: int| 0 <= i < chunks@.len() ==> chunks@[i] < pow2(chunk_length as nat),
    ensures
        r == spec_verify_checksum(chunks@, chunk_length as nat),
{
    let ghost w = chunk_length as nat;
    let mut checksum: u16 = 0;
    proof {
        lemma_pow2_pos(w);
        lemma_pow2_strictly_increases(0, w);
        lemma_pow2_strictly_increases(w, 9);
        lemma2_to64();
        lemma_u16_shl_is_mul(1u16, chunk_length as u16);
        assert(0b1u16 << chunk_length == 1u16 << (chunk_length as u16)) by (bit_vector);
    }
    let mask: u16 = (0b1 << chunk_length) - 1;
    proof {
        assert(mask == low_bits_mask(w));
        assert(chunks@.subrange(0, 0) =~= Seq::<u16>::empty());
    }
    let n = chunks.len();
    for i in 0..n
        invariant
            n == chunks@.len(),
            1 <= chunk_length <= 8,
            w == chunk_length as nat,
            mask == low_bits_mask(w),
            mask == pow2(w) - 1,
            2 <= pow2(w) <= 256,
            forall|k: int| 0 <= k < chunks@.len() ==> chunks@[k] < pow2(w),
            checksum as nat == fold_chunks(chunks@.subrange(0, i as int), w),
            checksum <= mask + 2,
    {
        let ghost prefix = chunks@.subrange(0, i as int);
        let ghost acc = checksum as nat;
        checksum = checksum + chunks[i];
        let ghost total = checksum as nat;
        proof {
            lemma_u16_shr_is_div(checksum, chunk_length as u16);
            assert(checksum >> chunk_length == checksum >> (chunk_length as u16))
                by (bit_vector);
        }
        let overflow: u16 = checksum >> chunk_length;
        proof {
            lemma_u16_low_bits_mask_is_mod(checksum, w);
            assert(total / pow2(w) <= 2 && total % pow2(w) < pow2(w)) by (nonlinear_arith)
                requires
                    total <= 2 * pow2(w),
                    pow2(w) >= 2,
            ;
        }
        checksum = (checksum & mask) + overflow;
        proof {
            assert(checksum as nat == fold_carry(acc, chunks@[i as int] as nat, w));
            assert(chunks@.subrange(0, i + 1).drop_last() =~= prefix);
            assert(chunks@.subrange(0, i + 1).last() == chunks@[i as int]);
        }
    }
    proof {
        assert(chunks@.subrange(0, n as int) =~= chunks@);
        assert(!checksum & mask == mask - (checksum & mask)) by (bit_vector);
        lemma_u16_low_bits_mask_is_mod(checksum, w);
    }
    (!checksum & mask) as u8
}

/// The folded sum of width-bounded chunks never exceeds the `width`-bit
/// mask: every end-around-carry step folds the overflow back below it.
proof fn lemma_fold_chunks_le_mask(chunks: Seq<u16>, width: nat)
    requires
        1 <= width,
        forall|i: int| 0 <= i < chunks.len() ==> chunks[i] < pow2(width),
    ensures
        fold_chunks(chunks, width) <= pow2(width) - 1,
    decreases chunks.len(),
{
    lemma_pow2_strictly_increases(0, width);
    lemma2_to64();
    if chunks.len() > 0 {
        assert(forall|i: int|
            0 <= i < chunks.drop_last().len() ==> chunks.drop_last()[i] < pow2(width));
        lemma_fold_chunks_le_mask(chunks.drop_last(), width);
        let s = fold_chunks(chunks.drop_last(), width);
        let c = s + chunks.last() as nat;
        let p = pow2(width);
        assert(c % p + c / p <= p - 1) by (nonlinear_arith)
            requires
                c <= 2 * p - 2,
                p >= 2,
        ;
    }
}

/// Appending the checksum of a width-bounded chunk sequence as one more
/// chunk and recomputing the checksum over the whole sequence yields 0:
/// a clean transmission always passes verification.
pub proof fn lemma_appended_checksum_verifies(chunks: Seq<u16>, width: nat)
    requires
        1 <= width <= 8,
        forall|i: int| 0 <= i < chunks.len() ==> chunks[i] < pow2(width),
    ensures
        spec_verify_checksum(
            chunks.push(spec_verify_checksum(chunks, width) as u16),
            width,
        ) == 0,
{
    lemma_pow2_strictly_increases(0, width);
    lemma_pow2_strictly_increases(width, 9);
    lemma2_to64();
    lemma_fold_chunks_le_mask(chunks, width);
    let p = pow2(width);
    let s = fold_chunks(chunks, width);
    let k = spec_verify_checksum(chunks, width);
    vstd::arithmetic::div_mod::lemma_small_mod(s, p);
    assert(s % p == s && k == p - 1 - s);
    let all = chunks.push(k as u16);
    assert(all.drop_last() =~= chunks);
    assert(fold_chunks(all, width) == (p - 1) as nat % p + (p - 1) as nat / p);
    vstd::arithmetic::div_mod::lemma_small_mod((p - 1) as nat, p);
    vstd::arithmetic::div_mod::lemma_basic_div((p - 1) as int, p as int);
    assert((p - 1) as nat % p == p - 1 && (p - 1) as nat / p == 0);
}

/// Checked entry point for [`decompose_stream`]: rejects a chunk width of
/// 0 or above 16 with [`CodecError::InvalidWidth`] instead of shifting
/// out of range.
pub fn checked_decompose_stream(stream: u64, chunk_length: u16) -> (r: Result<
    Vec<u16>,
    CodecError,
>)
    ensures
        (1 <= chunk_length <= 16) ==> r is Ok
            && r.unwrap()@ == mask_chunks(stream as nat, chunk_length as nat),
        !(1 <= chunk_length <= 16) ==> r == Err::<Vec<u16>, CodecError>(CodecError::InvalidWidth),
{
    if chunk_length == 0 || chunk_length > 16 {
        Err(CodecError::InvalidWidth)
    } else {
        Ok(decompose_stream(stream, chunk_length))
    }
}

/// Checked entry point for [`verify_checksum`]: rejects a chunk width of
/// 0 or above 8 (above 8 the verdict would be truncated when narrowed to
/// 8 bits), an empty chunk sequence, and a chunk that does not fit in the
/// chunk width, instead of folding corrupted values silently.
pub fn checked_verify_checksum(chunks: Vec<u16>, chunk_length: u8) -> (r: Result<u8, CodecError>)
    ensures
        !(1 <= chunk_length <= 8) ==> r == Err::<u8, CodecError>(CodecError::InvalidWidth),
        (1 <= chunk_length <= 8 && chunks@.len() == 0) ==> r == Err::<u8, CodecError>(
            CodecError::EmptyChunkSequence,
        ),
        (1 <= chunk_length <= 8 && chunks@.len() >= 1 && (exists|i: int|
            0 <= i < chunks@.len() && chunks@[i] >= pow2(chunk_length as nat))) ==> r == Err::<
            u8,
            CodecError,
        >(CodecError::OversizedChunk),
        (1 <= chunk_length <= 8 && chunks@.len() >= 1 && (forall|i: int|
            0 <= i < chunks@.len() ==> chunks@[i] < pow2(chunk_length as nat))) ==> r is Ok
            && r.unwrap() == spec_verify_checksum(chunks@, chunk_length as nat),
{
    if chunk_length == 0 || chunk_length > 8 {
        return Err(CodecError::InvalidWidth);
    }
    if chunks.len() == 0 {
        return Err(CodecError::EmptyChunkSequence);
    }
    proof {
        lemma_pow2_pos(chunk_length as nat);
        lemma_pow2_strictly_increases(chunk_length as nat, 9);
        lemma2_to64();
        lemma_u16_shl_is_mul(1u16, chunk_length as u16);
        assert(0b1u16 << chunk_length == 1u16 << (chunk_length as u16)) by (bit_vector);
    }
    let mask: u16 = (0b1 << chunk_length) - 1;
    let n = chunks.len();
    for i in 0..n
        invariant
            n == chunks@.len(),
            1 <= chunk_length <= 8,
            mask == pow2(chunk_length as nat) - 1,
            forall|k: int| 0 <= k < i ==> chunks@[k] < pow2(chunk_length as nat),
    {
        if chunks[i] > mask {
            return Err(CodecError::OversizedChunk);
        }
    }
    Ok(verify_checksum(chunks, chunk_length))
}

} // verus!
