//! Two-dimensional parity analysis: a stream is decomposed into
//! fixed-width rows with the significant-bits algorithm, and the rows are
//! read as a conceptual grid whose row and column odd-parity counts
//! estimate how corrupted the stream is.

use vstd::prelude::*;
use vstd::arithmetic::power2::pow2;
use vstd::arithmetic::power2::lemma_pow2_pos;
use vstd::arithmetic::power2::lemma_pow2_strictly_increases;
use vstd::arithmetic::power2::lemma2_to64;
use vstd::arithmetic::power2::lemma2_to64_rest;
use vstd::arithmetic::div_mod::lemma_fundamental_div_mod;
use vstd::bits::low_bits_mask;
use vstd::bits::lemma_u64_shl_is_mul;
use vstd::bits::lemma_u64_shr_is_div;
use vstd::bits::lemma_u64_low_bits_mask_is_mod;
use crate::bitmath::num_bits;
use crate::bitmath::popcount;
use crate::bitmath::popcount_u16;
use crate::bitmath::sig_chunk_count;
use crate::bitmath::sig_chunk_at;
use crate::bitmath::sig_chunks;
use crate::bitmath::lemma_num_bits_bound;
use crate::CodecError;

verus! {

/// How many rows of a chunk sequence have an odd number of set bits.
pub open spec fn row_parity_errors(chunks: Seq<u16>) -> nat
    decreases chunks.len(),
{
    if chunks.len() == 0 {
        0
    } else {
        row_parity_errors(chunks.drop_last()) + popcount(chunks.last() as nat) % 2
    }
}

/// The widest significant-bit count over all rows of a chunk sequence:
/// the number of columns the conceptual parity grid has.
pub open spec fn max_chunk_bits(chunks: Seq<u16>) -> nat
    decreases chunks.len(),
{
    if chunks.len() == 0 {
        0
    } else if max_chunk_bits(chunks.drop_last()) >= num_bits(chunks.last() as nat) {
        max_chunk_bits(chunks.drop_last())
    } else {
        num_bits(chunks.last() as nat)
    }
}

/// How many rows have the bit at position `col` set.
pub open spec fn column_sum(chunks: Seq<u16>, col: nat) -> nat
    decreases chunks.len(),
{
    if chunks.len() == 0 {
        0
    } else {
        column_sum(chunks.drop_last(), col) + (chunks.last() as nat / pow2(col)) % 2
    }
}

/// How many of the columns below `ncols` have an odd number of set bits.
pub open spec fn column_parity_errors_upto(chunks: Seq<u16>, ncols: nat) -> nat
    decreases ncols,
{
    if ncols == 0 {
        0
    } else {
        column_parity_errors_upto(chunks, (ncols - 1) as nat) + column_sum(
            chunks,
            (ncols - 1) as nat,
        ) % 2
    }
}

/// How many columns of the conceptual parity grid have an odd number of
/// set bits, over all columns up to the widest row.
pub open spec fn column_parity_errors(chunks: Seq<u16>) -> nat {
    column_parity_errors_upto(chunks, max_chunk_bits(chunks))
}

/// Number of significant bits of `bits`: the position of the highest set
/// bit plus one, or 0 when `bits == 0`.
pub fn count_bits(bits: u64) -> (n: u8)
    ensures
        n == num_bits(bits as nat),
{
    proof {
        lemma2_to64_rest();
        lemma_num_bits_bound(bits as nat, 64);
    }
    let mut number_of_bits: u8 = 0;
    let mut remaining_bits: u64 = bits;
    while remaining_bits > 0
        invariant
            number_of_bits + num_bits(remaining_bits as nat) == num_bits(bits as nat),
            num_bits(bits as nat) <= 64,
        decreases remaining_bits,
    {
        proof {
            assert(remaining_bits >> 1u64 == remaining_bits / 2) by (bit_vector);
        }
        number_of_bits += 1;
        remaining_bits >>= 1;
    }
    number_of_bits
}

/// Splits `data` into exactly as many `group_size`-bit rows as its
/// significant-bit count requires, most-significant row first. Unlike the
/// mask-loop decomposition, a leading all-zero row is preserved whenever
/// the significant-bit count is not an exact multiple of `group_size`; a
/// stream of 0 has no significant bits and yields no row at all.
pub fn decompose_data_stream(data: u64, group_size: u8) -> (chunks: Vec<u16>)
    requires
        1 <= group_size <= 16,
    ensures
        chunks@ == sig_chunks(data as nat, group_size as nat),
{
    let ghost w = group_size as nat;
    let mut chunks: Vec<u16> = Vec::new();
    proof {
        lemma_pow2_pos(w);
        lemma_pow2_strictly_increases(w, 17);
        lemma2_to64();
        lemma_u64_shl_is_mul(1u64, group_size as u64);
        assert(1u64 << group_size == 1u64 << (group_size as u64)) by (bit_vector);
    }
    let mask: u64 = (1 << group_size) - 1;

    let bits: u8 = count_bits(data);
    proof {
        assert(bits <= 64) by {
            lemma2_to64_rest();
            lemma_num_bits_bound(data as nat, 64);
        }
    }
    let n_chunks: u8 = (bits + group_size - 1) / group_size;
    proof {
        assert(n_chunks as nat == sig_chunk_count(data as nat, w));
        lemma_fundamental_div_mod((bits + group_size - 1) as int, group_size as int);
    }

    let mut i: u8 = n_chunks;
    while i > 0
        invariant
            1 <= group_size <= 16,
            w == group_size as nat,
            mask == low_bits_mask(w),
            pow2(w) <= 0x10000,
            bits == num_bits(data as nat),
            bits <= 64,
            n_chunks as nat == sig_chunk_count(data as nat, w),
            (n_chunks as int) * (group_size as int) <= bits + group_size - 1,
            i <= n_chunks,
            chunks@.len() == n_chunks - i,
            forall|j: int|
                0 <= j < chunks@.len() ==> chunks@[j] == sig_chunk_at(data as nat, w, j),
        decreases i,
    {
        i = i - 1;
        proof {
            assert((i as int) * (group_size as int) <= 63) by (nonlinear_arith)
                requires
                    (n_chunks as int) * (group_size as int) <= bits + group_size - 1,
                    i < n_chunks,
                    1 <= group_size,
                    bits <= 64,
            ;
        }
        let shift: u8 = i * group_size;
        proof {
            lemma_u64_shr_is_div(data, shift as u64);
            assert(data >> shift == data >> (shift as u64)) by (bit_vector);
            lemma_u64_low_bits_mask_is_mod(data >> shift, w);
            lemma_pow2_pos(shift as nat);
        }
        let chunk: u16 = ((data >> shift) & mask) as u16;
        chunks.push(chunk);
        proof {
            assert(chunk == sig_chunk_at(data as nat, w, chunks@.len() - 1));
        }
    }
    proof {
        assert(chunks@ =~= sig_chunks(data as nat, w));
    }
    chunks
}

/// Checked entry point for [`decompose_data_stream`]: rejects a group
/// size of 0 or above 16 with [`CodecError::InvalidWidth`] instead of
/// shifting out of range.
pub fn checked_decompose_data_stream(data: u64, group_size: u8) -> (r: Result<Vec<u16>, CodecError>)
    ensures
        (1 <= group_size <= 16) ==> r is Ok
            && r.unwrap()@ == sig_chunks(data as nat, group_size as nat),
        !(1 <= group_size <= 16) ==> r == Err::<Vec<u16>, CodecError>(CodecError::InvalidWidth),
{
    if group_size == 0 || group_size > 16 {
        Err(CodecError::InvalidWidth)
    } else {
        Ok(decompose_data_stream(data, group_size))
    }
}

/// Counts the rows of the grid whose population count is odd: the number
/// of rows exhibiting a parity error, not the number of corrupted bits.
pub fn count_row_parity_errors(chunks: &Vec<u16>) -> (errors: u8)
    requires
        chunks@.len() <= 255,
    ensures
        errors == row_parity_errors(chunks@),
{
    let mut errors: u8 = 0;
    proof {
        assert(chunks@.subrange(0, 0) =~= Seq::<u16>::empty());
    }
    let n = chunks.len();
    for i in 0..n
        invariant
            n == chunks@.len() <= 255,
            errors == row_parity_errors(chunks@.subrange(0, i as int)),
            errors <= i,
    {
        let p = popcount_u16(chunks[i]);
        errors += (p % 2) as u8;
        proof {
            assert(chunks@.subrange(0, i + 1).drop_last() =~= chunks@.subrange(0, i as int));
        }
    }
    proof {
        assert(chunks@.subrange(0, n as int) =~= chunks@);
    }
    errors
}

/// Counts the columns of the grid whose population count is odd. The
/// grid has as many columns as the widest row has significant bits; each
/// column's bits are summed over all rows and a column counts as one
/// error when that sum is odd.
pub fn count_column_parity_errors(chunks: &Vec<u16>) -> (errors: u8)
    requires
        chunks@.len() <= 255,
    ensures
        errors == column_parity_errors(chunks@),
{
    let mut errors: u8 = 0;
    let n = chunks.len();

    proof {
        assert(chunks@.subrange(0, 0) =~= Seq::<u16>::empty());
    }
    let chunk_size: u8 = {
        let mut max_size: u8 = 0;

        for i in 0..n
            invariant
                n == chunks@.len() <= 255,
                max_size == max_chunk_bits(chunks@.subrange(0, i as int)),
                max_size <= 16,
        {
            let size: u8 = count_bits(chunks[i] as u64);
            proof {
                lemma2_to64();
                lemma_num_bits_bound(chunks@[i as int] as nat, 16);
                assert(chunks@.subrange(0, i + 1).drop_last() =~= chunks@.subrange(0, i as int));
            }
            if size > max_size {
                max_size = size;
            }
        }
        proof {
            assert(chunks@.subrange(0, n as int) =~= chunks@);
        }
        max_size
    };

    let mut bit_index: u8 = 0;
    while bit_index < chunk_size
        invariant
            n == chunks@.len() <= 255,
            bit_index <= chunk_size <= 16,
            chunk_size == max_chunk_bits(chunks@),
            errors == column_parity_errors_upto(chunks@, bit_index as nat),
            errors <= bit_index,
        decreases chunk_size - bit_index,
    {
        let mut total_ones: u8 = 0;
        proof {
            assert(chunks@.subrange(0, 0) =~= Seq::<u16>::empty());
        }
        for i in 0..n
            invariant
                n == chunks@.len() <= 255,
                bit_index < 16,
                total_ones == column_sum(chunks@.subrange(0, i as int), bit_index as nat),
                total_ones <= i,
        {
            let row: u16 = chunks[i];
            proof {
                vstd::bits::lemma_u16_shr_is_div(row, bit_index as u16);
                assert(row >> bit_index == row >> (bit_index as u16)) by (bit_vector);
                assert((row >> (bit_index as u16)) & 0b1 == (row >> (bit_index as u16)) % 2)
                    by (bit_vector);
                assert(chunks@.subrange(0, i + 1).drop_last() =~= chunks@.subrange(0, i as int));
            }
            total_ones += ((row >> bit_index) & 0b1) as u8;
        }
        proof {
            assert(chunks@.subrange(0, n as int) =~= chunks@);
        }
        errors += total_ones % 2;
        bit_index += 1;
    }
    errors
}

/// The combined error indicator of the grid: the larger of the row and
/// column parity-error counts. A heuristic magnitude, not a locator: the
/// row/column intersection is never taken, so no bit position is named.
pub fn count_errors(chunks: &Vec<u16>) -> (errors: u8)
    requires
        chunks@.len() <= 255,
    ensures
        errors == if row_parity_errors(chunks@) >= column_parity_errors(chunks@) {
            row_parity_errors(chunks@)
        } else {
            column_parity_errors(chunks@)
        },
{
    let row_errors = count_row_parity_errors(chunks);
    let column_errors = count_column_parity_errors(chunks);
    if row_errors >= column_errors {
        row_errors
    } else {
        column_errors
    }
}

} // verus!
