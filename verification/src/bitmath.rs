//! Mathematical model of bit streams: significant-bit counts, population
//! counts, and the two chunk-decomposition views that the codecs are
//! specified against.

use vstd::prelude::*;
use vstd::arithmetic::power2::pow2;
use vstd::arithmetic::power2::lemma_pow2_unfold;
use vstd::arithmetic::power2::lemma_pow2_strictly_increases;
use vstd::arithmetic::power2::lemma2_to64;
use vstd::arithmetic::div_mod::lemma_fundamental_div_mod;
use vstd::arithmetic::div_mod::lemma_div_decreases;

verus! {

/// Number of significant bits of `n`: the position of the highest set bit
/// plus one, or 0 when `n == 0`.
pub open spec fn num_bits(n: nat) -> nat
    decreases n,
{
    if n == 0 {
        0
    } else {
        1 + num_bits(n / 2)
    }
}

/// Population count of `n`: how many bits of `n` are set.
pub open spec fn popcount(n: nat) -> nat
    decreases n,
{
    if n == 0 {
        0
    } else {
        n % 2 + popcount(n / 2)
    }
}

/// Population count of a byte.
pub(crate) fn popcount_u8(x: u8) -> (n: u32)
    ensures
        n == popcount(x as nat),
{
    proof {
        lemma_popcount_le(x as nat);
    }
    let mut v: u8 = x;
    let mut n: u32 = 0;
    while v > 0
        invariant
            n + popcount(v as nat) == popcount(x as nat),
            n <= x,
        decreases v,
    {
        proof {
            assert(v % 2 == (v & 1)) by (bit_vector);
            assert(v >> 1 == v / 2) by (bit_vector);
            lemma_popcount_le(x as nat);
        }
        n = n + (v & 1) as u32;
        v = v >> 1;
    }
    n
}

/// Population count of a 16-bit word.
pub(crate) fn popcount_u16(x: u16) -> (n: u32)
    ensures
        n == popcount(x as nat),
{
    proof {
        lemma_popcount_le(x as nat);
    }
    let mut v: u16 = x;
    let mut n: u32 = 0;
    while v > 0
        invariant
            n + popcount(v as nat) == popcount(x as nat),
            n <= x,
        decreases v,
    {
        proof {
            assert(v % 2 == (v & 1)) by (bit_vector);
            assert(v >> 1 == v / 2) by (bit_vector);
            lemma_popcount_le(x as nat);
        }
        n = n + (v & 1) as u32;
        v = v >> 1;
    }
    n
}

/// The population count of `n` never exceeds `n` itself.
pub proof fn lemma_popcount_le(n: nat)
    ensures
        popcount(n) <= n,
    decreases n,
{
    if n > 0 {
        lemma_popcount_le(n / 2);
    }
}

/// A value below `pow2(k)` has at most `k` significant bits.
pub proof fn lemma_num_bits_bound(n: nat, k: nat)
    requires
        n < pow2(k),
    ensures
        num_bits(n) <= k,
    decreases k,
{
    if n > 0 {
        assert(k > 0) by {
            if k == 0 {
                assert(pow2(0) == 1) by {
                    lemma2_to64();
                }
            }
        }
        lemma_pow2_unfold(k);
        lemma_num_bits_bound(n / 2, (k - 1) as nat);
    }
}

/// Chunks of `stream`, `width` bits each, most-significant chunk first, as
/// the mask-loop decomposition extracts them: the low `width` bits are
/// split off repeatedly until the remaining value reaches 0. A stream of 0
/// decomposes into the empty sequence, and no all-zero chunk ever appears
/// above the highest nonzero chunk.
pub open spec fn mask_chunks(stream: nat, width: nat) -> Seq<u16>
    decreases stream,
        when 1 <= width <= 16
        via mask_chunks_decreases
{
    if stream == 0 {
        Seq::empty()
    } else {
        mask_chunks(stream / pow2(width), width).push((stream % pow2(width)) as u16)
    }
}

#[via_fn]
proof fn mask_chunks_decreases(stream: nat, width: nat) {
    if stream > 0 {
        lemma_pow2_strictly_increases(0, width);
        lemma2_to64();
        lemma_div_decreases(stream as int, pow2(width) as int);
    }
}

/// How many `width`-bit chunks the significant-bits decomposition
/// extracts: the significant-bit count of `data`, divided by `width` and
/// rounded up. A stream of 0 has no significant bits and yields no chunk.
pub open spec fn sig_chunk_count(data: nat, width: nat) -> nat
    recommends
        width >= 1,
{
    ((num_bits(data) + width - 1) as nat) / width
}

/// The chunk at position `i` (most-significant chunk first) of the
/// significant-bits decomposition of `data` into `width`-bit chunks.
pub open spec fn sig_chunk_at(data: nat, width: nat, i: int) -> u16
    recommends
        width >= 1,
        0 <= i < sig_chunk_count(data, width),
{
    ((data / pow2(((sig_chunk_count(data, width) - 1 - i) * width) as nat)) % pow2(width)) as u16
}

/// Chunks of `data`, `width` bits each, most-significant chunk first, as
/// the significant-bits decomposition extracts them: exactly
/// `sig_chunk_count` chunks, so a leading all-zero chunk is preserved when
/// the significant-bit count is not a multiple of `width`.
pub open spec fn sig_chunks(data: nat, width: nat) -> Seq<u16>
    recommends
        width >= 1,
{
    Seq::new(sig_chunk_count(data, width), |i: int| sig_chunk_at(data, width, i))
}

/// The stream that a chunk sequence denotes when its chunks are
/// concatenated again, most-significant chunk first, `width` bits each.
pub open spec fn recompose(chunks: Seq<u16>, width: nat) -> nat
    decreases chunks.len(),
{
    if chunks.len() == 0 {
        0
    } else {
        recompose(chunks.drop_last(), width) * pow2(width) + chunks.last() as nat
    }
}

/// Re-concatenating the chunks of the mask-loop decomposition, `width`
/// bits each and most-significant chunk first, reconstructs the stream
/// exactly, for every stream and every width in range.
pub proof fn lemma_mask_chunks_recompose(stream: nat, width: nat)
    requires
        1 <= width <= 16,
    ensures
        recompose(mask_chunks(stream, width), width) == stream,
    decreases stream,
{
    if stream != 0 {
        lemma_pow2_strictly_increases(0, width);
        lemma2_to64();
        lemma_div_decreases(stream as int, pow2(width) as int);
        lemma_mask_chunks_recompose(stream / pow2(width), width);
        let rest = mask_chunks(stream / pow2(width), width);
        let low = (stream % pow2(width)) as u16;
        assert(rest.push(low).drop_last() =~= rest);
        lemma_fundamental_div_mod(stream as int, pow2(width) as int);
    }
}

/// Every chunk of the mask-loop decomposition fits in `width` bits, so a
/// decomposed stream may be handed on to any consumer of width-bounded
/// chunks.
pub proof fn lemma_mask_chunks_bounded(stream: nat, width: nat)
    requires
        1 <= width <= 16,
    ensures
        forall|i: int|
            0 <= i < mask_chunks(stream, width).len() ==> mask_chunks(stream, width)[i] < pow2(
                width,
            ),
    decreases stream,
{
    if stream != 0 {
        lemma_pow2_strictly_increases(0, width);
        lemma2_to64();
        if width < 16 {
            lemma_pow2_strictly_increases(width, 16);
        }
        lemma_div_decreases(stream as int, pow2(width) as int);
        lemma_mask_chunks_bounded(stream / pow2(width), width);
        let rest = mask_chunks(stream / pow2(width), width);
        let low = (stream % pow2(width)) as u16;
        assert(low < pow2(width));
        assert forall|i: int| 0 <= i < mask_chunks(stream, width).len() implies mask_chunks(
            stream,
            width,
        )[i] < pow2(width) by {
            if i < rest.len() {
                assert(mask_chunks(stream, width)[i] == rest[i]);
            } else {
                assert(mask_chunks(stream, width)[i] == low);
            }
        }
    }
}

} // verus!
