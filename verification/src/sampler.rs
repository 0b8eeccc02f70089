use vstd::arithmetic::power2::{lemma2_to64, lemma_pow2_pos, lemma_pow2_unfold, pow2};
use vstd::prelude::*;

verus! {

/// The all-ones bit mask covering the bit length of `max`:
/// `2^bit_length(max) - 1`, and `0` when `max` is `0`.
pub open spec fn mask_nat(max: nat) -> nat
    decreases max,
{
    if max == 0 {
        0
    } else {
        2 * mask_nat(max / 2) + 1
    }
}

/// 256 raised to `n`.
pub open spec fn pow256(n: nat) -> nat
    decreases n,
{
    if n == 0 {
        1
    } else {
        256 * pow256((n - 1) as nat)
    }
}

/// The number of whole bytes that contain the bit length of `max`.
pub open spec fn byte_count(max: nat) -> nat {
    if max == 0 {
        0
    } else if max < 0x100 {
        1
    } else if max < 0x10000 {
        2
    } else if max < 0x1000000 {
        3
    } else {
        4
    }
}

/// The value of a byte string read as a little-endian unsigned integer:
/// the first byte is the least significant.
pub open spec fn le_val(bs: Seq<u8>) -> nat
    decreases bs.len(),
{
    if bs.len() == 0 {
        0
    } else {
        (le_val(bs.drop_last()) + bs.last() * pow256((bs.len() - 1) as nat)) as nat
    }
}

/// The outcome of one rejection-sampling round for the inclusive bound `max`
/// on the byte string `bs`: the masked little-endian value when it lies
/// within the bound, nothing when the round rejects it.
pub open spec fn sample_spec(max: u32, bs: Seq<u8>) -> Option<u32> {
    let masked = le_val(bs) % (mask_nat(max as nat) + 1);
    if masked <= max as nat {
        Some(masked as u32)
    } else {
        None
    }
}

/// The mask covers its bound: `max <= mask_nat(max)`, and for a positive
/// bound the mask stays below `2 * max`, which keeps the rejection chance of
/// one sampling round at one half or less.
pub proof fn lemma_mask_bounds(m: nat)
    ensures
        mask_nat(m) >= m,
        m >= 1 ==> mask_nat(m) <= 2 * m - 1,
    decreases m,
{
    if m >= 1 {
        lemma_mask_bounds(m / 2);
    }
}

/// A mask for a bound below `2^k` stays below `2^k`.
proof fn lemma_mask_below_pow2(m: nat, k: nat)
    requires
        m < pow2(k),
    ensures
        mask_nat(m) < pow2(k),
    decreases k,
{
    if m == 0 {
        lemma_pow2_pos(k);
    } else {
        if k == 0 {
            assert(pow2(0) == 1) by {
                lemma2_to64();
            }
        } else {
            lemma_pow2_unfold(k);
            lemma_mask_below_pow2(m / 2, (k - 1) as nat);
        }
    }
}

/// The minimal all-ones bit mask covering `max`, as the sampler applies it
/// to each chunk of entropy bytes.
pub fn bit_mask(max: u32) -> (m: u32)
    ensures
        m as nat == mask_nat(max as nat),
    decreases max,
{
    if max == 0 {
        0
    } else {
        let half = bit_mask(max / 2);
        proof {
            assert(((max / 2) as nat) < pow2(31) && pow2(31) == 0x80000000) by {
                lemma2_to64();
            }
            lemma_mask_below_pow2((max / 2) as nat, 31);
        }
        2 * half + 1
    }
}

/// How many entropy bytes one sampling round for `max` must read.
pub fn needed_bytes(max: u32) -> (n: usize)
    ensures
        n as nat == byte_count(max as nat),
{
    if max == 0 {
        0
    } else if max < 0x100 {
        1
    } else if max < 0x10000 {
        2
    } else if max < 0x1000000 {
        3
    } else {
        4
    }
}

/// Rejection never narrows the range: every value in `[0, max]` is accepted
/// whenever the entropy bytes decode to it, so together with the range bound
/// of `sample_from_bytes` the accepted values are exactly `[0, max]`, each
/// reached by equally many masked byte strings.
pub proof fn lemma_sample_accepts_in_range(max: u32, bs: Seq<u8>)
    requires
        le_val(bs) <= max,
    ensures
        sample_spec(max, bs) == Some((le_val(bs) as u32)),
{
    lemma_mask_bounds(max as nat);
    vstd::arithmetic::div_mod::lemma_small_mod(le_val(bs), mask_nat(max as nat) + 1);
}

/// One rejection-sampling round: read the freshly drawn entropy bytes as a
/// little-endian integer, apply the minimal bit mask covering `max`, and
/// accept the value only when it lies in `[0, max]`.  Rejection keeps the
/// accepted values uniform; reducing modulo `max + 1` instead would bias
/// small values whenever `max + 1` did not divide the byte range evenly.
pub fn sample_from_bytes(max: u32, bytes: &[u8]) -> (r: Option<u32>)
    requires
        bytes@.len() == byte_count(max as nat),
    ensures
        r == sample_spec(max, bytes@),
        r is Some ==> r->0 <= max,
{
    let ghost bs = bytes@;
    let mut v: u64 = 0;
    let mut m: u64 = 1;
    let mut i: usize = 0;
    proof {
        assert(bs.take(0) =~= Seq::<u8>::empty());
    }
    while i < bytes.len()
        invariant
            bs == bytes@,
            i <= bytes@.len(),
            bytes@.len() <= 4,
            v as nat == le_val(bs.take(i as int)),
            m as nat == pow256(i as nat),
            v < m,
            m <= 0x100000000u64,
        decreases bytes@.len() - i,
    {
        let b = bytes[i];
        proof {
            assert(bs.take(i + 1) =~= bs.take(i as int).push(bs[i as int]));
            assert(bs.take(i + 1).drop_last() =~= bs.take(i as int));
            assert((b as nat) * (m as nat) <= 255 * (m as nat)) by (nonlinear_arith)
                requires
                    b <= 255,
                    m >= 0,
            ;
            assert(m as nat <= 0x1000000) by {
                reveal_with_fuel(pow256, 5);
                assert(i <= 3);
            }
        }
        v = v + (b as u64) * m;
        m = m * 256;
        i += 1;
    }
    proof {
        assert(bs.take(bs.len() as int) =~= bs);
    }
    let mask = bit_mask(max);
    let modulus: u64 = (mask as u64) + 1;
    let masked = v % modulus;
    if masked <= max as u64 {
        Some(masked as u32)
    } else {
        None
    }
}

} // verus!
