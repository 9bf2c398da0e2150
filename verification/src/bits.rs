//! Signed code ranges of a bit width.
use vstd::prelude::*;
use vstd::arithmetic::power2::*;

verus! {

/// `2^(bits-1) - 1` as a mathematical integer: the largest code of a `bits`-wide grid.
pub open spec fn spec_max_int(bits: nat) -> int {
    pow2((bits - 1) as nat) - 1
}

/// `-2^(bits-1)`: the smallest code of a `bits`-wide grid.
pub open spec fn spec_min_int(bits: nat) -> int {
    -(pow2((bits - 1) as nat) as int)
}

/// Largest signed integer that fits in `bits` two's-complement bits.
pub fn max_int(bits: u32) -> (r: i32)
    requires
        1 <= bits <= 31,
    ensures
        r == spec_max_int(bits as nat),
{
    let p = pow2_u64(bits - 1);
    proof {
        lemma_pow2_below_31(bits as nat);
    }
    (p - 1) as i32
}

/// Smallest signed integer that fits in `bits` two's-complement bits.
pub fn min_int(bits: u32) -> (r: i32)
    requires
        1 <= bits <= 31,
    ensures
        r == spec_min_int(bits as nat),
{
    let p = pow2_u64(bits - 1);
    proof {
        lemma_pow2_below_31(bits as nat);
    }
    -(p as i32)
}

/// A grid of at most 31 bits has a half-range of at most `2^30`.
pub proof fn lemma_pow2_below_31(bits: nat)
    requires
        1 <= bits <= 31,
    ensures
        1 <= pow2((bits - 1) as nat) <= 0x4000_0000,
{
    lemma2_to64();
    lemma_pow2_pos((bits - 1) as nat);
    if bits < 31 {
        lemma_pow2_strictly_increases((bits - 1) as nat, 30);
    }
}

/// Clamps a rounded code into the signed range of `bits` bits.
pub fn clamp_code(q: i32, bits: u32) -> (r: i32)
    requires
        1 <= bits <= 31,
    ensures
        r == if q < spec_min_int(bits as nat) {
            spec_min_int(bits as nat)
        } else if q > spec_max_int(bits as nat) {
            spec_max_int(bits as nat)
        } else {
            q as int
        },
{
    let lo = min_int(bits);
    let hi = max_int(bits);
    if q < lo {
        lo
    } else if q > hi {
        hi
    } else {
        q
    }
}

/// `2^e` computed by doubling.
pub fn pow2_u64(e: u32) -> (r: u64)
    requires
        e < 64,
    ensures
        r == pow2(e as nat),
{
    let mut r: u64 = 1;
    let mut i: u32 = 0;
    proof {
        lemma2_to64();
    }
    while i < e
        invariant
            i <= e < 64,
            r == pow2(i as nat),
        decreases e - i,
    {
        proof {
            lemma_pow2_unfold((i + 1) as nat);
            lemma_pow2_strictly_increases((i + 1) as nat, 64);
            lemma2_to64_rest();
        }
        r = r * 2;
        i = i + 1;
    }
    r
}

} // verus!
