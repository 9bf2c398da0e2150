//! The linear congruential generator that fills the throughput benchmark's input.
use vstd::prelude::*;

verus! {

/// Seed of the benchmark's generator.
pub const SEED: u32 = 0x1234_5678;

/// The step of the generator: `seed * 1664525 + 1013904223` modulo `2^32`.
pub open spec fn spec_lcg_next(seed: u32) -> u32 {
    ((seed as int * 1664525 + 1013904223) % 0x1_0000_0000) as u32
}

/// One step of the generator.
pub fn lcg_next(seed: u32) -> (r: u32)
    ensures
        r == spec_lcg_next(seed),
{
    let m = seed.wrapping_mul(1664525);
    let r = m.wrapping_add(1013904223);
    proof {
        let p = seed as int * 1664525;
        let big = 0x1_0000_0000int;
        assert(m as int == p % big);
        vstd::arithmetic::div_mod::lemma_add_mod_noop(p, 1013904223, big);
        vstd::arithmetic::div_mod::lemma_small_mod(1013904223nat, big as nat);
        vstd::arithmetic::div_mod::lemma_mod_pos_bound(p, big);
        if m as int + 1013904223 > u32::MAX {
            vstd::arithmetic::div_mod::lemma_fundamental_div_mod_converse(
                m as int + 1013904223,
                big,
                1,
                m as int + 1013904223 - big,
            );
        } else {
            vstd::arithmetic::div_mod::lemma_small_mod((m as int + 1013904223) as nat, big as nat);
        }
    }
    r
}

} // verus!
