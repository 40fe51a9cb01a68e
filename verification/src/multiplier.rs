//! A shift-add multiplier: multiplication built from the ripple-carry adder
//! and bit shifts, adding one shifted partial product per set bit.

use vstd::prelude::*;
use vstd::arithmetic::power2::{
    pow2, lemma_pow2_adds, lemma_pow2_pos, lemma_pow2_strictly_increases, lemma2_to64,
};
use vstd::arithmetic::div_mod::{lemma_add_mod_noop, lemma_mod_breakdown, lemma_small_mod};
use vstd::arithmetic::mul::{lemma_mul_is_distributive_add, lemma_mul_upper_bound};
use vstd::bits::{
    low_bits_mask, lemma_low_bits_mask_values, lemma_u32_low_bits_mask_is_mod,
    lemma_u32_shr_is_div, lemma_u64_shl_is_mul,
};
use crate::adder::adder;

verus! {

/// Multiplies two numbers by shifts and adds: for every set bit of the
/// second factor, the first factor shifted by that bit's position is added.
/// The result is the product modulo two to the word width.
pub fn multiplier(a: u32, b: u32) -> (r: u32)
    ensures
        r as int == ((a as int) * (b as int)) % 0x1_0000_0000,
{
    let mut result: u32 = 0;
    if b & 1 == 1 {
        result = a;
    }
    proof {
        lemma2_to64();
        lemma_low_bits_mask_values();
        lemma_u32_low_bits_mask_is_mod(b, 1);
        assert(pow2(1) == 2);
        assert(low_bits_mask(1) == 1);
        assert((b & 1u32) == b % 2u32);
        if b & 1 == 1 {
            lemma_small_mod(a as nat, 0x1_0000_0000);
            assert((b as nat) % pow2(1) == 1);
            assert(result as int == ((a as int) * 1) % 0x1_0000_0000);
        } else {
            lemma_small_mod(0, 0x1_0000_0000);
            assert((b as nat) % pow2(1) == 0);
            assert(result as int == ((a as int) * 0) % 0x1_0000_0000);
        }
    }
    let mut i: u32 = 1;
    while i < 32
        invariant
            1 <= i <= 32,
            result as int == ((a as int) * (((b as nat) % pow2(i as nat)) as int))
                % 0x1_0000_0000,
        decreases 32 - i,
    {
        let bit = (b >> i) & 1;
        proof {
            lemma2_to64();
            lemma_low_bits_mask_values();
            lemma_u32_shr_is_div(b, i);
            lemma_u32_low_bits_mask_is_mod(b >> i, 1);
            lemma_pow2_pos(i as nat);
            lemma_pow2_adds(i as nat, 1);
            lemma_mod_breakdown(b as int, pow2(i as nat) as int, 2);
            assert((b as nat) % pow2((i + 1) as nat) == pow2(i as nat) * (((b as nat) / pow2(
                i as nat,
            )) % 2) + (b as nat) % pow2(i as nat));
            assert((b >> i) as nat == (b as nat) / pow2(i as nat));
            assert(bit as nat == ((b as nat) / pow2(i as nat)) % 2);
            vstd::arithmetic::mul::lemma_mul_basics(pow2(i as nat) as int);
            if bit != 1 {
                assert((b as nat) % pow2((i + 1) as nat) == (b as nat) % pow2(i as nat));
            }
        }
        if bit == 1 {
            let shifted = a << i;
            proof {
                lemma2_to64();
                if (i as nat) < 31 {
                    lemma_pow2_strictly_increases(i as nat, 31);
                }
                lemma_mul_upper_bound(a as int, 0xFFFF_FFFF, pow2(i as nat) as int, 0x8000_0000);
                lemma_u64_shl_is_mul(a as u64, i as u64);
                assert((shifted as u64) == ((a as u64) << (i as u64)) % 0x1_0000_0000u64)
                    by (bit_vector)
                    requires
                        shifted == a << i,
                        i < 32u32,
                ;
            }
            let new_result = adder(result, shifted);
            proof {
                let am = 0x1_0000_0000int;
                let av = a as int;
                let m0 = ((b as nat) % pow2(i as nat)) as int;
                let p = pow2(i as nat) as int;
                let v: int = ((a as u64) << (i as u64)) as int;
                assert(v == av * p);
                assert(shifted as int == v % am);
                assert(shifted as int == (av * p) % am);
                assert(new_result as int == ((av * m0) % am + (av * p) % am) % am);
                lemma_add_mod_noop(av * m0, av * p, am);
                lemma_mul_is_distributive_add(av, m0, p);
                assert((b as nat) % pow2((i + 1) as nat) == p + m0);
                assert(new_result as int == (av * (((b as nat) % pow2((i + 1) as nat)) as int))
                    % am);
            }
            result = new_result;
        }
        i = i + 1;
    }
    proof {
        lemma2_to64();
        lemma_small_mod(b as nat, pow2(32));
    }
    result
}

} // verus!
