//! A ripple-carry adder: addition built from bitwise operations alone,
//! one bit per step with an explicit carry.

use vstd::prelude::*;

verus! {

/// Adds two numbers bit by bit, carrying as a circuit would: the result is
/// the sum modulo two to the word width.
pub fn adder(a: u32, b: u32) -> (r: u32)
    ensures
        r as int == ((a as int) + (b as int)) % 0x1_0000_0000,
{
    let mut result: u32 = 0;
    let mut carry: u32 = 0;
    let mut i: u32 = 0;
    proof {
        assert((0u64) + ((0u64) << 0u64) == ((a as u64) & vstd::prelude::sub(1u64 << 0u64, 1u64))
            + ((b as u64) & vstd::prelude::sub(1u64 << 0u64, 1u64)) && (0u64)
            & vstd::prelude::sub(1u64 << 0u64, 1u64) == 0u64) by (bit_vector);
    }
    while i < 32
        invariant
            i <= 32,
            carry <= 1,
            (result as u64) + ((carry as u64) << (i as u64)) == ((a as u64) & vstd::prelude::sub(
                1u64 << (i as u64),
                1u64,
            )) + ((b as u64) & vstd::prelude::sub(1u64 << (i as u64), 1u64)),
            (result as u64) & vstd::prelude::sub(1u64 << (i as u64), 1u64) == (result as u64),
        decreases 32 - i,
    {
        let a_bit: u32 = (a >> i) & 1;
        let b_bit: u32 = (b >> i) & 1;
        let res_bit: u32 = a_bit ^ b_bit ^ carry;
        let new_result: u32 = result | (res_bit << i);
        let new_carry: u32 = (a_bit & b_bit) | ((a_bit | b_bit) & carry);
        proof {
            let iw = i as u64;
            assert((new_result as u64) + ((new_carry as u64) << ((i + 1) as u64)) == ((a as u64)
                & vstd::prelude::sub(1u64 << ((i + 1) as u64), 1u64)) + ((b as u64)
                & vstd::prelude::sub(1u64 << ((i + 1) as u64), 1u64)) && (new_result as u64)
                & vstd::prelude::sub(1u64 << ((i + 1) as u64), 1u64) == (new_result as u64)
                && new_carry <= 1) by (bit_vector)
                requires
                    i < 32,
                    carry <= 1,
                    a_bit == (a >> i) & 1,
                    b_bit == (b >> i) & 1,
                    res_bit == a_bit ^ b_bit ^ carry,
                    new_result == result | (res_bit << i),
                    new_carry == (a_bit & b_bit) | ((a_bit | b_bit) & carry),
                    (result as u64) + ((carry as u64) << (i as u64)) == ((a as u64)
                        & vstd::prelude::sub(1u64 << (i as u64), 1u64)) + ((b as u64)
                        & vstd::prelude::sub(1u64 << (i as u64), 1u64)),
                    (result as u64) & vstd::prelude::sub(1u64 << (i as u64), 1u64) == (
                    result as u64),
            ;
        }
        result = new_result;
        carry = new_carry;
        i = i + 1;
    }
    proof {
        assert((result as u64) == vstd::prelude::add(a as u64, b as u64) % 0x1_0000_0000u64) by (bit_vector)
            requires
                carry <= 1,
                (result as u64) + ((carry as u64) << 32u64) == ((a as u64) & vstd::prelude::sub(
                    1u64 << 32u64,
                    1u64,
                )) + ((b as u64) & vstd::prelude::sub(1u64 << 32u64, 1u64)),
        ;
        assert(vstd::prelude::add(a as u64, b as u64) == (a as int) + (b as int));
        assert((vstd::prelude::add(a as u64, b as u64) % 0x1_0000_0000u64) as int == ((a as int)
            + (b as int)) % 0x1_0000_0000);
    }
    result
}

} // verus!
