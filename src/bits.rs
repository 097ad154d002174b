//! Bit scanning on bitboards.
use vstd::prelude::*;
use vstd::std_specs::bits::axiom_u64_trailing_zeros;
use crate::defs::{Bitboard, Square, has_bit};

verus! {

/// Finds the lowest set bit of `bitboard`, clears it, and returns its index.
pub fn next(bitboard: &mut Bitboard) -> (square: Square)
    requires
        *old(bitboard) != 0,
    ensures
        square < 64,
        has_bit(*old(bitboard), square as int),
        forall|i: int| 0 <= i < square ==> !has_bit(*old(bitboard), i),
        forall|i: int|
            #![trigger has_bit(*final(bitboard), i)]
            has_bit(*final(bitboard), i) <==> (has_bit(*old(bitboard), i) && i != square),
        *final(bitboard) < *old(bitboard),
{
    proof {
        axiom_u64_trailing_zeros(*bitboard);
    }
    let square = bitboard.trailing_zeros() as Square;
    let ghost b0 = *bitboard;
    *bitboard ^= 1u64 << square;
    proof {
        let s = square as u64;
        let b1 = *bitboard;
        assert forall|i: int| 0 <= i < square implies !has_bit(b0, i) by {
            let j = i as u64;
            assert(j < s);
        }
        assert(b1 == b0 ^ (1u64 << s));
        assert forall|i: int|
            #![trigger has_bit(b1, i)]
            has_bit(b1, i) <==> (has_bit(b0, i) && i != square) by {
            if 0 <= i < 64 {
                let j = i as u64;
                assert(j < 64);
                assert(s < 64);
                assert(((b0 ^ (1u64 << s)) >> j) & 1u64 == 1u64 <==> (((b0 >> j) & 1u64 == 1u64)
                    && j != s) || ((b0 >> j) & 1u64 != 1u64 && j == s)) by (bit_vector)
                    requires
                        j < 64,
                        s < 64,
                ;
            }
        }
        assert(s < 64 && (b0 >> s) & 1u64 == 1u64 ==> b0 ^ (1u64 << s) < b0) by (bit_vector);
    }
    square
}

} // verus!
