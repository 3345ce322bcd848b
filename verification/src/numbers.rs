//! What the grammar asks of a number's bit pattern: its negation, and
//! whether it is a whole number that fits a version.

use vstd::prelude::*;
use vstd::arithmetic::power2::{pow2, lemma2_to64, lemma2_to64_rest, lemma_pow2_strictly_increases};
use crate::grammar_model::{unsigned_whole_value, negated_bits};

verus! {

/// The bit pattern of the negated value: the sign bit flipped.
pub fn negate_bits(bits: u64) -> (r: u64)
    ensures
        r == negated_bits(bits),
{
    if bits >= 0x8000_0000_0000_0000 {
        bits - 0x8000_0000_0000_0000
    } else {
        bits + 0x8000_0000_0000_0000
    }
}

/// `Some(value as u32)` when the value with these bits is a whole number not
/// below zero, else `None`.
pub fn unsigned_whole(bits: u64) -> (r: Option<u32>)
    ensures
        r == unsigned_whole_value(bits),
{
    let e: u64 = (bits / 0x10_0000_0000_0000) % 2048;
    let m: u64 = bits % 0x10_0000_0000_0000;
    if e == 2047 {
        None
    } else if e == 0 {
        if m == 0 {
            Some(0)
        } else {
            None
        }
    } else if bits >= 0x8000_0000_0000_0000 {
        None
    } else if e >= 1075 {
        Some(u32::MAX)
    } else {
        proof {
            lemma2_to64();
            lemma2_to64_rest();
        }
        let full: u64 = m + 0x10_0000_0000_0000;
        let shift: u64 = 1075 - e;
        if shift >= 64 {
            proof {
                lemma_pow2_strictly_increases(53, shift as nat);
                assert(full < pow2(shift as nat));
                assert(full as nat % pow2(shift as nat) == full) by (nonlinear_arith)
                    requires
                        full < pow2(shift as nat),
                ;
            }
            None
        } else {
            proof {
                vstd::bits::lemma_u64_pow2_no_overflow(shift as nat);
                vstd::bits::lemma_u64_shl_is_mul(1, shift);
            }
            let d: u64 = 1u64 << shift;
            assert(d == pow2(shift as nat));
            if full % d == 0 {
                let v: u64 = full / d;
                if v > 4294967295 {
                    Some(u32::MAX)
                } else {
                    Some(v as u32)
                }
            } else {
                None
            }
        }
    }
}

} // verus!
