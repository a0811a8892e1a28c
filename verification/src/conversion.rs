//! 256-bit balances and the lossy mantissa/exponent form used for reporting.
//!
//! A balance is reported as `mantissa * 2^exponent`, where the mantissa keeps
//! at most 54 significant bits so that a double-precision float can carry it;
//! the discarded low-order part is less than `2^exponent`.

use vstd::prelude::*;
use vstd::arithmetic::div_mod::{
    lemma_div_denominator, lemma_div_is_ordered, lemma_fundamental_div_mod,
    lemma_fundamental_div_mod_converse, lemma_mod_bound,
};
use vstd::arithmetic::power2::{
    lemma2_to64, lemma2_to64_rest, lemma_pow2_adds, lemma_pow2_pos, lemma_pow2_strictly_increases, pow2,
};

verus! {

/// A 256-bit unsigned integer balance, as two 128-bit halves.
#[derive(Clone, Copy, Debug, PartialEq, Eq, Structural)]
pub struct U256 {
    pub hi: u128,
    pub lo: u128,
}

/// The number a `U256` stands for.
pub open spec fn u256_value(v: U256) -> int {
    v.lo as int + v.hi as int * 0x1_0000_0000_0000_0000_0000_0000_0000_0000int
}

impl U256 {
    pub fn from_u64(x: u64) -> (r: U256)
        ensures
            u256_value(r) == x,
    {
        U256 { hi: 0, lo: x as u128 }
    }

    pub fn new(hi: u128, lo: u128) -> (r: U256)
        ensures
            u256_value(r) == lo as int + hi as int * 0x1_0000_0000_0000_0000_0000_0000_0000_0000int,
    {
        U256 { hi, lo }
    }
}

/// Mantissa and base-2 exponent of a balance, with at most 54 mantissa bits.
///
/// The result is exact (`exponent == 0`) whenever the value fits in 54 bits;
/// otherwise the mantissa is the value shifted right by the exponent, and the
/// exponent is the value's bit length minus 54.
pub fn u256_to_f64_parts(v: U256) -> (r: (u64, u32))
    ensures
        r.0 as int == u256_value(v) / pow2(r.1 as nat) as int,
        r.1 <= 202,
        (r.0 as nat) < pow2(54),
        r.1 == 0 ==> r.0 as int == u256_value(v),
        r.1 != 0 ==> pow2(53) <= r.0 as nat && pow2(54) <= u256_value(v),
{
    let ghost val: int = u256_value(v);
    let mut hi: u128 = v.hi;
    let mut lo: u128 = v.lo;
    let mut e: u32 = 0;
    proof {
        lemma2_to64();
        lemma2_to64_rest();
        assert(val / pow2(0) as int == val) by {
            assert(pow2(0) == 1);
        }
    }
    while hi != 0 || lo >= 0x40_0000_0000_0000
        invariant
            val == u256_value(v),
            val >= 0,
            lo as int + hi as int * 0x1_0000_0000_0000_0000_0000_0000_0000_0000int == val / pow2(
                e as nat,
            ) as int,
            e <= 202,
            e != 0 ==> pow2(53) as int <= lo as int + hi as int * 0x1_0000_0000_0000_0000_0000_0000_0000_0000int,
            e != 0 ==> pow2(54) <= val,
        decreases lo as int + hi as int * 0x1_0000_0000_0000_0000_0000_0000_0000_0000int,
    {
        let ghost p128: int = 0x1_0000_0000_0000_0000_0000_0000_0000_0000int;
        let ghost cur: int = lo as int + hi as int * p128;
        let new_lo: u128 = lo / 2 + (hi % 2) * 0x8000_0000_0000_0000_0000_0000_0000_0000;
        let new_hi: u128 = hi / 2;
        proof {
            lemma2_to64();
            lemma2_to64_rest();
            lemma_pow2_pos(e as nat);
            let new: int = new_lo as int + new_hi as int * p128;
            // The pair (new_hi, new_lo) stands for exactly half of cur.
            assert(cur == 2 * new + (lo as int % 2)) by {
                lemma_fundamental_div_mod(lo as int, 2);
                lemma_fundamental_div_mod(hi as int, 2);
            }
            lemma_fundamental_div_mod_converse(cur, 2, new, lo as int % 2);
            assert(new == cur / 2);
            // Halving once more divides the original value by the next power of two.
            lemma_div_denominator(val, pow2(e as nat) as int, 2);
            assert(pow2(e as nat) * 2 == pow2(e as nat + 1)) by {
                lemma_pow2_adds(e as nat, 1);
            }
            assert(new == val / pow2(e as nat + 1) as int);
            // The loop was entered, so the running value has at least 55 bits.
            assert(cur >= pow2(54));
            // Bound the exponent: val >= pow2(e + 54) and val < pow2(256).
            assert(val >= pow2(e as nat) * cur) by {
                lemma_fundamental_div_mod(val, pow2(e as nat) as int);
                lemma_mod_bound(val, pow2(e as nat) as int);
            }
            assert(pow2(e as nat) * cur >= pow2(e as nat) * pow2(54)) by (nonlinear_arith)
                requires
                    cur >= pow2(54),
                    pow2(e as nat) > 0,
            ;
            lemma_pow2_adds(e as nat, 54);
            assert(val >= pow2(e as nat + 54));
            assert(pow2(128) == 0x1_0000_0000_0000_0000_0000_0000_0000_0000int) by {
                lemma_pow2_adds(64, 64);
            }
            assert(pow2(256)
                == 0x1_0000_0000_0000_0000_0000_0000_0000_0000_0000_0000_0000_0000_0000_0000_0000_0000int) by {
                lemma_pow2_adds(128, 128);
            }
            assert(val < pow2(256));
            if e as nat + 54 >= 256 {
                if e as nat + 54 > 256 {
                    lemma_pow2_strictly_increases(256, e as nat + 54);
                }
                assert(false);
            }
            assert(e + 1 <= 202);
            // The halved value keeps at least 54 bits' worth of magnitude.
            assert(new >= pow2(53)) by {
                lemma_div_is_ordered(pow2(54) as int, cur, 2);
                assert(pow2(54) as int / 2 == pow2(53)) by {
                    lemma_pow2_adds(53, 1);
                }
            }
            assert(new < cur);
        }
        lo = new_lo;
        hi = new_hi;
        e = e + 1;
    }
    proof {
        lemma2_to64();
        lemma2_to64_rest();
        assert((lo as nat) < pow2(54));
    }
    (lo as u64, e)
}

/// The reported form loses less than one unit in the last kept bit: for a
/// mantissa `m == v / 2^e`, the exact value `v` satisfies
/// `m * 2^e <= v < m * 2^e + 2^e`.
pub proof fn lemma_conversion_error_bound(v: int, m: int, e: nat)
    requires
        v >= 0,
        m == v / pow2(e) as int,
    ensures
        m * pow2(e) <= v,
        v - m * pow2(e) < pow2(e),
{
    lemma_pow2_pos(e);
    lemma_fundamental_div_mod(v, pow2(e) as int);
    lemma_mod_bound(v, pow2(e) as int);
}

} // verus!
