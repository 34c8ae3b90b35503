//! Arithmetic facts shared by the sample and transform modules: arithmetic
//! shifts are floor divisions, and the low bits are the matching remainder.
use vstd::prelude::*;

verus! {

/// `v` clamped to `lo..=hi`.
pub open spec fn clip3(lo: int, hi: int, v: int) -> int {
    if v < lo {
        lo
    } else if v > hi {
        hi
    } else {
        v
    }
}

/// An arithmetic right shift of an `i32` is a floor division by the power of
/// two, and masking the low bits is the matching remainder.
pub proof fn lemma_shift_i32(x: i32)
    ensures
        (x >> 1) as int == x as int / 2,
        (x >> 2) as int == x as int / 4,
        (x >> 3) as int == x as int / 8,
        (x >> 4) as int == x as int / 16,
        (x >> 5) as int == x as int / 32,
        (x >> 6) as int == x as int / 64,
        (x >> 10) as int == x as int / 1024,
        (x & 1) as int == x as int % 2,
        (x & 3) as int == x as int % 4,
        (x & 7) as int == x as int % 8,
{
    assert({
        &&& x == 2 * (x >> 1) + (x & 1) && 0 <= (x & 1) < 2
        &&& x == 4 * (x >> 2) + (x & 3) && 0 <= (x & 3) < 4
        &&& x == 8 * (x >> 3) + (x & 7) && 0 <= (x & 7) < 8
        &&& x == 16 * (x >> 4) + (x & 15) && 0 <= (x & 15) < 16
        &&& x == 32 * (x >> 5) + (x & 31) && 0 <= (x & 31) < 32
        &&& x == 64 * (x >> 6) + (x & 63) && 0 <= (x & 63) < 64
        &&& x == 1024 * (x >> 10) + (x & 1023) && 0 <= (x & 1023) < 1024
    }) by (bit_vector);
}

/// Division rounding towards negative infinity.
pub fn floor_div(a: i32, d: i32) -> (q: i32)
    requires
        d > 0,
    ensures
        q == a as int / d as int,
{
    if a >= 0 {
        a / d
    } else {
        let q: i32 = (-(a + 1)) / d;
        proof {
            let n = -(a + 1);
            vstd::arithmetic::div_mod::lemma_fundamental_div_mod(n, d as int);
            assert(0 <= n / d as int <= n) by {
                vstd::arithmetic::div_mod::lemma_div_pos_is_pos(n, d as int);
                vstd::arithmetic::div_mod::lemma_div_is_ordered_by_denominator(n, 1, d as int);
            }
            let r = d - 1 - n % d as int;
            assert(a == d * (-(q as int) - 1) + r) by (nonlinear_arith)
                requires
                    n == -(a + 1),
                    n == d * (q as int) + n % d as int,
                    r == d - 1 - n % d as int,
            ;
            vstd::arithmetic::div_mod::lemma_fundamental_div_mod_converse(
                a as int,
                d as int,
                -(q as int) - 1,
                r,
            );
        }
        -q - 1
    }
}

/// The remainder of [`floor_div`], always in `0..d`.
pub fn floor_mod(a: i32, d: i32) -> (r: i32)
    requires
        d > 0,
    ensures
        r == a as int % d as int,
        0 <= r < d,
{
    let q: i32 = floor_div(a, d);
    proof {
        vstd::arithmetic::div_mod::lemma_fundamental_div_mod(a as int, d as int);
        assert(q as int * d as int == d as int * q as int) by (nonlinear_arith);
        vstd::arithmetic::div_mod::lemma_mod_bound(a as int, d as int);
    }
    (a as i64 - q as i64 * d as i64) as i32
}

} // verus!
