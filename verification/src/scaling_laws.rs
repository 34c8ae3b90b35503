//! What scaling and weighting do to coefficients and predictions.
use vstd::prelude::*;
use vstd::arithmetic::power2::pow2;
use crate::dequant::{
    chroma_dc_scaled, chroma_hadamard_at, chroma_qp_spec, dequant_4x4_at, law_shift_is_scaling,
    level_scale_spec, luma_dc_scaled, luma_hadamard_at, next_qpy_spec,
};
use crate::weights::{implicit_weights, reciprocal};

verus! {

// ----------------------------------------------------------------- quantisers
/// A difference moves the quantiser by as much; past either end it comes in again
/// at the other.
pub proof fn law_quantiser_moves_by_the_difference(qp: int, d: int)
    requires
        0 <= qp <= 51,
        -52 <= d <= 52,
    ensures
        0 <= qp + d <= 51 ==> next_qpy_spec(qp, d) == qp + d,
        qp + d > 51 ==> next_qpy_spec(qp, d) == qp + d - 52,
        qp + d < 0 ==> next_qpy_spec(qp, d) == qp + d + 52,
{
}

/// The luma position from which on the chroma quantiser is at least `n`.
pub open spec fn chroma_reaches(n: int) -> int {
    if n <= 29 {
        n
    } else if n <= 32 {
        n + 1
    } else if n <= 34 {
        n + 2
    } else if n == 35 {
        38
    } else if n == 36 {
        40
    } else if n <= 39 {
        3 * n - 69
    } else {
        52
    }
}

/// The chroma quantiser reaches each value at its position, and what counts is the
/// luma quantiser and the offset together, kept from 0 to 51.
pub proof fn law_chroma_quantiser_lags_behind(qpy: int, offset: int, n: int)
    requires
        1 <= n,
    ensures
        chroma_qp_spec(qpy, offset) >= n <==> n <= 39 && qpy + offset >= chroma_reaches(n),
        chroma_qp_spec(qpy, offset) >= 0,
        chroma_qp_spec(qpy, offset) == chroma_qp_spec(qpy + offset, 0),
{
}

// -------------------------------------------------------------------- scaling
/// Scales repeat every six quantisers and every second row and column, and do not
/// tell rows from columns.
pub proof fn law_scales_repeat(m: int, i: int, j: int)
    requires
        0 <= m,
        0 <= i,
        0 <= j,
    ensures
        level_scale_spec(m + 6, i, j) == level_scale_spec(m, i, j),
        level_scale_spec(m, i + 2, j) == level_scale_spec(m, i, j),
        level_scale_spec(m, j, i) == level_scale_spec(m, i, j),
{
    assert((m + 6) % 6 == m % 6);
    assert((i + 2) % 2 == i % 2);
}

/// Scales grow by a sixth of a doubling, to the next whole number or the one
/// before: these are the amounts, for even, odd and mixed positions.
pub proof fn law_scales_grow(m: int)
    requires
        0 <= m < 5,
    ensures
        level_scale_spec(0, 0, 0) == 10,
        level_scale_spec(0, 1, 1) == 16,
        level_scale_spec(0, 0, 1) == 13,
        level_scale_spec(m + 1, 0, 0) - level_scale_spec(m, 0, 0) == seq![1int, 2, 1, 2, 2][m],
        level_scale_spec(m + 1, 1, 1) - level_scale_spec(m, 1, 1) == seq![2int, 2, 3, 2, 4][m],
        level_scale_spec(m + 1, 0, 1) - level_scale_spec(m, 0, 1) == seq![1int, 2, 2, 2, 3][m],
{
}

/// A coefficient is multiplied by the scale of its position, and doubled once for
/// every six quantisers; a DC coefficient that is scaled already is not.
pub proof fn law_coefficients_are_scaled(c: Seq<i32>, qp: int, scaled: bool, idx: int)
    requires
        c.len() == 16,
        0 <= idx < 16,
        0 <= qp <= 51,
        -0x40_0000 <= c[idx] * level_scale_spec(qp, idx / 4, idx % 4) <= 0x3f_ffff,
    ensures
        dequant_4x4_at(c, qp, scaled, idx) == (if scaled && idx == 0 {
            c[0] as int
        } else {
            c[idx] * level_scale_spec(qp, idx / 4, idx % 4) * pow2((qp / 6) as nat)
        }),
{
    assert((qp % 6) % 6 == qp % 6);
    law_shift_is_scaling(c[idx] * level_scale_spec(qp, idx / 4, idx % 4), qp / 6);
}

/// The luma DC values are scaled to a quarter of what other coefficients are,
/// rounded to the nearest, halves upwards.
pub proof fn law_luma_dc_is_a_quarter(v: int, qp: int)
    requires
        0 <= qp <= 51,
        -0x10_0000 <= v * level_scale_spec(qp, 0, 0) <= 0xf_ffff,
    ensures
        -2 <= v * level_scale_spec(qp, 0, 0) * pow2((qp / 6) as nat) - 4 * luma_dc_scaled(v, qp) < 2,
{
    let product = v * level_scale_spec(qp, 0, 0);
    assert((qp % 6) % 6 == qp % 6);
    law_shift_is_scaling(product, qp / 6);
    vstd::arithmetic::power2::lemma2_to64();
    if qp >= 12 {
        law_shift_is_scaling(product, qp / 6 - 2);
        let n = (qp / 6 - 2) as nat;
        vstd::arithmetic::power2::lemma_pow2_unfold(n + 1);
        vstd::arithmetic::power2::lemma_pow2_unfold(n + 2);
        let (a, b) = (pow2(n) as int, pow2(n + 2) as int);
        assert(pow2((n + 2 - 1) as nat) == pow2(n + 1));
        assert(n + 2 == qp / 6);
        assert(product * b == 4 * (product * a)) by (nonlinear_arith)
            requires
                b == a * 4,
        ;
    } else {
        let q = qp / 6;
        assert(crate::dequant::truncated(qp, 6) == q);
        assert(1i32 << 1 == 2 && 1i32 << 0 == 1) by (bit_vector);
        let s = (product + crate::dequant::luma_dc_rounding(qp)) as i32;
        assert(s >> 2 == s / 4 && s >> 1 == s / 2) by (bit_vector);
        if q == 0 {
            assert(1i32 << (1 - q) == 2);
            assert(product * pow2(0) == product) by (nonlinear_arith)
                requires
                    pow2(0) == 1,
            ;
        } else {
            assert(1i32 << (1 - q) == 1);
            assert(product * pow2(1) == 2 * product) by (nonlinear_arith)
                requires
                    pow2(1) == 2,
            ;
        }
    }
}

/// The chroma DC values are scaled to half of what other coefficients are, rounded
/// down.
pub proof fn law_chroma_dc_is_a_half(v: int, qp: int)
    requires
        0 <= qp <= 51,
        -0x10_0000 <= v * level_scale_spec(qp, 0, 0) <= 0xf_ffff,
    ensures
        0 <= v * level_scale_spec(qp, 0, 0) * pow2((qp / 6) as nat) - 2 * chroma_dc_scaled(v, qp) < 2,
{
    let product = v * level_scale_spec(qp, 0, 0);
    assert((qp % 6) % 6 == qp % 6);
    law_shift_is_scaling(product, qp / 6);
    vstd::arithmetic::power2::lemma2_to64();
    if qp >= 6 {
        law_shift_is_scaling(product, qp / 6 - 1);
        let n = (qp / 6 - 1) as nat;
        vstd::arithmetic::power2::lemma_pow2_unfold(n + 1);
        let (a, b) = (pow2(n) as int, pow2(n + 1) as int);
        assert(product * b == 2 * (product * a)) by (nonlinear_arith)
            requires
                b == 2 * a,
        ;
        assert(n + 1 == qp / 6);
    } else {
        assert(product * pow2(0) == product) by (nonlinear_arith)
            requires
                pow2(0) == 1,
        ;
        assert(qp / 6 == 0);
    }
}

// ----------------------------------------------------------------- transforms
/// The luma DC transform done twice gives sixteen times the block. Its first value
/// is the sum of all; the next compares the left half with the right, and the one
/// below the first the upper half with the lower.
pub proof fn law_luma_transform_undoes_itself(c: Seq<i32>, f: Seq<i32>, k: int)
    requires
        c.len() == 16,
        f.len() == 16,
        forall|n: int| 0 <= n < 16 ==> #[trigger] f[n] == luma_hadamard_at(c, n / 4, n % 4),
        0 <= k < 16,
    ensures
        luma_hadamard_at(f, k / 4, k % 4) == 16 * c[k],
        f[0] == (c[0] + c[1] + c[2] + c[3]) + (c[4] + c[5] + c[6] + c[7]) + (c[8] + c[9] + c[10]
            + c[11]) + (c[12] + c[13] + c[14] + c[15]),
        f[1] == (c[0] + c[4] + c[8] + c[12]) + (c[1] + c[5] + c[9] + c[13]) - (c[2] + c[6] + c[10]
            + c[14]) - (c[3] + c[7] + c[11] + c[15]),
        f[4] == (c[0] + c[1] + c[2] + c[3]) + (c[4] + c[5] + c[6] + c[7]) - (c[8] + c[9] + c[10]
            + c[11]) - (c[12] + c[13] + c[14] + c[15]),
{
}

/// Turning the columns round changes the sign of the odd columns of the luma DC
/// transform; turning rows into columns does the same to the transform.
pub proof fn law_luma_transform_mirrors(c: Seq<i32>, m: Seq<i32>, t: Seq<i32>, i: int, j: int)
    requires
        c.len() == 16,
        m.len() == 16,
        t.len() == 16,
        forall|n: int| 0 <= n < 16 ==> #[trigger] m[n] == c[4 * (n / 4) + 3 - n % 4],
        forall|n: int| 0 <= n < 16 ==> #[trigger] t[n] == c[4 * (n % 4) + n / 4],
        0 <= i < 4,
        0 <= j < 4,
    ensures
        luma_hadamard_at(m, i, j) == (if j % 2 == 0 {
            luma_hadamard_at(c, i, j)
        } else {
            -luma_hadamard_at(c, i, j)
        }),
        luma_hadamard_at(t, i, j) == luma_hadamard_at(c, j, i),
{
}

/// The chroma DC transform done twice gives four times the block. Its values are
/// the sum, then left against right, upper against lower, and one diagonal against
/// the other.
pub proof fn law_chroma_transform_undoes_itself(c: Seq<i32>, f: Seq<i32>, k: int)
    requires
        c.len() == 4,
        f.len() == 4,
        forall|n: int| 0 <= n < 4 ==> #[trigger] f[n] == chroma_hadamard_at(c, n),
        0 <= k < 4,
    ensures
        chroma_hadamard_at(f, k) == 4 * c[k],
        f[0] + f[1] == 2 * (c[0] + c[2]),
        f[0] + f[2] == 2 * (c[0] + c[1]),
        f[0] + f[3] == 2 * (c[0] + c[3]),
{
}

// -------------------------------------------------------------------- weights
/// Only the distances count, not which way display order runs.
pub proof fn law_weights_depend_on_distances(curr: int, ref0: int, ref1: int, by: int)
    ensures
        implicit_weights(curr + by, ref0 + by, ref1 + by) == implicit_weights(curr, ref0, ref1),
        -127 <= ref1 - ref0 <= 127 && -127 <= curr - ref0 <= 127 ==> implicit_weights(
            -curr,
            -ref0,
            -ref1,
        ) == implicit_weights(curr, ref0, ref1),
{
    let (td, tb) = (ref1 - ref0, curr - ref0);
    if -127 <= td <= 127 && -127 <= tb <= 127 && td != 0 {
        assert(reciprocal(-td) == -reciprocal(td));
        assert((-reciprocal(td)) * (-tb) == reciprocal(td) * tb) by (nonlinear_arith);
    }
}

/// The further a picture is from its first reference, the more the second counts:
/// in proportion, to within a sixty-fourth and a bit. Far outside the two both count
/// the same.
pub proof fn law_weights_are_proportional(curr: int, ref0: int, ref1: int)
    requires
        0 < ref1 - ref0 <= 127,
        -127 <= curr - ref0 <= 127,
    ensures
        ({
            let (td, tb) = (ref1 - ref0, curr - ref0);
            let (w0, w1) = implicit_weights(curr, ref0, ref1);
            &&& w0 == 64 - w1
            &&& -td < tb <= 2 * td ==> -10 * td < 8 * (w1 * td - 64 * tb) <= 4 * td
            &&& tb > 3 * td || tb < -2 * td ==> w1 == 32
        }),
{
    let (td, tb) = (ref1 - ref0, curr - ref0);
    let n = 16384 + td / 2;
    let tx = n / td;
    vstd::arithmetic::div_mod::lemma_fundamental_div_mod(n, td);
    vstd::arithmetic::div_mod::lemma_mod_bound(n, td);
    // tx is 16384 / td to within a half
    let e = tx * td - 16384;
    assert(-td <= 2 * e <= td) by (nonlinear_arith)
        requires
            n == td * tx + n % td,
            0 <= n % td < td,
            n == 16384 + td / 2,
            e == tx * td - 16384,
            td > 0,
    ;
    let p = tx * tb;
    assert(p * td == 16384 * tb + e * tb) by (nonlinear_arith)
        requires
            p == tx * tb,
            e == tx * td - 16384,
    ;
    assert(-127 * td <= 2 * (e * tb) <= 127 * td) by (nonlinear_arith)
        requires
            -td <= 2 * e <= td,
            -127 <= tb <= 127,
            td > 0,
    ;
    let f = (p + 32) / 64;
    let w = f / 4;
    // 256 * w is p + 32, less what both divisions cut off
    let cut = p + 32 - 256 * w;
    assert(0 <= cut <= 255);
    assert(256 * (w * td) == p * td + 32 * td - cut * td) by (nonlinear_arith)
        requires
            cut == p + 32 - 256 * w,
    ;
    assert(0 <= cut * td <= 255 * td) by (nonlinear_arith)
        requires
            0 <= cut <= 255,
            td > 0,
    ;
    let gap = 256 * (w * td) - 16384 * tb;
    assert(-(63 * td) - 32 * td - 255 * td <= gap + 64 * td);
    assert(2 * gap <= 127 * td + 64 * td);
    assert(-127 * td + 64 * td - 510 * td <= 2 * gap);
    if -td < tb <= 2 * td {
        assert(-64 <= w <= 128) by (nonlinear_arith)
            requires
                2 * (256 * (w * td) - 16384 * tb) <= 191 * td,
                -573 * td <= 2 * (256 * (w * td) - 16384 * tb),
                -td + 1 <= tb <= 2 * td,
                0 < td <= 127,
        ;
        assert(-1024 <= f <= 1023);
    } else if tb > 3 * td {
        assert(w > 128) by (nonlinear_arith)
            requires
                -573 * td <= 2 * (256 * (w * td) - 16384 * tb),
                tb > 3 * td,
                0 < td,
        ;
    } else if tb < -2 * td {
        assert(w < -64) by (nonlinear_arith)
            requires
                2 * (256 * (w * td) - 16384 * tb) <= 191 * td,
                tb < -2 * td,
                0 < td,
        ;
    }
}

} // verus!
