//! Scaling of decoded coefficient levels: the level-scale matrix, the chroma
//! quantiser mapping, the running luma quantiser, and the scaling of ordinary
//! and DC coefficient blocks up to the inverse transform.
use vstd::prelude::*;
use crate::arith::{clip3, floor_mod};

verus! {

/// The level-scale matrix: one row per quantiser remainder, one column per
/// position category.
pub const LEVEL_SCALE_V: [[i32; 3]; 6] = [
    [10, 16, 13],
    [11, 18, 14],
    [13, 20, 16],
    [14, 23, 18],
    [16, 25, 20],
    [18, 29, 23],
];

/// The position category of row `i`, column `j`: 0 where both are even, 1
/// where both are odd, 2 elsewhere.
pub open spec fn scale_category(i: int, j: int) -> int {
    if i % 2 == 0 && j % 2 == 0 {
        0
    } else if i % 2 == 1 && j % 2 == 1 {
        1
    } else {
        2
    }
}

/// The scale of position `(i, j)` at quantiser remainder `m`.
pub open spec fn level_scale_spec(m: int, i: int, j: int) -> int {
    LEVEL_SCALE_V[m % 6][scale_category(i, j)] as int
}

pub fn level_scale(m: u32, i: u32, j: u32) -> (r: i32)
    ensures
        r == level_scale_spec(m as int, i as int, j as int),
        10 <= r <= 29,
{
    let row: usize = (m % 6) as usize;
    let col: usize = if i % 2 == 0 && j % 2 == 0 {
        0
    } else if i % 2 == 1 && j % 2 == 1 {
        1
    } else {
        2
    };
    LEVEL_SCALE_V[row][col]
}

/// The chroma quantiser for each luma-derived index from 30 to 51.
pub const QPC_FOR_QPI_30_TO_51: [u8; 22] = [
    29,
    30,
    31,
    32,
    32,
    33,
    34,
    34,
    35,
    35,
    36,
    36,
    37,
    37,
    37,
    38,
    38,
    38,
    39,
    39,
    39,
    39,
];

/// The chroma quantiser: the luma quantiser plus the picture's offset, clamped
/// to `0..=51`, and from 30 on compressed by the table.
pub open spec fn chroma_qp_spec(qpy: int, offset: int) -> int {
    let qpi = clip3(0, 51, qpy + offset);
    if qpi < 30 {
        qpi
    } else {
        QPC_FOR_QPI_30_TO_51[qpi - 30] as int
    }
}

pub fn chroma_qp(qpy: i32, chroma_qp_index_offset: i32) -> (r: i32)
    requires
        i32::MIN <= qpy + chroma_qp_index_offset <= i32::MAX,
    ensures
        r == chroma_qp_spec(qpy as int, chroma_qp_index_offset as int),
        0 <= r <= 39,
{
    let sum: i32 = qpy + chroma_qp_index_offset;
    let qpi: i32 = if sum < 0 {
        0
    } else if sum > 51 {
        51
    } else {
        sum
    };
    if qpi < 30 {
        qpi
    } else {
        QPC_FOR_QPI_30_TO_51[(qpi - 30) as usize] as i32
    }
}

/// The luma quantiser after a delta, modulo 52.
pub open spec fn next_qpy_spec(qpy_prev: int, delta: int) -> int {
    (qpy_prev + delta + 52) % 52
}

pub fn next_qpy(qpy_prev: i32, mb_qp_delta: i32) -> (r: i32)
    requires
        i32::MIN <= qpy_prev + mb_qp_delta,
        qpy_prev + mb_qp_delta + 52 <= i32::MAX,
    ensures
        r == next_qpy_spec(qpy_prev as int, mb_qp_delta as int),
        0 <= r < 52,
{
    floor_mod(qpy_prev + mb_qp_delta + 52, 52)
}

/// A scaled coefficient: the product shifted left in 32-bit arithmetic.
pub open spec fn shifted(product: int, shift: int) -> i32 {
    (product as i32) << shift
}

/// The scaled coefficient at row-major index `idx`.
pub open spec fn dequant_4x4_at(
    c: Seq<i32>,
    qp: int,
    dc_already_scaled: bool,
    idx: int,
) -> int {
    if dc_already_scaled && idx == 0 {
        c[0] as int
    } else {
        shifted(c[idx] * level_scale_spec(qp % 6, idx / 4, idx % 4), qp / 6) as int
    }
}

/// Scales one four-by-four block. A DC coefficient that its own transform
/// already scaled passes through untouched.
pub fn dequant_4x4(c: &[i32; 16], qp: i32, dc_already_scaled: bool) -> (d: [i32; 16])
    requires
        0 <= qp < 192,
        forall|idx: int|
            (if dc_already_scaled {
                1
            } else {
                0int
            }) <= idx < 16 ==> i32::MIN <= (#[trigger] c[idx]) * level_scale_spec(
                qp as int % 6,
                idx / 4,
                idx % 4,
            ) <= i32::MAX,
    ensures
        forall|idx: int|
            0 <= idx < 16 ==> #[trigger] d[idx] == dequant_4x4_at(
                c@,
                qp as int,
                dc_already_scaled,
                idx,
            ),
{
    let m: u32 = (qp % 6) as u32;
    let shift: i32 = qp / 6;
    let mut d = [0i32; 16];
    for idx in 0..16usize
        invariant
            0 <= qp < 192,
            m == qp as int % 6,
            shift == qp as int / 6,
            forall|idx: int|
                (if dc_already_scaled {
                    1
                } else {
                    0int
                }) <= idx < 16 ==> i32::MIN <= (#[trigger] c[idx]) * level_scale_spec(
                    qp as int % 6,
                    idx / 4,
                    idx % 4,
                ) <= i32::MAX,
            forall|k: int|
                0 <= k < idx ==> #[trigger] d[k] == dequant_4x4_at(
                    c@,
                    qp as int,
                    dc_already_scaled,
                    k,
                ),
    {
        let v: i32 = if dc_already_scaled && idx == 0 {
            c[0]
        } else {
            let scale: i32 = level_scale(m, (idx / 4) as u32, (idx % 4) as u32);
            assert(i32::MIN <= c[idx as int] * scale <= i32::MAX);
            (c[idx] * scale) << shift
        };
        d[idx] = v;
    }
    d
}

/// `v` weighted by row `i`, column `k` of the four-point Hadamard matrix, whose
/// entries are all 1 or -1.
pub open spec fn hadamard_term(i: int, k: int, v: int) -> int {
    if (i == 1 && k >= 2) || (i == 2 && (k == 1 || k == 2)) || (i == 3 && (k == 1 || k == 3)) {
        -v
    } else {
        v
    }
}

/// Four values weighted by row `i` of the Hadamard matrix.
pub open spec fn butterfly4(i: int, a: int, b: int, c: int, d: int) -> int {
    hadamard_term(i, 0, a) + hadamard_term(i, 1, b) + hadamard_term(i, 2, c) + hadamard_term(
        i,
        3,
        d,
    )
}

/// Position `(i, j)` of the four-by-four Hadamard transform of a row-major
/// block.
pub open spec fn luma_hadamard_at(c: Seq<i32>, i: int, j: int) -> int {
    butterfly4(
        i,
        butterfly4(j, c[0] as int, c[1] as int, c[2] as int, c[3] as int),
        butterfly4(j, c[4] as int, c[5] as int, c[6] as int, c[7] as int),
        butterfly4(j, c[8] as int, c[9] as int, c[10] as int, c[11] as int),
        butterfly4(j, c[12] as int, c[13] as int, c[14] as int, c[15] as int),
    )
}

fn butterfly(i: usize, a: i64, b: i64, c: i64, d: i64) -> (r: i64)
    requires
        i < 4,
        -0x2_0000_0000 <= a <= 0x2_0000_0000,
        -0x2_0000_0000 <= b <= 0x2_0000_0000,
        -0x2_0000_0000 <= c <= 0x2_0000_0000,
        -0x2_0000_0000 <= d <= 0x2_0000_0000,
    ensures
        r == butterfly4(i as int, a as int, b as int, c as int, d as int),
{
    if i == 0 {
        a + b + c + d
    } else if i == 1 {
        a + b - c - d
    } else if i == 2 {
        a - b - c + d
    } else {
        a - b + c - d
    }
}

fn row_butterfly(i: usize, a: i32, b: i32, c: i32, d: i32) -> (r: i64)
    requires
        i < 4,
    ensures
        r == butterfly4(i as int, a as int, b as int, c as int, d as int),
        -0x2_0000_0000 <= r <= 0x2_0000_0000,
{
    butterfly(i, a as i64, b as i64, c as i64, d as i64)
}

/// The four-by-four Hadamard transform of a row-major block, all of whose
/// results fit 32 bits.
pub fn luma_dc_hadamard4x4(c: &[i32; 16]) -> (f: [i32; 16])
    requires
        forall|i: int, j: int|
            0 <= i < 4 && 0 <= j < 4 ==> i32::MIN <= #[trigger] luma_hadamard_at(c@, i, j)
                <= i32::MAX,
    ensures
        forall|k: int|
            0 <= k < 16 ==> #[trigger] f[k] == luma_hadamard_at(c@, k / 4, k % 4),
{
    let mut f = [0i32; 16];
    for k in 0..16usize
        invariant
            forall|i: int, j: int|
                0 <= i < 4 && 0 <= j < 4 ==> i32::MIN <= #[trigger] luma_hadamard_at(c@, i, j)
                    <= i32::MAX,
            forall|n: int|
                0 <= n < k ==> #[trigger] f[n] == luma_hadamard_at(c@, n / 4, n % 4),
    {
        let (i, j) = (k / 4, k % 4);
        let r0: i64 = row_butterfly(j, c[0], c[1], c[2], c[3]);
        let r1: i64 = row_butterfly(j, c[4], c[5], c[6], c[7]);
        let r2: i64 = row_butterfly(j, c[8], c[9], c[10], c[11]);
        let r3: i64 = row_butterfly(j, c[12], c[13], c[14], c[15]);
        let v: i64 = butterfly(i, r0, r1, r2, r3);
        assert(v == luma_hadamard_at(c@, i as int, j as int));
        f[k] = v as i32;
    }
    f
}

/// A quotient rounded towards zero.
pub open spec fn truncated(a: int, d: int) -> int {
    if a >= 0 {
        a / d
    } else {
        -((-a) / d)
    }
}

/// The scaled luma DC value of a transformed coefficient: a left shift from
/// quantiser 12 on, a rounded right shift below.
pub open spec fn luma_dc_scaled(v: int, qpy: int) -> int {
    let product = v * level_scale_spec(qpy % 6, 0, 0);
    let q = truncated(qpy, 6);
    if qpy >= 12 {
        shifted(product, q - 2) as int
    } else {
        (((product + luma_dc_rounding(qpy)) as i32) >> (2 - q)) as int
    }
}

/// The rounding term of the right-shifting branch.
pub open spec fn luma_dc_rounding(qpy: int) -> int {
    (1i32 << (1 - truncated(qpy, 6))) as int
}

/// The products (and rounded sums) of the luma DC scaling fit an `i32`.
pub open spec fn luma_dc_fits(v: int, qpy: int) -> bool {
    let product = v * level_scale_spec(qpy % 6, 0, 0);
    &&& i32::MIN <= product <= i32::MAX
    &&& qpy < 12 ==> i32::MIN <= product + luma_dc_rounding(qpy) <= i32::MAX
}

proof fn lemma_product_fits(v: int, qp: int)
    requires
        i32::MIN <= v * level_scale_spec(qp % 6, 0, 0) <= i32::MAX,
    ensures
        i32::MIN <= v <= i32::MAX,
{
    let scale = level_scale_spec(qp % 6, 0, 0);
    assert(scale >= 1);
    assert(i32::MIN <= v <= i32::MAX) by (nonlinear_arith)
        requires
            i32::MIN <= v * scale <= i32::MAX,
            scale >= 1,
    ;
}

/// The luma DC transform of a sixteen-by-sixteen intra macroblock: the
/// Hadamard transform first, then scaling.
pub fn dequant_luma_dc_4x4(c: &[i32; 16], qpy: i32) -> (dc: [i32; 16])
    requires
        -180 < qpy < 204,
        forall|i: int, j: int|
            0 <= i < 4 && 0 <= j < 4 ==> luma_dc_fits(
                #[trigger] luma_hadamard_at(c@, i, j),
                qpy as int,
            ),
    ensures
        forall|k: int|
            0 <= k < 16 ==> #[trigger] dc[k] == luma_dc_scaled(
                luma_hadamard_at(c@, k / 4, k % 4),
                qpy as int,
            ),
{
    proof {
        assert forall|i: int, j: int| 0 <= i < 4 && 0 <= j < 4 implies i32::MIN
            <= #[trigger] luma_hadamard_at(c@, i, j) <= i32::MAX by {
            assert(luma_dc_fits(luma_hadamard_at(c@, i, j), qpy as int));
            lemma_product_fits(luma_hadamard_at(c@, i, j), qpy as int);
        }
    }
    let f = luma_dc_hadamard4x4(c);
    let m: u32 = floor_mod(qpy, 6) as u32;
    let scale: i32 = level_scale(m, 0, 0);
    let q: i32 = if qpy >= 0 {
        qpy / 6
    } else {
        -((-qpy) / 6)
    };
    let mut dc = [0i32; 16];
    for k in 0..16usize
        invariant
            -180 < qpy < 204,
            q == truncated(qpy as int, 6),
            scale == level_scale_spec(qpy as int % 6, 0, 0),
            forall|i: int, j: int|
                0 <= i < 4 && 0 <= j < 4 ==> luma_dc_fits(
                    #[trigger] luma_hadamard_at(c@, i, j),
                    qpy as int,
                ),
            forall|k: int|
                0 <= k < 16 ==> #[trigger] f[k] == luma_hadamard_at(c@, k / 4, k % 4),
            forall|n: int|
                0 <= n < k ==> #[trigger] dc[n] == luma_dc_scaled(
                    luma_hadamard_at(c@, n / 4, n % 4),
                    qpy as int,
                ),
    {
        let v: i32 = f[k];
        assert(luma_dc_fits(v as int, qpy as int));
        if qpy >= 12 {
            dc[k] = (v * scale) << (q - 2);
        } else {
            let round: i32 = 1i32 << (1 - q);
            dc[k] = (v * scale + round) >> (2 - q);
        }
    }
    dc
}

/// Position `k` of the two-by-two Hadamard transform of a row-major block.
pub open spec fn chroma_hadamard_at(c: Seq<i32>, k: int) -> int {
    if k == 0 {
        c[0] + c[1] + c[2] + c[3]
    } else if k == 1 {
        c[0] - c[1] + c[2] - c[3]
    } else if k == 2 {
        c[0] + c[1] - c[2] - c[3]
    } else {
        c[0] - c[1] - c[2] + c[3]
    }
}

/// The two-by-two Hadamard transform of a row-major block, all of whose results
/// fit 32 bits.
pub fn chroma_dc_hadamard2x2(c: &[i32; 4]) -> (f: [i32; 4])
    requires
        forall|k: int|
            0 <= k < 4 ==> i32::MIN <= #[trigger] chroma_hadamard_at(c@, k) <= i32::MAX,
    ensures
        forall|k: int| 0 <= k < 4 ==> #[trigger] f[k] == chroma_hadamard_at(c@, k),
{
    let (a, b, c2, d) = (c[0] as i64, c[1] as i64, c[2] as i64, c[3] as i64);
    assert(i32::MIN <= chroma_hadamard_at(c@, 0) <= i32::MAX);
    assert(i32::MIN <= chroma_hadamard_at(c@, 1) <= i32::MAX);
    assert(i32::MIN <= chroma_hadamard_at(c@, 2) <= i32::MAX);
    assert(i32::MIN <= chroma_hadamard_at(c@, 3) <= i32::MAX);
    [
        (a + b + c2 + d) as i32,
        (a - b + c2 - d) as i32,
        (a + b - c2 - d) as i32,
        (a - b - c2 + d) as i32,
    ]
}

/// The scaled chroma DC value of a transformed coefficient.
pub open spec fn chroma_dc_scaled(v: int, qpc: int) -> int {
    let product = v * level_scale_spec(qpc % 6, 0, 0);
    if qpc >= 6 {
        shifted(product, qpc / 6 - 1) as int
    } else {
        product / 2
    }
}

/// The chroma DC transform: the Hadamard transform first, then scaling.
pub fn dequant_chroma_dc_2x2(c: &[i32; 4], qpc: i32) -> (dc: [i32; 4])
    requires
        qpc < 198,
        forall|k: int|
            0 <= k < 4 ==> i32::MIN <= (#[trigger] chroma_hadamard_at(c@, k)) * level_scale_spec(
                qpc as int % 6,
                0,
                0,
            ) <= i32::MAX,
    ensures
        forall|k: int|
            0 <= k < 4 ==> #[trigger] dc[k] == chroma_dc_scaled(
                chroma_hadamard_at(c@, k),
                qpc as int,
            ),
{
    proof {
        assert forall|k: int| 0 <= k < 4 implies i32::MIN <= #[trigger] chroma_hadamard_at(c@, k)
            <= i32::MAX by {
            lemma_product_fits(chroma_hadamard_at(c@, k), qpc as int);
        }
    }
    let f = chroma_dc_hadamard2x2(c);
    let m: u32 = floor_mod(qpc, 6) as u32;
    let scale: i32 = level_scale(m, 0, 0);
    let mut dc = [0i32; 4];
    for k in 0..4usize
        invariant
            qpc < 198,
            scale == level_scale_spec(qpc as int % 6, 0, 0),
            forall|k: int|
                0 <= k < 4 ==> i32::MIN <= (#[trigger] chroma_hadamard_at(c@, k))
                    * level_scale_spec(qpc as int % 6, 0, 0) <= i32::MAX,
            forall|k: int| 0 <= k < 4 ==> #[trigger] f[k] == chroma_hadamard_at(c@, k),
            forall|n: int|
                0 <= n < k ==> #[trigger] dc[n] == chroma_dc_scaled(
                    chroma_hadamard_at(c@, n),
                    qpc as int,
                ),
    {
        let v: i32 = f[k];
        assert(v == chroma_hadamard_at(c@, k as int));
        if qpc >= 6 {
            dc[k] = (v * scale) << (qpc / 6 - 1);
        } else {
            proof {
                crate::arith::lemma_shift_i32((v * scale) as i32);
            }
            dc[k] = (v * scale) >> 1;
        }
    }
    dc
}

/// The quantiser always stays in range, a zero delta keeps it, and deltas add
/// up: two in a row are their sum.
pub proof fn law_qp_deltas_accumulate(qp: int, d1: int, d2: int)
    requires
        0 <= qp < 52,
    ensures
        0 <= next_qpy_spec(qp, d1) < 52,
        next_qpy_spec(qp, 0) == qp,
        next_qpy_spec(next_qpy_spec(qp, d1), d2) == next_qpy_spec(qp, d1 + d2),
{
}

/// The chroma quantiser never exceeds the luma index it comes from, and grows
/// with it.
pub proof fn law_chroma_qp_is_monotone(a: int, b: int, offset: int)
    requires
        a <= b,
    ensures
        chroma_qp_spec(a, offset) <= chroma_qp_spec(b, offset),
        0 <= chroma_qp_spec(a, offset) <= clip3(0, 51, a + offset),
{
    let (i, j) = (clip3(0, 51, a + offset), clip3(0, 51, b + offset));
    assert forall|k: int| 30 <= k < 51 implies #[trigger] QPC_FOR_QPI_30_TO_51[k - 30]
        <= QPC_FOR_QPI_30_TO_51[k + 1 - 30] by {}
    assert forall|k: int| 30 <= k <= 51 implies 29 <= #[trigger] QPC_FOR_QPI_30_TO_51[k - 30]
        <= k - 1 by {}
    if i >= 30 {
        lemma_qpc_monotone(i - 30, j - 30);
    }
}

proof fn lemma_qpc_monotone(i: int, j: int)
    requires
        0 <= i <= j < 22,
    ensures
        QPC_FOR_QPI_30_TO_51[i] <= QPC_FOR_QPI_30_TO_51[j],
    decreases j - i,
{
    if i < j {
        lemma_qpc_monotone(i, j - 1);
    }
}

/// Where the scaled value still fits, a left shift by the quantiser's sixths is
/// a multiplication by that power of two, for every quantiser of the standard.
pub proof fn law_shift_is_scaling(product: int, shift: int)
    requires
        0 <= shift <= 8,
        -0x40_0000 <= product <= 0x3f_ffff,
    ensures
        shifted(product, shift) == product * vstd::arithmetic::power2::pow2(shift as nat),
{
    vstd::arithmetic::power2::lemma2_to64();
    let p = product as i32;
    assert(-0x40_0000 <= p <= 0x3f_ffff ==> {
        &&& p << 0 == p * 1
        &&& p << 1 == p * 2
        &&& p << 2 == p * 4
        &&& p << 3 == p * 8
        &&& p << 4 == p * 16
        &&& p << 5 == p * 32
        &&& p << 6 == p * 64
        &&& p << 7 == p * 128
        &&& p << 8 == p * 256
    }) by (bit_vector);
}

/// Six quantiser steps double a coefficient.
pub proof fn law_six_steps_double(c: Seq<i32>, qp: int, idx: int)
    requires
        c.len() == 16,
        0 <= idx < 16,
        0 <= qp <= 45,
        -0x40_0000 <= c[idx] * level_scale_spec(qp % 6, idx / 4, idx % 4) <= 0x3f_ffff,
    ensures
        dequant_4x4_at(c, qp + 6, false, idx) == 2 * dequant_4x4_at(c, qp, false, idx),
{
    let product = c[idx] * level_scale_spec(qp % 6, idx / 4, idx % 4);
    assert((qp + 6) % 6 == qp % 6 && (qp + 6) / 6 == qp / 6 + 1);
    law_shift_is_scaling(product, qp / 6);
    law_shift_is_scaling(product, qp / 6 + 1);
    vstd::arithmetic::power2::lemma_pow2_unfold((qp / 6 + 1) as nat);
    let p = vstd::arithmetic::power2::pow2((qp / 6) as nat);
    assert(product * (2 * p) == 2 * (product * p)) by (nonlinear_arith);
}

} // verus!
