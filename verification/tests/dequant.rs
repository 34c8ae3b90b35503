//! Scaling of coefficients and quantisers.
use vaco_codec_h264::dequant::{
    chroma_dc_hadamard2x2, chroma_qp, dequant_4x4, dequant_chroma_dc_2x2, dequant_luma_dc_4x4,
    level_scale, luma_dc_hadamard4x4, next_qpy, LEVEL_SCALE_V,
};

#[test]
fn level_scale_matches_table() {
    assert_eq!(LEVEL_SCALE_V[0], [10, 16, 13]);
    assert_eq!(LEVEL_SCALE_V[1], [11, 18, 14]);
    assert_eq!(LEVEL_SCALE_V[2], [13, 20, 16]);
    assert_eq!(LEVEL_SCALE_V[3], [14, 23, 18]);
    assert_eq!(LEVEL_SCALE_V[4], [16, 25, 20]);
    assert_eq!(LEVEL_SCALE_V[5], [18, 29, 23]);
}

#[test]
fn no_two_rows_are_byte_identical() {
    for (i, row_a) in LEVEL_SCALE_V.iter().enumerate() {
        for row_b in LEVEL_SCALE_V.iter().skip(i + 1) {
            assert_ne!(row_a, row_b, "two rows of LEVEL_SCALE_V are byte-identical");
        }
    }
}

#[test]
fn level_scale_category_selection() {
    assert_eq!(level_scale(0, 0, 0), 10);
    assert_eq!(level_scale(0, 2, 2), 10);
    assert_eq!(level_scale(0, 1, 1), 16);
    assert_eq!(level_scale(0, 3, 3), 16);
    // Mixed parity.
    assert_eq!(level_scale(0, 0, 1), 13);
    assert_eq!(level_scale(6, 0, 0), level_scale(0, 0, 0));
}

#[test]
fn chroma_qp_below_30_is_identity() {
    assert_eq!(chroma_qp(10, 0), 10);
    assert_eq!(chroma_qp(29, 0), 29);
    // Clipped before the table is read.
    assert_eq!(chroma_qp(0, -5), 0);
}

#[test]
fn chroma_qp_table_boundary_values() {
    assert_eq!(chroma_qp(30, 0), 29);
    assert_eq!(chroma_qp(33, 0), 32);
    assert_eq!(chroma_qp(34, 0), 32);
    assert_eq!(chroma_qp(45, 0), 38);
    assert_eq!(chroma_qp(51, 0), 39);
    // The offset is applied before the same table.
    assert_eq!(chroma_qp(45, 6), chroma_qp(51, 0));
}

#[test]
fn next_qpy_wraps_per_eq_7_23() {
    assert_eq!(next_qpy(26, 0), 26);
    assert_eq!(next_qpy(51, 1), 0);
    assert_eq!(next_qpy(0, -1), 51);
    assert_eq!(next_qpy(26, -26), 0);
    assert_eq!(next_qpy(26, 25), 51);
}

#[test]
fn dequant_4x4_dc_exception_and_regular_scaling() {
    let mut c = [0i32; 16];
    c[0] = 7;
    c[1] = 1;
    let scaled = dequant_4x4(&c, 0, true);
    assert_eq!(scaled[0], 7, "a DC that is scaled already passes through");
    assert_eq!(scaled[1], 13);
    let scaled_no_dc = dequant_4x4(&c, 0, false);
    assert_eq!(scaled_no_dc[0], 7 * level_scale(0, 0, 0));
}

#[test]
fn dequant_4x4_shift_scales_with_qp_over_6() {
    let mut c = [0i32; 16];
    c[5] = 2;
    let low = dequant_4x4(&c, 0, false);
    let high = dequant_4x4(&c, 6, false);
    assert_eq!(high[5], low[5] * 2);
}

#[test]
fn dequant_luma_dc_matches_hand_computed_flat_case() {
    let c = [0i32; 16];
    assert_eq!(dequant_luma_dc_4x4(&c, 26), [0; 16]);
    assert_eq!(dequant_luma_dc_4x4(&c, 4), [0; 16]);
}

#[test]
fn dequant_chroma_dc_matches_hand_computed_flat_case() {
    let c = [0i32; 4];
    assert_eq!(dequant_chroma_dc_2x2(&c, 26), [0; 4]);
    assert_eq!(dequant_chroma_dc_2x2(&c, 2), [0; 4]);
}

/// One DC coefficient spreads evenly over all blocks: below a quantiser of 36
/// with rounding, above by a plain shift.
#[test]
fn a_single_luma_dc_spreads_evenly() {
    let mut c = [0i32; 16];
    c[0] = 3;
    // (3 * 10 * 16 + 32) >> 6 at quantiser 0.
    assert_eq!(dequant_luma_dc_4x4(&c, 0), [(3 * 10 * 16 + 32) >> 6; 16]);
    // 3 * 10 * 16 << 0 at quantiser 36.
    assert_eq!(dequant_luma_dc_4x4(&c, 36), [3 * 10 * 16; 16]);
}

#[test]
fn a_single_chroma_dc_spreads_evenly() {
    // ((5 * 10 * 16) << 0) >> 5 at quantiser 0.
    assert_eq!(dequant_chroma_dc_2x2(&[5, 0, 0, 0], 0), [25; 4]);
    assert_eq!(dequant_chroma_dc_2x2(&[0, 5, 0, 0], 0), [25, -25, 25, -25]);
}

/// Two steps of the quantiser are one step by their sum.
#[test]
fn quantiser_steps_add_up() {
    assert_eq!(next_qpy(next_qpy(40, 20), -7), next_qpy(40, 13));
    assert_eq!(next_qpy(next_qpy(3, -26), 25), next_qpy(3, -1));
}

/// Large inputs are no obstacle where the results fit.
#[test]
fn hadamard_results_bound_the_inputs() {
    let mut c = [0i32; 16];
    c[0] = i32::MAX;
    assert_eq!(luma_dc_hadamard4x4(&c), [i32::MAX; 16]);
    assert_eq!(chroma_dc_hadamard2x2(&[i32::MIN, 0, 0, 0]), [i32::MIN; 4]);
    assert_eq!(chroma_dc_hadamard2x2(&[4, 3, 2, 1]), [10, 2, 4, 0]);
}
