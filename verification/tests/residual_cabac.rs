//! Arithmetic-coded residual blocks and their contexts.
use vaco_codec_h264::budget::Budget;
use vaco_codec_h264::cabac_residual::{
    residual_block_cabac, CabacInit, CabacResidual, ContextCategory,
};
use vaco_codec_h264::coder::{BinScript, Coder};
use vaco_codec_h264::contexts::{init_context, CabacMbCtx, ContextSet};
use vaco_codec_h264::error::Error;

fn budget() -> Budget {
    Budget::new(1 << 30)
}

/// The answers that a block's bins have, in the order in which they are asked.
fn encode_fixture(max_num_coeff: u8, positions: &[u8], levels: &[i32]) -> Vec<u32> {
    let mut bins = Vec::new();
    let last_scan_idx = max_num_coeff - 1;
    for i in 0..last_scan_idx {
        let sig = u32::from(positions.contains(&i));
        bins.push(sig);
        if sig == 1 {
            let is_last = positions.last() == Some(&i);
            bins.push(u32::from(is_last));
            if is_last {
                break;
            }
        }
    }
    for &level in levels.iter().rev() {
        let magnitude = level.unsigned_abs() - 1;
        let prefix = magnitude.min(14);
        for _ in 0..prefix {
            bins.push(1);
        }
        if prefix < 14 {
            bins.push(0);
        } else {
            bins.push(magnitude - 14);
        }
        bins.push(u32::from(level < 0));
    }
    bins
}

fn decode(bins: Vec<u32>, category: ContextCategory, max: u8) -> Result<CabacResidual, Error> {
    let mut coder = Coder::new(BinScript::new(bins), CabacMbCtx::new(26, true, 0));
    residual_block_cabac(&mut coder, category, max, &mut budget())
}

fn round_trip(category: ContextCategory, max: u8, positions: &[u8], levels: &[i32]) {
    let out = decode(encode_fixture(max, positions, levels), category, max).unwrap();
    assert_eq!(out.positions, positions);
    assert_eq!(out.levels, levels);
}

#[test]
fn residual_block_cabac_round_trips_through_its_own_test_encoder() {
    round_trip(ContextCategory::Luma4x4, 16, &[2, 5, 9], &[3, -1, 5]);
}

#[test]
fn residual_block_cabac_single_coefficient() {
    round_trip(ContextCategory::LumaDc, 16, &[0], &[1]);
}

/// Every position is significant; the last one's flag is never read.
#[test]
fn residual_block_cabac_last_position_significant_with_no_explicit_flag() {
    let positions: Vec<u8> = (0u8..15).collect();
    let levels = vec![1i32; 15];
    round_trip(ContextCategory::LumaAc, 15, &positions, &levels);
}

#[test]
fn residual_block_cabac_large_level_exercises_the_egk_suffix() {
    round_trip(ContextCategory::Luma4x4, 16, &[7], &[21]);
}

#[test]
fn residual_block_cabac_luma8x8_round_trips() {
    round_trip(ContextCategory::Luma8x8, 64, &[0, 5, 30, 62], &[4, -2, 9, 1]);
}

#[test]
fn context_set_new_produces_valid_states_across_the_full_qp_range() {
    let categories = [
        ContextCategory::LumaDc,
        ContextCategory::LumaAc,
        ContextCategory::Luma4x4,
        ContextCategory::ChromaDc,
        ContextCategory::ChromaAc,
        ContextCategory::Luma8x8,
    ];
    let inits = [CabacInit::IorSi, CabacInit::PSpB(0), CabacInit::PSpB(1), CabacInit::PSpB(2)];
    for qp in 0..=51i8 {
        for &category in &categories {
            for &init in &inits {
                let ctx = ContextSet::new(category, qp, init);
                for c in ctx
                    .significant_coeff_flag
                    .iter()
                    .chain(&ctx.last_significant_coeff_flag)
                    .chain(&ctx.coeff_abs_level_minus1_bin0)
                    .chain(&ctx.coeff_abs_level_minus1_binn)
                {
                    assert!(c.state <= 63);
                }
            }
        }
    }
}

/// The largest suffix that an engine can deliver is no reason to fail: the
/// magnitude stops at the largest that 32 bits hold, which reads as -1.
#[test]
fn residual_block_cabac_does_not_panic_on_an_all_ones_bypass_stream() {
    let out = decode(vec![u32::MAX; 80], ContextCategory::LumaDc, 4).unwrap();
    assert_eq!(out.positions, vec![0]);
    assert_eq!(out.levels, vec![1]);
}

#[test]
fn a_block_without_room_for_its_positions_is_refused() {
    let bins = encode_fixture(16, &[3], &[1]);
    let mut coder = Coder::new(BinScript::new(bins), CabacMbCtx::new(26, true, 0));
    let mut small = Budget::new(15);
    let r = residual_block_cabac(&mut coder, ContextCategory::Luma4x4, 16, &mut small);
    assert_eq!(r, Err(Error::LimitExceeded));
    assert_eq!(small.committed, 0);
}

#[test]
fn contexts_start_from_their_pair_and_the_quantiser() {
    // (20 * 26 >> 4) - 15 = 17: below 64, so the less probable bin is set.
    let m = init_context((20, -15), 26);
    assert_eq!(m.state, 63 - 17);
    assert!(!m.mps);
    let m = init_context((0, 127), 26);
    assert_eq!(m.state, 126 - 64);
    assert!(m.mps);
}
