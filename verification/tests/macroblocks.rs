//! Macroblock syntax: types, neighbours, bits and bins.
use std::collections::{HashMap, HashSet};
use vaco_codec_h264::bits::{more_rbsp_data, BitReader};
use vaco_codec_h264::budget::Budget;
use vaco_codec_h264::cabac_syntax::{
    decode_mb_type_b, decode_mb_type_b_prefix, decode_mb_type_p, decode_mvd_component,
    decode_ref_idx, decode_sub_mb_type_b_tree, decode_sub_mb_type_p, mb_type_i_cond_term,
    mvd_abs_term, qp_delta_ctx_inc, ref_idx_cond_term, MbTypeBPrefix, PrevMbQp,
};
use vaco_codec_h264::coder::{BinScript, Coder};
use vaco_codec_h264::contexts::CabacMbCtx;
use vaco_codec_h264::direct::{
    apply_direct_quadrant, apply_spatial_direct_16x16, direct_ref_idx, DirectParams,
};
use vaco_codec_h264::error::{Error, Reason};
use vaco_codec_h264::grids::{
    blk_xy, collect_mv_blocks, idx_2d, mb_addr_xy, nc_from_neighbours, CabacGrids, CabacMbInfo, Lists,
    MvInfo, NeighbourGrid,
};
use vaco_codec_h264::mb_type::{
    classify_mb_type, classify_sub_mb_type, two_partition_rects, MbKind, PartPred, SliceKind,
};
use vaco_codec_h264::motion::{p_skip_mv, predict_mv, Neighbour, PartitionShape};
use vaco_codec_h264::sub_mb::{decode_sub_mb_pred, DirectEnv};

fn budget() -> Budget {
    Budget::new(1 << 30)
}

fn queued_bits(bits: &[u32]) -> Coder<BinScript> {
    Coder::new(BinScript::new(bits.to_vec()), CabacMbCtx::new(26, false, 0))
}

#[test]
fn mb_info_at_is_fine_once_set_mb_info_runs() {
    let mut budget = budget();
    let mut grids = CabacGrids::new(2, 2, &mut budget).unwrap();
    grids.begin_macroblock(0, 0);
    grids.set_mb_info(0, 0, CabacGrids::current_macroblock_info());
    assert!(grids.mb_info_at(0, 0).is_some(), "a finished macroblock is visible to itself too");
}

#[test]
fn mb_info_at_for_a_different_macroblock_never_panics() {
    let mut budget = budget();
    let mut grids = CabacGrids::new(2, 2, &mut budget).unwrap();
    grids.set_mb_info(0, 0, CabacGrids::current_macroblock_info());
    grids.begin_macroblock(1, 0);
    assert!(grids.mb_info_at(0, 0).is_some());
}

#[test]
fn more_rbsp_data_finds_a_short_real_read_ending_at_the_buffers_own_end() {
    let data = [0b0101_0000u8];
    let mut r = BitReader::new(&data);
    assert!(more_rbsp_data(&r), "three bits remain in front of the trailing pattern");
    r.try_get(3).unwrap();
    assert!(!more_rbsp_data(&r), "only the trailing pattern remains");
}

#[test]
fn more_rbsp_data_is_false_for_every_trailing_bits_shape() {
    for shift in 0u32..8 {
        let byte = 0b1000_0000u8 >> shift;
        let data = [byte];
        let mut r = BitReader::new(&data);
        r.try_get(shift).unwrap();
        assert!(!more_rbsp_data(&r), "byte {byte:#010b}, {shift} bits read");
    }
}

#[test]
fn more_rbsp_data_is_true_when_a_real_bit_precedes_the_stop_bit() {
    let data = [0b0100_0000u8];
    let r = BitReader::new(&data);
    assert!(more_rbsp_data(&r));
}

#[test]
fn more_rbsp_data_is_true_with_plenty_of_bits_left() {
    let data = [0u8, 0u8];
    let r = BitReader::new(&data);
    assert!(more_rbsp_data(&r));
}

#[test]
fn mb_type_b_prefix_covers_every_code_from_0_to_23_or_the_sentinel_exactly_once() {
    let mut hits: HashMap<u32, Vec<[u32; 7]>> = HashMap::new();
    let mut sentinel_hits: Vec<[u32; 7]> = Vec::new();
    for mask in 0u32..128 {
        let bits: [u32; 7] = std::array::from_fn(|i| (mask >> i) & 1);
        match decode_mb_type_b_prefix(0, &mut queued_bits(&bits)) {
            MbTypeBPrefix::Code(v) => hits.entry(v).or_default().push(bits),
            MbTypeBPrefix::NeedsIntraSuffix => sentinel_hits.push(bits),
        }
    }
    for code in 0u32..=23 {
        assert!(hits.contains_key(&code), "mb_type code {code} is unreachable");
    }
    assert!(!sentinel_hits.is_empty(), "the intra suffix is unreachable");
    for &code in hits.keys() {
        assert!(code <= 23, "mb_type prefix produced an out-of-range code {code}");
    }
}

#[test]
fn mb_type_b_prefix_hand_traced_cases() {
    let code = |bits: &[u32]| match decode_mb_type_b_prefix(0, &mut queued_bits(bits)) {
        MbTypeBPrefix::Code(v) => v,
        MbTypeBPrefix::NeedsIntraSuffix => u32::MAX,
    };
    assert_eq!(code(&[0]), 0, "B_Direct_16x16");
    assert_eq!(code(&[1, 0, 0]), 1, "B_L0_16x16");
    assert_eq!(code(&[1, 0, 1]), 2, "B_L1_16x16");
    assert_eq!(code(&[1, 1, 0, 0, 0, 0]), 3, "B_Bi_16x16");
    assert_eq!(code(&[1, 1, 0, 1, 1, 1]), 10, "last of the branch with three more bins");
    assert_eq!(code(&[1, 1, 1, 1, 1, 0]), 11, "no further bin");
    assert_eq!(code(&[1, 1, 1, 0, 0, 0, 0]), 12, "first of the branch from twelve on");
    assert_eq!(code(&[1, 1, 1, 1, 0, 0, 0]), 20, "last bin clear");
    assert_eq!(code(&[1, 1, 1, 1, 0, 0, 1]), 21, "last bin set");
    assert_eq!(code(&[1, 1, 1, 1, 1, 1]), 22, "no further bin");
    assert!(
        matches!(
            decode_mb_type_b_prefix(0, &mut queued_bits(&[1, 1, 1, 1, 0, 1, 1])),
            MbTypeBPrefix::NeedsIntraSuffix
        ),
        "the one prefix of intra types"
    );
}

#[test]
fn sub_mb_type_b_covers_every_code_from_0_to_12_exactly_once() {
    let mut hits: HashSet<u32> = HashSet::new();
    for mask in 0u32..64 {
        let bits: [u32; 6] = std::array::from_fn(|i| (mask >> i) & 1);
        let v = decode_sub_mb_type_b_tree(&mut queued_bits(&bits));
        assert!(v <= 12, "sub_mb_type produced an out-of-range code {v}");
        hits.insert(v);
    }
    for code in 0u32..=12 {
        assert!(hits.contains(&code), "sub_mb_type code {code} is unreachable");
    }
}

#[test]
fn sub_mb_type_b_hand_traced_cases() {
    let code = |bits: &[u32]| decode_sub_mb_type_b_tree(&mut queued_bits(bits));
    assert_eq!(code(&[0]), 0, "B_Direct_8x8");
    assert_eq!(code(&[1, 0, 0]), 1, "B_L0_8x8");
    assert_eq!(code(&[1, 0, 1]), 2, "B_L1_8x8");
    assert_eq!(code(&[1, 1, 0, 0, 0]), 3, "B_Bi_8x8");
    assert_eq!(code(&[1, 1, 0, 1, 1]), 6, "last of the branch from three on");
    assert_eq!(code(&[1, 1, 1, 0, 0, 0]), 7, "first of the branch from seven on");
    assert_eq!(code(&[1, 1, 1, 0, 1, 1]), 10, "last of the branch from seven on");
    assert_eq!(code(&[1, 1, 1, 1, 0]), 11, "first of the last branch");
    assert_eq!(code(&[1, 1, 1, 1, 1]), 12, "B_Bi_4x4x4 (last code)");
}

#[test]
fn predictive_types_follow_their_trees() {
    assert_eq!(decode_mb_type_p(&mut queued_bits(&[0, 0, 0])), 0);
    assert_eq!(decode_mb_type_p(&mut queued_bits(&[0, 0, 1])), 3);
    assert_eq!(decode_sub_mb_type_p(&mut queued_bits(&[1])), 0);
    assert_eq!(decode_sub_mb_type_p(&mut queued_bits(&[0, 0])), 1);
    // An intra type inside a B slice is told from the suffix on.
    assert!(decode_mb_type_b(&mut queued_bits(&[1, 1, 1, 1, 0, 1, 1, 0]), 0) >= 23);
}

#[test]
fn reference_indices_and_vector_differences_are_unary_first() {
    assert_eq!(decode_ref_idx(&mut queued_bits(&[0]), 0), 0);
    assert_eq!(decode_ref_idx(&mut queued_bits(&[1, 1, 1, 0]), 2), 3);
    assert_eq!(decode_mvd_component(&mut queued_bits(&[0]), 0, 0), 0);
    assert_eq!(decode_mvd_component(&mut queued_bits(&[1, 1, 0, 1]), 1, 40), -2);
    // Nine set bins, then a suffix and the sign.
    assert_eq!(
        decode_mvd_component(&mut queued_bits(&[1, 1, 1, 1, 1, 1, 1, 1, 1, 5, 0]), 0, 0),
        14
    );
}

#[test]
fn context_increments_look_at_the_neighbour() {
    assert_eq!(mb_type_i_cond_term(None), 0);
    let mut info = CabacGrids::current_macroblock_info();
    assert_eq!(mb_type_i_cond_term(Some(info)), 1);
    info.is_intra4x4 = true;
    info.is_intra = true;
    assert_eq!(mb_type_i_cond_term(Some(info)), 0);
    assert_eq!(qp_delta_ctx_inc(PrevMbQp::default()), 0);
}

#[test]
fn macroblock_types_are_classified_by_slice() {
    assert_eq!(classify_mb_type(SliceKind::I, 0), Ok(MbKind::Intra4x4));
    assert_eq!(classify_mb_type(SliceKind::I, 25), Ok(MbKind::IPcm));
    assert_eq!(
        classify_mb_type(SliceKind::I, 26),
        Err(Error::InvalidData(Reason::MbTypeRange))
    );
    assert_eq!(
        classify_mb_type(SliceKind::I, 1),
        Ok(MbKind::Intra16x16 { cbp_luma: 0, cbp_chroma: 0, pred_mode: 0 })
    );
    assert_eq!(
        classify_mb_type(SliceKind::P, 0),
        Ok(MbKind::Inter { first: PartPred::L0, second: None })
    );
    assert_eq!(classify_mb_type(SliceKind::P, 4), Ok(MbKind::P8x8 { ref0_inferred: true }));
    assert_eq!(classify_mb_type(SliceKind::P, 5), Ok(MbKind::Intra4x4));
    assert_eq!(classify_mb_type(SliceKind::B, 0), Ok(MbKind::BDirect16x16));
    assert_eq!(classify_mb_type(SliceKind::B, 22), Ok(MbKind::B8x8));
    assert_eq!(classify_mb_type(SliceKind::Si, 0), Err(Error::Unsupported(Reason::SiSlice)));
    assert_eq!(classify_sub_mb_type(false, 3), Ok((4, Some(PartPred::L0))));
    assert_eq!(classify_sub_mb_type(true, 0), Ok((4, None)));
    assert_eq!(
        classify_sub_mb_type(false, 4),
        Err(Error::InvalidData(Reason::SubMbTypeRange))
    );
    let (a, b) = two_partition_rects(SliceKind::P, 1);
    assert_ne!(a, b);
}

#[test]
fn addresses_and_blocks_have_places() {
    assert_eq!(mb_addr_xy(7, 3), (1, 2));
    assert_eq!(blk_xy(0), (0, 0));
    assert_eq!(blk_xy(5), (3, 0));
    assert_eq!(blk_xy(10), (0, 3));
    assert_eq!(blk_xy(15), (3, 3));
}

#[test]
fn coefficient_counts_average_the_neighbours() {
    assert_eq!(nc_from_neighbours(None, None), 0);
    assert_eq!(nc_from_neighbours(Some(4), None), 4);
    assert_eq!(nc_from_neighbours(Some(4), Some(7)), 6);
    let mut g = NeighbourGrid::new(2, 1);
    g.set_luma(3, 0, 9);
    g.set_chroma(1, 1, 1, 2);
    assert_eq!(g.nc_luma(4, 0), 9);
    assert_eq!(g.nc_luma(3, 0), 0, "a block does not count for itself");
    assert_eq!(g.nc_chroma(1, 2, 1), 2);
    assert_eq!(g.nc_chroma(0, 2, 1), 0);
}

/// A motion that was written is read back, and nothing else changes.
#[test]
fn motion_is_read_back_where_it_was_written() {
    let mut b = budget();
    let mut grids = CabacGrids::new(2, 2, &mut b).unwrap();
    let mut v = MvInfo::default();
    v.mb_available = true;
    v.pred = Some(PartPred::L0);
    v.mv.l0 = (5, -6);
    grids.set_mv(5, 1, v);
    assert_eq!(grids.mv_at(5, 1).mv_l0(), (5, -6));
    assert!(!grids.mv_at(4, 1).is_inter());
    let blocks = collect_mv_blocks(&grids, 1, 0);
    assert_eq!(blocks[5].mv_l0(), (5, -6));
    assert!(blocks.iter().enumerate().all(|(i, m)| i == 5 || !m.is_inter()));
}

#[test]
fn grids_charge_the_budget_and_give_it_back() {
    let mut b = budget();
    let grids = CabacGrids::new(3, 2, &mut b).unwrap();
    assert_eq!(b.committed, 6 * 424);
    grids.release(&mut b);
    assert_eq!(b.committed, 0);
    let mut small = Budget::new(6 * 424 - 1);
    assert!(matches!(CabacGrids::new(3, 2, &mut small), Err(Error::LimitExceeded)));
}

#[test]
fn facts_of_an_unknown_macroblock_are_all_clear() {
    let info = CabacMbInfo::default();
    assert!(!info.available && !info.is_intra && !info.skipped);
}

#[test]
fn vectors_are_predicted_from_their_neighbours() {
    let n = |x: i16, y: i16, r: i8| Neighbour { available: true, ref_idx: r, mv: (x, y) };
    // The median of three with the same reference.
    assert_eq!(
        predict_mv(PartitionShape::Whole, n(1, 9, 0), n(5, 2, 0), n(3, 4, 0), 0),
        (3, 4)
    );
    // The only neighbour with the reference wins.
    assert_eq!(
        predict_mv(PartitionShape::Whole, n(1, 9, 0), n(5, 2, 1), n(3, 4, 0), 1),
        (5, 2)
    );
    // The upper half looks up first.
    assert_eq!(
        predict_mv(PartitionShape::Top16x8, n(1, 9, 0), n(5, 2, 0), n(3, 4, 0), 0),
        (5, 2)
    );
    // A still neighbour keeps skipped blocks still.
    assert_eq!(p_skip_mv(n(0, 0, 0), n(5, 2, 0), n(3, 4, 0)), (0, 0));
    assert_eq!(p_skip_mv(n(1, 9, 0), n(5, 2, 0), n(3, 4, 0)), (3, 4));
}

/// The bytes of a string of bits, filled up with zeros.
fn bytes_of(bits: &str) -> Vec<u8> {
    let mut out = vec![0u8; bits.len() / 8 + 2];
    for (i, c) in bits.chars().enumerate() {
        if c == '1' {
            out[i / 8] |= 0x80u8 >> (i % 8);
        }
    }
    out
}

fn quadrants(types: &str, is_b: bool) -> CabacGrids {
    let mut b = budget();
    let mut grids = CabacGrids::new(1, 1, &mut b).unwrap();
    // The upper quadrants have two parts each, the lower ones one.
    let vectors = ["0101", "001001", "11", "00010001", "11", "11"].concat();
    let data = bytes_of(&[types, &vectors].concat());
    let mut reader = BitReader::new(&data);
    let env = DirectEnv { inference: true, params: None, colocated: None };
    let one = Lists { l0: 0u32, l1: 0u32 };
    let large = decode_sub_mb_pred(&mut reader, &mut grids, one, 0, 0, false, is_b, env);
    assert_eq!(large, Ok(false));
    assert_eq!(reader.pos, types.len() + vectors.len());
    grids
}

/// Of the two codes that halve a quadrant the lower puts the parts above each
/// other, the higher side by side, in both kinds of slices.
#[test]
fn halves_of_a_quadrant_lie_as_their_code_says() {
    for (types, is_b) in [("01001111", false), ("0010100110010010", true)] {
        let grids = quadrants(types, is_b);
        for x in 0..2 {
            assert_eq!(grids.mv_at(x, 0).mv_l0(), (1, 0));
            assert_eq!(grids.mv_at(x, 1).mv_l0(), (3, 0));
        }
        for y in 0..2 {
            assert_eq!(grids.mv_at(2, y).mv_l0(), (1, 0));
            assert_eq!(grids.mv_at(3, y).mv_l0(), (5, 0));
        }
    }
}

/// The lists of a refused picture stay charged up to the first that does not
/// fit, and a picture that no budget covers is refused.
#[test]
fn grids_are_charged_list_by_list() {
    // Six macroblocks: 78 bytes of facts, 96 luma flags, twice 24 chroma flags,
    // three times 6, 2112 of motion and 192 of modes.
    for (limit, charged) in [(77, 0), (78, 78), (173, 78), (2351, 240), (2543, 2352)] {
        let mut b = Budget::new(limit);
        assert!(matches!(CabacGrids::new(3, 2, &mut b), Err(Error::LimitExceeded)));
        assert_eq!(b.committed, charged, "limit {limit}");
    }
    let mut b = Budget::new(2544);
    assert!(CabacGrids::new(3, 2, &mut b).is_ok());
    assert_eq!(b.committed, 2544);
    let mut b = Budget::new(1 << 30);
    assert!(matches!(CabacGrids::new(0x1_0000, 0x1_0000, &mut b), Err(Error::LimitExceeded)));
    let mut b = Budget::new(0);
    let empty = CabacGrids::new(0, 5, &mut b).unwrap();
    assert!(empty.mb_info_at(0, 0).is_none());
}

/// The luma DC flag of a macroblock is not that of its first block.
#[test]
fn a_luma_dc_flag_outlives_every_other_flag() {
    let mut b = budget();
    let mut grids = CabacGrids::new(2, 2, &mut b).unwrap();
    assert_eq!(grids.cbf_luma_dc_at(1, 1), None);
    grids.set_cbf_luma_dc(1, 1, true);
    grids.set_cbf_luma(4, 4, false);
    grids.set_cbf_chroma(0, 2, 2, false);
    grids.set_cbf_chroma_dc(1, 1, 1, false);
    assert_eq!(grids.cbf_luma_dc_at(1, 1), Some(true));
    assert_eq!(grids.cbf_luma_dc_at(0, 0), None);
}

/// The quadrants of a direct macroblock come in any order, and no other block
/// is touched.
#[test]
fn direct_quadrants_come_in_any_order() {
    let params = DirectParams { l0_ref: 1, l1_ref: -1, mv0: (4, -8), mv1: (0, 0) };
    let mut b = budget();
    let mut whole = CabacGrids::new(2, 2, &mut b).unwrap();
    apply_spatial_direct_16x16(&mut whole, 1, 0, true, params, None);
    let mut parts = CabacGrids::new(2, 2, &mut b).unwrap();
    for k in [2, 0, 3, 1] {
        apply_direct_quadrant(&mut parts, 1, 0, k, true, params, None);
    }
    for y in 0..8 {
        for x in 0..8 {
            let (m, n) = (whole.mv_at(x, y), parts.mv_at(x, y));
            assert_eq!((m.pred, m.mv_l0(), m.ref_idx_l0()), (n.pred, n.mv_l0(), n.ref_idx_l0()));
            let inside = (4..8).contains(&x) && y < 4;
            assert_eq!(m.is_inter(), inside);
            assert_eq!(m.mb_available && m.direct_or_skip, inside);
            if inside {
                assert_eq!((m.pred, m.mv_l0()), (Some(PartPred::L0), (4, -8)));
            }
        }
    }
    let none = DirectParams { l0_ref: -1, l1_ref: -1, mv0: (4, -8), mv1: (1, 1) };
    apply_spatial_direct_16x16(&mut whole, 0, 1, false, none, None);
    let m = whole.mv_at(3, 7);
    assert_eq!(m.pred, Some(PartPred::Bi));
    assert_eq!((m.ref_idx_l0(), m.ref_idx_l1()), (0, 0));
    assert_eq!((m.mv_l0(), m.mv_l1()), ((0, 0), (0, 0)));
}

/// There are two lists: nothing is read from any other.
#[test]
fn there_is_no_third_list() {
    let mut m = MvInfo::default();
    m.mb_available = true;
    m.pred = Some(PartPred::Bi);
    m.ref_idx = Lists { l0: 1, l1: 2 };
    m.mv = Lists { l0: (3, 4), l1: (5, 6) };
    m.mvd = Lists { l0: (7, 8), l1: (9, 10) };
    for (list, reference, mv) in [(0, 1, (3, 4)), (1, 2, (5, 6)), (2, -1, (0, 0)), (9, -1, (0, 0))] {
        let n = m.as_motion_neighbour(list);
        assert!(n.available);
        assert_eq!((n.ref_idx, n.mv), (reference, mv));
        assert_eq!(direct_ref_idx(m, list), reference);
    }
    assert_eq!([0, 1, 2].map(|list| ref_idx_cond_term(m, list)), [1, 1, 0]);
    assert_eq!([0, 1, 2].map(|list| mvd_abs_term(m, list, 1)), [8, 10, 0]);
    assert!(PartPred::L1.reads(1) && !PartPred::L1.reads(0) && !PartPred::L1.reads(2));
}

/// Cells are numbered in 32 bits, and an empty grid has none.
#[test]
fn only_numbered_cells_are_found() {
    assert_eq!(idx_2d(2, 3, 4, 4), Some(14));
    assert_eq!(idx_2d(4, 3, 4, 4), None);
    assert_eq!(idx_2d(u32::MAX - 1, 1, u32::MAX, 2), None);
    assert_eq!(idx_2d(0, 1, u32::MAX, 2), Some(u32::MAX as usize));
    let mut grid = NeighbourGrid::new(0, 3);
    assert_eq!(grid.luma_idx(0, 0), None);
    grid.set_luma(0, 0, 4);
    assert_eq!(grid.nc_luma(1, 0), 0);
}
