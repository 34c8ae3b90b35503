//! The filter across block edges.
use vaco_codec_h264::cabac_residual::CabacResidual;
use vaco_codec_h264::deblock::{
    boundary_strength, deblock_picture_chroma, deblock_picture_luma, has_luma_coeffs, mv_differs,
    raster_to_luma4x4_blk_idx, ref_poc, DeblockCtx, MbGrid,
};
use vaco_codec_h264::edge_filter::{filter_chroma_line, filter_luma_line, EdgeThresholds, Line};
use vaco_codec_h264::grids::MvInfo;
use vaco_codec_h264::mb_residual::MbResidual;
use vaco_codec_h264::mb_type::PartPred;
use vaco_codec_h264::slice::MbSummary;

/// A macroblock with the strongest edges.
fn intra_mb(mb_x: u32, mb_y: u32) -> MbSummary {
    MbSummary {
        mb_x,
        mb_y,
        skipped: false,
        is_ipcm: false,
        is_intra4x4: false,
        is_intra8x8: false,
        is_intra16x16: true,
        intra16x16_pred_mode: 0,
        transform_8x8: false,
        intra_chroma_pred_mode: 0,
        qpy: 40,
        residual: MbResidual::default(),
        mv_blocks: [MvInfo::default(); 16],
    }
}

fn grid(mbs_wide: u32, mbs_high: u32) -> Vec<MbSummary> {
    (0..mbs_high).flat_map(|y| (0..mbs_wide).map(move |x| intra_mb(x, y))).collect()
}

fn plane(w: usize, h: usize) -> Vec<u8> {
    (0..w * h).map(|i| 128 + ((i * 7 + (i / w) * 5) % 7) as u8).collect()
}

fn changed_rows(before: &[u8], after: &[u8], w: usize, h: usize) -> Vec<usize> {
    (0..h).filter(|&y| before[y * w..(y + 1) * w] != after[y * w..(y + 1) * w]).collect()
}

#[test]
fn filtering_one_luma_macroblock_row_reaches_exactly_three_rows_above_it() {
    let (mbs_wide, mbs_high) = (3u32, 3u32);
    let (w, h) = ((mbs_wide * 16) as usize, (mbs_high * 16) as usize);
    let mbs = grid(mbs_wide, mbs_high);
    let ctx = DeblockCtx::new(&mbs, mbs_wide, mbs_high, 0, 0, &[], &[]);
    let before = plane(w, h);
    let mut after = before.clone();
    ctx.luma_mb_row(&mut after, 1);
    let changed = changed_rows(&before, &after, w, h);
    assert!(!changed.is_empty(), "the filter did not move a single byte");
    assert_eq!(*changed.iter().min().unwrap(), 13, "three rows above the row");
    assert!(*changed.iter().max().unwrap() <= 30, "nothing below may move: {changed:?}");
}

#[test]
fn filtering_one_chroma_macroblock_row_reaches_exactly_one_row_above_it() {
    let (mbs_wide, mbs_high) = (3u32, 3u32);
    let (w, h) = ((mbs_wide * 8) as usize, (mbs_high * 8) as usize);
    let mbs = grid(mbs_wide, mbs_high);
    let ctx = DeblockCtx::new(&mbs, mbs_wide, mbs_high, 0, 0, &[], &[]);
    let before = plane(w, h);
    let mut after = before.clone();
    ctx.chroma_mb_row(&mut after, 0, 1);
    let changed = changed_rows(&before, &after, w, h);
    assert!(!changed.is_empty(), "the filter did not move a single byte");
    assert_eq!(*changed.iter().min().unwrap(), 7, "one row above the row");
    assert!(*changed.iter().max().unwrap() <= 15, "nothing below may move: {changed:?}");
}

#[test]
fn filtering_row_by_row_matches_the_whole_picture_sweep() {
    let (mbs_wide, mbs_high) = (4u32, 4u32);
    let (w, h) = ((mbs_wide * 16) as usize, (mbs_high * 16) as usize);
    let mbs = grid(mbs_wide, mbs_high);
    let mut whole = plane(w, h);
    deblock_picture_luma(&mut whole, &mbs, mbs_wide, mbs_high, 0, 0, 0, &[], &[]).unwrap();
    let mut rows = plane(w, h);
    let ctx = DeblockCtx::new(&mbs, mbs_wide, mbs_high, 0, 0, &[], &[]);
    for my in 0..mbs_high {
        ctx.luma_mb_row(&mut rows, my);
    }
    assert_eq!(whole, rows);
}

#[test]
fn filtering_chroma_row_by_row_matches_the_whole_plane() {
    let (mbs_wide, mbs_high) = (4u32, 4u32);
    let (w, h) = ((mbs_wide * 8) as usize, (mbs_high * 8) as usize);
    let mbs = grid(mbs_wide, mbs_high);
    let before = plane(w, h);
    let mut whole = before.clone();
    let _ = deblock_picture_chroma(&mut whole, &mbs, mbs_wide, mbs_high, 0, 0, 0, 0, &[], &[]);
    let mut rows = before.clone();
    let ctx = DeblockCtx::new(&mbs, mbs_wide, mbs_high, 0, 0, &[], &[]);
    for my in 0..mbs_high {
        ctx.chroma_mb_row(&mut rows, 0, my);
    }
    assert_ne!(before, rows);
    assert_eq!(whole, rows);
}

/// Vertical edges run over every row of a macroblock, the last one included.
#[test]
fn columns_are_filtered_down_to_the_last_row() {
    let mbs = grid(2, 1);
    let (w, h) = (32usize, 16usize);
    let before: Vec<u8> = (0..w * h).map(|i| if i % w < 16 { 100 } else { 108 }).collect();
    let mut after = before.clone();
    deblock_picture_luma(&mut after, &mbs, 2, 1, 0, 0, 0, &[], &[]).unwrap();
    assert_eq!(changed_rows(&before, &after, w, h), (0..16).collect::<Vec<_>>());
}

#[test]
fn a_disabled_filter_changes_nothing() {
    let mbs = grid(2, 2);
    let before = plane(32, 32);
    let mut after = before.clone();
    deblock_picture_luma(&mut after, &mbs, 2, 2, 1, 0, 0, &[], &[]).unwrap();
    assert_eq!(before, after);
    let before = plane(16, 16);
    let mut after = before.clone();
    deblock_picture_chroma(&mut after, &mbs, 2, 2, 0, 1, 0, 0, &[], &[]);
    assert_eq!(before, after);
    deblock_picture_chroma(&mut after, &mbs, 2, 2, 0, 0, 0, 0, &[], &[]);
    assert_ne!(before, after);
}

#[test]
fn a_flat_picture_stays_flat() {
    let mbs = grid(2, 2);
    let mut luma = vec![77u8; 32 * 32];
    deblock_picture_luma(&mut luma, &mbs, 2, 2, 0, 0, 0, &[], &[]).unwrap();
    assert!(luma.iter().all(|v| *v == 77));
}

#[test]
fn strength_depends_on_coding_and_motion() {
    let intra = intra_mb(0, 0);
    let inter = MbSummary { is_intra16x16: false, ..intra_mb(1, 0) };
    assert_eq!(boundary_strength(true, &intra, 0, &inter, 0, &[], &[]), 4);
    assert_eq!(boundary_strength(false, &intra, 0, &intra, 0, &[], &[]), 3);
    assert_eq!(boundary_strength(true, &inter, 0, &intra, 0, &[], &[]), 4, "either side");
    let mut moved = MvInfo::default();
    moved.mb_available = true;
    moved.pred = Some(PartPred::L0);
    let still = MbSummary { mv_blocks: [moved; 16], ..inter.clone() };
    moved.mv.l0 = (4, 0);
    let fast = MbSummary { mv_blocks: [moved; 16], ..inter.clone() };
    assert_eq!(boundary_strength(true, &still, 0, &still, 0, &[7], &[]), 0);
    assert_eq!(boundary_strength(true, &still, 0, &fast, 0, &[7], &[]), 1);
    moved.mv.l0 = (0, 0);
    moved.ref_idx.l0 = 1;
    let other = MbSummary { mv_blocks: [moved; 16], ..inter.clone() };
    assert_eq!(boundary_strength(true, &still, 0, &other, 0, &[7, 9], &[]), 1);
    assert_eq!(boundary_strength(true, &still, 0, &other, 0, &[7, 7], &[]), 0, "one picture");
}

#[test]
fn small_queries_have_exact_answers() {
    assert!(mv_differs((0, 0), (4, 0)));
    assert!(!mv_differs((0, 0), (3, -3)));
    assert_eq!(ref_poc(&[7, 9], 1), Some(9));
    assert_eq!(ref_poc(&[7, 9], 2), None);
    assert_eq!(ref_poc(&[7, 9], -1), None);
    assert_eq!(raster_to_luma4x4_blk_idx(2), 4);
    assert_eq!(raster_to_luma4x4_blk_idx(7), 7);
    let mbs = grid(2, 1);
    let g = MbGrid::new(&mbs, 2, 1);
    assert_eq!(g.at(1, 0).unwrap().mb_x, 1);
    assert_eq!(g.qpy(1, 0), 40);
}

/// A strong edge is smoothed the same from either side.
#[test]
fn lines_are_filtered_symmetrically() {
    let t = EdgeThresholds::derive(40, 40, 0, 0);
    let l = Line { p3: 10, p2: 10, p1: 10, p0: 10, q0: 14, q1: 14, q2: 14, q3: 14 };
    let out = filter_luma_line(l, 4, t);
    // (10 + 2 * 10 + 2 * 10 + 2 * 14 + 14 + 4) / 8 and, with one sample of the
    // other side less, (10 + 2 * 10 + 2 * 14 + 2 * 14 + 14 + 4) / 8.
    assert_eq!((out.p0, out.q0), (12, 13));
    let flipped = Line { p3: 14, p2: 14, p1: 14, p0: 14, q0: 10, q1: 10, q2: 10, q3: 10 };
    let back = filter_luma_line(flipped, 4, t);
    assert_eq!((out.p0, out.p1, out.p2), (back.q0, back.q1, back.q2));
    assert_eq!(filter_chroma_line(10, 10, 14, 14, 0, t), (10, 14), "no strength, no change");
    assert_eq!(filter_chroma_line(10, 10, 14, 14, 4, t), (11, 13));
}

/// Of two macroblocks at one position the last is found, and none outside.
#[test]
fn the_last_macroblock_at_a_position_is_found() {
    let mut mbs = grid(2, 1);
    let mut late = intra_mb(0, 0);
    late.qpy = 7;
    mbs.push(late);
    let g = MbGrid::new(&mbs, 2, 2);
    assert_eq!(g.at(0, 0).unwrap().qpy, 7);
    assert_eq!(g.at(1, 0).unwrap().qpy, 40);
    assert!(g.at(0, 1).is_none());
    assert!(g.at(2, 0).is_none());
    assert!(g.at(0, 2).is_none());
}

/// Coefficients count by the transform block that they lie in.
#[test]
fn coefficients_strengthen_the_edges_of_their_block() {
    let plain = |x: u32| {
        let mut mb = intra_mb(x, 0);
        mb.is_intra16x16 = false;
        mb
    };
    let coded = CabacResidual { levels: vec![5], positions: vec![0], reserved: 16 };
    let (p, mut q) = (plain(0), plain(1));
    assert_eq!(boundary_strength(true, &p, 3, &q, 0, &[], &[]), 0);
    // Block 5 in coding order lies in the second quadrant, at raster position 3.
    q.residual.luma_ac[5] = Some(coded.clone());
    assert_eq!(boundary_strength(false, &q, 2, &q, 3, &[], &[]), 2);
    assert_eq!(boundary_strength(true, &p, 3, &q, 0, &[], &[]), 0);
    q.transform_8x8 = true;
    assert_eq!(boundary_strength(false, &q, 2, &q, 3, &[], &[]), 0);
    q.residual.luma8x8[1] = Some(coded);
    for blk in [2, 3, 6, 7] {
        assert_eq!(boundary_strength(true, &p, 3, &q, blk, &[], &[]), 2);
        assert_eq!(boundary_strength(true, &q, blk, &p, 3, &[], &[]), 2);
    }
    assert_eq!(boundary_strength(true, &intra_mb(0, 0), 3, &q, 2, &[], &[]), 4);
    assert_eq!(boundary_strength(false, &intra_mb(0, 0), 3, &q, 2, &[], &[]), 3);
}

/// Offsets up to the largest that the quantisers leave room for act as the
/// largest quantiser, and blocks behind the sixteenth have no coefficients.
#[test]
fn extreme_offsets_and_blocks_are_in_range() {
    let mbs = grid(2, 1);
    let filtered = |offset: i32| {
        let mut plane: Vec<u8> = (0..128).map(|i| if i % 16 < 8 { 100 } else { 110 }).collect();
        deblock_picture_chroma(&mut plane, &mbs, 2, 1, offset, 0, 0, 0, &[], &[]);
        plane
    };
    assert_eq!(filtered(i32::MAX - 40), filtered(51));
    let mut off: Vec<u8> = vec![1, 2, 3];
    deblock_picture_chroma(&mut off, &mbs, u32::MAX, u32::MAX, i32::MAX, 1, 0, 0, &[], &[]);
    assert_eq!(off, vec![1, 2, 3]);
    assert!(!has_luma_coeffs(&mbs[0], usize::MAX));
    assert_eq!(raster_to_luma4x4_blk_idx(usize::MAX), usize::MAX);
}
