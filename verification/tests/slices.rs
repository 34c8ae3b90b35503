//! Whole slices.
use vaco_codec_h264::bits::BitReader;
use vaco_codec_h264::budget::Budget;
use vaco_codec_h264::coder::{BinScript, Coder};
use vaco_codec_h264::contexts::CabacMbCtx;
use vaco_codec_h264::error::{Error, Reason};
use vaco_codec_h264::headers::{ChromaFormat, Pps, SliceHeader, Sps};
use vaco_codec_h264::intra::{
    predict_intra16x16, predict_intra_chroma, Neighbours16, NeighboursChroma,
};
use vaco_codec_h264::mb_type::SliceKind;
use vaco_codec_h264::slice::SliceStats;
use vaco_codec_h264::slice_cabac::decode_slice_cabac;
use vaco_codec_h264::slice_cavlc::decode_slice_cavlc;

fn bits(s: &str) -> Vec<u8> {
    let mut all: Vec<u8> = s.chars().filter(|c| *c == '0' || *c == '1').map(|c| (c == '1') as u8).collect();
    all.push(1);
    while all.len() % 8 != 0 {
        all.push(0);
    }
    all.chunks(8).map(|c| c.iter().fold(0, |v, b| v << 1 | b)).collect()
}

fn sps(wide: u32, high: u32) -> Sps {
    Sps {
        pic_width_in_mbs: wide,
        pic_height_in_map_units: high,
        frame_mbs_only: true,
        mb_adaptive_frame_field: false,
        chroma_format: ChromaFormat::Yuv420,
        direct_8x8_inference: true,
        max_num_ref_frames: 1,
        max_frame_num: 16,
        max_num_reorder_frames: None,
    }
}

fn pps() -> Pps {
    Pps {
        pic_init_qp: 26,
        constrained_intra_pred: false,
        transform_8x8_mode: false,
        weighted_bipred_idc: 0,
    }
}

fn header(kind: SliceKind) -> SliceHeader {
    SliceHeader {
        kind,
        first_mb_in_slice: 0,
        frame_num: 0,
        slice_qp_delta: 0,
        field_pic: false,
        direct_spatial_mv_pred: Some(true),
        cabac_init_idc: Some(0),
        num_ref_idx_l0_active_minus1: 0,
        num_ref_idx_l1_active_minus1: 0,
    }
}

fn cavlc(pattern: &str, sps: &Sps, pps: &Pps, header: &SliceHeader) -> Result<SliceStats, Error> {
    let data = bits(pattern);
    let mut r = BitReader::new(&data);
    decode_slice_cavlc(&mut r, &mut Budget::new(1 << 30), sps, pps, header, None)
}

fn cabac(bins: &[u32], sps: &Sps, pps: &Pps, header: &SliceHeader) -> Result<SliceStats, Error> {
    let mut coder = Coder::new(BinScript::new(bins.to_vec()), CabacMbCtx::new(26, true, 0));
    let mut budget = Budget::new(1 << 30);
    let r = decode_slice_cabac(&mut coder, &mut budget, sps, pps, header, None);
    if r.is_ok() {
        assert_eq!(budget.committed, 0, "everything is given back");
    }
    r
}

/// An averaged macroblock without coefficients: type, chroma mode, quantiser
/// difference and one empty block.
const FLAT: &str = "00100 1 1 1";

/// The same in bins: not sixteen blocks, not raw, no luma, no chroma, mode 2,
/// chroma mode 0, no difference, no coefficients.
const FLAT_BINS: [u32; 9] = [1, 0, 0, 0, 1, 0, 0, 0, 0];

#[test]
fn a_flat_macroblock_reconstructs_to_128() {
    let mut bins = FLAT_BINS.to_vec();
    bins.push(1);
    for stats in [
        cavlc(FLAT, &sps(1, 1), &pps(), &header(SliceKind::I)).unwrap(),
        cabac(&bins, &sps(1, 1), &pps(), &header(SliceKind::I)).unwrap(),
    ] {
        assert_eq!(stats.macroblock_count, 1);
        assert_eq!(stats.skipped_count, 0);
        assert_eq!(stats.first_slice_mb_cbp, Some((0, 0)));
        assert_eq!(stats.first_slice_mb_intra16x16_pred_mode, Some(2));
        assert_eq!(stats.first_slice_mb_intra_chroma_pred_mode, Some(0));
        assert_eq!(stats.first_slice_mb_qpy, Some(26));
        assert!(stats.macroblocks[0].is_intra16x16);
        assert!(stats.macroblocks[0].residual.luma_dc.is_none());
    }
    let luma = predict_intra16x16(
        2,
        Neighbours16 {
            top_available: false,
            top: [0; 16],
            left_available: false,
            left: [0; 16],
            corner: 0,
        },
    );
    assert!(luma.iter().flatten().all(|v| *v == 128));
    let chroma = predict_intra_chroma(
        0,
        NeighboursChroma {
            top_available: false,
            top: [0; 8],
            left_available: false,
            left: [0; 8],
            corner: 0,
        },
    );
    assert!(chroma.iter().flatten().all(|v| *v == 128));
}

/// Macroblocks stand one behind the other in raster order.
#[test]
fn macroblocks_are_consecutive() {
    let stats = cavlc(&FLAT.repeat(6), &sps(3, 2), &pps(), &header(SliceKind::I)).unwrap();
    assert_eq!(stats.macroblock_count, 6);
    for (i, m) in stats.macroblocks.iter().enumerate() {
        assert_eq!((m.mb_x as usize, m.mb_y as usize), (i % 3, i / 3));
        assert_eq!(m.qpy, 26);
    }
}

#[test]
fn a_slice_ends_with_its_data() {
    let stats = cavlc(&FLAT.repeat(4), &sps(3, 2), &pps(), &header(SliceKind::I)).unwrap();
    assert_eq!(stats.macroblock_count, 4);
    let mut bins = FLAT_BINS.to_vec();
    bins.push(0);
    bins.extend(FLAT_BINS);
    bins.push(1);
    let stats = cabac(&bins, &sps(3, 2), &pps(), &header(SliceKind::I)).unwrap();
    assert_eq!(stats.macroblock_count, 2);
    assert_eq!((stats.macroblocks[1].mb_x, stats.macroblocks[1].mb_y), (1, 0));
}

#[test]
fn skipped_macroblocks_are_counted() {
    // A run of four.
    let stats = cavlc("00101", &sps(2, 2), &pps(), &header(SliceKind::P)).unwrap();
    assert_eq!((stats.macroblock_count, stats.skipped_count), (4, 4));
    assert_eq!(stats.first_slice_mb_cbp, Some((0, 0)));
    assert!(stats.macroblocks.iter().all(|m| m.skipped && m.mv_blocks[0].is_inter()));
    let stats =
        cabac(&[1, 0, 1, 0, 1, 0, 1, 1], &sps(2, 2), &pps(), &header(SliceKind::P)).unwrap();
    assert_eq!((stats.macroblock_count, stats.skipped_count), (4, 4));
}

#[test]
fn the_quantiser_is_carried_from_macroblock_to_macroblock() {
    // A difference of -3, then one of 0.
    let first = "00100 1 00111 1";
    let stats =
        cavlc(&(first.to_owned() + FLAT), &sps(2, 1), &pps(), &header(SliceKind::I)).unwrap();
    assert_eq!(stats.macroblocks[0].qpy, 23);
    assert_eq!(stats.macroblocks[1].qpy, 23);
}

#[test]
fn coefficients_reach_the_summary() {
    // One trailing one in the block of averages, at the first place: the token,
    // its sign and no zeros.
    let stats = cavlc("00100 1 1 01 1 1", &sps(1, 1), &pps(), &header(SliceKind::I)).unwrap();
    let dc = stats.macroblocks[0].residual.luma_dc.as_ref().unwrap();
    assert_eq!(dc.levels, vec![-1]);
    assert_eq!(dc.positions, vec![0]);
}

#[test]
fn unsupported_slices_are_refused_with_their_cause() {
    let i = header(SliceKind::I);
    let cases: Vec<(Sps, Pps, SliceHeader, Reason)> = vec![
        (
            Sps { mb_adaptive_frame_field: true, ..sps(1, 1) },
            pps(),
            i,
            Reason::FieldPicture,
        ),
        (sps(1, 1), pps(), SliceHeader { field_pic: true, ..i }, Reason::FieldPicture),
        (
            sps(1, 1),
            Pps { constrained_intra_pred: true, ..pps() },
            i,
            Reason::ConstrainedIntra,
        ),
        (
            Sps { chroma_format: ChromaFormat::Yuv422, ..sps(1, 1) },
            pps(),
            i,
            Reason::ChromaFormat,
        ),
        (sps(1, 1), pps(), header(SliceKind::Si), Reason::SiSlice),
        (
            sps(1, 1),
            pps(),
            SliceHeader { direct_spatial_mv_pred: Some(false), ..header(SliceKind::B) },
            Reason::TemporalDirect,
        ),
    ];
    for (s, p, h, why) in &cases {
        assert_eq!(cavlc(FLAT, s, p, h).unwrap_err(), Error::Unsupported(*why));
        assert_eq!(cabac(&[1, 0], s, p, h).unwrap_err(), Error::Unsupported(*why));
    }
    let large = Pps { transform_8x8_mode: true, ..pps() };
    assert_eq!(
        cavlc(FLAT, &sps(1, 1), &large, &i).unwrap_err(),
        Error::Unsupported(Reason::Transform8x8)
    );
    // Raw samples: type 25.
    assert_eq!(
        cavlc("000011010", &sps(1, 1), &pps(), &i).unwrap_err(),
        Error::Unsupported(Reason::RawSamples)
    );
}

#[test]
fn malformed_slices_are_refused_with_their_cause() {
    let i = header(SliceKind::I);
    // A type behind the last one.
    assert_eq!(
        cavlc("000011011", &sps(1, 1), &pps(), &i).unwrap_err(),
        Error::InvalidData(Reason::MbTypeRange)
    );
    assert_eq!(cavlc("00", &sps(1, 1), &pps(), &i).unwrap_err(), Error::UnexpectedEof);
    let data = bits(FLAT);
    let mut r = BitReader::new(&data);
    let mut small = Budget::new(423);
    assert_eq!(
        decode_slice_cavlc(&mut r, &mut small, &sps(1, 1), &pps(), &i, None).unwrap_err(),
        Error::LimitExceeded
    );
}

#[test]
fn raw_samples_are_skipped_in_arithmetic_coding() {
    // Not sixteen blocks, and raw; then the end.
    let stats = cabac(&[1, 1, 1], &sps(1, 1), &pps(), &header(SliceKind::I)).unwrap();
    assert!(stats.macroblocks[0].is_ipcm);
    assert_eq!(stats.macroblocks[0].qpy, 26);
}

/// A whole macroblock that moves by the difference it carries.
#[test]
fn a_predicted_macroblock_moves() {
    // No skip, type 0, no reference index for one reference, differences of 4
    // and -2, and a pattern without coefficients.
    let stats = cavlc("1 1 0001000 00101 1", &sps(1, 1), &pps(), &header(SliceKind::P)).unwrap();
    let m = &stats.macroblocks[0];
    assert!(!m.skipped);
    for b in &m.mv_blocks {
        assert_eq!(b.mv_l0(), (4, -2));
        assert_eq!(b.ref_idx_l0(), 0);
    }
}

/// A slice that fails keeps the charges of its grids and of the macroblock that
/// it fails in.
#[test]
fn a_failed_slice_stays_charged() {
    let i = header(SliceKind::I);
    let run = |pattern: &str, limit: u64| {
        let data = bits(pattern);
        let mut budget = Budget::new(limit);
        let mut r = BitReader::new(&data);
        let e = decode_slice_cavlc(&mut r, &mut budget, &sps(1, 1), &pps(), &i, None).unwrap_err();
        (e, budget.committed)
    };
    assert_eq!(run(FLAT, 423), (Error::LimitExceeded, 392), "all lists but the last");
    assert_eq!(run("000011010", 1 << 20), (Error::Unsupported(Reason::RawSamples), 424));
    // One coefficient, whose zeros are cut off.
    assert_eq!(run("00100 1 1 01", 1 << 20).1, 424 + 5);
    // One coefficient, read but not turned round.
    assert_eq!(run("00100 1 1 01 0 1", 424 + 9), (Error::LimitExceeded, 424 + 5 + 1));
    assert_eq!(run("00100 1 1 01 0 1", 424 + 4), (Error::LimitExceeded, 424 + 4));

    let run = |limit: u64| {
        let mut bins = FLAT_BINS.to_vec();
        bins[8] = 1;
        bins.extend([1, 1]);
        let mut coder = Coder::new(BinScript::new(bins), CabacMbCtx::new(26, true, 0));
        let mut budget = Budget::new(limit);
        let e = decode_slice_cabac(&mut coder, &mut budget, &sps(1, 1), &pps(), &i, None).unwrap_err();
        (e, budget.committed)
    };
    assert_eq!(run(424 + 15), (Error::LimitExceeded, 424));
    assert_eq!(run(424 + 19), (Error::LimitExceeded, 424 + 16));
}
