//! Pictures: references, output order and budget.
use std::collections::VecDeque;
use std::sync::Arc;
use vaco_codec_h264::access_unit::{
    gather, mastering_display_from_sei, peek_pps_id, Rational, SeiMessage, Unit,
};
use vaco_codec_h264::bits::BitReader;
use vaco_codec_h264::budget::Budget;
use vaco_codec_h264::coder::{ArithmeticDecoder, BinScript, Coder};
use vaco_codec_h264::contexts::{CabacMbCtx, ContextModel};
use vaco_codec_h264::decoder::{
    reference_lists, H264Decoder, NewPicture, PictureWork, RefSyntax,
};
use vaco_codec_h264::error::{Error, Reason};
use vaco_codec_h264::grids::MvInfo;
use vaco_codec_h264::headers::{ChromaFormat, Pps, SliceHeader, Sps};
use vaco_codec_h264::marking::{apply_marking, collect_motion, trim, MarkingCommand};
use vaco_codec_h264::mb_type::SliceKind;
use vaco_codec_h264::refs::{
    apply_ref_list_modification, default_lists, frame_num_wrap, CurrentPicture,
    RefPicListModification, RefPicture,
};
use vaco_codec_h264::reorder::{emit_lowest_poc, flush_reorder, hold_for_reordering};
use vaco_codec_h264::slice::summarise_skipped;
use vaco_codec_h264::weights::{bipred_mode, implicit_weight, implicit_weight_table, BiPredMode, ImplicitWeight};

fn bits(s: &str) -> Vec<u8> {
    let mut all: Vec<u8> = s.chars().filter(|c| *c == '0' || *c == '1').map(|c| (c == '1') as u8).collect();
    all.push(1);
    while all.len() % 8 != 0 {
        all.push(0);
    }
    all.chunks(8).map(|c| c.iter().fold(0, |v, b| v << 1 | b)).collect()
}

fn sps() -> Sps {
    Sps {
        pic_width_in_mbs: 1,
        pic_height_in_map_units: 1,
        frame_mbs_only: true,
        mb_adaptive_frame_field: false,
        chroma_format: ChromaFormat::Yuv420,
        direct_8x8_inference: true,
        max_num_ref_frames: 2,
        max_frame_num: 16,
        max_num_reorder_frames: None,
    }
}

fn pps() -> Pps {
    Pps {
        pic_init_qp: 26,
        constrained_intra_pred: false,
        transform_8x8_mode: false,
        weighted_bipred_idc: 0,
    }
}

fn header(kind: SliceKind, frame_num: u32) -> SliceHeader {
    SliceHeader {
        kind,
        first_mb_in_slice: 0,
        frame_num,
        slice_qp_delta: 0,
        field_pic: false,
        direct_spatial_mv_pred: Some(true),
        cabac_init_idc: Some(0),
        num_ref_idx_l0_active_minus1: 0,
        num_ref_idx_l1_active_minus1: 0,
    }
}

fn plain() -> RefSyntax {
    RefSyntax { modification_l0: Vec::new(), modification_l1: Vec::new(), marking: None }
}

fn picture<'a>(kind: SliceKind, frame_num: u32, poc: i32, syntax: &'a RefSyntax) -> NewPicture<'a> {
    NewPicture {
        sps: sps(),
        pps: pps(),
        header: header(kind, frame_num),
        syntax,
        poc,
        is_idr: matches!(kind, SliceKind::I),
        is_reference: true,
        frame_bytes: Some(1000),
    }
}

fn stored(picture: u64, frame_num: u32, poc: i32) -> RefPicture {
    RefPicture { picture, charged: 100, poc, frame_num, motion: Arc::new(Vec::new()) }
}

fn buffer(entries: &[(u64, u32, i32)]) -> VecDeque<RefPicture> {
    entries.iter().map(|&(p, n, poc)| stored(p, n, poc)).collect()
}

const FLAT: &str = "00100 1 1 1";

fn begin(d: &mut H264Decoder<u32>, pattern: &str, pic: NewPicture) -> Result<PictureWork, Error> {
    let data = bits(pattern);
    let mut r = BitReader::new(&data);
    d.begin_cavlc(&mut r, pic)
}

/// Decodes one picture after the other, each computed at once.
fn decode(d: &mut H264Decoder<u32>, pattern: &str, pic: NewPicture, frame: u32) -> Result<(), Error> {
    let work = begin(d, pattern, pic)?;
    d.let_in(pic, &work, u64::from(frame), 384)?;
    d.collect_one(Some(Ok(frame)))?;
    Ok(())
}

// ------------------------------------------------------------------ references
#[test]
fn frame_numbers_wrap_behind_the_current_one() {
    assert_eq!(frame_num_wrap(3, 5, 16), 3);
    assert_eq!(frame_num_wrap(5, 5, 16), 5);
    assert_eq!(frame_num_wrap(15, 5, 16), -1);
}

#[test]
fn the_predictive_list_runs_back_in_decoding_order() {
    let dpb = buffer(&[(0, 14, 0), (1, 15, 4), (2, 0, 8), (3, 1, 2)]);
    let cur = CurrentPicture { is_b: false, poc: 10, frame_num: 2, max_frame_num: 16 };
    let (l0, l1) = default_lists(&dpb, cur);
    assert_eq!(l0, vec![3, 2, 1, 0]);
    assert!(l1.is_empty());
}

#[test]
fn the_bipredictive_lists_run_outwards() {
    let dpb = buffer(&[(0, 0, 0), (1, 1, 8), (2, 2, 4), (3, 3, 12)]);
    let cur = CurrentPicture { is_b: true, poc: 6, frame_num: 4, max_frame_num: 16 };
    let (l0, l1) = default_lists(&dpb, cur);
    assert_eq!(l0, vec![2, 0, 1, 3]);
    assert_eq!(l1, vec![1, 3, 2, 0]);
}

#[test]
fn equal_lists_swap_their_first_entries() {
    let dpb = buffer(&[(0, 0, 0), (1, 1, 4), (2, 2, 2)]);
    let cur = CurrentPicture { is_b: true, poc: 6, frame_num: 3, max_frame_num: 16 };
    let (l0, l1) = default_lists(&dpb, cur);
    assert_eq!(l0, vec![1, 2, 0]);
    assert_eq!(l1, vec![2, 1, 0]);
    let one = buffer(&[(0, 0, 0)]);
    assert_eq!(default_lists(&one, cur), (vec![0], vec![0]), "a single entry stays");
}

#[test]
fn equal_keys_keep_the_order_of_the_buffer() {
    let dpb = buffer(&[(0, 1, 4), (1, 1, 4), (2, 1, 4)]);
    let cur = CurrentPicture { is_b: false, poc: 6, frame_num: 3, max_frame_num: 16 };
    assert_eq!(default_lists(&dpb, cur).0, vec![0, 1, 2]);
}

fn back(n: u32) -> RefPicListModification {
    RefPicListModification { idc: 0, value: n - 1 }
}

fn on(n: u32) -> RefPicListModification {
    RefPicListModification { idc: 1, value: n - 1 }
}

#[test]
fn a_list_without_modification_is_left_alone() {
    let dpb = buffer(&[(0, 1, 0), (1, 2, 2), (2, 3, 4)]);
    let r = apply_ref_list_modification(&dpb, &[2, 1, 0], 1, &[], 4, 16);
    assert_eq!(r, Ok(vec![2, 1, 0]), "not even cut");
}

#[test]
fn named_pictures_lead_the_list() {
    let dpb = buffer(&[(0, 1, 0), (1, 2, 2), (2, 3, 4)]);
    let r = apply_ref_list_modification(&dpb, &[2, 1, 0], 3, &[back(3)], 4, 16);
    assert_eq!(r, Ok(vec![0, 2, 1]));
    // Three back from 4, and one on from there.
    let r = apply_ref_list_modification(&dpb, &[2, 1, 0], 3, &[back(3), on(1)], 4, 16);
    assert_eq!(r, Ok(vec![0, 1, 2]));
    let r = apply_ref_list_modification(&dpb, &[2, 1, 0], 2, &[back(3)], 4, 16);
    assert_eq!(r, Ok(vec![0, 2]), "cut to what is active");
    // A list that is longer than the buffer repeats its last entry.
    let r = apply_ref_list_modification(&dpb, &[2, 1, 0], 5, &[back(2)], 4, 16);
    assert_eq!(r, Ok(vec![1, 2, 0, 0, 0]));
}

#[test]
fn numbers_wrap_while_stepping() {
    let dpb = buffer(&[(0, 15, 0), (1, 1, 2)]);
    // Three back from 2 is 15 of the cycle before.
    let r = apply_ref_list_modification(&dpb, &[1, 0], 2, &[back(3)], 2, 16);
    assert_eq!(r, Ok(vec![0, 1]));
    // And on again across the turn.
    let r = apply_ref_list_modification(&dpb, &[1, 0], 2, &[back(3), on(2)], 2, 16);
    assert_eq!(r, Ok(vec![0, 1]));
}

#[test]
fn impossible_modifications_are_refused() {
    let dpb = buffer(&[(0, 1, 0)]);
    let long = RefPicListModification { idc: 2, value: 0 };
    assert_eq!(
        apply_ref_list_modification(&dpb, &[0], 1, &[long], 4, 16),
        Err(Error::Unsupported(Reason::LongTermReference))
    );
    assert_eq!(
        apply_ref_list_modification(&dpb, &[0], 1, &[back(1)], 4, 16),
        Err(Error::InvalidData(Reason::MissingReference))
    );
    // The first refusal counts.
    assert_eq!(
        apply_ref_list_modification(&dpb, &[0], 1, &[back(1), long], 4, 16),
        Err(Error::InvalidData(Reason::MissingReference))
    );
}

#[test]
fn a_picture_has_lists_of_stored_pictures() {
    let dpb = buffer(&[(0, 1, 0), (1, 2, 8)]);
    let syntax = RefSyntax {
        modification_l0: vec![back(2)],
        modification_l1: vec![back(2)],
        marking: None,
    };
    let lists = reference_lists(&dpb, picture(SliceKind::B, 3, 4, &syntax)).unwrap();
    assert_eq!((lists.l0, lists.l1), (vec![0], vec![0]));
    let p = plain();
    let lists = reference_lists(&dpb, picture(SliceKind::P, 3, 4, &p)).unwrap();
    assert_eq!((lists.l0, lists.l1), (vec![1, 0], vec![]));
}

// --------------------------------------------------------------------- marking
#[test]
fn the_oldest_pictures_leave_first() {
    let mut dpb = buffer(&[(0, 1, 0), (1, 2, 2), (2, 3, 4)]);
    let mut budget = Budget::new(1000);
    budget.charge(350).unwrap();
    trim(&mut dpb, &mut budget, 1);
    assert_eq!(dpb.len(), 1);
    assert_eq!(dpb[0].picture, 2);
    assert_eq!(budget.committed, 150, "two pictures gave back a hundred each");
}

#[test]
fn marking_drops_the_named_picture() {
    let mut dpb = buffer(&[(0, 1, 0), (1, 2, 2), (2, 3, 4)]);
    let mut budget = Budget::new(1000);
    budget.charge(300).unwrap();
    let drop = MarkingCommand { op: 1, arg0: 1 };
    assert_eq!(apply_marking(&mut dpb, &mut budget, &[drop], 4, 16), Ok(()));
    assert_eq!(dpb.iter().map(|p| p.picture).collect::<Vec<_>>(), vec![0, 2]);
    assert_eq!(budget.committed, 200);
    // What is not stored need not be dropped.
    assert_eq!(apply_marking(&mut dpb, &mut budget, &[drop], 4, 16), Ok(()));
    assert_eq!(dpb.len(), 2);
    let all = MarkingCommand { op: 5, arg0: 0 };
    assert_eq!(apply_marking(&mut dpb, &mut budget, &[all], 4, 16), Ok(()));
    assert!(dpb.is_empty());
    assert_eq!(budget.committed, 0);
}

#[test]
fn long_term_marking_is_refused_behind_what_was_done() {
    for op in [2, 3, 4, 6] {
        let mut dpb = buffer(&[(0, 1, 0), (1, 2, 2)]);
        let mut budget = Budget::new(1000);
        let cmds = [MarkingCommand { op: 1, arg0: 0 }, MarkingCommand { op, arg0: 0 }];
        assert_eq!(
            apply_marking(&mut dpb, &mut budget, &cmds, 3, 16),
            Err(Error::Unsupported(Reason::LongTermReference))
        );
        assert_eq!(dpb.len(), 1);
    }
}

#[test]
fn motion_is_collected_row_by_row() {
    let mut moved = MvInfo::default();
    moved.mb_available = true;
    moved.mv.l0 = (1, 2);
    let mut blocks = [MvInfo::default(); 16];
    blocks[6] = moved;
    let ms = vec![
        summarise_skipped(0, 0, 26, [MvInfo::default(); 16]),
        summarise_skipped(1, 0, 26, blocks),
    ];
    let mut budget = Budget::new(1000);
    let field = collect_motion(&ms, 2, 1, &mut budget).unwrap();
    assert_eq!(budget.committed, 32 * 22);
    assert_eq!(field.len(), 32);
    for (i, b) in field.iter().enumerate() {
        // Block 6 of the second macroblock: two to the right, one down.
        assert_eq!(b.mb_available, i == 8 + 4 + 2, "block {i}");
    }
    let mut small = Budget::new(32 * 22 - 1);
    assert!(matches!(collect_motion(&ms, 2, 1, &mut small), Err(Error::LimitExceeded)));
}

// ------------------------------------------------------------------- reordering
#[test]
fn the_lowest_goes_out_first() {
    let mut held = vec![(4, 'a'), (2, 'b'), (6, 'c'), (2, 'd')];
    let mut out = Vec::new();
    emit_lowest_poc(&mut held, &mut out);
    assert_eq!(out, vec!['b'], "the first of two equal ones");
    flush_reorder(&mut held, &mut out);
    assert_eq!(out, vec!['b', 'd', 'a', 'c']);
    assert!(held.is_empty());
    emit_lowest_poc(&mut held, &mut out);
    assert_eq!(out.len(), 4);
}

#[test]
fn pictures_wait_while_the_window_has_room() {
    let mut held = Vec::new();
    let mut out = Vec::new();
    for (poc, f) in [(0, 'i'), (8, 'p'), (4, 'b'), (2, 'c')] {
        hold_for_reordering(&mut held, &mut out, false, 2, poc, f);
        assert!(held.len() <= 2);
    }
    assert_eq!(out, vec!['i', 'c']);
    hold_for_reordering(&mut held, &mut out, true, 2, 0, 'n');
    assert_eq!(out, vec!['i', 'c', 'b', 'p'], "everything before goes out first");
    assert_eq!(held, vec![(0, 'n')]);
}

// --------------------------------------------------------------------- weights
#[test]
fn implicit_weights_follow_the_distances() {
    assert_eq!(implicit_weight(4, 0, 8), ImplicitWeight { w0: 32, w1: 32 });
    assert_eq!(implicit_weight(2, 0, 8), ImplicitWeight { w0: 48, w1: 16 });
    assert_eq!(implicit_weight(0, 0, 8), ImplicitWeight { w0: 64, w1: 0 });
    assert_eq!(implicit_weight(8, 0, 8), ImplicitWeight { w0: 0, w1: 64 });
    // Both references alike, or weights beyond their range.
    assert_eq!(implicit_weight(5, 3, 3), ImplicitWeight { w0: 32, w1: 32 });
    assert_eq!(implicit_weight(100, 0, 1), ImplicitWeight { w0: 32, w1: 32 });
    for curr in -40..40 {
        for r1 in -40..40 {
            let w = implicit_weight(curr, 0, r1);
            assert_eq!(w.w0 + w.w1, 64);
        }
    }
    let table = implicit_weight_table(2, &vec![0, 1], &vec![8]);
    assert_eq!(table[0], vec![ImplicitWeight { w0: 48, w1: 16 }]);
    assert_eq!(table[1], vec![implicit_weight(2, 1, 8)]);
}

#[test]
fn only_bipredictive_slices_are_weighted() {
    assert_eq!(bipred_mode(true, 0), BiPredMode::Default);
    assert_eq!(bipred_mode(true, 1), BiPredMode::Explicit);
    assert_eq!(bipred_mode(true, 2), BiPredMode::Implicit);
    assert_eq!(bipred_mode(false, 2), BiPredMode::Default);
}

// ----------------------------------------------------------------- access units
#[test]
fn displays_are_permuted_and_scaled() {
    let d = mastering_display_from_sei(
        [(13250, 34500), (7500, 3000), (34000, 16000)],
        (15635, 16450),
        10_000_000,
        u32::MAX,
    );
    assert_eq!(d.red.x, Rational { num: 34000, den: 50000 });
    assert_eq!(d.green.y, Rational { num: 34500, den: 50000 });
    assert_eq!(d.blue.x, Rational { num: 7500, den: 50000 });
    assert_eq!(d.white_point.y, Rational { num: 16450, den: 50000 });
    assert_eq!(d.max_luminance, Rational { num: 10_000_000, den: 10000 });
    assert_eq!(d.min_luminance, Rational { num: i32::MAX, den: 10000 });
}

#[test]
fn messages_are_gathered_around_the_slice() {
    let units = vec![
        Unit::Other,
        Unit::Sei(vec![SeiMessage::Captions(vec![1, 2]), SeiMessage::Other]),
        Unit::Slice,
        Unit::Sei(vec![
            SeiMessage::LightLevel { max: 1, average: 2 },
            SeiMessage::Captions(vec![3]),
            SeiMessage::LightLevel { max: 1000, average: 400 },
        ]),
    ];
    let g = gather(&units).unwrap();
    assert_eq!(g.slice, Some(2));
    assert_eq!(g.captions, vec![1, 2, 3]);
    assert_eq!(g.light, Some((1000, 400)));
    assert!(g.display.is_none());
    assert_eq!(gather(&vec![Unit::Other]).unwrap().slice, None);
    assert_eq!(
        gather(&vec![Unit::Slice, Unit::Slice]).unwrap_err(),
        Error::Unsupported(Reason::SeveralSlices)
    );
}

#[test]
fn the_picture_parameters_are_named_by_the_third_code() {
    let mut data = vec![0x65];
    data.extend(bits("1 00111 00101"));
    assert_eq!(peek_pps_id(&data), Ok(4));
    let mut data = vec![0x65];
    data.extend(bits("1 0001011 1"));
    assert_eq!(peek_pps_id(&data), Err(Error::InvalidData(Reason::ValueOutOfRange)));
    assert_eq!(peek_pps_id(&[]), Err(Error::UnexpectedEof));
}

// --------------------------------------------------------------------- pictures
#[test]
fn a_new_decoder_is_empty() {
    let mut d: H264Decoder<u32> = H264Decoder::new(1 << 20);
    assert_eq!(d.budget.limit, 1 << 20);
    assert_eq!(d.max_in_flight(), 1);
    assert!(d.receive_frame().is_none());
    assert_eq!(d.collect_one(Some(Ok(1))), Ok(false), "nothing is in flight");
    assert!(d.receive_frame().is_none());
}

#[test]
fn pictures_come_out_in_display_order() {
    let mut d: H264Decoder<u32> = H264Decoder::new(1 << 20);
    let s = plain();
    decode(&mut d, FLAT, picture(SliceKind::I, 0, 0, &s), 0).unwrap();
    decode(&mut d, "010", picture(SliceKind::P, 1, 8, &s), 1).unwrap();
    let b = NewPicture { is_reference: false, ..picture(SliceKind::B, 2, 4, &s) };
    decode(&mut d, "010", b, 2).unwrap();
    assert_eq!(d.dpb.len(), 2);
    assert_eq!(d.receive_frame(), Some(0), "the window holds two");
    assert_eq!(d.receive_frame(), None);
    d.finish();
    assert_eq!(d.receive_frame(), Some(2));
    assert_eq!(d.receive_frame(), Some(1));
    assert_eq!(d.receive_frame(), None);
}

#[test]
fn a_new_start_empties_the_buffer_and_lets_everything_out() {
    let mut d: H264Decoder<u32> = H264Decoder::new(1 << 20);
    let s = plain();
    decode(&mut d, FLAT, picture(SliceKind::I, 0, 0, &s), 0).unwrap();
    decode(&mut d, "010", picture(SliceKind::P, 1, 8, &s), 1).unwrap();
    decode(&mut d, FLAT, picture(SliceKind::I, 0, 0, &s), 2).unwrap();
    assert_eq!(d.dpb.len(), 1);
    assert_eq!(d.dpb[0].picture, 2);
    assert_eq!(d.receive_frame(), Some(0));
    assert_eq!(d.receive_frame(), Some(1));
    assert_eq!(d.receive_frame(), None);
}

#[test]
fn the_budget_holds_what_is_stored() {
    let mut d: H264Decoder<u32> = H264Decoder::new(1 << 20);
    let s = plain();
    decode(&mut d, FLAT, picture(SliceKind::I, 0, 0, &s), 0).unwrap();
    // The samples and the motion of one picture.
    assert_eq!(d.budget.committed, 384 + 16 * 22);
    decode(&mut d, "010", picture(SliceKind::P, 1, 2, &s), 1).unwrap();
    decode(&mut d, "010", picture(SliceKind::P, 2, 4, &s), 2).unwrap();
    assert_eq!(d.dpb.len(), 2, "no more than the stream allows");
    assert_eq!(d.budget.committed, 2 * (384 + 16 * 22));
}

#[test]
fn work_is_charged_while_it_goes_on() {
    let mut d: H264Decoder<u32> = H264Decoder::new(1 << 20);
    let s = plain();
    let pic = NewPicture { is_reference: false, ..picture(SliceKind::I, 0, 0, &s) };
    let work = begin(&mut d, FLAT, pic).unwrap();
    assert_eq!(work.task_charge, 384 + 1000 + 1888);
    assert_eq!(work.headroom, work.task_charge + 384);
    assert!(!d.must_wait(work.headroom), "nothing is in flight");
    d.let_in(pic, &work, 0, 384).unwrap();
    assert_eq!(d.budget.committed, work.task_charge);
    assert!(d.must_collect());
    assert!(d.must_wait(1 << 20));
    assert!(!d.must_wait(100));
    assert_eq!(d.collect_one(None), Ok(false));
    assert_eq!(d.collect_one(Some(Err(Error::UnexpectedEof))), Err(Error::UnexpectedEof));
    assert_eq!(d.budget.committed, 0, "given back though it failed");
    assert!(!d.must_collect());
    let unknown = NewPicture { frame_bytes: None, ..pic };
    assert_eq!(begin(&mut d, FLAT, unknown).unwrap().task_charge, 384 + 384 + 1888);
}

#[test]
fn pictures_that_do_not_fit_are_refused() {
    let s = plain();
    let pic = picture(SliceKind::I, 0, 0, &s);
    for (limit, stored) in [(424, 0), (16 * 22 + 100, 0), (16 * 22 + 384 + 100, 1)] {
        let mut d: H264Decoder<u32> = H264Decoder::new(limit);
        let work = begin(&mut d, FLAT, pic).unwrap();
        assert_eq!(d.let_in(pic, &work, 0, 384), Err(Error::LimitExceeded));
        assert_eq!(d.dpb.len(), stored, "limit {limit}");
        assert!(d.in_flight.is_empty());
    }
}

#[test]
fn incomplete_pictures_are_refused() {
    let mut d: H264Decoder<u32> = H264Decoder::new(1 << 20);
    let s = plain();
    let pic = NewPicture {
        sps: Sps { pic_width_in_mbs: 2, ..sps() },
        ..picture(SliceKind::I, 0, 0, &s)
    };
    assert_eq!(begin(&mut d, FLAT, pic).unwrap_err(), Error::InvalidData(Reason::IncompletePicture));
    let late = NewPicture {
        header: SliceHeader { first_mb_in_slice: 1, ..header(SliceKind::I, 0) },
        ..pic
    };
    assert_eq!(begin(&mut d, FLAT, late).unwrap_err(), Error::Unsupported(Reason::SeveralSlices));
}

#[test]
fn adaptive_marking_replaces_nothing_but_what_it_names() {
    let mut d: H264Decoder<u32> = H264Decoder::new(1 << 20);
    let s = plain();
    decode(&mut d, FLAT, picture(SliceKind::I, 0, 0, &s), 0).unwrap();
    decode(&mut d, "010", picture(SliceKind::P, 1, 2, &s), 1).unwrap();
    // Drop the newer of the two, which the window would have kept.
    let marking = RefSyntax { marking: Some(vec![MarkingCommand { op: 1, arg0: 0 }]), ..plain() };
    decode(&mut d, "010", picture(SliceKind::P, 2, 4, &marking), 2).unwrap();
    assert_eq!(d.dpb.iter().map(|p| p.picture).collect::<Vec<_>>(), vec![0, 2]);
    let long = RefSyntax { marking: Some(vec![MarkingCommand { op: 3, arg0: 0 }]), ..plain() };
    assert_eq!(
        decode(&mut d, "010", picture(SliceKind::P, 3, 6, &long), 3),
        Err(Error::Unsupported(Reason::LongTermReference))
    );
}

#[test]
fn references_are_handed_on_by_number() {
    let mut d: H264Decoder<u32> = H264Decoder::new(1 << 20);
    let s = plain();
    decode(&mut d, FLAT, picture(SliceKind::I, 0, 0, &s), 10).unwrap();
    decode(&mut d, "010", picture(SliceKind::P, 1, 8, &s), 11).unwrap();
    let pic = NewPicture {
        pps: Pps { weighted_bipred_idc: 2, ..pps() },
        ..picture(SliceKind::B, 2, 2, &s)
    };
    let work = begin(&mut d, "010", pic).unwrap();
    assert_eq!((work.refs0, work.refs1), (vec![10, 11], vec![11, 10]));
    assert_eq!((work.pocs0, work.pocs1), (vec![0, 8], vec![8, 0]));
    assert_eq!(work.bipred_mode, BiPredMode::Implicit);
    let weights = work.implicit.unwrap();
    assert_eq!(weights[0][0], ImplicitWeight { w0: 48, w1: 16 });
    assert!(work.macroblocks[0].skipped);
}

#[test]
fn arithmetic_coded_pictures_work_alike() {
    let mut d: H264Decoder<u32> = H264Decoder::new(1 << 20);
    let s = plain();
    let bins = vec![1, 0, 0, 0, 1, 0, 0, 0, 0, 1];
    let mut coder = Coder::new(BinScript::new(bins), CabacMbCtx::new(26, true, 0));
    let pic = picture(SliceKind::I, 0, 0, &s);
    let work = d.begin_cabac(&mut coder, pic).unwrap();
    assert_eq!(work.macroblocks.len(), 1);
    assert_eq!(d.budget.committed, 0);
}

/// An engine that answers like a script but has met something impossible.
struct Broken(BinScript);

impl ArithmeticDecoder for Broken {
    type State = ();

    fn state(&self) {}

    fn decision(_: (), m: ContextModel) -> (bool, ContextModel, ()) {
        (false, m, ())
    }

    fn bypass(_: ()) -> (bool, ()) {
        (false, ())
    }

    fn terminate(_: ()) -> (bool, ()) {
        (false, ())
    }

    fn suffix(_: (), _: u32) -> (u32, ()) {
        (0, ())
    }

    fn past_raw(_: (), _: u32) {}

    fn malformed(_: ()) -> bool {
        true
    }

    fn decode_decision(&mut self, m: &mut ContextModel) -> bool {
        self.0.decode_decision(m)
    }

    fn decode_bypass(&mut self) -> bool {
        self.0.decode_bypass()
    }

    fn decode_terminate(&mut self) -> bool {
        self.0.decode_terminate()
    }

    fn decode_bypass_egk(&mut self, k: u32) -> u32 {
        self.0.decode_bypass_egk(k)
    }

    fn skip_raw(&mut self, bytes: u32) {
        self.0.skip_raw(bytes);
    }

    fn is_malformed(&self) -> bool {
        true
    }
}

#[test]
fn malformed_bins_are_refused() {
    let mut d: H264Decoder<u32> = H264Decoder::new(1 << 20);
    let s = plain();
    let bins = vec![1, 0, 0, 0, 1, 0, 0, 0, 0, 1];
    let mut coder = Coder::new(Broken(BinScript::new(bins)), CabacMbCtx::new(26, true, 0));
    let r = d.begin_cabac(&mut coder, picture(SliceKind::I, 0, 0, &s));
    assert_eq!(r.unwrap_err(), Error::InvalidData(Reason::MalformedBins));
}

#[test]
fn threads_are_set_before_the_first_picture() {
    let mut d: H264Decoder<u32> = H264Decoder::new(1 << 20);
    assert_eq!(d.set_thread_count(4), 5);
    assert_eq!(d.set_thread_count(0), 1);
    assert_eq!(d.set_thread_count(2), 3);
    let s = plain();
    let pic = picture(SliceKind::I, 0, 0, &s);
    let work = begin(&mut d, FLAT, pic).unwrap();
    d.let_in(pic, &work, 0, 384).unwrap();
    assert_eq!(d.set_thread_count(8), 3, "too late");
    assert!(!d.must_collect(), "three may be in flight");
}

#[test]
fn flushing_forgets_everything_that_was_held() {
    let mut d: H264Decoder<u32> = H264Decoder::new(1 << 20);
    let s = plain();
    decode(&mut d, FLAT, picture(SliceKind::I, 0, 0, &s), 0).unwrap();
    d.flush();
    assert!(d.dpb.is_empty());
    assert_eq!(d.budget.committed, 0);
    d.finish();
    assert!(d.receive_frame().is_none());
}
