//! From slices to pictures: sizes, schedule, publication and cropping.
use vaco_codec_h264::error::{Error, Reason};
use vaco_codec_h264::frame_task::{
    chroma_rows_final, luma_rows_final, macroblocks_in_raster_order, schedule, wait_row_planes,
    Action, Band, PlaneWait, RowPublisher, RowReach, StoredPlanes,
};
use vaco_codec_h264::grids::MvInfo;
use vaco_codec_h264::output::{
    blit_plane, build_frame, coded_picture_bytes, dpb_picture_spec, output_frame_bytes, Crop,
    FramePlane, PlaneSpec,
};
use vaco_codec_h264::slice::summarise_skipped;

#[test]
fn a_coded_picture_has_half_as_much_chroma_as_luma() {
    assert_eq!(coded_picture_bytes(1, 1), 384);
    assert_eq!(coded_picture_bytes(120, 68), 120 * 68 * 384);
    assert_eq!(coded_picture_bytes(u32::MAX, u32::MAX), u64::MAX);
}

#[test]
fn output_falls_back_to_the_coded_size() {
    assert_eq!(output_frame_bytes(Some(7), 9), 7);
    assert_eq!(output_frame_bytes(None, 9), 9);
}

#[test]
fn stored_pictures_are_banded_for_several_threads() {
    let s = dpb_picture_spec(2, 3, true);
    assert_eq!(s.luma, PlaneSpec { width: 32, height: 48 });
    assert_eq!(s.cb, PlaneSpec { width: 16, height: 24 });
    assert_eq!((s.band_height, s.guard), (Some(32), 8));
    let s = dpb_picture_spec(2, 3, false);
    assert_eq!((s.band_height, s.guard), (None, 0));
}

#[test]
fn rows_are_final_but_for_the_reach_of_the_filter() {
    assert_eq!(luma_rows_final(0), 13);
    assert_eq!(luma_rows_final(2), 45);
    assert_eq!(chroma_rows_final(0), 7);
    assert_eq!(chroma_rows_final(2), 23);
}

#[test]
fn rows_are_filtered_one_behind() {
    assert_eq!(
        schedule(3, true, true),
        vec![
            Action::Reconstruct(0),
            Action::Reconstruct(1),
            Action::Filter(0),
            Action::Publish(13, 7),
            Action::Reconstruct(2),
            Action::Filter(1),
            Action::Publish(29, 15),
            Action::Filter(2),
            Action::Publish(48, 24),
        ]
    );
    assert_eq!(
        schedule(2, true, false),
        vec![
            Action::Reconstruct(0),
            Action::Publish(16, 8),
            Action::Reconstruct(1),
            Action::Publish(32, 16),
            Action::Publish(32, 16),
        ]
    );
    assert_eq!(
        schedule(2, false, true),
        vec![
            Action::ReconstructAll,
            Action::Filter(0),
            Action::Filter(1),
            Action::Publish(32, 16),
        ]
    );
    assert_eq!(schedule(0, true, true), vec![Action::Publish(0, 0)]);
}

#[test]
fn raster_order_is_recognised() {
    let m = |x, y| summarise_skipped(x, y, 26, [MvInfo::default(); 16]);
    let mut ms = vec![m(0, 0), m(1, 0), m(0, 1), m(1, 1)];
    assert!(macroblocks_in_raster_order(&ms, 2, 2));
    ms.swap(1, 2);
    assert!(!macroblocks_in_raster_order(&ms, 2, 2));
    ms.pop();
    assert!(!macroblocks_in_raster_order(&ms, 2, 2));
}

#[test]
fn only_what_is_read_is_waited_for() {
    let reach = RowReach { luma: vec![Some(20), None], chroma: vec![Some(9)] };
    let waits = wait_row_planes(&reach, 2);
    let rows: Vec<(usize, usize, Option<u32>)> =
        waits.iter().map(|w: &PlaneWait| (w.reference, w.plane, w.row)).collect();
    assert_eq!(
        rows,
        vec![
            (0, 0, Some(20)),
            (0, 1, Some(9)),
            (0, 2, Some(9)),
            (1, 0, None),
            (1, 1, None),
            (1, 2, None),
        ]
    );
}

fn band(first_row: u32, rows: u32, width: usize) -> Band {
    Band { first_row, rows, width, samples: vec![0; rows as usize * width] }
}

#[test]
fn bands_become_public_when_all_their_rows_are_final() {
    let src: Vec<u8> = (0..24).collect();
    let mut bands = vec![band(0, 2, 3), band(2, 2, 3), band(4, 2, 3)];
    let mut p = RowPublisher::new();
    assert_eq!(p.advance(0, &mut bands, &src, 4, 3), Ok(()));
    assert_eq!(p.next, [1, 0, 0]);
    assert_eq!(bands[0].samples, vec![0, 1, 2, 4, 5, 6]);
    assert_eq!(bands[1].samples, vec![0; 6], "not ready");
    assert_eq!(p.advance(0, &mut bands, &src, 4, 6), Ok(()));
    assert_eq!(p.next, [3, 0, 0]);
    assert_eq!(bands[2].samples, vec![16, 17, 18, 20, 21, 22]);
    assert_eq!(p.advance(3, &mut bands, &src, 4, 6), Ok(()), "there is no fourth plane");
    assert_eq!(p.next, [3, 0, 0]);
}

#[test]
fn bands_outside_the_plane_are_refused() {
    let src = [0u8; 12];
    let mut bands = vec![band(0, 2, 3), band(2, 2, 3)];
    let mut p = RowPublisher::new();
    assert_eq!(
        p.advance(1, &mut bands, &src, 4, 4),
        Err(Error::InvalidData(Reason::BandGeometry))
    );
    assert_eq!(p.next, [0, 1, 0], "the first band fitted");
}

#[test]
fn all_planes_become_public_together() {
    let luma: Vec<u8> = (0..16).collect();
    let cb = [50u8, 51, 52, 53];
    let cr = [60u8, 61, 62, 63];
    let mut store = Some(StoredPlanes {
        luma: vec![band(0, 4, 4)],
        cb: vec![band(0, 2, 2)],
        cr: vec![band(0, 2, 2)],
    });
    let mut p = RowPublisher::new();
    assert_eq!(p.publish(&mut store, &luma, &cb, &cr, (4, 2), (3, 1)), Ok(()));
    assert_eq!(p.next, [0, 0, 0]);
    assert_eq!(p.publish(&mut store, &luma, &cb, &cr, (4, 2), (4, 2)), Ok(()));
    assert_eq!(p.next, [1, 1, 1]);
    let s = store.unwrap();
    assert_eq!(s.luma[0].samples, luma);
    assert_eq!((s.cb[0].samples.as_slice(), s.cr[0].samples.as_slice()), (&cb[..], &cr[..]));
    assert_eq!(p.publish(&mut None, &luma, &cb, &cr, (4, 2), (4, 2)), Ok(()));
}

#[test]
fn regions_are_copied_and_short_rows_are_zero() {
    let src: Vec<u8> = (1..=12).collect();
    let mut dst = FramePlane::new(2, 3);
    blit_plane(&src, 4, 1, 1, &mut dst, 2, 3);
    assert_eq!(dst.samples, vec![6, 7, 10, 11, 0, 0], "the third row is not there");
    let mut wide = FramePlane::new(3, 1);
    blit_plane(&src, 4, 0, 0, &mut wide, 2, 1);
    assert_eq!(wide.samples, vec![1, 2, 0], "no more than asked for");
}

#[test]
fn the_visible_part_is_cut_out() {
    let luma: Vec<u8> = (0..=255).collect();
    let cb: Vec<u8> = (0..64).collect();
    let cr: Vec<u8> = (64..128).collect();
    let crop = Crop { left: 1, top: 2, unit_x: 2, unit_y: 2 };
    let f = build_frame(1, &luma, &cb, &cr, Some((3, 2)), crop, true).unwrap();
    assert!(f.key);
    assert_eq!((f.luma.width, f.luma.height), (3, 2));
    assert_eq!(f.luma.samples, vec![66, 67, 68, 82, 83, 84]);
    assert_eq!((f.cb.width, f.cb.height), (2, 1));
    assert_eq!(f.cb.samples, vec![17, 18]);
    assert_eq!(f.cr.samples, vec![81, 82]);
    assert_eq!(
        build_frame(1, &luma, &cb, &cr, None, crop, true).unwrap_err(),
        Error::InvalidData(Reason::NothingVisible)
    );
    let whole = Crop { left: 0, top: 0, unit_x: 2, unit_y: 2 };
    let f = build_frame(1, &luma, &cb, &cr, Some((16, 16)), whole, false).unwrap();
    assert_eq!((f.luma.samples, f.cb.samples, f.cr.samples), (luma, cb, cr));
}

/// A refused plane keeps what fitted, and the planes behind it are not touched.
#[test]
fn planes_behind_a_refused_one_stay_as_they_are() {
    let luma: Vec<u8> = (0..16).collect();
    let (cb, cr) = ([50u8, 51, 52], [60u8, 61, 62, 63]);
    let mut store = Some(StoredPlanes {
        luma: vec![band(0, 4, 4)],
        cb: vec![band(0, 2, 2)],
        cr: vec![band(0, 2, 2)],
    });
    let mut p = RowPublisher::new();
    assert_eq!(
        p.publish(&mut store, &luma, &cb, &cr, (4, 2), (4, 2)),
        Err(Error::InvalidData(Reason::BandGeometry))
    );
    assert_eq!(p.next, [1, 0, 0]);
    let s = store.unwrap();
    assert_eq!(s.luma[0].samples, luma);
    assert_eq!(s.cb[0].samples, vec![50, 51, 0, 0], "the second row does not lie inside");
    assert_eq!(s.cr[0].samples, vec![0; 4]);
}
