//! Inter prediction samples.
use std::cell::{Cell, RefCell};
use vaco_codec_h264::interp::{
    avg, chroma_mc_2x2, chroma_mc_sample, clip_u8, luma_qpel_partition, luma_qpel_partition_with,
    luma_qpel_sample, tap6, SampleReader,
};

/// Quarter positions average against the clipped half sample. The taps are
/// chosen so that the raw half sample is 300: averaging with that instead
/// would give 250, which is in range and would go unnoticed.
#[test]
fn quarter_pel_averages_the_clipped_half_pel_sample_not_the_raw_overshoot() {
    let fetch = |x: i32, _y: i32| -> u8 {
        match x {
            9 | 12 => 0,
            8 | 11 | 13 => 255,
            _ => 200,
        }
    };
    let a = luma_qpel_sample(fetch, 10, 0, 1, 0);
    assert_eq!(a, 228);
}

#[test]
fn flat_plane_interpolates_to_itself_at_every_quarter_pel_position() {
    let fetch = |_x: i32, _y: i32| 128u8;
    for fx in 0..4 {
        for fy in 0..4 {
            assert_eq!(luma_qpel_sample(fetch, 10, 10, fx, fy), 128, "fx={fx} fy={fy}");
        }
    }
}

#[test]
fn integer_position_is_a_pure_fetch() {
    let fetch = |x: i32, y: i32| u8::try_from((x + y * 7).rem_euclid(256)).unwrap();
    assert_eq!(luma_qpel_sample(fetch, 3, 4, 0, 0), fetch(3, 4));
}

#[test]
fn half_pel_horizontal_is_symmetric_around_a_ramp() {
    let fetch = |x: i32, _y: i32| u8::try_from((x * 4).clamp(0, 255)).unwrap();
    let b = luma_qpel_sample(fetch, 10, 0, 2, 0);
    let expected = (i32::from(fetch(10, 0)) + i32::from(fetch(11, 0)) + 1) / 2;
    assert!((i32::from(b) - expected).abs() <= 1, "b={b} expected~={expected}");
}

#[test]
fn chroma_flat_plane_interpolates_to_itself_at_every_eighth_pel_position() {
    let fetch = |_x: i32, _y: i32| 200u8;
    for mv_x in 0..8 {
        for mv_y in 0..8 {
            assert_eq!(chroma_mc_sample(fetch, 10, 10, mv_x, mv_y), 200, "mv=({mv_x},{mv_y})");
        }
    }
}

#[test]
fn chroma_integer_mv_is_a_pure_fetch() {
    let fetch = |x: i32, y: i32| u8::try_from((x + y * 5).rem_euclid(256)).unwrap();
    assert_eq!(chroma_mc_sample(fetch, 3, 4, 8, -16), fetch(4, 2));
}

#[test]
fn chroma_half_pel_both_axes_averages_all_four_neighbours() {
    let fetch = |x: i32, y: i32| -> u8 {
        match (x, y) {
            (1, 0) => 10,
            (0, 1) => 20,
            (1, 1) => 30,
            _ => 0,
        }
    };
    let got = chroma_mc_sample(fetch, 0, 0, 4, 4);
    let expected = (10 + 20 + 30 + 2) / 4;
    assert_eq!(got, expected);
}

/// A vector of -1 is one sample to the left and seven eighths back.
#[test]
fn chroma_negative_mv_floors_toward_negative_infinity() {
    let fetch = |x: i32, _y: i32| if x <= -1 { 0u8 } else { 255u8 };
    let got = chroma_mc_sample(fetch, 0, 0, -1, 0);
    assert!(got > 200, "got={got}, expected close to the x=0 sample (255)");
}

#[test]
fn chroma_2x2_matches_four_scalar_samples_with_one_shared_window() {
    let sample = |x: i32, y: i32| -> u8 {
        let v = (x.rem_euclid(37) * 29 + y.rem_euclid(41) * 47 + (x * y).rem_euclid(31))
            .rem_euclid(256);
        u8::try_from(v).unwrap_or(0)
    };
    for &(x, y, integer_mv_x, integer_mv_y) in
        &[(11, 13, 0, 0), (0, 0, -16, -8), (-5, 7, 24, -24)]
    {
        for frac_y in 0..8 {
            for frac_x in 0..8 {
                let mv_x = integer_mv_x + frac_x;
                let mv_y = integer_mv_y + frac_y;
                let fetches = Cell::new(0usize);
                let got = chroma_mc_2x2(
                    |ax, ay| {
                        fetches.set(fetches.get() + 1);
                        sample(ax, ay)
                    },
                    x,
                    y,
                    mv_x,
                    mv_y,
                );
                assert_eq!(fetches.get(), 9, "mv=({mv_x},{mv_y}) must fetch one shared window");
                let expected: [[u8; 2]; 2] = std::array::from_fn(|dy| {
                    std::array::from_fn(|dx| {
                        chroma_mc_sample(
                            sample,
                            x + i32::try_from(dx).unwrap_or(0),
                            y + i32::try_from(dy).unwrap_or(0),
                            mv_x,
                            mv_y,
                        )
                    })
                });
                assert_eq!(got, expected, "mv=({mv_x},{mv_y})");
            }
        }
    }
}

#[test]
fn partition_matches_the_per_pixel_oracle_at_every_fractional_position_and_shape() {
    let fetch = |x: i32, y: i32| -> u8 {
        let (x, y) = (x.rem_euclid(64), y.rem_euclid(64));
        let v = (x * 7 + y * 13 + (x * y) % 5) % 256;
        u8::try_from(v).unwrap_or(0)
    };
    for &(w, h) in &[
        (4usize, 4usize),
        (8, 4),
        (4, 8),
        (8, 8),
        (16, 8),
        (8, 16),
        (16, 16),
        (12, 4),
        (4, 12),
    ] {
        for fx in 0..4u32 {
            for fy in 0..4u32 {
                for &(ax, ay) in &[(20i32, 20i32), (0, 0), (-3, -3)] {
                    let mut got = [[0u8; 16]; 16];
                    luma_qpel_partition(fetch, ax, ay, w, h, fx, fy, &mut got);
                    for oy in 0..h {
                        for ox in 0..w {
                            let want =
                                luma_qpel_sample(fetch, ax + ox as i32, ay + oy as i32, fx, fy);
                            assert_eq!(
                                got[oy][ox], want,
                                "w={w} h={h} fx={fx} fy={fy} anchor=({ax},{ay}) ox={ox} oy={oy}"
                            );
                        }
                    }
                }
            }
        }
    }
}

#[test]
fn partition_full_pel_is_a_pure_copy_of_the_window() {
    let fetch = |x: i32, y: i32| u8::try_from((x + y * 9).rem_euclid(256)).unwrap();
    let mut got = [[0u8; 16]; 16];
    luma_qpel_partition(fetch, 5, 7, 16, 16, 0, 0, &mut got);
    for oy in 0..16 {
        for ox in 0..16 {
            assert_eq!(got[oy][ox], fetch(5 + ox as i32, 7 + oy as i32));
        }
    }
}

#[test]
fn partition_flat_plane_interpolates_to_itself_everywhere() {
    let fetch = |_x: i32, _y: i32| 77u8;
    for fx in 0..4u32 {
        for fy in 0..4u32 {
            let mut got = [[0u8; 16]; 16];
            luma_qpel_partition(fetch, 0, 0, 16, 16, fx, fy, &mut got);
            for row in &got[..16] {
                for &v in &row[..16] {
                    assert_eq!(v, 77, "fx={fx} fy={fy}");
                }
            }
        }
    }
}

#[test]
fn small_helpers_have_exact_values() {
    assert_eq!(tap6(1, 2, 3, 4, 5, 6), 1 - 10 + 60 + 80 - 25 + 6);
    assert_eq!(avg(4, 5), 5);
    assert_eq!(clip_u8(-1), 0);
    assert_eq!(clip_u8(256), 255);
    assert_eq!(clip_u8(77), 77);
}

/// Samples outside the window of a partition are neither read nor needed.
#[test]
fn a_partition_needs_only_its_window() {
    let inside = |x: i32, y: i32| (8..=18).contains(&x) && (18..=30).contains(&y);
    let sample = |x: i32, y: i32| u8::try_from((x * 31 + y * 17).rem_euclid(256)).unwrap();
    let strays = Cell::new(0);
    for fx in 0..4 {
        for fy in 0..4 {
            let cut = |x: i32, y: i32| {
                if inside(x, y) {
                    sample(x, y)
                } else {
                    strays.set(strays.get() + 1);
                    255
                }
            };
            let (mut got, mut want) = ([[0u8; 16]; 16], [[0u8; 16]; 16]);
            luma_qpel_partition(cut, 10, 20, 6, 8, fx, fy, &mut got);
            luma_qpel_partition(sample, 10, 20, 6, 8, fx, fy, &mut want);
            assert_eq!(got, want);
        }
    }
    assert_eq!(strays.get(), 0);
}

/// Each position of the window is read exactly once, row by row, and an empty
/// partition reads nothing.
#[test]
fn a_window_is_read_once() {
    let seen = RefCell::new(Vec::new());
    let fetch = |x: i32, y: i32| {
        seen.borrow_mut().push((x, y));
        u8::try_from((x + y).rem_euclid(256)).unwrap()
    };
    let mut out = [[0u8; 16]; 16];
    let mut reader = SampleReader::new(fetch);
    luma_qpel_partition_with(&mut reader, 10, 20, 4, 0, 1, 1, &mut out);
    assert!(seen.borrow().is_empty());
    luma_qpel_partition_with(&mut reader, 10, 20, 4, 8, 1, 3, &mut out);
    let mut want = Vec::new();
    for y in 18..=30 {
        for x in 8..=16 {
            want.push((x, y));
        }
    }
    assert_eq!(*seen.borrow(), want);
}
