//! Intra prediction.
use vaco_codec_h264::intra::{
    infer_intra4x4_pred_mode, predict_intra16x16, predict_intra4x4, predict_intra_chroma,
    Neighbours16, Neighbours4, NeighboursChroma,
};

fn unavailable16() -> Neighbours16 {
    Neighbours16 {
        top_available: false,
        top: [0; 16],
        left_available: false,
        left: [0; 16],
        corner: 0,
    }
}

fn unavailable_chroma() -> NeighboursChroma {
    NeighboursChroma {
        top_available: false,
        top: [0; 8],
        left_available: false,
        left: [0; 8],
        corner: 0,
    }
}

fn unavailable4() -> Neighbours4 {
    Neighbours4 {
        top_available: false,
        top: [0; 4],
        top_right: [0; 4],
        left_available: false,
        left: [0; 4],
        corner: 0,
    }
}

#[test]
fn intra16x16_dc_with_no_neighbours_is_128() {
    let out = predict_intra16x16(2, unavailable16());
    assert!(out.iter().all(|row| row.iter().all(|&v| v == 128)));
}

#[test]
fn chroma_dc_with_no_neighbours_is_128() {
    let out = predict_intra_chroma(0, unavailable_chroma());
    assert!(out.iter().all(|row| row.iter().all(|&v| v == 128)));
}

#[test]
fn intra16x16_vertical_copies_top_row_down_every_row() {
    let mut n = unavailable16();
    n.top_available = true;
    n.top = [7; 16];
    let out = predict_intra16x16(0, n);
    assert!(out.iter().all(|row| *row == [7u8; 16]));
}

#[test]
fn intra16x16_horizontal_copies_left_column_across_every_row() {
    let mut n = unavailable16();
    n.left_available = true;
    n.left = std::array::from_fn(|y| y as u8);
    let out = predict_intra16x16(1, n);
    for (y, row) in out.iter().enumerate() {
        assert_eq!(*row, [y as u8; 16]);
    }
}

/// The top right quadrant averages the row above it alone.
#[test]
fn chroma_dc_top_right_quadrant_prefers_top_over_left() {
    let n = NeighboursChroma {
        top_available: true,
        top: [0, 0, 0, 0, 8, 8, 8, 8],
        left_available: true,
        left: [4, 4, 4, 4, 4, 4, 4, 4],
        corner: 0,
    };
    let out = predict_intra_chroma(0, n);
    assert_eq!(out[0][4], 8);
}

#[test]
fn intra16x16_dc_full_average() {
    let n = Neighbours16 {
        top_available: true,
        top: [4; 16],
        left_available: true,
        left: [4; 16],
        corner: 0,
    };
    let out = predict_intra16x16(2, n);
    assert!(out.iter().all(|row| row.iter().all(|&v| v == 4)));
}

#[test]
fn intra4x4_vertical_copies_top_row_down_every_row() {
    let mut n = unavailable4();
    n.top_available = true;
    n.top = [10, 20, 30, 40];
    let out = predict_intra4x4(0, n);
    assert!(out.iter().all(|row| *row == [10, 20, 30, 40]));
}

#[test]
fn intra4x4_horizontal_copies_left_column_across_every_row() {
    let mut n = unavailable4();
    n.left_available = true;
    n.left = [1, 2, 3, 4];
    let out = predict_intra4x4(1, n);
    for (y, row) in out.iter().enumerate() {
        assert_eq!(*row, [n.left[y]; 4]);
    }
}

#[test]
fn intra4x4_dc_with_no_neighbours_is_128() {
    let out = predict_intra4x4(2, unavailable4());
    assert!(out.iter().all(|row| row.iter().all(|&v| v == 128)));
}

/// The last corner has a formula of its own.
#[test]
fn intra4x4_diagonal_down_left_corner_uses_its_own_formula() {
    let mut n = unavailable4();
    n.top_available = true;
    n.top = [0, 0, 0, 0];
    n.top_right = [0, 0, 0, 8];
    let out = predict_intra4x4(3, n);
    assert_eq!(out[3][3], 6);
}

#[test]
fn mode_inference_uses_min_of_disagreeing_neighbours() {
    let pred = infer_intra4x4_pred_mode(1, 3, true, 0);
    assert_eq!(pred, 1, "the smaller of 1 and 3");
    let pred_swapped = infer_intra4x4_pred_mode(3, 1, true, 0);
    assert_eq!(pred_swapped, 1, "whichever neighbour has it");
}

#[test]
fn mode_inference_rem_at_or_above_pred_is_incremented() {
    assert_eq!(infer_intra4x4_pred_mode(4, 6, false, 4), 5);
    assert_eq!(infer_intra4x4_pred_mode(4, 6, false, 2), 2);
}

/// A plane through a ramp continues the ramp.
#[test]
fn plane_prediction_continues_a_ramp() {
    let n = Neighbours16 {
        top_available: true,
        top: std::array::from_fn(|x| 40 + 2 * (x as u8 + 1)),
        left_available: true,
        left: [40; 16],
        corner: 40,
    };
    let out = predict_intra16x16(3, n);
    for row in &out {
        for (x, &v) in row.iter().enumerate() {
            let want = 40 + 2 * (x as i32 + 1);
            assert!((i32::from(v) - want).abs() <= 1, "x={x} v={v} want={want}");
        }
    }
}

/// Every remaining mode but the predicted one can be signalled.
#[test]
fn every_mode_can_be_signalled() {
    for a in 0..9u8 {
        for b in 0..9u8 {
            let mut seen = vec![infer_intra4x4_pred_mode(a, b, true, 0)];
            for rem in 0..8u8 {
                seen.push(infer_intra4x4_pred_mode(a, b, false, rem));
            }
            seen.sort_unstable();
            assert_eq!(seen, (0..9).collect::<Vec<u8>>(), "neighbours {a} {b}");
        }
    }
}
