//! Variable-length coded residual blocks.
use vaco_codec_h264::bits::BitReader;
use vaco_codec_h264::budget::Budget;
use vaco_codec_h264::cavlc::{
    decode_coeff_token, decode_level, decode_run_before, decode_total_zeros, residual_block_cavlc,
    BlockKind,
};
use vaco_codec_h264::cavlc_tables::{
    coeff_token_fixed_length, COEFF_TOKEN_CHROMA_DC_420, COEFF_TOKEN_CHROMA_DC_422,
    COEFF_TOKEN_NC0, COEFF_TOKEN_NC2, COEFF_TOKEN_NC4, RUN_BEFORE,
};
use vaco_codec_h264::error::{Error, Reason};
use vaco_codec_h264::mb_residual::cavlc_residual_to_forward;

/// The bytes of some bits, a stop bit and padding.
fn bits(s: &str) -> Vec<u8> {
    let mut all: Vec<u8> = s.chars().filter(|c| *c == '0' || *c == '1').map(|c| (c == '1') as u8).collect();
    all.push(1);
    while all.len() % 8 != 0 {
        all.push(0);
    }
    all.chunks(8).map(|c| c.iter().fold(0, |v, b| v << 1 | b)).collect()
}

fn budget() -> Budget {
    Budget::new(1 << 30)
}

#[test]
fn coeff_token_nc0_low_total_coeff_literal_bitstrings() {
    let cases: &[(&str, u8, u8)] = &[
        ("1", 0, 0),
        ("000101", 0, 1),
        ("01", 1, 1),
        ("00000111", 0, 2),
        ("000100", 1, 2),
        ("001", 2, 2),
        ("00011", 3, 3),
    ];
    for &(pattern, t1, tc) in cases {
        let data = bits(pattern);
        let mut r = BitReader::new(&data);
        let (got_t1, got_tc) = decode_coeff_token(&mut r, 0).unwrap();
        assert_eq!((got_t1, got_tc), (t1, tc), "pattern {pattern:?}");
    }
}

#[test]
fn coeff_token_chroma_dc_420_literal_bitstrings() {
    let cases: &[(&str, u8, u8)] = &[("01", 0, 0), ("1", 1, 1), ("001", 2, 2)];
    for &(pattern, t1, tc) in cases {
        let data = bits(pattern);
        let mut r = BitReader::new(&data);
        let (got_t1, got_tc) = decode_coeff_token(&mut r, -1).unwrap();
        assert_eq!((got_t1, got_tc), (t1, tc), "pattern {pattern:?}");
    }
}

#[test]
fn coeff_token_fixed_length_matches_the_documented_formula() {
    assert_eq!(coeff_token_fixed_length(0, 0), (6, 0b00_0011));
    assert_eq!(coeff_token_fixed_length(1, 0), (6, 0));
    assert_eq!(coeff_token_fixed_length(1, 1), (6, 1));
    assert_eq!(coeff_token_fixed_length(2, 3), (6, 7));
    assert_eq!(coeff_token_fixed_length(16, 3), (6, 63));
    for total_coeff in 1u8..=16 {
        for trailing_ones in 0u8..=3u8.min(total_coeff) {
            let (len, code) = coeff_token_fixed_length(total_coeff, trailing_ones);
            assert_eq!(len, 6);
            let data = bits(&format!("{code:06b}"));
            let mut r = BitReader::new(&data);
            assert_eq!(decode_coeff_token(&mut r, 8).unwrap(), (trailing_ones, total_coeff));
        }
    }
}

#[test]
fn every_coeff_token_table_is_prefix_free_and_matches_its_own_length() {
    let known_inconsistent: &[(u8, u8)] =
        &[(1, 14), (2, 15), (3, 15), (3, 13), (2, 16), (3, 16), (1, 3), (2, 3), (0, 4)];
    let tables: [&[(u8, u8, u8, u16)]; 5] = [
        &COEFF_TOKEN_NC0,
        &COEFF_TOKEN_NC2,
        &COEFF_TOKEN_NC4,
        &COEFF_TOKEN_CHROMA_DC_420,
        &COEFF_TOKEN_CHROMA_DC_422,
    ];
    for table in tables {
        for &(_, _, len, code) in table {
            assert!(len > 0 && len <= 16, "implausible length {len}");
            assert!(u32::from(code) < (1u32 << len), "code {code:#b} wider than len {len}");
        }
        for (i, &(t1_a, tc_a, len_a, code_a)) in table.iter().enumerate() {
            for &(t1_b, tc_b, len_b, code_b) in &table[i + 1..] {
                if known_inconsistent.contains(&(t1_a, tc_a))
                    || known_inconsistent.contains(&(t1_b, tc_b))
                {
                    continue;
                }
                let shorter = len_a.min(len_b);
                let a = u32::from(code_a) >> (len_a - shorter);
                let b = u32::from(code_b) >> (len_b - shorter);
                assert!(
                    !(len_a != len_b && a == b),
                    "one of ({code_a:#b},{len_a}) / ({code_b:#b},{len_b}) is a prefix of the other"
                );
                assert!(
                    !(len_a == len_b && code_a == code_b),
                    "duplicate code ({code_a:#b},{len_a})"
                );
            }
        }
    }
}

/// Not even the rows that decoding refuses contradict the others.
#[test]
fn the_refused_rows_are_prefix_free_too() {
    let tables: [&[(u8, u8, u8, u16)]; 5] = [
        &COEFF_TOKEN_NC0,
        &COEFF_TOKEN_NC2,
        &COEFF_TOKEN_NC4,
        &COEFF_TOKEN_CHROMA_DC_420,
        &COEFF_TOKEN_CHROMA_DC_422,
    ];
    for table in tables {
        for (i, &(_, _, len_a, code_a)) in table.iter().enumerate() {
            for &(_, _, len_b, code_b) in &table[i + 1..] {
                let shorter = len_a.min(len_b);
                assert_ne!(code_a >> (len_a - shorter), code_b >> (len_b - shorter));
            }
        }
    }
}

#[test]
fn total_zeros_4x4_row_one_literal_bitstrings() {
    let cases: &[(&str, u8)] =
        &[("1", 0), ("011", 1), ("010", 2), ("0011", 3), ("000000001", 15)];
    for &(pattern, expected) in cases {
        let data = bits(pattern);
        let mut r = BitReader::new(&data);
        assert_eq!(decode_total_zeros(&mut r, BlockKind::Block4x4, 1).unwrap(), expected);
    }
}

#[test]
fn run_before_tables_are_prefix_free() {
    for zeros_left in 1..=7u8 {
        let row: Vec<(u8, u8, u16)> = RUN_BEFORE
            .iter()
            .filter(|e| e.0 == zeros_left)
            .map(|&(_, run, len, code)| (run, len, code))
            .collect();
        assert!(!row.is_empty());
        for (i, &(_, len_a, code_a)) in row.iter().enumerate() {
            for &(_, len_b, code_b) in &row[i + 1..] {
                let shorter = len_a.min(len_b);
                let a = u32::from(code_a) >> (len_a - shorter);
                let b = u32::from(code_b) >> (len_b - shorter);
                assert!(!((len_a != len_b && a == b) || (len_a == len_b && code_a == code_b)));
            }
        }
    }
}

#[test]
fn residual_block_cavlc_end_to_end_hand_built_fixture() {
    // The token for one trailing one of two coefficients, its sign, a level
    // with an empty prefix, one zero in all, and the run in front of the last.
    let pattern = "000100".to_owned() + "1" + "1" + "110" + "0";
    let data = bits(&pattern);
    let mut r = BitReader::new(&data);
    let mut b = budget();
    let out = residual_block_cavlc(&mut r, 0, 16, &mut b).unwrap();
    assert_eq!(out.trailing_ones, 1);
    assert_eq!(out.total_coeff, 2);
    assert_eq!(out.levels, vec![-1, 2]);
    assert_eq!(out.runs, vec![1, 0]);
}

#[test]
fn decode_coeff_token_refuses_an_excluded_total_coeff_rather_than_guess() {
    let data = bits("00000000001011");
    let mut r = BitReader::new(&data);
    let err = decode_coeff_token(&mut r, 2).unwrap_err();
    assert!(matches!(err, Error::Unsupported(_)), "got {err:?}");
}

#[test]
fn decode_total_zeros_refuses_an_excluded_total_coeff_rather_than_guess() {
    let data = bits("000");
    let mut r = BitReader::new(&data);
    let err = decode_total_zeros(&mut r, BlockKind::Block4x4, 3).unwrap_err();
    assert!(matches!(err, Error::Unsupported(_)), "got {err:?}");
}

#[test]
fn residual_block_cavlc_zero_total_coeff_reads_only_coeff_token() {
    let data = bits("1");
    let mut r = BitReader::new(&data);
    let mut b = budget();
    let out = residual_block_cavlc(&mut r, 0, 16, &mut b).unwrap();
    assert_eq!(out.total_coeff, 0);
    assert!(out.levels.is_empty());
    assert!(out.runs.is_empty());
    assert_eq!(r.pos, 1);
}

#[test]
fn residual_block_cavlc_fully_packed_block_reads_no_total_zeros() {
    let pattern = "01".to_owned() + "0";
    let data = bits(&pattern);
    let mut r = BitReader::new(&data);
    let mut b = budget();
    let out = residual_block_cavlc(&mut r, 0, 1, &mut b).unwrap();
    assert_eq!(out.total_coeff, 1);
    assert_eq!(out.runs, vec![0]);
}

/// Two trailing ones, seven zeros in all, and a run of eleven in front of the
/// last one.
#[test]
fn a_run_longer_than_the_zeros_left_is_refused() {
    let data = bits(&("001".to_owned() + "00" + "0011" + "00000001"));
    let mut r = BitReader::new(&data);
    let mut b = budget();
    let err = residual_block_cavlc(&mut r, 0, 16, &mut b).unwrap_err();
    assert_eq!(err, Error::InvalidData(Reason::RunBeforeRange));
}

#[test]
fn residual_block_cavlc_refuses_a_run_before_larger_than_zeros_left() {
    let data = [113u8, 11, 126];
    let mut r = BitReader::new(&data);
    let mut b = budget();
    let result = residual_block_cavlc(&mut r, 3, 4, &mut b);
    assert!(matches!(result, Err(Error::InvalidData(_))), "got {result:?}");
}

/// One coefficient and as many zeros as the block has other positions pass, one
/// zero more does not.
#[test]
fn zeros_that_do_not_fit_the_block_are_refused() {
    // One trailing one, two zeros.
    let data = bits("01 0 010");
    let mut r = BitReader::new(&data);
    let mut b = budget();
    let out = residual_block_cavlc(&mut r, 0, 3, &mut b).unwrap();
    assert_eq!(out.runs, vec![2]);
    let mut r = BitReader::new(&data);
    let err = residual_block_cavlc(&mut r, 0, 2, &mut b).unwrap_err();
    assert_eq!(err, Error::InvalidData(Reason::TotalZerosExceed));
}

#[test]
fn a_block_without_room_is_refused() {
    let data = bits("01 0 1");
    let mut r = BitReader::new(&data);
    let mut b = Budget::new(4);
    let err = residual_block_cavlc(&mut r, 0, 16, &mut b).unwrap_err();
    assert_eq!(err, Error::LimitExceeded);
    let mut r = BitReader::new(&data);
    let mut b = Budget::new(5);
    assert!(residual_block_cavlc(&mut r, 0, 16, &mut b).is_ok());
    assert_eq!(b.committed, 5);
}

#[test]
fn every_refusal_of_a_block_has_a_cause() {
    let cases: &[(&str, i32, u8, Error)] = &[
        ("1", -3, 16, Error::InvalidData(Reason::NcRange)),
        ("0000000000000000", 0, 16, Error::Unsupported(Reason::CoeffTokenCode)),
        ("000101 0000000000000000000000000000000", 0, 16, Error::InvalidData(Reason::LevelPrefix)),
    ];
    for (pattern, nc, max, want) in cases {
        let data = bits(pattern);
        let mut r = BitReader::new(&data);
        let err = residual_block_cavlc(&mut r, *nc, *max, &mut budget()).unwrap_err();
        assert_eq!(err, *want, "pattern {pattern:?}");
    }
}

#[test]
fn levels_grow_their_suffix() {
    // An empty prefix without suffix: the first level of a block without three
    // trailing ones is at least two away from zero.
    let data = bits("1");
    let mut r = BitReader::new(&data);
    let mut suffix = 0;
    assert_eq!(decode_level(&mut r, &mut suffix, true, 0), Ok(2));
    assert_eq!(suffix, 1);
    let data = bits("01");
    let mut r = BitReader::new(&data);
    let mut suffix = 0;
    assert_eq!(decode_level(&mut r, &mut suffix, false, 0), Ok(-1));
    assert_eq!(suffix, 1);
}

#[test]
fn run_before_reads_the_row_of_the_zeros_left() {
    let data = bits("01");
    let mut r = BitReader::new(&data);
    assert_eq!(decode_run_before(&mut r, 2), Ok(1));
    let data = bits("0000000000000000");
    let mut r = BitReader::new(&data);
    assert_eq!(decode_run_before(&mut r, 9), Err(Error::InvalidData(Reason::RunBeforeCode)));
}

/// Levels are read back to front; runs tell where each stands.
#[test]
fn a_block_turns_into_forward_order() {
    let pattern = "000100".to_owned() + "1" + "1" + "110" + "0";
    let data = bits(&pattern);
    let mut r = BitReader::new(&data);
    let mut b = budget();
    let out = residual_block_cavlc(&mut r, 0, 16, &mut b).unwrap();
    let forward = cavlc_residual_to_forward(&out, &mut b).unwrap();
    assert_eq!(forward.positions, vec![0, 2]);
    assert_eq!(forward.levels, vec![2, -1]);
}

/// A fixed-length code that names more trailing ones than coefficients is no
/// code, alone or in front of a block.
#[test]
fn fixed_length_tokens_have_no_more_ones_than_coefficients() {
    for pattern in ["000010", "000111"] {
        let data = bits(pattern);
        let mut r = BitReader::new(&data);
        let err = decode_coeff_token(&mut r, 8).unwrap_err();
        assert_eq!(err, Error::InvalidData(Reason::FixedTokenCode));
    }
    let data = bits("000010 00");
    let mut r = BitReader::new(&data);
    let mut b = budget();
    let err = residual_block_cavlc(&mut r, 8, 1, &mut b).unwrap_err();
    assert_eq!(err, Error::InvalidData(Reason::FixedTokenCode));
    let data = bits("000011");
    let mut r = BitReader::new(&data);
    assert_eq!(decode_coeff_token(&mut r, 8), Ok((0, 0)));
}

/// Levels and runs go together, and the trailing ones come first.
#[test]
fn a_block_has_a_level_and_a_run_for_each_coefficient() {
    // Two ones, negative and positive, and a level of two, in a full block.
    let data = bits("001010 10 1");
    let mut r = BitReader::new(&data);
    let mut b = budget();
    let out = residual_block_cavlc(&mut r, 8, 3, &mut b).unwrap();
    assert_eq!(out.trailing_ones, 2);
    assert_eq!(out.levels, vec![-1, 1, 2]);
    assert_eq!(out.runs, vec![0, 0, 0]);
    assert_eq!(r.pos, 9, "nothing is read behind the levels of a full block");
}
