//! The initialisation tables.
use vaco_codec_h264::cabac_mb_tables::{
    CBF_CHROMA_AC, CBF_CHROMA_DC, CBF_LUMA4X4, CBF_LUMA_AC, CBF_LUMA_DC, CBP_CHROMA, CBP_LUMA,
    INTRA_CHROMA_PRED_MODE, MB_TYPE_B, MB_TYPE_I, MB_TYPE_P, MVD_COMP0, MVD_COMP1, PREV_INTRA4X4,
    QP_DELTA, REF_IDX, REM_INTRA4X4, SKIP_B, SKIP_P, SUB_MB_TYPE_B, SUB_MB_TYPE_P,
    TRANSFORM_SIZE_8X8,
};
use vaco_codec_h264::residual_tables::{
    ABS_BIN0_CHROMA_AC, ABS_BIN0_CHROMA_DC, ABS_BIN0_LUMA4X4, ABS_BIN0_LUMA8X8, ABS_BIN0_LUMA_AC,
    ABS_BIN0_LUMA_DC, ABS_BINN_CHROMA_AC, ABS_BINN_CHROMA_DC, ABS_BINN_LUMA4X4, ABS_BINN_LUMA8X8,
    ABS_BINN_LUMA_AC, ABS_BINN_LUMA_DC, LAST_CHROMA_AC, LAST_CHROMA_DC, LAST_LUMA4X4, LAST_LUMA8X8,
    LAST_LUMA_AC, LAST_LUMA_DC, SIG_CHROMA_AC, SIG_CHROMA_DC, SIG_LUMA4X4, SIG_LUMA8X8,
    SIG_LUMA_AC, SIG_LUMA_DC,
};

type Table = (&'static str, Vec<(i16, i16)>);

fn flat<const N: usize>(rows: &[[(i16, i16); N]]) -> Vec<(i16, i16)> {
    rows.iter().flatten().copied().collect()
}

fn macroblock_tables() -> Vec<Table> {
    vec![
        ("MB_TYPE_I", MB_TYPE_I.to_vec()),
        ("SKIP_P", flat(&SKIP_P)),
        ("MB_TYPE_P", flat(&MB_TYPE_P)),
        ("SUB_MB_TYPE_P", flat(&SUB_MB_TYPE_P)),
        ("SKIP_B", flat(&SKIP_B)),
        ("MB_TYPE_B", flat(&MB_TYPE_B)),
        ("SUB_MB_TYPE_B", flat(&SUB_MB_TYPE_B)),
        ("MVD_COMP0", flat(&MVD_COMP0)),
        ("MVD_COMP1", flat(&MVD_COMP1)),
        ("REF_IDX", flat(&REF_IDX)),
        ("QP_DELTA", QP_DELTA.to_vec()),
        ("INTRA_CHROMA_PRED_MODE", INTRA_CHROMA_PRED_MODE.to_vec()),
        ("PREV_INTRA4X4", vec![PREV_INTRA4X4]),
        ("REM_INTRA4X4", vec![REM_INTRA4X4]),
        ("CBP_LUMA", flat(&CBP_LUMA)),
        ("CBP_CHROMA", flat(&CBP_CHROMA)),
        ("CBF_LUMA_DC", flat(&CBF_LUMA_DC)),
        ("CBF_CHROMA_DC", flat(&CBF_CHROMA_DC)),
        ("CBF_LUMA_AC", flat(&CBF_LUMA_AC)),
        ("CBF_LUMA4X4", flat(&CBF_LUMA4X4)),
        ("CBF_CHROMA_AC", flat(&CBF_CHROMA_AC)),
        ("TRANSFORM_SIZE_8X8", flat(&TRANSFORM_SIZE_8X8)),
    ]
}

fn residual_tables() -> Vec<Table> {
    vec![
        ("SIG_LUMA_DC", flat(&SIG_LUMA_DC)),
        ("SIG_LUMA_AC", flat(&SIG_LUMA_AC)),
        ("SIG_LUMA4X4", flat(&SIG_LUMA4X4)),
        ("SIG_CHROMA_AC", flat(&SIG_CHROMA_AC)),
        ("SIG_CHROMA_DC", flat(&SIG_CHROMA_DC)),
        ("LAST_LUMA_DC", flat(&LAST_LUMA_DC)),
        ("LAST_LUMA_AC", flat(&LAST_LUMA_AC)),
        ("LAST_LUMA4X4", flat(&LAST_LUMA4X4)),
        ("LAST_CHROMA_AC", flat(&LAST_CHROMA_AC)),
        ("LAST_CHROMA_DC", flat(&LAST_CHROMA_DC)),
        ("ABS_BIN0_LUMA_DC", flat(&ABS_BIN0_LUMA_DC)),
        ("ABS_BINN_LUMA_DC", flat(&ABS_BINN_LUMA_DC)),
        ("ABS_BIN0_LUMA_AC", flat(&ABS_BIN0_LUMA_AC)),
        ("ABS_BINN_LUMA_AC", flat(&ABS_BINN_LUMA_AC)),
        ("ABS_BIN0_LUMA4X4", flat(&ABS_BIN0_LUMA4X4)),
        ("ABS_BINN_LUMA4X4", flat(&ABS_BINN_LUMA4X4)),
        ("ABS_BIN0_CHROMA_AC", flat(&ABS_BIN0_CHROMA_AC)),
        ("ABS_BINN_CHROMA_AC", flat(&ABS_BINN_CHROMA_AC)),
        ("ABS_BIN0_CHROMA_DC", flat(&ABS_BIN0_CHROMA_DC)),
        ("ABS_BINN_CHROMA_DC", flat(&ABS_BINN_CHROMA_DC)),
        ("SIG_LUMA8X8", flat(&SIG_LUMA8X8)),
        ("LAST_LUMA8X8", flat(&LAST_LUMA8X8)),
        ("ABS_BIN0_LUMA8X8", flat(&ABS_BIN0_LUMA8X8)),
        ("ABS_BINN_LUMA8X8", flat(&ABS_BINN_LUMA8X8)),
    ]
}

fn duplicates(tables: &[Table]) -> Vec<String> {
    let mut hits = Vec::new();
    for (i, (name_a, vals_a)) in tables.iter().enumerate() {
        for (name_b, vals_b) in tables.iter().skip(i + 1) {
            if vals_a == vals_b {
                hits.push(format!("{name_a} == {name_b} ({} entries)", vals_a.len()));
            }
        }
    }
    hits
}

/// Every syntax element has contexts of its own, so no two tables can hold the
/// same values.
#[test]
fn cabac_mb_tables_no_two_tables_are_byte_identical() {
    let hits = duplicates(&macroblock_tables());
    assert!(hits.is_empty(), "identical tables: {hits:?}");
}

#[test]
fn cabac_mb_tables_named_tables_is_not_accidentally_empty() {
    let tables = macroblock_tables();
    assert_eq!(tables.len(), 22, "expected exactly 22 named tables");
    for (name, vals) in &tables {
        assert!(!vals.is_empty(), "table {name} has no entries");
    }
}

#[test]
fn cabac_residual_no_two_tables_are_byte_identical() {
    let hits = duplicates(&residual_tables());
    assert!(hits.is_empty(), "identical tables: {hits:?}");
}

#[test]
fn cabac_residual_named_tables_is_not_accidentally_empty() {
    let tables = residual_tables();
    assert_eq!(tables.len(), 24, "expected exactly 24 named tables");
    for (name, vals) in &tables {
        assert!(!vals.is_empty(), "table {name} has no entries");
    }
}
