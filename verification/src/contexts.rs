//! Adaptive context models: their initial states, and the contexts of a slice.
use vstd::prelude::*;
use crate::arith::clip3;
use crate::bins::{table_size, Ctx, CtxTable};
use crate::cabac_mb_tables::{
    CBF_CHROMA_AC, CBF_CHROMA_DC, CBF_LUMA4X4, CBF_LUMA_AC, CBF_LUMA_DC, CBP_CHROMA, CBP_LUMA,
    INTRA_CHROMA_PRED_MODE, MB_TYPE_B, MB_TYPE_I, MB_TYPE_P, MVD_COMP0, MVD_COMP1, PREV_INTRA4X4,
    QP_DELTA, REF_IDX, REM_INTRA4X4, SKIP_B, SKIP_P, SUB_MB_TYPE_B, SUB_MB_TYPE_P,
    TRANSFORM_SIZE_8X8,
};
use crate::cabac_residual::{CabacInit, ContextCategory};
use crate::residual_tables::{
    ABS_BIN0_CHROMA_AC, ABS_BIN0_CHROMA_DC, ABS_BIN0_LUMA4X4, ABS_BIN0_LUMA8X8, ABS_BIN0_LUMA_AC,
    ABS_BIN0_LUMA_DC, ABS_BINN_CHROMA_AC, ABS_BINN_CHROMA_DC, ABS_BINN_LUMA4X4, ABS_BINN_LUMA8X8,
    ABS_BINN_LUMA_AC, ABS_BINN_LUMA_DC, LAST_CHROMA_AC, LAST_CHROMA_DC, LAST_LUMA4X4, LAST_LUMA8X8,
    LAST_LUMA_AC, LAST_LUMA_DC, SIG_CHROMA_AC, SIG_CHROMA_DC, SIG_LUMA4X4, SIG_LUMA8X8,
    SIG_LUMA_AC, SIG_LUMA_DC,
};

verus! {

/// The adaptive state of one context.
#[derive(Debug, Clone, Copy, PartialEq, Eq, Structural)]
pub struct ContextModel {
    /// How improbable the less probable value is.
    pub state: u8,
    /// The more probable value.
    pub mps: bool,
}

/// A model that no table initialises.
pub open spec fn unused_model() -> ContextModel {
    ContextModel { state: 0, mps: false }
}

fn unused() -> (r: ContextModel)
    ensures
        r == unused_model(),
{
    ContextModel { state: 0, mps: false }
}

/// The state that a pair `(m, n)` gives at a quantiser.
pub open spec fn initial_model(pair: (i16, i16), qp: int) -> ContextModel {
    let pre = clip3(1, 126, (pair.0 * clip3(0, 51, qp)) / 16 + pair.1);
    if pre <= 63 {
        ContextModel { state: (63 - pre) as u8, mps: false }
    } else {
        ContextModel { state: (pre - 64) as u8, mps: true }
    }
}

/// Initialises one context.
pub fn init_context(pair: (i16, i16), slice_qp: i8) -> (r: ContextModel)
    ensures
        r == initial_model(pair, slice_qp as int),
        r.state <= 62,
{
    let qp: i32 = if slice_qp < 0 {
        0
    } else if slice_qp > 51 {
        51
    } else {
        slice_qp as i32
    };
    let m: i32 = pair.0 as i32;
    proof {
        assert(-51 * 0x8000 <= m * qp <= 51 * 0x8000) by (nonlinear_arith)
            requires
                -0x8000 <= m <= 0x7fff,
                0 <= qp <= 51,
        ;
    }
    let product: i32 = m * qp;
    proof {
        crate::arith::lemma_shift_i32(product);
    }
    let pre: i32 = (product >> 4) + pair.1 as i32;
    let pre: i32 = if pre < 1 {
        1
    } else if pre > 126 {
        126
    } else {
        pre
    };
    if pre <= 63 {
        ContextModel { state: (63 - pre) as u8, mps: false }
    } else {
        ContextModel { state: (pre - 64) as u8, mps: true }
    }
}

/// Every initial state is one that the arithmetic decoder knows.
pub proof fn law_initial_states_are_valid(pair: (i16, i16), qp: int)
    ensures
        initial_model(pair, qp).state <= 62,
{
}

/// The initialisation index, of which only three values exist.
pub open spec fn init_index(idc: u8) -> int {
    if idc < 2 {
        idc as int
    } else {
        2
    }
}

/// The column of a table that also serves intra slices.
pub open spec fn init_column(init: CabacInit) -> int {
    match init {
        CabacInit::IorSi => 0,
        CabacInit::PSpB(idc) => 1 + init_index(idc),
    }
}

/// A table's row, nothing behind its end.
pub open spec fn row4(table: Seq<[(i16, i16); 4]>, i: int, col: int) -> Option<(i16, i16)> {
    if i < table.len() {
        Some(table[i][col])
    } else {
        None
    }
}

/// The initialisation pair of a context of a slice; none for the few that no
/// table covers.
pub open spec fn init_pair(c: Ctx, init: CabacInit, idc: u8) -> Option<(i16, i16)> {
    let i = c.index as int;
    let col = init_column(init);
    let k = init_index(idc);
    match c.table {
        CtxTable::MbTypeI => Some(MB_TYPE_I[i]),
        CtxTable::SkipP => Some(SKIP_P[i][k]),
        CtxTable::MbTypeP => Some(MB_TYPE_P[i][k]),
        CtxTable::SubMbTypeP => Some(SUB_MB_TYPE_P[i][k]),
        CtxTable::SkipB => Some(SKIP_B[i][k]),
        CtxTable::MbTypeB => Some(MB_TYPE_B[i][k]),
        CtxTable::SubMbTypeB => Some(SUB_MB_TYPE_B[i][k]),
        CtxTable::MvdComp0 => Some(MVD_COMP0[i][k]),
        CtxTable::MvdComp1 => Some(MVD_COMP1[i][k]),
        CtxTable::RefIdx => Some(REF_IDX[i][k]),
        CtxTable::QpDelta => Some(QP_DELTA[i]),
        CtxTable::IntraChroma => Some(INTRA_CHROMA_PRED_MODE[i]),
        CtxTable::PrevIntra4x4 => Some(PREV_INTRA4X4),
        CtxTable::RemIntra4x4 => Some(REM_INTRA4X4),
        CtxTable::CbpLuma => Some(CBP_LUMA[i][col]),
        CtxTable::CbpChroma => Some(CBP_CHROMA[i][col]),
        CtxTable::CbfLumaDc => Some(CBF_LUMA_DC[i][col]),
        CtxTable::CbfLumaAc => Some(CBF_LUMA_AC[i][col]),
        CtxTable::CbfLuma4x4 => Some(CBF_LUMA4X4[i][col]),
        CtxTable::CbfChromaDc => Some(CBF_CHROMA_DC[i][col]),
        CtxTable::CbfChromaAc => Some(CBF_CHROMA_AC[i][col]),
        CtxTable::TransformSize8x8 => Some(TRANSFORM_SIZE_8X8[i][col]),
        CtxTable::Significant(cat) => match cat {
            ContextCategory::LumaDc => row4(SIG_LUMA_DC@, i, col),
            ContextCategory::LumaAc => row4(SIG_LUMA_AC@, i, col),
            ContextCategory::Luma4x4 => row4(SIG_LUMA4X4@, i, col),
            ContextCategory::ChromaDc => row4(SIG_CHROMA_DC@, i, col),
            ContextCategory::ChromaAc => row4(SIG_CHROMA_AC@, i, col),
            ContextCategory::Luma8x8 => row4(SIG_LUMA8X8@, i, col),
        },
        CtxTable::Last(cat) => match cat {
            ContextCategory::LumaDc => row4(LAST_LUMA_DC@, i, col),
            ContextCategory::LumaAc => row4(LAST_LUMA_AC@, i, col),
            ContextCategory::Luma4x4 => row4(LAST_LUMA4X4@, i, col),
            ContextCategory::ChromaDc => row4(LAST_CHROMA_DC@, i, col),
            ContextCategory::ChromaAc => row4(LAST_CHROMA_AC@, i, col),
            ContextCategory::Luma8x8 => row4(LAST_LUMA8X8@, i, col),
        },
        CtxTable::AbsFirst(cat) => match cat {
            ContextCategory::LumaDc => row4(ABS_BIN0_LUMA_DC@, i, col),
            ContextCategory::LumaAc => row4(ABS_BIN0_LUMA_AC@, i, col),
            ContextCategory::Luma4x4 => row4(ABS_BIN0_LUMA4X4@, i, col),
            ContextCategory::ChromaDc => row4(ABS_BIN0_CHROMA_DC@, i, col),
            ContextCategory::ChromaAc => row4(ABS_BIN0_CHROMA_AC@, i, col),
            ContextCategory::Luma8x8 => row4(ABS_BIN0_LUMA8X8@, i, col),
        },
        CtxTable::AbsRest(cat) => match cat {
            ContextCategory::LumaDc => row4(ABS_BINN_LUMA_DC@, i, col),
            ContextCategory::LumaAc => row4(ABS_BINN_LUMA_AC@, i, col),
            ContextCategory::Luma4x4 => row4(ABS_BINN_LUMA4X4@, i, col),
            ContextCategory::ChromaDc => row4(ABS_BINN_CHROMA_DC@, i, col),
            ContextCategory::ChromaAc => row4(ABS_BINN_CHROMA_AC@, i, col),
            ContextCategory::Luma8x8 => row4(ABS_BINN_LUMA8X8@, i, col),
        },
        CtxTable::Spare(cat) => None,
    }
}

/// The model that a context starts a slice with.
pub open spec fn starting_model(c: Ctx, slice_qp: int, init: CabacInit, idc: u8) -> ContextModel {
    match init_pair(c, init, idc) {
        Some(pair) => initial_model(pair, slice_qp),
        None => unused_model(),
    }
}

fn get_row4(table: &[[(i16, i16); 4]], i: usize, col: usize) -> (r: Option<(i16, i16)>)
    requires
        col < 4,
    ensures
        r == row4(table@, i as int, col as int),
{
    if i < table.len() {
        Some(table[i][col])
    } else {
        None
    }
}

/// The column for tables with one per initialisation index.
pub fn index_column(idc: u8) -> (k: usize)
    ensures
        k == init_index(idc),
        k < 3,
{
    if idc < 2 {
        idc as usize
    } else {
        2
    }
}

/// The column for tables that also serve intra slices.
pub fn slice_column(init: CabacInit) -> (col: usize)
    ensures
        col == init_column(init),
        col < 4,
{
    match init {
        CabacInit::IorSi => 0,
        CabacInit::PSpB(idc) => 1 + index_column(idc),
    }
}

fn residual_pair(c: Ctx, col: usize) -> (r: Option<(i16, i16)>)
    requires
        c.valid(),
        col < 4,
        c.table is Significant || c.table is Last || c.table is AbsFirst || c.table is AbsRest
            || c.table is Spare,
    ensures
        forall|init: CabacInit, idc: u8| #[trigger]
            init_column(init) == col ==> r == #[trigger] init_pair(c, init, idc),
{
    let i: usize = c.index;
    match c.table {
        CtxTable::Significant(cat) => match cat {
            ContextCategory::LumaDc => get_row4(SIG_LUMA_DC.as_slice(), i, col),
            ContextCategory::LumaAc => get_row4(SIG_LUMA_AC.as_slice(), i, col),
            ContextCategory::Luma4x4 => get_row4(SIG_LUMA4X4.as_slice(), i, col),
            ContextCategory::ChromaDc => get_row4(SIG_CHROMA_DC.as_slice(), i, col),
            ContextCategory::ChromaAc => get_row4(SIG_CHROMA_AC.as_slice(), i, col),
            ContextCategory::Luma8x8 => get_row4(SIG_LUMA8X8.as_slice(), i, col),
        },
        CtxTable::Last(cat) => match cat {
            ContextCategory::LumaDc => get_row4(LAST_LUMA_DC.as_slice(), i, col),
            ContextCategory::LumaAc => get_row4(LAST_LUMA_AC.as_slice(), i, col),
            ContextCategory::Luma4x4 => get_row4(LAST_LUMA4X4.as_slice(), i, col),
            ContextCategory::ChromaDc => get_row4(LAST_CHROMA_DC.as_slice(), i, col),
            ContextCategory::ChromaAc => get_row4(LAST_CHROMA_AC.as_slice(), i, col),
            ContextCategory::Luma8x8 => get_row4(LAST_LUMA8X8.as_slice(), i, col),
        },
        CtxTable::AbsFirst(cat) => match cat {
            ContextCategory::LumaDc => get_row4(ABS_BIN0_LUMA_DC.as_slice(), i, col),
            ContextCategory::LumaAc => get_row4(ABS_BIN0_LUMA_AC.as_slice(), i, col),
            ContextCategory::Luma4x4 => get_row4(ABS_BIN0_LUMA4X4.as_slice(), i, col),
            ContextCategory::ChromaDc => get_row4(ABS_BIN0_CHROMA_DC.as_slice(), i, col),
            ContextCategory::ChromaAc => get_row4(ABS_BIN0_CHROMA_AC.as_slice(), i, col),
            ContextCategory::Luma8x8 => get_row4(ABS_BIN0_LUMA8X8.as_slice(), i, col),
        },
        CtxTable::AbsRest(cat) => match cat {
            ContextCategory::LumaDc => get_row4(ABS_BINN_LUMA_DC.as_slice(), i, col),
            ContextCategory::LumaAc => get_row4(ABS_BINN_LUMA_AC.as_slice(), i, col),
            ContextCategory::Luma4x4 => get_row4(ABS_BINN_LUMA4X4.as_slice(), i, col),
            ContextCategory::ChromaDc => get_row4(ABS_BINN_CHROMA_DC.as_slice(), i, col),
            ContextCategory::ChromaAc => get_row4(ABS_BINN_CHROMA_AC.as_slice(), i, col),
            ContextCategory::Luma8x8 => get_row4(ABS_BINN_LUMA8X8.as_slice(), i, col),
        },
        _ => None,
    }
}

/// A context's initial model.
fn start_context(c: Ctx, slice_qp: i8, init: CabacInit, idc: u8) -> (r: ContextModel)
    requires
        c.valid(),
    ensures
        r == starting_model(c, slice_qp as int, init, idc),
        r.state <= 62,
{
    let i: usize = c.index;
    let col: usize = slice_column(init);
    let k: usize = index_column(idc);
    let pair: Option<(i16, i16)> = match c.table {
        CtxTable::MbTypeI => Some(MB_TYPE_I[i]),
        CtxTable::SkipP => Some(SKIP_P[i][k]),
        CtxTable::MbTypeP => Some(MB_TYPE_P[i][k]),
        CtxTable::SubMbTypeP => Some(SUB_MB_TYPE_P[i][k]),
        CtxTable::SkipB => Some(SKIP_B[i][k]),
        CtxTable::MbTypeB => Some(MB_TYPE_B[i][k]),
        CtxTable::SubMbTypeB => Some(SUB_MB_TYPE_B[i][k]),
        CtxTable::MvdComp0 => Some(MVD_COMP0[i][k]),
        CtxTable::MvdComp1 => Some(MVD_COMP1[i][k]),
        CtxTable::RefIdx => Some(REF_IDX[i][k]),
        CtxTable::QpDelta => Some(QP_DELTA[i]),
        CtxTable::IntraChroma => Some(INTRA_CHROMA_PRED_MODE[i]),
        CtxTable::PrevIntra4x4 => Some(PREV_INTRA4X4),
        CtxTable::RemIntra4x4 => Some(REM_INTRA4X4),
        CtxTable::CbpLuma => Some(CBP_LUMA[i][col]),
        CtxTable::CbpChroma => Some(CBP_CHROMA[i][col]),
        CtxTable::CbfLumaDc => Some(CBF_LUMA_DC[i][col]),
        CtxTable::CbfLumaAc => Some(CBF_LUMA_AC[i][col]),
        CtxTable::CbfLuma4x4 => Some(CBF_LUMA4X4[i][col]),
        CtxTable::CbfChromaDc => Some(CBF_CHROMA_DC[i][col]),
        CtxTable::CbfChromaAc => Some(CBF_CHROMA_AC[i][col]),
        CtxTable::TransformSize8x8 => Some(TRANSFORM_SIZE_8X8[i][col]),
        _ => residual_pair(c, col),
    };
    assert(pair == init_pair(c, init, idc));
    match pair {
        Some(p) => init_context(p, slice_qp),
        None => unused(),
    }
}

/// The residual categories in order.
pub open spec fn category_order(cat: ContextCategory) -> int {
    match cat {
        ContextCategory::LumaDc => 0,
        ContextCategory::LumaAc => 1,
        ContextCategory::Luma4x4 => 2,
        ContextCategory::ChromaDc => 3,
        ContextCategory::ChromaAc => 4,
        ContextCategory::Luma8x8 => 5,
    }
}

/// Where a table's contexts begin among all contexts of a slice.
pub open spec fn table_base(t: CtxTable) -> int {
    match t {
        CtxTable::MbTypeI => 0,
        CtxTable::SkipP => 8,
        CtxTable::MbTypeP => 11,
        CtxTable::SubMbTypeP => 18,
        CtxTable::SkipB => 21,
        CtxTable::MbTypeB => 24,
        CtxTable::SubMbTypeB => 33,
        CtxTable::MvdComp0 => 37,
        CtxTable::MvdComp1 => 44,
        CtxTable::RefIdx => 51,
        CtxTable::QpDelta => 57,
        CtxTable::IntraChroma => 61,
        CtxTable::PrevIntra4x4 => 65,
        CtxTable::RemIntra4x4 => 66,
        CtxTable::CbpLuma => 67,
        CtxTable::CbpChroma => 71,
        CtxTable::CbfLumaDc => 79,
        CtxTable::CbfLumaAc => 83,
        CtxTable::CbfLuma4x4 => 87,
        CtxTable::CbfChromaDc => 91,
        CtxTable::CbfChromaAc => 95,
        CtxTable::TransformSize8x8 => 99,
        CtxTable::Significant(cat) => 102 + 41 * category_order(cat),
        CtxTable::Last(cat) => 117 + 41 * category_order(cat),
        CtxTable::AbsFirst(cat) => 132 + 41 * category_order(cat),
        CtxTable::AbsRest(cat) => 137 + 41 * category_order(cat),
        CtxTable::Spare(cat) => 142 + 41 * category_order(cat),
    }
}

/// A context's place among all contexts of a slice.
pub open spec fn slot(c: Ctx) -> int {
    table_base(c.table) + c.index
}

/// Distinct contexts have distinct places, so adapting one leaves every other
/// as it is.
pub proof fn law_contexts_are_independent(c: Ctx, d: Ctx)
    requires
        c.valid(),
        d.valid(),
    ensures
        0 <= slot(c) < 348,
        slot(c) == slot(d) ==> c == d,
{
}

fn category_base(cat: ContextCategory) -> (b: usize)
    ensures
        b == 41 * category_order(cat),
{
    match cat {
        ContextCategory::LumaDc => 0,
        ContextCategory::LumaAc => 41,
        ContextCategory::Luma4x4 => 82,
        ContextCategory::ChromaDc => 123,
        ContextCategory::ChromaAc => 164,
        ContextCategory::Luma8x8 => 205,
    }
}

fn slot_of(c: Ctx) -> (k: usize)
    requires
        c.valid(),
    ensures
        k == slot(c),
        k < 348,
{
    let base: usize = match c.table {
        CtxTable::MbTypeI => 0,
        CtxTable::SkipP => 8,
        CtxTable::MbTypeP => 11,
        CtxTable::SubMbTypeP => 18,
        CtxTable::SkipB => 21,
        CtxTable::MbTypeB => 24,
        CtxTable::SubMbTypeB => 33,
        CtxTable::MvdComp0 => 37,
        CtxTable::MvdComp1 => 44,
        CtxTable::RefIdx => 51,
        CtxTable::QpDelta => 57,
        CtxTable::IntraChroma => 61,
        CtxTable::PrevIntra4x4 => 65,
        CtxTable::RemIntra4x4 => 66,
        CtxTable::CbpLuma => 67,
        CtxTable::CbpChroma => 71,
        CtxTable::CbfLumaDc => 79,
        CtxTable::CbfLumaAc => 83,
        CtxTable::CbfLuma4x4 => 87,
        CtxTable::CbfChromaDc => 91,
        CtxTable::CbfChromaAc => 95,
        CtxTable::TransformSize8x8 => 99,
        CtxTable::Significant(cat) => 102 + category_base(cat),
        CtxTable::Last(cat) => 117 + category_base(cat),
        CtxTable::AbsFirst(cat) => 132 + category_base(cat),
        CtxTable::AbsRest(cat) => 137 + category_base(cat),
        CtxTable::Spare(cat) => 142 + category_base(cat),
    };
    base + c.index
}

/// The contexts of one residual category.
#[derive(Debug, Clone)]
pub struct ContextSet {
    pub category: ContextCategory,
    pub significant_coeff_flag: [ContextModel; 15],
    pub last_significant_coeff_flag: [ContextModel; 15],
    pub coeff_abs_level_minus1_bin0: [ContextModel; 5],
    pub coeff_abs_level_minus1_binn: [ContextModel; 5],
    pub scratch: ContextModel,
}

impl ContextSet {
    /// Every context of the set at its place behind the set's first.
    pub open spec fn models(&self) -> Seq<ContextModel> {
        self.significant_coeff_flag@ + self.last_significant_coeff_flag@
            + self.coeff_abs_level_minus1_bin0@ + self.coeff_abs_level_minus1_binn@
            + seq![self.scratch]
    }

    /// Initialises the contexts of a category. Those that no table covers, and
    /// that no block of the category uses, stay uninitialised.
    pub fn new(category: ContextCategory, slice_qp: i8, init: CabacInit) -> (s: Self)
        ensures
            s.category == category,
            forall|i: int| 0 <= i < 15 ==> #[trigger] s.significant_coeff_flag@[i]
                == starting_model(
                Ctx { table: CtxTable::Significant(category), index: i as usize },
                slice_qp as int,
                init,
                0,
            ),
            forall|i: int| 0 <= i < 15 ==> #[trigger] s.last_significant_coeff_flag@[i]
                == starting_model(
                Ctx { table: CtxTable::Last(category), index: i as usize },
                slice_qp as int,
                init,
                0,
            ),
            forall|i: int| 0 <= i < 5 ==> #[trigger] s.coeff_abs_level_minus1_bin0@[i]
                == starting_model(
                Ctx { table: CtxTable::AbsFirst(category), index: i as usize },
                slice_qp as int,
                init,
                0,
            ),
            forall|i: int| 0 <= i < 5 ==> #[trigger] s.coeff_abs_level_minus1_binn@[i]
                == starting_model(
                Ctx { table: CtxTable::AbsRest(category), index: i as usize },
                slice_qp as int,
                init,
                0,
            ),
            s.scratch == unused_model(),
    {
        let mut sig: [ContextModel; 15] = [unused(); 15];
        let mut last: [ContextModel; 15] = [unused(); 15];
        for i in 0..15usize
            invariant
                forall|j: int| 0 <= j < i ==> #[trigger] sig@[j] == starting_model(
                    Ctx { table: CtxTable::Significant(category), index: j as usize },
                    slice_qp as int,
                    init,
                    0,
                ),
                forall|j: int| 0 <= j < i ==> #[trigger] last@[j] == starting_model(
                    Ctx { table: CtxTable::Last(category), index: j as usize },
                    slice_qp as int,
                    init,
                    0,
                ),
        {
            sig[i] = start_context(
                Ctx { table: CtxTable::Significant(category), index: i },
                slice_qp,
                init,
                0,
            );
            last[i] = start_context(
                Ctx { table: CtxTable::Last(category), index: i },
                slice_qp,
                init,
                0,
            );
        }
        let mut bin0: [ContextModel; 5] = [unused(); 5];
        let mut binn: [ContextModel; 5] = [unused(); 5];
        for i in 0..5usize
            invariant
                forall|j: int| 0 <= j < i ==> #[trigger] bin0@[j] == starting_model(
                    Ctx { table: CtxTable::AbsFirst(category), index: j as usize },
                    slice_qp as int,
                    init,
                    0,
                ),
                forall|j: int| 0 <= j < i ==> #[trigger] binn@[j] == starting_model(
                    Ctx { table: CtxTable::AbsRest(category), index: j as usize },
                    slice_qp as int,
                    init,
                    0,
                ),
        {
            bin0[i] = start_context(
                Ctx { table: CtxTable::AbsFirst(category), index: i },
                slice_qp,
                init,
                0,
            );
            binn[i] = start_context(
                Ctx { table: CtxTable::AbsRest(category), index: i },
                slice_qp,
                init,
                0,
            );
        }
        ContextSet {
            category,
            significant_coeff_flag: sig,
            last_significant_coeff_flag: last,
            coeff_abs_level_minus1_bin0: bin0,
            coeff_abs_level_minus1_binn: binn,
            scratch: unused(),
        }
    }
}

/// Which column a slice takes its initial states from.
pub open spec fn slice_init(is_i_slice: bool, idc: u8) -> CabacInit {
    if is_i_slice {
        CabacInit::IorSi
    } else {
        CabacInit::PSpB(idc)
    }
}

/// Every context with a place below `end` holds the model that it starts a
/// slice with.
pub open spec fn started(
    models: Seq<ContextModel>,
    end: int,
    slice_qp: int,
    init: CabacInit,
    idc: u8,
) -> bool {
    forall|c: Ctx|
        c.valid() && #[trigger] slot(c) < end ==> models[slot(c)] == starting_model(
            c,
            slice_qp,
            init,
            idc,
        )
}

/// The models that a table starts a slice with.
pub open spec fn table_models(
    t: CtxTable,
    slice_qp: int,
    init: CabacInit,
    idc: u8,
) -> Seq<ContextModel> {
    Seq::new(
        table_size(t) as nat,
        |i: int| starting_model(Ctx { table: t, index: i as usize }, slice_qp, init, idc),
    )
}

/// The models that the tables of a residual category start a slice with.
pub open spec fn set_models(
    cat: ContextCategory,
    slice_qp: int,
    init: CabacInit,
    idc: u8,
) -> Seq<ContextModel> {
    table_models(CtxTable::Significant(cat), slice_qp, init, idc) + table_models(
        CtxTable::Last(cat),
        slice_qp,
        init,
        idc,
    ) + table_models(CtxTable::AbsFirst(cat), slice_qp, init, idc) + table_models(
        CtxTable::AbsRest(cat),
        slice_qp,
        init,
        idc,
    ) + table_models(CtxTable::Spare(cat), slice_qp, init, idc)
}

/// The models that a slice starts with, table by table.
#[verifier::opaque]
pub open spec fn starting_models(slice_qp: int, init: CabacInit, idc: u8) -> Seq<ContextModel> {
    Seq::<ContextModel>::empty() + table_models(CtxTable::MbTypeI, slice_qp, init, idc)
        + table_models(CtxTable::SkipP, slice_qp, init, idc) + table_models(
        CtxTable::MbTypeP,
        slice_qp,
        init,
        idc,
    ) + table_models(CtxTable::SubMbTypeP, slice_qp, init, idc) + table_models(
        CtxTable::SkipB,
        slice_qp,
        init,
        idc,
    ) + table_models(CtxTable::MbTypeB, slice_qp, init, idc) + table_models(
        CtxTable::SubMbTypeB,
        slice_qp,
        init,
        idc,
    ) + table_models(CtxTable::MvdComp0, slice_qp, init, idc) + table_models(
        CtxTable::MvdComp1,
        slice_qp,
        init,
        idc,
    ) + table_models(CtxTable::RefIdx, slice_qp, init, idc) + table_models(
        CtxTable::QpDelta,
        slice_qp,
        init,
        idc,
    ) + table_models(CtxTable::IntraChroma, slice_qp, init, idc) + table_models(
        CtxTable::PrevIntra4x4,
        slice_qp,
        init,
        idc,
    ) + table_models(CtxTable::RemIntra4x4, slice_qp, init, idc) + table_models(
        CtxTable::CbpLuma,
        slice_qp,
        init,
        idc,
    ) + table_models(CtxTable::CbpChroma, slice_qp, init, idc) + table_models(
        CtxTable::CbfLumaDc,
        slice_qp,
        init,
        idc,
    ) + table_models(CtxTable::CbfLumaAc, slice_qp, init, idc) + table_models(
        CtxTable::CbfLuma4x4,
        slice_qp,
        init,
        idc,
    ) + table_models(CtxTable::CbfChromaDc, slice_qp, init, idc) + table_models(
        CtxTable::CbfChromaAc,
        slice_qp,
        init,
        idc,
    ) + table_models(CtxTable::TransformSize8x8, slice_qp, init, idc) + set_models(
        ContextCategory::LumaDc,
        slice_qp,
        init,
        idc,
    ) + set_models(ContextCategory::LumaAc, slice_qp, init, idc) + set_models(
        ContextCategory::Luma4x4,
        slice_qp,
        init,
        idc,
    ) + set_models(ContextCategory::ChromaDc, slice_qp, init, idc) + set_models(
        ContextCategory::ChromaAc,
        slice_qp,
        init,
        idc,
    ) + set_models(ContextCategory::Luma8x8, slice_qp, init, idc)
}

/// All contexts of a slice.
#[derive(Debug, Clone)]
pub struct CabacMbCtx {
    pub models: Vec<ContextModel>,
}

fn push_table(
    models: &mut Vec<ContextModel>,
    t: CtxTable,
    size: usize,
    slice_qp: i8,
    init: CabacInit,
    idc: u8,
)
    requires
        old(models)@.len() == table_base(t),
        size == table_size(t),
        started(old(models)@, table_base(t), slice_qp as int, init, idc),
    ensures
        final(models)@.len() == table_base(t) + size,
        started(final(models)@, table_base(t) + size, slice_qp as int, init, idc),
        final(models)@ == old(models)@ + table_models(t, slice_qp as int, init, idc),
{
    let ghost before = models@;
    let ghost base = table_base(t);
    for i in 0..size
        invariant
            size == table_size(t),
            base == table_base(t),
            before.len() == base,
            models@.len() == base + i,
            forall|j: int| 0 <= j < base ==> models@[j] == before[j],
            forall|j: int| 0 <= j < i ==> #[trigger] models@[base + j] == starting_model(
                Ctx { table: t, index: j as usize },
                slice_qp as int,
                init,
                idc,
            ),
    {
        models.push(start_context(Ctx { table: t, index: i }, slice_qp, init, idc));
    }
    assert forall|c: Ctx| c.valid() && #[trigger] slot(c) < base + size implies models@[slot(c)]
        == starting_model(c, slice_qp as int, init, idc) by {
        if slot(c) >= base {
            let j = slot(c) - base;
            let d = Ctx { table: t, index: j as usize };
            law_contexts_are_independent(c, d);
            assert(models@[base + j] == starting_model(d, slice_qp as int, init, idc));
        } else {
            law_contexts_are_independent(c, c);
            assert(models@[slot(c)] == before[slot(c)]);
        }
    }
    assert(models@ =~= before + table_models(t, slice_qp as int, init, idc)) by {
        assert forall|k: int| base <= k < base + size implies models@[k] == (before
            + table_models(t, slice_qp as int, init, idc))[k] by {
            let j = k - base;
            assert(models@[base + j] == starting_model(
                Ctx { table: t, index: j as usize },
                slice_qp as int,
                init,
                idc,
            ));
        }
    }
}

fn push_models(models: &mut Vec<ContextModel>, more: &[ContextModel])
    ensures
        final(models)@ == old(models)@ + more@,
{
    for i in 0..more.len()
        invariant
            models@ == old(models)@ + more@.take(i as int),
    {
        models.push(more[i]);
        assert(more@.take(i + 1) == more@.take(i as int).push(more@[i as int]));
    }
    assert(more@.take(more@.len() as int) == more@);
}

fn push_set(
    models: &mut Vec<ContextModel>,
    category: ContextCategory,
    slice_qp: i8,
    init: CabacInit,
    idc: u8,
)
    requires
        old(models)@.len() == 102 + 41 * category_order(category),
        started(old(models)@, old(models)@.len() as int, slice_qp as int, init, idc),
    ensures
        final(models)@.len() == 143 + 41 * category_order(category),
        started(final(models)@, final(models)@.len() as int, slice_qp as int, init, idc),
        final(models)@ == old(models)@ + set_models(category, slice_qp as int, init, idc),
{
    let ghost before = models@;
    let set: ContextSet = ContextSet::new(category, slice_qp, init);
    push_models(models, set.significant_coeff_flag.as_slice());
    push_models(models, set.last_significant_coeff_flag.as_slice());
    push_models(models, set.coeff_abs_level_minus1_bin0.as_slice());
    push_models(models, set.coeff_abs_level_minus1_binn.as_slice());
    models.push(set.scratch);
    let ghost base = before.len() as int;
    assert(models@ =~= before + set.models());
    assert forall|c: Ctx| c.valid() && #[trigger] slot(c) < base + 41 implies models@[slot(c)]
        == starting_model(c, slice_qp as int, init, idc) by {
        law_contexts_are_independent(c, c);
        if slot(c) >= base {
            let j = slot(c) - base;
            let d = if j < 15 {
                Ctx { table: CtxTable::Significant(category), index: j as usize }
            } else if j < 30 {
                Ctx { table: CtxTable::Last(category), index: (j - 15) as usize }
            } else if j < 35 {
                Ctx { table: CtxTable::AbsFirst(category), index: (j - 30) as usize }
            } else if j < 40 {
                Ctx { table: CtxTable::AbsRest(category), index: (j - 35) as usize }
            } else {
                Ctx { table: CtxTable::Spare(category), index: 0 }
            };
            law_contexts_are_independent(c, d);
            assert(models@[base + j] == set.models()[j]);
        } else {
            assert(models@[slot(c)] == before[slot(c)]);
        }
    }
    assert(set.models() =~= set_models(category, slice_qp as int, init, idc));
}

impl CabacMbCtx {
    /// Every context has its place.
    pub open spec fn wf(&self) -> bool {
        self.models@.len() == 348
    }

    /// The contexts at the start of a slice.
    pub fn new(slice_qp: i8, is_i_slice: bool, cabac_init_idc: u8) -> (r: Self)
        ensures
            r.wf(),
            started(
                r.models@,
                348,
                slice_qp as int,
                slice_init(is_i_slice, cabac_init_idc),
                cabac_init_idc,
            ),
            r.models@ == starting_models(
                slice_qp as int,
                slice_init(is_i_slice, cabac_init_idc),
                cabac_init_idc,
            ),
    {
        reveal(starting_models);
        let init: CabacInit = if is_i_slice {
            CabacInit::IorSi
        } else {
            CabacInit::PSpB(cabac_init_idc)
        };
        let (qp, idc) = (slice_qp, cabac_init_idc);
        let mut m: Vec<ContextModel> = Vec::new();
        assert forall|c: Ctx| c.valid() implies 0 <= #[trigger] slot(c) by {
            law_contexts_are_independent(c, c);
        }
        push_table(&mut m, CtxTable::MbTypeI, 8, qp, init, idc);
        push_table(&mut m, CtxTable::SkipP, 3, qp, init, idc);
        push_table(&mut m, CtxTable::MbTypeP, 7, qp, init, idc);
        push_table(&mut m, CtxTable::SubMbTypeP, 3, qp, init, idc);
        push_table(&mut m, CtxTable::SkipB, 3, qp, init, idc);
        push_table(&mut m, CtxTable::MbTypeB, 9, qp, init, idc);
        push_table(&mut m, CtxTable::SubMbTypeB, 4, qp, init, idc);
        push_table(&mut m, CtxTable::MvdComp0, 7, qp, init, idc);
        push_table(&mut m, CtxTable::MvdComp1, 7, qp, init, idc);
        push_table(&mut m, CtxTable::RefIdx, 6, qp, init, idc);
        push_table(&mut m, CtxTable::QpDelta, 4, qp, init, idc);
        push_table(&mut m, CtxTable::IntraChroma, 4, qp, init, idc);
        push_table(&mut m, CtxTable::PrevIntra4x4, 1, qp, init, idc);
        push_table(&mut m, CtxTable::RemIntra4x4, 1, qp, init, idc);
        push_table(&mut m, CtxTable::CbpLuma, 4, qp, init, idc);
        push_table(&mut m, CtxTable::CbpChroma, 8, qp, init, idc);
        push_table(&mut m, CtxTable::CbfLumaDc, 4, qp, init, idc);
        push_table(&mut m, CtxTable::CbfLumaAc, 4, qp, init, idc);
        push_table(&mut m, CtxTable::CbfLuma4x4, 4, qp, init, idc);
        push_table(&mut m, CtxTable::CbfChromaDc, 4, qp, init, idc);
        push_table(&mut m, CtxTable::CbfChromaAc, 4, qp, init, idc);
        push_table(&mut m, CtxTable::TransformSize8x8, 3, qp, init, idc);
        push_set(&mut m, ContextCategory::LumaDc, qp, init, idc);
        push_set(&mut m, ContextCategory::LumaAc, qp, init, idc);
        push_set(&mut m, ContextCategory::Luma4x4, qp, init, idc);
        push_set(&mut m, ContextCategory::ChromaDc, qp, init, idc);
        push_set(&mut m, ContextCategory::ChromaAc, qp, init, idc);
        push_set(&mut m, ContextCategory::Luma8x8, qp, init, idc);
        CabacMbCtx { models: m }
    }

    /// The model of a context.
    pub fn model(&self, c: Ctx) -> (m: ContextModel)
        requires
            self.wf(),
            c.valid(),
        ensures
            m == self.models@[slot(c)],
    {
        self.models[slot_of(c)]
    }

    /// Replaces the model of a context.
    pub fn set_model(&mut self, c: Ctx, m: ContextModel)
        requires
            old(self).wf(),
            c.valid(),
        ensures
            final(self).wf(),
            final(self).models@ == old(self).models@.update(slot(c), m),
    {
        self.models.set(slot_of(c), m);
    }
}

} // verus!
