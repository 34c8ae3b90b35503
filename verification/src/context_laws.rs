//! The tables that contexts start a slice from.
use vstd::prelude::*;
use crate::bins::{ctx, CtxTable};
use crate::cabac_residual::{CabacInit, ContextCategory};
use crate::contexts::{init_pair, slice_init};
use crate::residual_tables::{POS2CTX_LAST8X8, POS2CTX_MAP8X8};

verus! {

/// Whether the first context of a table starts from a pair.
pub open spec fn starts(t: CtxTable, init: CabacInit, idc: u8, pair: (int, int)) -> bool {
    init_pair(ctx(t, 0), init, idc) matches Some(p) && p.0 == pair.0 && p.1 == pair.1
}

/// Every table of the macroblock level starts from pairs of its own, by the index of
/// the slice where it has one.
pub proof fn law_macroblock_contexts_start_from_their_own(idc: u8, intra: bool)
    requires
        idc <= 2,
    ensures
        ({
            let init = slice_init(intra, idc);
            let k = idc as int;
            let col = if intra {
                0
            } else {
                1 + idc
            };
            &&& starts(CtxTable::MbTypeI, init, idc, (20int, -15int))
            &&& starts(CtxTable::QpDelta, init, idc, (0int, 41int))
            &&& starts(CtxTable::IntraChroma, init, idc, (-9int, 83int))
            &&& starts(CtxTable::PrevIntra4x4, init, idc, (13int, 41int))
            &&& starts(CtxTable::RemIntra4x4, init, idc, (3int, 62int))
            &&& starts(CtxTable::SkipP, init, idc, seq![(23int, 33int), (22, 25), (29, 16)][k])
            &&& starts(CtxTable::MbTypeP, init, idc, seq![(1int, 9int), (-2, 9), (-10, 51)][k])
            &&& starts(CtxTable::SubMbTypeP, init, idc, seq![(12int, 49int), (9, 50), (6, 57)][k])
            &&& starts(CtxTable::SkipB, init, idc, seq![(18int, 64int), (26, 34), (20, 40)][k])
            &&& starts(CtxTable::MbTypeB, init, idc, seq![(26int, 67int), (57, 2), (54, 0)][k])
            &&& starts(CtxTable::SubMbTypeB, init, idc, seq![(-6int, 86int), (6, 69), (-6, 93)][k])
            &&& starts(CtxTable::MvdComp0, init, idc, seq![(-3int, 69int), (-2, 69), (-11, 89)][k])
            &&& starts(CtxTable::MvdComp1, init, idc, seq![(0int, 58int), (1, 56), (1, 63)][k])
            &&& starts(CtxTable::RefIdx, init, idc, seq![(-7int, 67int), (-1, 66), (3, 55)][k])
            &&& starts(
                    CtxTable::CbpLuma,
                    init,
                    idc,
                    seq![(-17int, 127int), (-27, 126), (-39, 127), (-36, 127)][col],
                )
            &&& starts(
                    CtxTable::CbpChroma,
                    init,
                    idc,
                    seq![(-21int, 107int), (-28, 82), (-35, 98), (-25, 86)][col],
                )
            &&& starts(
                    CtxTable::CbfLumaDc,
                    init,
                    idc,
                    seq![(-17int, 123int), (-7, 92), (0, 80), (11, 80)][col],
                )
            &&& starts(
                    CtxTable::CbfLumaAc,
                    init,
                    idc,
                    seq![(-12int, 63int), (-3, 46), (0, 39), (-6, 55)][col],
                )
            &&& starts(
                    CtxTable::CbfLuma4x4,
                    init,
                    idc,
                    seq![(-3int, 70int), (-3, 74), (-2, 73), (-5, 79)][col],
                )
            &&& starts(
                    CtxTable::CbfChromaDc,
                    init,
                    idc,
                    seq![(-1int, 74int), (5, 54), (3, 55), (0, 65)][col],
                )
            &&& starts(
                    CtxTable::CbfChromaAc,
                    init,
                    idc,
                    seq![(-4int, 56int), (-1, 48), (-3, 53), (-6, 56)][col],
                )
            &&& starts(
                    CtxTable::TransformSize8x8,
                    init,
                    idc,
                    seq![(31int, 21int), (12, 40), (25, 32), (21, 33)][col],
                )
        }),
{
}

/// Every table of the residual starts from pairs of its own, for each category of
/// blocks.
pub proof fn law_residual_contexts_start_from_their_own(idc: u8, intra: bool)
    requires
        idc <= 2,
    ensures
        ({
            let init = slice_init(intra, idc);
            let col = if intra {
                0
            } else {
                1 + idc
            };
            &&& starts(
                    CtxTable::Significant(ContextCategory::LumaDc),
                    init,
                    idc,
                    seq![(-7int, 93int), (-2, 85), (-13, 103), (-4, 86)][col],
                )
            &&& starts(
                    CtxTable::Significant(ContextCategory::LumaAc),
                    init,
                    idc,
                    seq![(1int, 50int), (11, 35), (-4, 66), (-4, 44)][col],
                )
            &&& starts(
                    CtxTable::Significant(ContextCategory::Luma4x4),
                    init,
                    idc,
                    seq![(-13int, 108int), (9, 53), (0, 54), (1, 67)][col],
                )
            &&& starts(
                    CtxTable::Significant(ContextCategory::ChromaDc),
                    init,
                    idc,
                    seq![(-8int, 102int), (3, 64), (-4, 71), (3, 65)][col],
                )
            &&& starts(
                    CtxTable::Significant(ContextCategory::ChromaAc),
                    init,
                    idc,
                    seq![(-4int, 75int), (7, 50), (9, 41), (-10, 66)][col],
                )
            &&& starts(
                    CtxTable::Significant(ContextCategory::Luma8x8),
                    init,
                    idc,
                    seq![(-17int, 120int), (-4, 79), (-5, 85), (-3, 78)][col],
                )
            &&& starts(
                    CtxTable::Last(ContextCategory::LumaDc),
                    init,
                    idc,
                    seq![(24int, 0int), (11, 28), (4, 45), (4, 39)][col],
                )
            &&& starts(
                    CtxTable::Last(ContextCategory::LumaAc),
                    init,
                    idc,
                    seq![(12int, 38int), (6, 51), (33, -4), (8, 44)][col],
                )
            &&& starts(
                    CtxTable::Last(ContextCategory::Luma4x4),
                    init,
                    idc,
                    seq![(26int, -19int), (25, 7), (33, -25), (35, -18)][col],
                )
            &&& starts(
                    CtxTable::Last(ContextCategory::ChromaDc),
                    init,
                    idc,
                    seq![(30int, -6int), (1, 67), (0, 75), (20, 34)][col],
                )
            &&& starts(
                    CtxTable::Last(ContextCategory::ChromaAc),
                    init,
                    idc,
                    seq![(37int, -16int), (16, 30), (14, 35), (19, 16)][col],
                )
            &&& starts(
                    CtxTable::Last(ContextCategory::Luma8x8),
                    init,
                    idc,
                    seq![(23int, -13int), (9, -2), (17, -10), (9, -2)][col],
                )
            &&& starts(
                    CtxTable::AbsFirst(ContextCategory::LumaDc),
                    init,
                    idc,
                    seq![(-3int, 71int), (-6, 76), (-23, 112), (-24, 115)][col],
                )
            &&& starts(
                    CtxTable::AbsFirst(ContextCategory::LumaAc),
                    init,
                    idc,
                    seq![(-5int, 67int), (-9, 77), (-21, 101), (-21, 100)][col],
                )
            &&& starts(
                    CtxTable::AbsFirst(ContextCategory::Luma4x4),
                    init,
                    idc,
                    seq![(-12int, 92int), (1, 58), (-11, 76), (-10, 82)][col],
                )
            &&& starts(
                    CtxTable::AbsFirst(ContextCategory::ChromaDc),
                    init,
                    idc,
                    seq![(-11int, 97int), (0, 70), (2, 66), (-4, 79)][col],
                )
            &&& starts(
                    CtxTable::AbsFirst(ContextCategory::ChromaAc),
                    init,
                    idc,
                    seq![(-8int, 78int), (0, 58), (3, 52), (-13, 81)][col],
                )
            &&& starts(
                    CtxTable::AbsFirst(ContextCategory::Luma8x8),
                    init,
                    idc,
                    seq![(-3int, 75int), (-6, 66), (-5, 71), (-9, 71)][col],
                )
            &&& starts(
                    CtxTable::AbsRest(ContextCategory::LumaDc),
                    init,
                    idc,
                    seq![(0int, 58int), (-2, 59), (-11, 77), (-14, 85)][col],
                )
            &&& starts(
                    CtxTable::AbsRest(ContextCategory::LumaAc),
                    init,
                    idc,
                    seq![(-16int, 64int), (-6, 59), (-15, 77), (-21, 85)][col],
                )
            &&& starts(
                    CtxTable::AbsRest(ContextCategory::Luma4x4),
                    init,
                    idc,
                    seq![(-12int, 73int), (-6, 55), (-16, 72), (-14, 75)][col],
                )
            &&& starts(
                    CtxTable::AbsRest(ContextCategory::ChromaDc),
                    init,
                    idc,
                    seq![(-13int, 86int), (-2, 58), (-2, 55), (-13, 78)][col],
                )
            &&& starts(
                    CtxTable::AbsRest(ContextCategory::ChromaAc),
                    init,
                    idc,
                    seq![(-13int, 71int), (2, 40), (3, 37), (-16, 73)][col],
                )
            &&& starts(
                    CtxTable::AbsRest(ContextCategory::Luma8x8),
                    init,
                    idc,
                    seq![(-2int, 55int), (-12, 56), (-9, 57), (-12, 59)][col],
                )
        }),
{
}

/// Intra types in P slices and in B slices are coded alike: the contexts behind their
/// first start from the same pairs.
pub proof fn law_intra_types_start_alike(init: CabacInit, idc: u8, i: int)
    requires
        0 <= i < 3,
    ensures
        init_pair(ctx(CtxTable::MbTypeP, 4 + i), init, idc) == init_pair(
            ctx(CtxTable::MbTypeB, 6 + i),
            init,
            idc,
        ),
{
}

/// The position in an 8x8 block from which on its last coefficient has context `n`.
pub open spec fn last_reaches() -> Seq<int> {
    seq![0int, 1, 16, 32, 40, 48, 52, 56, 60]
}

/// The contexts of the last coefficient of an 8x8 block go up, each from its position
/// on.
pub proof fn law_last_contexts_go_up(i: int, n: int)
    requires
        0 <= i < 63,
        0 <= n < 9,
    ensures
        POS2CTX_LAST8X8[i] >= n <==> i >= last_reaches()[n],
        POS2CTX_LAST8X8[i] < 9,
{
}

/// The positions of an 8x8 block whose significance has each context.
pub open spec fn significant_places(n: int) -> Seq<int> {
    if n == 0 {
        seq![0int]
    } else if n == 1 {
        seq![1int]
    } else if n == 2 {
        seq![2int]
    } else if n == 3 {
        seq![3int, 9, 10, 20, 21]
    } else if n == 4 {
        seq![4int, 7, 8, 11, 12, 13, 16, 17, 18, 19]
    } else if n == 5 {
        seq![5int, 6, 14, 15]
    } else if n == 6 {
        seq![22int, 33, 38, 46, 51]
    } else if n == 7 {
        seq![23int, 24, 25, 31, 32, 39]
    } else if n == 8 {
        seq![26int, 30, 40, 45]
    } else if n == 9 {
        seq![27int, 29, 41, 44, 52, 55]
    } else if n == 10 {
        seq![28int, 43, 54, 61]
    } else if n == 11 {
        seq![34int, 37, 47, 50, 56, 59]
    } else if n == 12 {
        seq![35int, 48, 57, 62]
    } else if n == 13 {
        seq![36int, 49, 58]
    } else {
        seq![42int, 53, 60]
    }
}

/// Each context of significance in an 8x8 block serves its positions.
#[verifier::rlimit(60)]
pub proof fn law_significance_contexts_serve_their_places(n: int, k: int)
    requires
        0 <= n < 15,
        0 <= k < significant_places(n).len(),
    ensures
        POS2CTX_MAP8X8[significant_places(n)[k]] == n,
{
}

} // verus!
