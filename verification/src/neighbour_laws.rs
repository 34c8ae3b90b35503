//! What neighbours count for when contexts are chosen.
use vstd::prelude::*;
use crate::cabac_syntax::{
    cbf_term, cbp_chroma_term, cbp_luma_term, intra_chroma_term, mb_type_b_term, mb_type_i_term,
    mvd_term, qp_delta_inc, ref_idx_term, skip_term, transform_8x8_term, PrevMbQp,
};
use crate::grids::{CabacMbInfo, MvInfo};
use crate::mb_type::PartPred;

verus! {

/// A neighbour that is not there counts for nothing, but for coded-block flags of
/// intra macroblocks, for which it counts as coded.
pub proof fn law_missing_neighbours(trans: bool, cbf: bool, bin_idx: int)
    ensures
        cbf_term(None, trans, cbf, true) == 1,
        cbf_term(None, trans, cbf, false) == 0,
        cbp_luma_term(None, None) == 0,
        cbp_chroma_term(None, bin_idx) == 0,
        mb_type_i_term(None) == 0,
        mb_type_b_term(None) == 0,
        skip_term(None) == 0,
        transform_8x8_term(None) == 0,
        intra_chroma_term(None) == 0,
{
}

/// A neighbour of raw samples counts as one with every coefficient coded, and as
/// one without a chroma prediction mode.
pub proof fn law_raw_neighbours(
    info: CabacMbInfo,
    trans: bool,
    cbf: bool,
    intra: bool,
    bit: bool,
    bin_idx: int,
)
    requires
        info.is_ipcm,
    ensures
        cbf_term(Some(info), trans, cbf, intra) == 1,
        cbp_luma_term(None, Some((info, bit))) == 0,
        cbp_chroma_term(Some(info), bin_idx) == 1,
        intra_chroma_term(Some(info)) == 0,
{
}

/// A skipped neighbour has nothing coded, and is neither an ordinary type nor one
/// that is not skipped.
pub proof fn law_skipped_neighbours(info: CabacMbInfo, bit: bool, bin_idx: int)
    requires
        info.skipped,
        !info.is_ipcm,
    ensures
        cbp_luma_term(None, Some((info, bit))) == 1,
        cbp_chroma_term(Some(info), bin_idx) == 0,
        mb_type_b_term(Some(info)) == 0,
        skip_term(Some(info)) == 0,
{
}

/// Any other neighbour counts by what it holds itself: a coded-block flag by the
/// block's own flag where it has one, a luma bit when it is not set, a chroma bin
/// by how far its pattern goes, a type unless it is the likeliest one there, the
/// transform by its size, a chroma prediction mode unless it averages.
pub proof fn law_coded_neighbours(info: CabacMbInfo, cbf: bool, intra: bool, bit: bool)
    requires
        !info.skipped,
        !info.is_ipcm,
    ensures
        cbf_term(Some(info), false, cbf, intra) == 0,
        cbf_term(Some(info), true, true, intra) == 1,
        cbf_term(Some(info), true, false, intra) == 0,
        cbp_luma_term(None, Some((info, true))) == 0,
        cbp_luma_term(None, Some((info, false))) == 1,
        cbp_chroma_term(Some(info), 0) == 0 <==> info.cbp_chroma == 0,
        cbp_chroma_term(Some(info), 1) == 1 <==> info.cbp_chroma == 2,
        0 <= cbp_chroma_term(Some(info), 0) <= 1,
        0 <= cbp_chroma_term(Some(info), 1) <= 1,
        skip_term(Some(info)) == 1,
        info.is_b_direct16x16 ==> mb_type_b_term(Some(info)) == 0,
        !info.is_b_direct16x16 ==> mb_type_b_term(Some(info)) == 1,
        info.transform_8x8 ==> transform_8x8_term(Some(info)) == 1,
        !info.transform_8x8 ==> transform_8x8_term(Some(info)) == 0,
        !info.is_intra || info.intra_chroma_pred_mode == 0 ==> intra_chroma_term(Some(info)) == 0,
        info.is_intra && info.intra_chroma_pred_mode > 0 ==> intra_chroma_term(Some(info)) == 1,
{
}

/// A neighbour counts for an intra type unless it predicts in small blocks.
pub proof fn law_small_intra_neighbours(info: CabacMbInfo)
    ensures
        info.is_intra4x4 || info.is_intra8x8 ==> mb_type_i_term(Some(info)) == 0,
        !info.is_intra4x4 && !info.is_intra8x8 ==> mb_type_i_term(Some(info)) == 1,
{
}

/// Inside a macroblock a luma bit is judged by the one already read, whatever is
/// known of other macroblocks.
pub proof fn law_own_bits_come_first(other: Option<(CabacMbInfo, bool)>)
    ensures
        cbp_luma_term(Some(true), other) == 0,
        cbp_luma_term(Some(false), other) == 1,
{
}

/// Whether a block read motion data for a list.
pub open spec fn read_motion(n: MvInfo, list: int) -> bool {
    !n.direct_or_skip && (n.pred == Some(PartPred::Bi) || (list == 0 && n.pred == Some(PartPred::L0))
        || (list == 1 && n.pred == Some(PartPred::L1)))
}

/// A neighbouring block counts by the motion data that it read itself: what was
/// inferred does not count. A reference counts when it is not the first, a vector
/// difference by its size.
pub proof fn law_neighbouring_motion(n: MvInfo, list: int)
    requires
        list == 0 || list == 1,
    ensures
        ({
            let r = if list == 0 {
                n.ref_idx.l0
            } else {
                n.ref_idx.l1
            };
            let d = if list == 0 {
                n.mvd.l0
            } else {
                n.mvd.l1
            };
            &&& !read_motion(n, list) ==> ref_idx_term(n, list) == 0 && mvd_term(n, list, 0) == 0
                && mvd_term(n, list, 1) == 0
            &&& read_motion(n, list) ==> {
                &&& r > 0 ==> ref_idx_term(n, list) == 1
                &&& r <= 0 ==> ref_idx_term(n, list) == 0
                &&& d.0 >= 0 ==> mvd_term(n, list, 0) == d.0
                &&& d.0 <= 0 ==> mvd_term(n, list, 0) == 0 - d.0
                &&& d.1 >= 0 ==> mvd_term(n, list, 1) == d.1
                &&& d.1 <= 0 ==> mvd_term(n, list, 1) == 0 - d.1
            }
        }),
{
}

/// The macroblock before counts for the quantiser difference exactly when it read
/// one that was not 0: neither a skipped one nor raw samples nor one without
/// coefficients reads any, but one predicted as a whole always does.
pub proof fn law_previous_difference(prev: PrevMbQp)
    ensures
        !prev.available || prev.skipped || prev.is_ipcm ==> qp_delta_inc(prev) == 0,
        prev.cbp_zero && !prev.is_intra16x16 ==> qp_delta_inc(prev) == 0,
        prev.qp_delta_zero ==> qp_delta_inc(prev) == 0,
        prev.available && !prev.skipped && !prev.is_ipcm && prev.is_intra16x16
            && !prev.qp_delta_zero ==> qp_delta_inc(prev) == 1,
        prev.available && !prev.skipped && !prev.is_ipcm && !prev.cbp_zero && !prev.qp_delta_zero
            ==> qp_delta_inc(prev) == 1,
{
}

} // verus!
