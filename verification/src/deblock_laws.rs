//! When the motion or the coefficients of two blocks call for filtering the edge
//! between them.
use vstd::prelude::*;
use crate::deblock::{
    coefficients_at, law_strength_by_cases, luma_edge_filtered, nonzero_at, strength,
};
use crate::grids::{Lists, Mv, MvInfo};
use crate::mb_type::PartPred;
use crate::slice::Summary;

verus! {

/// Less than a full sample apart, horizontally and vertically: four quarter
/// samples are a full one.
pub open spec fn close(a: Mv, b: Mv) -> bool {
    -4 < a.0 - b.0 < 4 && -4 < a.1 - b.1 < 4
}

/// An edge between inter macroblocks with no coefficients next to it.
pub open spec fn only_motion_counts(p: Summary, p_blk: int, q: Summary, q_blk: int) -> bool {
    &&& p.residual.has_blocks() && p.residual.significant()
    &&& q.residual.has_blocks() && q.residual.significant()
    &&& 0 <= p_blk < 16
    &&& 0 <= q_blk < 16
    &&& !p.intra() && !q.intra()
    &&& !nonzero_at(p, p_blk) && !nonzero_at(q, q_blk)
}

/// A block that predicts from one entry of one list, with nothing stored for the
/// other.
pub open spec fn single(m: MvInfo, list: int, r: int, v: Mv) -> bool {
    if list == 0 {
        m.pred == Some(PartPred::L0) && m.ref_idx.l0 == r && m.mv.l0 == v && m.mv.l1 == (0i16, 0i16)
    } else {
        m.pred == Some(PartPred::L1) && m.ref_idx.l1 == r && m.mv.l1 == v && m.mv.l0 == (0i16, 0i16)
    }
}

/// The picture at a place of one of two lists.
pub open spec fn entry_of(l0: Seq<i32>, l1: Seq<i32>, list: int, r: int) -> i32 {
    if list == 0 {
        l0[r]
    } else {
        l1[r]
    }
}

/// Whether a place of one of two lists is taken.
pub open spec fn taken(l0: Seq<i32>, l1: Seq<i32>, list: int, r: int) -> bool {
    (list == 0 && 0 <= r < l0.len()) || (list == 1 && 0 <= r < l1.len())
}

/// Between two blocks that predict from one picture each, and without
/// coefficients, an edge is left alone exactly where it is the same picture,
/// whatever list it was found in, and the vectors are close. Otherwise the
/// strength is 1.
pub proof fn law_strength_between_single_predictions(
    mb_edge: bool,
    p: Summary,
    p_blk: int,
    q: Summary,
    q_blk: int,
    l0: Seq<i32>,
    l1: Seq<i32>,
    pl: int,
    pr: int,
    pv: Mv,
    ql: int,
    qr: int,
    qv: Mv,
)
    requires
        only_motion_counts(p, p_blk, q, q_blk),
        taken(l0, l1, pl, pr),
        taken(l0, l1, ql, qr),
        single(p.motion(p_blk), pl, pr, pv),
        single(q.motion(q_blk), ql, qr, qv),
    ensures
        strength(mb_edge, p, p_blk, q, q_blk, l0, l1) == (if entry_of(l0, l1, pl, pr) == entry_of(
            l0,
            l1,
            ql,
            qr,
        ) && close(pv, qv) {
            0u8
        } else {
            1u8
        }),
{
    law_strength_by_cases(mb_edge, p, p_blk, q, q_blk, l0, l1);
}

/// A block that predicts from an entry of each list.
pub open spec fn double(m: MvInfo, r0: int, r1: int) -> bool {
    m.pred == Some(PartPred::Bi) && m.ref_idx.l0 == r0 && m.ref_idx.l1 == r1
}

/// Between two blocks that predict from two pictures each, and without
/// coefficients, an edge is left alone exactly where the pictures can be paired
/// off so that in each pair the picture is the same and the vectors are close.
/// Otherwise the strength is 1.
pub proof fn law_strength_between_double_predictions(
    mb_edge: bool,
    p: Summary,
    p_blk: int,
    q: Summary,
    q_blk: int,
    l0: Seq<i32>,
    l1: Seq<i32>,
    p0: int,
    p1: int,
    q0: int,
    q1: int,
)
    requires
        only_motion_counts(p, p_blk, q, q_blk),
        0 <= p0 < l0.len(),
        0 <= q0 < l0.len(),
        0 <= p1 < l1.len(),
        0 <= q1 < l1.len(),
        double(p.motion(p_blk), p0, p1),
        double(q.motion(q_blk), q0, q1),
    ensures
        ({
            let (m, n) = (p.motion(p_blk), q.motion(q_blk));
            let straight = l0[p0] == l0[q0] && l1[p1] == l1[q1] && close(m.mv.l0, n.mv.l0) && close(
                m.mv.l1,
                n.mv.l1,
            );
            let crossed = l0[p0] == l1[q1] && l1[p1] == l0[q0] && close(m.mv.l0, n.mv.l1) && close(
                m.mv.l1,
                n.mv.l0,
            );
            strength(mb_edge, p, p_blk, q, q_blk, l0, l1) == (if straight || crossed {
                0u8
            } else {
                1u8
            })
        }),
{
    law_strength_by_cases(mb_edge, p, p_blk, q, q_blk, l0, l1);
}

/// Between a block that predicts from one picture and one that predicts from
/// two, without coefficients, the strength is 1.
pub proof fn law_strength_between_single_and_double(
    mb_edge: bool,
    p: Summary,
    p_blk: int,
    q: Summary,
    q_blk: int,
    l0: Seq<i32>,
    l1: Seq<i32>,
    pl: int,
    pr: int,
    pv: Mv,
    q0: int,
    q1: int,
)
    requires
        only_motion_counts(p, p_blk, q, q_blk),
        taken(l0, l1, pl, pr),
        0 <= q0 < l0.len(),
        0 <= q1 < l1.len(),
        single(p.motion(p_blk), pl, pr, pv),
        double(q.motion(q_blk), q0, q1),
    ensures
        strength(mb_edge, p, p_blk, q, q_blk, l0, l1) == 1,
{
    law_strength_by_cases(mb_edge, p, p_blk, q, q_blk, l0, l1);
}

/// A block's motion with the two components of every vector exchanged.
pub open spec fn turned(m: MvInfo) -> MvInfo {
    MvInfo {
        mv: Lists { l0: (m.mv.l0.1, m.mv.l0.0), l1: (m.mv.l1.1, m.mv.l1.0) },
        ..m
    }
}

/// The strength treats horizontal and vertical motion alike: exchanging the
/// components of all vectors does not change it.
pub proof fn law_strength_has_no_direction(
    mb_edge: bool,
    p: Summary,
    q: Summary,
    pt: Summary,
    qt: Summary,
    p_blk: int,
    q_blk: int,
    l0: Seq<i32>,
    l1: Seq<i32>,
)
    requires
        pt.intra() == p.intra(),
        qt.intra() == q.intra(),
        pt.transform_8x8 == p.transform_8x8,
        qt.transform_8x8 == q.transform_8x8,
        pt.residual == p.residual,
        qt.residual == q.residual,
        pt.motion(p_blk) == turned(p.motion(p_blk)),
        qt.motion(q_blk) == turned(q.motion(q_blk)),
    ensures
        strength(mb_edge, pt, p_blk, qt, q_blk, l0, l1) == strength(
            mb_edge,
            p,
            p_blk,
            q,
            q_blk,
            l0,
            l1,
        ),
{
}

/// Whether a block has coefficients: those that are coded with it in small transforms,
/// in large ones those of its quadrant. The `b`-th block stands in quadrant `b / 4`, and
/// inside it row by row.
pub proof fn law_blocks_have_their_own_coefficients(mb: Summary, b: int)
    requires
        0 <= b < 16,
        mb.residual.has_blocks(),
    ensures
        ({
            let (quad, k) = (b / 4, b % 4);
            let raster = 4 * (2 * (quad / 2) + k / 2) + 2 * (quad % 2) + k % 2;
            let own = if mb.transform_8x8 {
                mb.residual.luma8x8[quad]
            } else {
                mb.residual.luma_ac[b]
            };
            coefficients_at(mb, raster) <==> (own matches Some(x) && x.levels.len() > 0)
        }),
{
}

/// A macroblock with the large transform has no edges in the middle of its quadrants.
pub proof fn law_large_transforms_have_fewer_edges(mb: Summary, e: int)
    requires
        0 <= e < 4,
    ensures
        luma_edge_filtered(mb, 4 * e) <==> !(mb.transform_8x8 && e % 2 == 1),
{
}

} // verus!
