//! What direct prediction does to the blocks of a macroblock.
use vstd::prelude::*;
use crate::direct::{
    colocated_moves, direct_params, law_direct_macroblock_writes_its_blocks, moves, with_direct_mb,
    ColocatedField, DirectParams,
};
use crate::grids::{mb_inside, Grids, MvInfo};
use crate::mb_type::PartPred;

verus! {

/// A decoded block that predicts from its first reference almost in place: by
/// list 0 where it uses that list, by list 1 where that is its only one. "Almost
/// in place" is a quarter sample at most, up, down, left or right.
pub open spec fn stands_still(c: MvInfo) -> bool {
    let (a, b) = (c.mv.l0, c.mv.l1);
    c.mb_available && match c.pred {
        None => false,
        Some(PartPred::L1) => c.ref_idx.l1 == 0 && -1 <= b.0 && b.0 <= 1 && -1 <= b.1 && b.1 <= 1,
        Some(_) => c.ref_idx.l0 == 0 && -1 <= a.0 && a.0 <= 1 && -1 <= a.1 && a.1 <= 1,
    }
}

/// A block whose references exist in the lists that it uses.
pub open spec fn names_references(c: MvInfo) -> bool {
    match c.pred {
        None => true,
        Some(PartPred::L0) => c.ref_idx.l0 >= 0,
        Some(PartPred::L1) => c.ref_idx.l1 >= 0,
        Some(PartPred::Bi) => c.ref_idx.l0 >= 0 && c.ref_idx.l1 >= 0,
    }
}

/// A co-located block moves unless it stands still. Where the co-located picture
/// has no such block, and where there is no co-located picture, it counts as
/// moving.
pub proof fn law_colocated_blocks_move_or_stand_still(field: Option<&ColocatedField>, x: int, y: int)
    ensures
        field is None ==> colocated_moves(field, x, y),
        field matches Some(f) ==> {
            let i = y * f.width_4x4 + x;
            let inside = 0 <= x < f.width_4x4 && 0 <= y < f.height_4x4;
            &&& !inside ==> colocated_moves(field, x, y)
            &&& inside && i < f.blocks@.len() && i <= u32::MAX && names_references(f.blocks@[i])
                ==> colocated_moves(field, x, y) == !stands_still(f.blocks@[i])
        },
{
}

/// Every block of a direct macroblock predicts from the macroblock's references:
/// by the predicted vector of each list in use, except that the vector into the
/// first reference is zero where the co-located block stands still. An unused
/// list stays unused. With one vector for each quadrant it is the block in the
/// quadrant's upper left corner that decides.
pub proof fn law_direct_blocks_follow_their_prediction(
    g: Grids,
    mb_x: int,
    mb_y: int,
    inference: bool,
    p: DirectParams,
    field: ColocatedField,
    x: int,
    y: int,
)
    requires
        g.whole(),
        mb_inside(mb_x, mb_y, g.wide, g.high),
        p.l0_ref >= -1,
        p.l1_ref >= -1,
        4 * mb_x <= x < 4 * mb_x + 4,
        4 * mb_y <= y < 4 * mb_y + 4,
        field.width_4x4 == 4 * g.wide,
        field.height_4x4 == 4 * g.high,
        field.blocks@.len() == (4 * g.wide) * (4 * g.high),
        field.blocks@.len() <= u32::MAX,
        forall|i: int|
            0 <= i < field.blocks@.len() ==> names_references(#[trigger] field.blocks@[i]),
    ensures
        ({
            let m = with_direct_mb(g, mb_x, mb_y, inference, p, Some(&field)).mv_at(x, y);
            let (cx, cy) = if inference {
                (2 * (x / 2), 2 * (y / 2))
            } else {
                (x, y)
            };
            let still = stands_still(field.blocks@[cy * (4 * g.wide) + cx]);
            &&& p.l0_ref > 0 || (p.l0_ref == 0 && !still) ==> m.mv.l0 == p.mv0
            &&& p.l1_ref > 0 || (p.l1_ref == 0 && !still) ==> m.mv.l1 == p.mv1
            &&& p.l0_ref == 0 && still ==> m.mv.l0 == (0i16, 0i16)
            &&& p.l1_ref == 0 && still ==> m.mv.l1 == (0i16, 0i16)
            &&& p.l0_ref >= 0 || p.l1_ref >= 0 ==> m.ref_idx.l0 == p.l0_ref && m.ref_idx.l1
                == p.l1_ref
            &&& p.l0_ref >= 0 && p.l1_ref == -1 ==> m.pred == Some(PartPred::L0) && m.mv.l1 == (
                0i16,
                0i16,
            )
            &&& p.l0_ref == -1 && p.l1_ref >= 0 ==> m.pred == Some(PartPred::L1) && m.mv.l0 == (
                0i16,
                0i16,
            )
            &&& p.l0_ref >= 0 && p.l1_ref >= 0 ==> m.pred == Some(PartPred::Bi)
        }),
{
    law_direct_macroblock_writes_its_blocks(g, mb_x, mb_y, inference, p, Some(&field), x, y);
    let (cx, cy) = if inference {
        (2 * (x / 2), 2 * (y / 2))
    } else {
        (x, y)
    };
    let w = 4 * g.wide;
    assert(0 <= cy * w + cx < w * (4 * g.high)) by (nonlinear_arith)
        requires
            0 <= cx < w,
            0 <= cy < 4 * g.high,
    ;
    assert(x - x % 2 == 2 * (x / 2) && y - y % 2 == 2 * (y / 2));
    law_colocated_blocks_move_or_stand_still(Some(&field), cx, cy);
    assert(names_references(field.blocks@[cy * w + cx]));
}

/// A neighbour that predicts from a list by a reference index.
pub open spec fn predicts_from(n: MvInfo, list: int, r: int) -> bool {
    n.mb_available && match n.pred {
        None => false,
        Some(PartPred::L0) => list == 0 && n.ref_idx.l0 == r,
        Some(PartPred::L1) => list == 1 && n.ref_idx.l1 == r,
        Some(PartPred::Bi) => (list == 0 && n.ref_idx.l0 == r) || (list == 1 && n.ref_idx.l1 == r),
    }
}

/// The reference of a direct macroblock in a list is the lowest that one of the
/// three neighbours predicts from, and there is none where no neighbour uses the
/// list; without a reference there is no vector.
pub proof fn law_direct_reference_is_a_neighbours(a: MvInfo, b: MvInfo, c: MvInfo, list: int, r: int)
    requires
        list == 0 || list == 1,
        names_references(a),
        names_references(b),
        names_references(c),
        r >= 0,
    ensures
        ({
            let p = direct_params(a, b, c);
            let (found, mv) = if list == 0 {
                (p.l0_ref, p.mv0)
            } else {
                (p.l1_ref, p.mv1)
            };
            &&& found >= 0 ==> predicts_from(a, list, found as int) || predicts_from(
                b,
                list,
                found as int,
            ) || predicts_from(c, list, found as int)
            &&& predicts_from(a, list, r) || predicts_from(b, list, r) || predicts_from(c, list, r)
                ==> 0 <= found <= r
            &&& found >= -1
            &&& found == -1 ==> mv == (0i16, 0i16)
        }),
{
}

} // verus!
