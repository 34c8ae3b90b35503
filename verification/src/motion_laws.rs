//! What macroblock types mean, and where vectors come from.
use vstd::prelude::*;
use crate::grids::{blk_pos, corner_neighbour, mb_inside, neighbour_modes, Grids, Lists, Mv, MvInfo};
use crate::inter::{law_partition_covers_its_rectangle, shape_of, vector, with_rect};
use crate::mb_type::{in_rect, mb_kind, partition_rects, sub_mb_kind, MbKind, PartPred, SliceKind};
use crate::motion::{median3, predicted_mv, skip_mv, Neighbour, PartitionShape};
use crate::prediction::{intra_motion, skip_motion, whole, with_skip_motion};
use crate::sub_mb::SubMb;

verus! {

// ----------------------------------------------------------------------- types
/// The two lists that a pair of halves predicts from, in the order of the B types:
/// each pair comes twice, first for halves above each other, then side by side.
pub open spec fn halves_of_b() -> Seq<(PartPred, PartPred)> {
    seq![
        (PartPred::L0, PartPred::L0),
        (PartPred::L1, PartPred::L1),
        (PartPred::L0, PartPred::L1),
        (PartPred::L1, PartPred::L0),
        (PartPred::L0, PartPred::Bi),
        (PartPred::L1, PartPred::Bi),
        (PartPred::Bi, PartPred::L0),
        (PartPred::Bi, PartPred::L1),
        (PartPred::Bi, PartPred::Bi),
    ]
}

/// A macroblock of two halves.
pub open spec fn halves(first: PartPred, second: PartPred) -> MbKind {
    MbKind::Inter { first, second: Some(second) }
}

/// What the inter types mean. A P slice has a whole macroblock, halves above each
/// other, halves side by side, and quadrants, all from list 0. A B slice has a
/// direct macroblock, a whole one from either list or both, all pairs of halves,
/// and quadrants. In both, the intra types come behind them.
pub proof fn law_inter_types(k: int, upper: bool, x: u32, y: u32)
    requires
        0 <= k < 9,
        x < 4,
        y < 4,
    ensures
        mb_kind(SliceKind::P, 0) matches Ok(m) && m == (MbKind::Inter {
            first: PartPred::L0,
            second: None,
        }),
        mb_kind(SliceKind::P, 1) matches Ok(m) && m == halves(PartPred::L0, PartPred::L0),
        mb_kind(SliceKind::P, 2) matches Ok(m) && m == halves(PartPred::L0, PartPred::L0),
        mb_kind(SliceKind::P, 3) matches Ok(m) && m == (MbKind::P8x8 { ref0_inferred: false }),
        mb_kind(SliceKind::P, 4) matches Ok(m) && m == (MbKind::P8x8 { ref0_inferred: true }),
        in_rect(partition_rects(SliceKind::P, 1).0, x, y) == (y < 2),
        in_rect(partition_rects(SliceKind::P, 1).1, x, y) == (y >= 2),
        in_rect(partition_rects(SliceKind::P, 2).0, x, y) == (x < 2),
        in_rect(partition_rects(SliceKind::P, 2).1, x, y) == (x >= 2),
        mb_kind(SliceKind::B, 0) matches Ok(m) && m == MbKind::BDirect16x16,
        mb_kind(SliceKind::B, 1) matches Ok(m) && m == (MbKind::Inter {
            first: PartPred::L0,
            second: None,
        }),
        mb_kind(SliceKind::B, 2) matches Ok(m) && m == (MbKind::Inter {
            first: PartPred::L1,
            second: None,
        }),
        mb_kind(SliceKind::B, 3) matches Ok(m) && m == (MbKind::Inter {
            first: PartPred::Bi,
            second: None,
        }),
        mb_kind(SliceKind::B, 22) matches Ok(m) && m == MbKind::B8x8,
        ({
            let code = 4 + 2 * k + (if upper {
                0int
            } else {
                1
            });
            let (r0, r1) = partition_rects(SliceKind::B, code);
            let (first, second) = halves_of_b()[k];
            &&& mb_kind(SliceKind::B, code) matches Ok(m) && m == halves(first, second)
            &&& in_rect(r0, x, y) == (if upper {
                y < 2
            } else {
                x < 2
            })
            &&& in_rect(r1, x, y) == (if upper {
                y >= 2
            } else {
                x >= 2
            })
        }),
{
}

/// The parts that a quadrant is cut into, and the lists they predict from: in a P
/// slice whole, above each other, side by side, in four, all from list 0; in a B
/// slice direct, whole from list 0, list 1 or both, then in two parts, above each
/// other and side by side for each of these, then in four for each.
pub proof fn law_sub_types(k: int, dx: int, dy: int)
    requires
        0 <= k < 3,
        0 <= dx < 2,
        0 <= dy < 2,
    ensures
        ({
            let lists = seq![PartPred::L0, PartPred::L1, PartPred::Bi];
            let part = |code: int, num_sub: u8|
                (SubMb { num_sub, pred: Some(PartPred::L0), code: code as u32 }).owner(dx, dy);
            &&& sub_mb_kind(false, 0) matches Ok(m) && m == (1u8, Some(PartPred::L0))
            &&& sub_mb_kind(false, 1) matches Ok(m) && m == (2u8, Some(PartPred::L0))
            &&& sub_mb_kind(false, 2) matches Ok(m) && m == (2u8, Some(PartPred::L0))
            &&& sub_mb_kind(false, 3) matches Ok(m) && m == (4u8, Some(PartPred::L0))
            &&& sub_mb_kind(true, 0) matches Ok(m) && m == (4u8, None::<PartPred>)
            &&& sub_mb_kind(true, 1 + k) matches Ok(m) && m == (1u8, Some(lists[k]))
            &&& sub_mb_kind(true, 4 + 2 * k) matches Ok(m) && m == (2u8, Some(lists[k]))
            &&& sub_mb_kind(true, 5 + 2 * k) matches Ok(m) && m == (2u8, Some(lists[k]))
            &&& sub_mb_kind(true, 10 + k) matches Ok(m) && m == (4u8, Some(lists[k]))
            &&& part(0, 1) == 0
            &&& part(1, 2) == dy
            &&& part(2, 2) == dx
            &&& part(3, 4) == 2 * dy + dx
            &&& part(4 + 2 * k, 2) == dy
            &&& part(5 + 2 * k, 2) == dx
        }),
{
}

/// Blocks are numbered quadrant by quadrant, and inside a quadrant row by row, as
/// the quadrants are.
pub proof fn law_blocks_are_numbered_by_quadrants(q: int, k: int)
    requires
        0 <= q < 4,
        0 <= k < 4,
    ensures
        blk_pos(4 * q + k) == (2 * (q % 2) + k % 2, 2 * (q / 2) + k / 2),
{
}

// -------------------------------------------------------------------- vectors
/// The median of three: one of them, with one of the others on either side.
pub proof fn law_median_is_in_the_middle(a: int, b: int, c: int)
    ensures
        ({
            let m = median3(a, b, c);
            &&& m == a || m == b || m == c
            &&& (a <= m && b <= m) || (b <= m && c <= m) || (a <= m && c <= m)
            &&& (a >= m && b >= m) || (b >= m && c >= m) || (a >= m && c >= m)
        }),
{
}

/// Whether exactly one of three holds, and it is the first.
pub open spec fn only(a: bool, b: bool, c: bool) -> bool {
    a && !b && !c
}

/// Where exactly one neighbour predicts from the same reference its vector is
/// taken, whatever the shape. Where no neighbour above is known but the left one
/// is, that one's is. Otherwise, for a macroblock that is not cut in two, it is
/// the median of the three.
pub proof fn law_vector_prediction(
    shape: PartitionShape,
    a: Neighbour,
    b: Neighbour,
    c: Neighbour,
    r: i8,
)
    requires
        !a.available ==> a.ref_idx == -1 && a.mv == (0i16, 0i16),
        !b.available ==> b.ref_idx == -1 && b.mv == (0i16, 0i16),
        !c.available ==> c.ref_idx == -1 && c.mv == (0i16, 0i16),
        r >= 0,
    ensures
        ({
            let (sa, sb, sc) = (a.ref_idx == r, b.ref_idx == r, c.ref_idx == r);
            let v = predicted_mv(shape, a, b, c, r);
            &&& only(sa, sb, sc) ==> v == a.mv
            &&& only(sb, sa, sc) ==> v == b.mv
            &&& only(sc, sa, sb) ==> v == c.mv
            &&& a.available && !b.available && !c.available ==> v == a.mv
            &&& shape is Whole && (b.available || c.available) && !only(sa, sb, sc) && !only(
                sb,
                sa,
                sc,
            ) && !only(sc, sa, sb) ==> v.0 == median3(a.mv.0 as int, b.mv.0 as int, c.mv.0 as int)
                && v.1 == median3(a.mv.1 as int, b.mv.1 as int, c.mv.1 as int)
            &&& shape is Top16x8 && sb ==> v == b.mv
            &&& shape is Bottom16x8 && sa ==> v == a.mv
            &&& shape is Left8x16 && sa ==> v == a.mv
            &&& shape is Right8x16 && sc ==> v == c.mv
            &&& shape is Top16x8 && !sb ==> v == predicted_mv(PartitionShape::Whole, a, b, c, r)
            &&& shape is Bottom16x8 && !sa ==> v == predicted_mv(PartitionShape::Whole, a, b, c, r)
            &&& shape is Left8x16 && !sa ==> v == predicted_mv(PartitionShape::Whole, a, b, c, r)
            &&& shape is Right8x16 && !sc ==> v == predicted_mv(PartitionShape::Whole, a, b, c, r)
        }),
{
}

/// The halves of a macroblock know where they are.
pub proof fn law_halves_have_their_shapes()
    ensures
        shape_of(partition_rects(SliceKind::P, 1).0) == PartitionShape::Top16x8,
        shape_of(partition_rects(SliceKind::P, 1).1) == PartitionShape::Bottom16x8,
        shape_of(partition_rects(SliceKind::P, 2).0) == PartitionShape::Left8x16,
        shape_of(partition_rects(SliceKind::P, 2).1) == PartitionShape::Right8x16,
        shape_of((0, 0, 3, 3)) == PartitionShape::Whole,
        shape_of((0, 0, 1, 1)) == PartitionShape::Whole,
{
}

/// A block that predicts from an entry of a list.
pub open spec fn uses_entry(m: MvInfo, list: int, r: i8) -> bool {
    &&& m.mb_available
    &&& list == 0 ==> (m.pred == Some(PartPred::L0) || m.pred == Some(PartPred::Bi)) && m.ref_idx.l0
        == r
    &&& list == 1 ==> (m.pred == Some(PartPred::L1) || m.pred == Some(PartPred::Bi)) && m.ref_idx.l1
        == r
}

/// The vector that a block stores for a list.
pub open spec fn stored_vector(m: MvInfo, list: int) -> Mv {
    if list == 0 {
        m.mv.l0
    } else {
        m.mv.l1
    }
}

/// The block above and to the right of a rectangle of blocks, or where that one is
/// not decoded yet, the one above and to the left.
pub open spec fn upper_corner(g: Grids, x: int, right: int, y: int) -> MvInfo {
    if g.mv_at(right + 1, y - 1).mb_available {
        g.mv_at(right + 1, y - 1)
    } else {
        g.mv_at(x - 1, y - 1)
    }
}

/// A vector is the difference that was read, added to the prediction from the
/// blocks around: where just one of the block on the left, the one above and the
/// one at the upper corner predicts from the same entry of the list, that is the
/// prediction; where all three stand still, so is it.
pub proof fn law_vectors_add_to_the_prediction(
    g: Grids,
    x: int,
    right: int,
    y: int,
    list: int,
    r: i8,
    d: Mv,
)
    requires
        list == 0 || list == 1,
        r >= 0,
    ensures
        ({
            let (a, b, c) = (g.mv_at(x - 1, y), g.mv_at(x, y - 1), upper_corner(g, x, right, y));
            let (ua, ub, uc) = (
                uses_entry(a, list, r),
                uses_entry(b, list, r),
                uses_entry(c, list, r),
            );
            let v = vector(g, PartitionShape::Whole, x, right, y, list, r, d);
            let sum = |p: Mv|
                -0x8000 <= p.0 + d.0 <= 0x7fff && -0x8000 <= p.1 + d.1 <= 0x7fff ==> v.0 == p.0 + d.0
                    && v.1 == p.1 + d.1;
            let known = a.mb_available && b.mb_available && c.mb_available;
            &&& known && only(ua, ub, uc) ==> sum(stored_vector(a, list))
            &&& known && only(ub, ua, uc) ==> sum(stored_vector(b, list))
            &&& known && only(uc, ua, ub) ==> sum(stored_vector(c, list))
        }),
{
}

/// A skipped macroblock of a P slice stands still where the block on its left or
/// the one above is missing, or is itself a still one from the first reference;
/// otherwise it moves as a whole macroblock from the first reference would.
pub proof fn law_skipped_macroblocks(a: Neighbour, b: Neighbour, c: Neighbour)
    ensures
        !a.available || !b.available ==> skip_mv(a, b, c) == (0i16, 0i16),
        a.ref_idx == 0 && a.mv == (0i16, 0i16) ==> skip_mv(a, b, c) == (0i16, 0i16),
        b.ref_idx == 0 && b.mv == (0i16, 0i16) ==> skip_mv(a, b, c) == (0i16, 0i16),
        a.available && b.available && !(a.ref_idx == 0 && a.mv == (0i16, 0i16)) && !(b.ref_idx == 0
            && b.mv == (0i16, 0i16)) ==> skip_mv(a, b, c) == predicted_mv(
            PartitionShape::Whole,
            a,
            b,
            c,
            0,
        ),
{
}

/// Every block of a skipped macroblock of a P slice predicts from the first entry
/// of list 0 alone, by one vector; no other block changes.
pub proof fn law_skipped_macroblocks_move_as_one(
    g: Grids,
    mb_x: int,
    mb_y: int,
    x: int,
    y: int,
)
    requires
        g.whole(),
        mb_inside(mb_x, mb_y, g.wide, g.high),
    ensures
        ({
            let h = with_skip_motion(g, mb_x, mb_y, false, true, None);
            let m = h.mv_at(x, y);
            let inside = 4 * mb_x <= x < 4 * mb_x + 4 && 4 * mb_y <= y < 4 * mb_y + 4;
            &&& !inside ==> m == g.mv_at(x, y)
            &&& inside ==> {
                &&& m.mb_available && m.direct_or_skip
                &&& m.pred == Some(PartPred::L0)
                &&& m.ref_idx.l0 == 0 && m.ref_idx.l1 == -1
                &&& m.mv.l0 == h.mv_at(4 * mb_x, 4 * mb_y).mv.l0 && m.mv.l1 == (0i16, 0i16)
                &&& m.mvd == (Lists { l0: (0i16, 0i16), l1: (0i16, 0i16) })
                &&& mb_x == 0 || mb_y == 0 ==> m.mv.l0 == (0i16, 0i16)
            }
        }),
{
    let mv = skip_mv(
        g.mv_at(4 * mb_x - 1, 4 * mb_y).neighbour(0),
        g.mv_at(4 * mb_x, 4 * mb_y - 1).neighbour(0),
        corner_neighbour(g, 4 * mb_x, 4 * mb_x + 3, 4 * mb_y).neighbour(0),
    );
    law_partition_covers_its_rectangle(g, mb_x, mb_y, whole(), skip_motion(mv), x, y);
    law_partition_covers_its_rectangle(
        g,
        mb_x,
        mb_y,
        whole(),
        skip_motion(mv),
        4 * mb_x,
        4 * mb_y,
    );
}

/// The blocks of an intra macroblock are decoded but predict from no picture.
pub proof fn law_intra_macroblocks_have_no_motion(g: Grids, mb_x: int, mb_y: int, x: int, y: int)
    requires
        g.whole(),
        mb_inside(mb_x, mb_y, g.wide, g.high),
        4 * mb_x <= x < 4 * mb_x + 4,
        4 * mb_y <= y < 4 * mb_y + 4,
    ensures
        ({
            let m = with_rect(g, mb_x, mb_y, whole(), intra_motion()).mv_at(x, y);
            &&& m.mb_available && !m.direct_or_skip
            &&& m.pred is None
            &&& m.ref_idx == (Lists { l0: -1i8, l1: -1i8 })
            &&& m.mv == (Lists { l0: (0i16, 0i16), l1: (0i16, 0i16) })
            &&& m.mvd == (Lists { l0: (0i16, 0i16), l1: (0i16, 0i16) })
        }),
{
    law_partition_covers_its_rectangle(g, mb_x, mb_y, whole(), intra_motion(), x, y);
}

/// A block that does not predict from a list has no reference in it, and one that is
/// not decoded none at all; otherwise it has what it stores.
pub proof fn law_blocks_have_the_references_they_use(m: MvInfo, list: int)
    requires
        list == 0 || list == 1,
        m.mb_available,
    ensures
        ({
            let n = m.neighbour(list);
            let used = m.pred == Some(PartPred::Bi) || (list == 0 && m.pred == Some(PartPred::L0))
                || (list == 1 && m.pred == Some(PartPred::L1));
            &&& n.available
            &&& used && list == 0 ==> n.ref_idx == m.ref_idx.l0 && n.mv == m.mv.l0
            &&& used && list == 1 ==> n.ref_idx == m.ref_idx.l1 && n.mv == m.mv.l1
            &&& !used ==> n.ref_idx == -1 && n.mv == (0i16, 0i16)
        }),
{
}

// ---------------------------------------------------------------- intra modes
/// The modes that a block's own is predicted from are those of the blocks on its
/// left and above it. At the edge of the picture, where one of these is missing,
/// both count as the average, number 2.
pub proof fn law_modes_come_from_left_and_above(g: Grids, cur_x: int, cur_y: int, blk: int)
    requires
        0 <= blk < 16,
        mb_inside(cur_x, cur_y, g.wide, g.high),
        4 * cur_x + 4 <= i32::MAX,
        4 * cur_y + 4 <= i32::MAX,
    ensures
        ({
            let (x, y) = (4 * cur_x + blk_pos(blk).0, 4 * cur_y + blk_pos(blk).1);
            let (bx, by) = blk_pos(blk);
            let known_left = bx > 0 || g.mb_at(cur_x - 1, cur_y) is Some;
            let known_above = by > 0 || g.mb_at(cur_x, cur_y - 1) is Some;
            let got = neighbour_modes(g, cur_x, cur_y, blk);
            &&& !(known_left && known_above) ==> got == (2u8, 2u8)
            &&& known_left && known_above ==> {
                &&& g.mode_at(x - 1, y) matches Some(m) ==> got.0 == m
                &&& g.mode_at(x - 1, y) is None ==> got.0 == 2
                &&& g.mode_at(x, y - 1) matches Some(m) ==> got.1 == m
                &&& g.mode_at(x, y - 1) is None ==> got.1 == 2
            }
        }),
{
    let (bx, by) = blk_pos(blk);
    let (x, y) = (4 * cur_x + bx, 4 * cur_y + by);
    assert(0 <= bx < 4 && 0 <= by < 4);
    assert(x / 4 == cur_x && y / 4 == cur_y);
    if bx > 0 {
        assert((x - 1) / 4 == cur_x);
    } else {
        assert((x - 1) / 4 == cur_x - 1);
    }
    if by > 0 {
        assert((y - 1) / 4 == cur_y);
    } else {
        assert((y - 1) / 4 == cur_y - 1);
    }
}

} // verus!
