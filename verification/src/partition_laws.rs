//! What is kept of the parts that a macroblock is cut into, and of the macroblocks
//! of a slice.
use vstd::prelude::*;
use crate::direct::{direct_params, joint_reference};
use crate::error::Error;
use crate::grids::{
    law_motion_read_after_write, law_read_after_write, mb_inside, no_motion, CabacMbInfo, Grids,
    Lists, Mv, MvInfo,
};
use crate::inter::{
    law_partition_covers_its_rectangle, one_partition, two_mvd_from, two_partitions,
    two_ref_idx_from, unread, vector, with_rect, PartMotion, Syntax, TwoParts,
};
use crate::mb_cabac::{cabac_raw, CabacState};
use crate::mb_residual::no_residual;
use crate::mb_type::{PartPred, Rect};
use crate::motion::PartitionShape;
use crate::motion_laws::{only, stored_vector, uses_entry};
use crate::slice::{coded_summary, skipped_summary, Stats, Summary};
use crate::slice_cabac::{cabac_skip, cabac_slice_from, cabac_step, CabacSlice};
use crate::slice_cavlc::SliceEnv;
use crate::sub_mb::{
    parts_from, quad_uses, quad_x, quad_y, sub_mvd_from, sub_ref_idx_from, with_owners,
    with_quadrant_ref, with_vector, SubMb,
};

verus! {

// --------------------------------------------------------------------- halves
/// Whether a block lies in a rectangle of a macroblock.
pub open spec fn lies_in(x: int, y: int, mb_x: int, mb_y: int, r: Rect) -> bool {
    r.0 <= x - 4 * mb_x <= r.2 && r.1 <= y - 4 * mb_y <= r.3
}

/// A block that was predicted by its own motion data.
pub open spec fn read_as(m: MvInfo, pred: PartPred) -> bool {
    m.mb_available && !m.direct_or_skip && m.pred == Some(pred)
}

proof fn lemma_rect(g: Grids, mb_x: int, mb_y: int, r: Rect, v: MvInfo, x: int, y: int)
    requires
        g.whole(),
        mb_inside(mb_x, mb_y, g.wide, g.high),
        crate::inter::rect_fits(r),
    ensures
        with_rect(g, mb_x, mb_y, r, v).whole(),
        with_rect(g, mb_x, mb_y, r, v).wide == g.wide,
        with_rect(g, mb_x, mb_y, r, v).high == g.high,
        with_rect(g, mb_x, mb_y, r, v).mv_at(x, y) == (if lies_in(x, y, mb_x, mb_y, r) {
            v
        } else {
            g.mv_at(x, y)
        }),
{
    law_partition_covers_its_rectangle(g, mb_x, mb_y, r, v, x, y);
    lemma_filled(
        g,
        4 * mb_x + r.0,
        4 * mb_x + r.2,
        4 * mb_y + r.3,
        4 * mb_x + r.0,
        4 * mb_y + r.1,
        v,
    );
}

proof fn lemma_filled(g: Grids, x0: int, x1: int, y1: int, x: int, y: int, v: MvInfo)
    requires
        g.whole(),
        0 <= x0 <= x,
        x1 < 4 * g.wide,
        0 <= y,
        y1 < 4 * g.high,
    ensures
        crate::inter::filled(g, x0, x1, y1, x, y, v).whole(),
        crate::inter::filled(g, x0, x1, y1, x, y, v).wide == g.wide,
        crate::inter::filled(g, x0, x1, y1, x, y, v).high == g.high,
    decreases y1 - y + 1, x1 - x + 1,
{
    if y > y1 {
    } else if x > x1 {
        lemma_filled(g, x0, x1, y1, x0, y + 1, v);
    } else {
        lemma_written(g, x, y, v, x, y);
        lemma_filled(g.with_mv(x, y, v), x0, x1, y1, x + 1, y, v);
    }
}

proof fn lemma_written(g: Grids, x: int, y: int, v: MvInfo, rx: int, ry: int)
    requires
        g.whole(),
        0 <= x < 4 * g.wide,
        0 <= y < 4 * g.high,
    ensures
        g.with_mv(x, y, v).whole(),
        g.with_mv(x, y, v).mv_at(rx, ry) == (if rx == x && ry == y {
            v
        } else {
            g.mv_at(rx, ry)
        }),
{
    law_motion_read_after_write(g, x, y, v, rx, ry);
    reveal(Grids::sized);
    assert((4 * g.wide) * (4 * g.high) == 16 * (g.wide * g.high)) by (nonlinear_arith);
    law_read_after_write(g.mv, x, y, rx, ry, 4 * g.wide, 4 * g.high, v, no_motion());
}

#[verifier::spinoff_prover]
#[verifier::rlimit(40)]
proof fn lemma_half_indices(
    t: Syntax,
    g: Grids,
    parts: Lists<PartMotion>,
    n: Lists<u32>,
    mb_x: int,
    mb_y: int,
    two: TwoParts,
    k: int,
    p: int,
    x: int,
    y: int,
)
    requires
        g.whole(),
        mb_inside(mb_x, mb_y, g.wide, g.high),
        two.fits(),
        0 <= k <= 4,
        p == 0 || p == 1,
        lies_in(x, y, mb_x, mb_y, two.rects.at(p)),
        !lies_in(x, y, mb_x, mb_y, two.rects.at(1 - p)),
        k > p ==> g.mv_at(x, y) == parts.at(p).stored(two.preds.at(p)),
    ensures
        two_ref_idx_from(t, g, parts, n, mb_x, mb_y, two, k) matches Ok((h, q, _)) ==> {
            &&& h.whole() && h.wide == g.wide && h.high == g.high
            &&& h.mv_at(x, y) == q.at(p).stored(two.preds.at(p))
            &&& q.at(p).mvd == parts.at(p).mvd && q.at(p).mv == parts.at(p).mv
        },
    decreases 4 - k,
{
    if k < 4 {
        let (list, i) = (k / 2, k % 2);
        let (pred, r) = (two.preds.at(i), two.rects.at(i));
        let left = g.mv_at(4 * mb_x + r.0 - 1, 4 * mb_y + r.1);
        let above = g.mv_at(4 * mb_x + r.0, 4 * mb_y + r.1 - 1);
        if let Ok((v, t1)) = crate::inter::optional_ref_idx(
            t,
            left,
            above,
            list,
            pred.uses(list),
            n.at(list) as int,
        ) {
            let m = PartMotion { ref_idx: parts.at(i).ref_idx.with(list, v), ..parts.at(i) };
            let g1 = with_rect(g, mb_x, mb_y, r, m.stored(pred));
            lemma_rect(g, mb_x, mb_y, r, m.stored(pred), x, y);
            lemma_half_indices(t1, g1, parts.with(i, m), n, mb_x, mb_y, two, k + 1, p, x, y);
        }
    }
}

#[verifier::spinoff_prover]
#[verifier::rlimit(40)]
proof fn lemma_half_vectors(
    t: Syntax,
    g: Grids,
    parts: Lists<PartMotion>,
    mb_x: int,
    mb_y: int,
    two: TwoParts,
    k: int,
    p: int,
    x: int,
    y: int,
    x2: int,
    y2: int,
)
    requires
        g.whole(),
        mb_inside(mb_x, mb_y, g.wide, g.high),
        two.fits(),
        0 <= k <= 4,
        p == 0 || p == 1,
        lies_in(x, y, mb_x, mb_y, two.rects.at(p)),
        !lies_in(x, y, mb_x, mb_y, two.rects.at(1 - p)),
        lies_in(x2, y2, mb_x, mb_y, two.rects.at(p)),
        !lies_in(x2, y2, mb_x, mb_y, two.rects.at(1 - p)),
        g.mv_at(x, y) == parts.at(p).stored(two.preds.at(p)),
        g.mv_at(x2, y2) == g.mv_at(x, y),
    ensures
        two_mvd_from(t, g, parts, mb_x, mb_y, two, k) matches Ok((h, _)) ==> {
            let m = h.mv_at(x, y);
            &&& h.mv_at(x2, y2) == m
            &&& read_as(m, two.preds.at(p))
            &&& m.ref_idx == parts.at(p).ref_idx
            &&& !two.preds.at(p).uses(0) ==> m.mvd.l0 == parts.at(p).mvd.l0 && m.mv.l0
                == parts.at(p).mv.l0
            &&& !two.preds.at(p).uses(1) ==> m.mvd.l1 == parts.at(p).mvd.l1 && m.mv.l1
                == parts.at(p).mv.l1
        },
    decreases 4 - k,
{
    if k < 4 {
        let (list, i) = (k / 2, k % 2);
        let (pred, r) = (two.preds.at(i), two.rects.at(i));
        if !pred.uses(list) {
            lemma_half_vectors(t, g, parts, mb_x, mb_y, two, k + 1, p, x, y, x2, y2);
        } else {
            let left = g.mv_at(4 * mb_x + r.0 - 1, 4 * mb_y + r.1);
            let above = g.mv_at(4 * mb_x + r.0, 4 * mb_y + r.1 - 1);
            if let Ok((d, t1)) = t.mvd(left, above, list) {
                let before = parts.at(i);
                let v = crate::inter::optional_vector(
                    g,
                    mb_x,
                    mb_y,
                    r,
                    list,
                    true,
                    before.ref_idx.at(list),
                    d,
                );
                let m = PartMotion {
                    ref_idx: before.ref_idx,
                    mvd: before.mvd.with(list, d),
                    mv: before.mv.with(list, v),
                };
                let g1 = with_rect(g, mb_x, mb_y, r, m.stored(pred));
                lemma_rect(g, mb_x, mb_y, r, m.stored(pred), x, y);
                lemma_rect(g, mb_x, mb_y, r, m.stored(pred), x2, y2);
                lemma_half_vectors(
                    t1,
                    g1,
                    parts.with(i, m),
                    mb_x,
                    mb_y,
                    two,
                    k + 1,
                    p,
                    x,
                    y,
                    x2,
                    y2,
                );
            }
        }
    }
}

/// The two halves of a macroblock are kept apart: every block of a half holds the
/// same motion, from the lists of that half, and a list that it does not use has no
/// vector.
pub proof fn law_halves_are_kept(
    t: Syntax,
    g: Grids,
    n: Lists<u32>,
    mb_x: int,
    mb_y: int,
    two: TwoParts,
    p: int,
    x: int,
    y: int,
    x2: int,
    y2: int,
)
    requires
        g.whole(),
        mb_inside(mb_x, mb_y, g.wide, g.high),
        two.fits(),
        p == 0 || p == 1,
        lies_in(x, y, mb_x, mb_y, two.rects.at(p)),
        !lies_in(x, y, mb_x, mb_y, two.rects.at(1 - p)),
        lies_in(x2, y2, mb_x, mb_y, two.rects.at(p)),
        !lies_in(x2, y2, mb_x, mb_y, two.rects.at(1 - p)),
    ensures
        two_partitions(t, g, n, mb_x, mb_y, two) matches Ok((h, _)) ==> {
            let m = h.mv_at(x, y);
            let pred = if p == 0 {
                two.preds.l0
            } else {
                two.preds.l1
            };
            &&& h.mv_at(x2, y2) == m
            &&& m.mb_available && !m.direct_or_skip && m.pred == Some(pred)
            &&& pred == PartPred::L0 ==> m.mvd.l1 == (0i16, 0i16) && m.mv.l1 == (0i16, 0i16)
            &&& pred == PartPred::L1 ==> m.mvd.l0 == (0i16, 0i16) && m.mv.l0 == (0i16, 0i16)
        },
{
    let start = Lists { l0: unread(), l1: unread() };
    lemma_half_indices(t, g, start, n, mb_x, mb_y, two, 0, p, x, y);
    lemma_half_indices(t, g, start, n, mb_x, mb_y, two, 0, p, x2, y2);
    if let Ok((g1, parts, t1)) = two_ref_idx_from(t, g, start, n, mb_x, mb_y, two, 0) {
        lemma_half_vectors(t1, g1, parts, mb_x, mb_y, two, 0, p, x, y, x2, y2);
    }
}

/// The `n`-th vector difference from a position on, as it is written in bits.
pub open spec fn difference_at(data: Seq<u8>, pos: int, n: int) -> Result<(Mv, int), Error>
    decreases n,
{
    match Syntax::Bits(data, pos).mvd(no_motion(), no_motion(), 0) {
        Err(e) => Err(e),
        Ok((d, Syntax::Bits(_, end))) => if n <= 0 {
            Ok((d, end))
        } else {
            difference_at(data, end, n - 1)
        },
        Ok((d, _)) => Ok((d, pos)),
    }
}

/// The `n`-th reference index from a position on, of at most `max`.
pub open spec fn index_at(data: Seq<u8>, pos: int, max: int, n: int) -> Result<(i8, int), Error>
    decreases n,
{
    match Syntax::Bits(data, pos).ref_idx(no_motion(), no_motion(), 0, max) {
        Err(e) => Err(e),
        Ok((v, Syntax::Bits(_, end))) => if n <= 0 {
            Ok((v, end))
        } else {
            index_at(data, end, max, n - 1)
        },
        Ok((v, _)) => Ok((v, pos)),
    }
}

/// Motion from both lists as it is written: an index for each list, and then a vector
/// difference for each.
pub open spec fn written_as_a_whole(data: Seq<u8>, pos: int, n: int, m: MvInfo, t: Syntax) -> bool {
    &&& index_at(data, pos, n, 0) matches Ok((v, _)) && v == m.ref_idx.l0
    &&& index_at(data, pos, n, 1) matches Ok((v, p)) && v == m.ref_idx.l1 && (difference_at(
        data,
        p,
        0,
    ) matches Ok((d, _)) && d == m.mvd.l0) && (difference_at(data, p, 1) matches Ok((d, end)) && d
        == m.mvd.l1 && t == Syntax::Bits(data, end))
}

/// A macroblock that is predicted as a whole from both lists reads the index of the
/// first and of the second list, and then the vector differences in that order.
pub proof fn law_whole_macroblocks_read_indices_first(
    data: Seq<u8>,
    pos: int,
    g: Grids,
    n: u32,
    mb_x: int,
    mb_y: int,
)
    requires
        g.whole(),
        mb_inside(mb_x, mb_y, g.wide, g.high),
        n > 0,
    ensures
        one_partition(
            Syntax::Bits(data, pos),
            g,
            Lists { l0: n, l1: n },
            mb_x,
            mb_y,
            PartPred::Bi,
            (0, 0, 3, 3),
        ) matches Ok((h, t)) ==> {
            written_as_a_whole(data, pos, n as int, h.mv_at(4 * mb_x, 4 * mb_y), t)
        },
{
    reveal_with_fuel(index_at, 3);
    reveal_with_fuel(difference_at, 3);
    let r: Rect = (0, 0, 3, 3);
    let both = Lists { l0: n, l1: n };
    if let Ok((h, t)) = one_partition(
        Syntax::Bits(data, pos),
        g,
        both,
        mb_x,
        mb_y,
        PartPred::Bi,
        r,
    ) {
        let v = choose|v: MvInfo| #[trigger]
            with_rect(g, mb_x, mb_y, r, v) == h && written_as_a_whole(data, pos, n as int, v, t);
        assert(exists|v: MvInfo| #[trigger]
            with_rect(g, mb_x, mb_y, r, v) == h && written_as_a_whole(data, pos, n as int, v, t));
        lemma_rect(g, mb_x, mb_y, r, v, 4 * mb_x, 4 * mb_y);
    }
}

#[verifier::spinoff_prover]
#[verifier::rlimit(60)]
proof fn lemma_half_differences(
    data: Seq<u8>,
    pos: int,
    g: Grids,
    parts: Lists<PartMotion>,
    mb_x: int,
    mb_y: int,
    two: TwoParts,
    k: int,
    p: int,
    x: int,
    y: int,
)
    requires
        g.whole(),
        mb_inside(mb_x, mb_y, g.wide, g.high),
        two.fits(),
        two.preds.l0 == PartPred::Bi,
        two.preds.l1 == PartPred::Bi,
        0 <= k <= 4,
        p == 0 || p == 1,
        lies_in(x, y, mb_x, mb_y, two.rects.at(p)),
        !lies_in(x, y, mb_x, mb_y, two.rects.at(1 - p)),
        g.mv_at(x, y) == parts.at(p).stored(PartPred::Bi),
    ensures
        two_mvd_from(Syntax::Bits(data, pos), g, parts, mb_x, mb_y, two, k) matches Ok((h, t)) ==> {
            let m = h.mv_at(x, y);
            &&& k > p ==> m.mvd.l0 == parts.at(p).mvd.l0
            &&& k <= p ==> (difference_at(data, pos, p - k) matches Ok((d, _)) && d == m.mvd.l0)
            &&& k > 2 + p ==> m.mvd.l1 == parts.at(p).mvd.l1
            &&& k <= 2 + p ==> (difference_at(data, pos, 2 + p - k) matches Ok((d, _)) && d
                == m.mvd.l1)
            &&& k < 4 ==> (difference_at(data, pos, 3 - k) matches Ok((_, end)) && t
                == Syntax::Bits(data, end))
            &&& k == 4 ==> t == Syntax::Bits(data, pos)
        },
    decreases 4 - k,
{
    if k < 4 {
        let (list, i) = (k / 2, k % 2);
        let (pred, r) = (two.preds.at(i), two.rects.at(i));
        let left = g.mv_at(4 * mb_x + r.0 - 1, 4 * mb_y + r.1);
        let above = g.mv_at(4 * mb_x + r.0, 4 * mb_y + r.1 - 1);
        let t = Syntax::Bits(data, pos);
        assert(t.mvd(left, above, list) == t.mvd(no_motion(), no_motion(), 0));
        if let Ok((d, t1)) = t.mvd(left, above, list) {
            let end = t1->Bits_1;
            assert(t1 == Syntax::Bits(data, end));
            let before = parts.at(i);
            let v = crate::inter::optional_vector(
                g,
                mb_x,
                mb_y,
                r,
                list,
                true,
                before.ref_idx.at(list),
                d,
            );
            let m = PartMotion {
                ref_idx: before.ref_idx,
                mvd: before.mvd.with(list, d),
                mv: before.mv.with(list, v),
            };
            let g1 = with_rect(g, mb_x, mb_y, r, m.stored(pred));
            lemma_rect(g, mb_x, mb_y, r, m.stored(pred), x, y);
            lemma_half_differences(
                data,
                end,
                g1,
                parts.with(i, m),
                mb_x,
                mb_y,
                two,
                k + 1,
                p,
                x,
                y,
            );
            assert(difference_at(data, pos, 0) == Ok::<(Mv, int), Error>((d, end)));
            assert forall|n: int| n > 0 implies #[trigger] difference_at(data, pos, n)
                == difference_at(data, end, n - 1) by {}
        }
    }
}

/// Two halves from both lists read, where each list has just one picture, their vector
/// differences list by list, and in each list half by half.
pub proof fn law_halves_read_list_by_list(
    data: Seq<u8>,
    pos: int,
    g: Grids,
    mb_x: int,
    mb_y: int,
    two: TwoParts,
    p: int,
    x: int,
    y: int,
)
    requires
        g.whole(),
        mb_inside(mb_x, mb_y, g.wide, g.high),
        two.fits(),
        two.preds.l0 == PartPred::Bi,
        two.preds.l1 == PartPred::Bi,
        p == 0 || p == 1,
        lies_in(x, y, mb_x, mb_y, two.rects.at(p)),
        !lies_in(x, y, mb_x, mb_y, two.rects.at(1 - p)),
    ensures
        two_partitions(
            Syntax::Bits(data, pos),
            g,
            Lists { l0: 0u32, l1: 0u32 },
            mb_x,
            mb_y,
            two,
        ) matches Ok((h, t)) ==> {
            let m = h.mv_at(x, y);
            &&& difference_at(data, pos, p) matches Ok((d, _)) && d == m.mvd.l0
            &&& difference_at(data, pos, 2 + p) matches Ok((d, _)) && d == m.mvd.l1
            &&& difference_at(data, pos, 3) matches Ok((_, end)) && t == Syntax::Bits(data, end)
        },
{
    let start = Lists { l0: unread(), l1: unread() };
    let none = Lists { l0: 0u32, l1: 0u32 };
    let t = Syntax::Bits(data, pos);
    lemma_half_indices(t, g, start, none, mb_x, mb_y, two, 0, p, x, y);
    lemma_no_indices(t, g, start, mb_x, mb_y, two, 0);
    if let Ok((g1, parts, t1)) = two_ref_idx_from(t, g, start, none, mb_x, mb_y, two, 0) {
        lemma_half_differences(data, pos, g1, parts, mb_x, mb_y, two, 0, p, x, y);
    }
}

proof fn lemma_no_indices(
    t: Syntax,
    g: Grids,
    parts: Lists<PartMotion>,
    mb_x: int,
    mb_y: int,
    two: TwoParts,
    k: int,
)
    requires
        0 <= k <= 4,
    ensures
        two_ref_idx_from(t, g, parts, Lists { l0: 0u32, l1: 0u32 }, mb_x, mb_y, two, k) matches Ok(
            (_, _, rest),
        ) ==> rest == t,
    decreases 4 - k,
{
    if k < 4 {
        let (list, i) = (k / 2, k % 2);
        let (pred, r) = (two.preds.at(i), two.rects.at(i));
        let m = PartMotion { ref_idx: parts.at(i).ref_idx.with(list, 0), ..parts.at(i) };
        let g1 = with_rect(g, mb_x, mb_y, r, m.stored(pred));
        lemma_no_indices(t, g1, parts.with(i, m), mb_x, mb_y, two, k + 1);
    }
}

// ------------------------------------------------------------------ quadrants
/// Whether a block lies in the two by two blocks from a corner on.
pub open spec fn in_quadrant(rx: int, ry: int, x: int, y: int) -> bool {
    x <= rx < x + 2 && y <= ry < y + 2
}

spec fn part_of(m: MvInfo, sub: SubMb, list: int, ref_idx: i8) -> bool {
    m.mb_available && m.pred == sub.pred && m.ref_idx.at(list) == ref_idx
}

#[verifier::spinoff_prover]
#[verifier::rlimit(40)]
proof fn lemma_parts(
    t: Syntax,
    g: Grids,
    sub: SubMb,
    x: int,
    y: int,
    list: int,
    ref_idx: i8,
    done: Seq<MvInfo>,
    rx: int,
    ry: int,
)
    requires
        g.whole(),
        0 <= x,
        x + 1 < 4 * g.wide,
        0 <= y,
        y + 1 < 4 * g.high,
        sub.divides(),
        sub.pred is Some,
        list == 0 || list == 1,
        done.len() <= sub.num_sub,
        forall|s: int| 0 <= s < done.len() ==> part_of(#[trigger] done[s], sub, list, ref_idx),
        !in_quadrant(rx, ry, x, y),
    ensures
        parts_from(t, g, sub, x, y, list, ref_idx, done) matches Ok((h, parts, _)) ==> {
            &&& h.whole() && h.wide == g.wide && h.high == g.high
            &&& parts.len() == sub.num_sub
            &&& forall|s: int|
                0 <= s < parts.len() ==> part_of(#[trigger] parts[s], sub, list, ref_idx)
            &&& h.mv_at(rx, ry) == g.mv_at(rx, ry)
        },
    decreases sub.num_sub - done.len(),
{
    let s = done.len() as int;
    if s < sub.num_sub {
        let (px, py) = (x + sub.corner(s).0, y + sub.corner(s).1);
        if let Ok((d, t1)) = t.mvd(g.mv_at(px - 1, py), g.mv_at(px, py - 1), list) {
            let v = vector(
                g,
                PartitionShape::Whole,
                px,
                x + sub.right(s),
                py,
                list,
                ref_idx,
                d,
            );
            let info = with_vector(g.mv_at(px, py), sub.pred->0, list, ref_idx, d, v);
            lemma_written(g, px, py, info, rx, ry);
            lemma_parts(
                t1,
                g.with_mv(px, py, info),
                sub,
                x,
                y,
                list,
                ref_idx,
                done.push(info),
                rx,
                ry,
            );
        }
    }
}

proof fn lemma_owners(
    g: Grids,
    sub: SubMb,
    x: int,
    y: int,
    parts: Seq<MvInfo>,
    rx: int,
    ry: int,
)
    requires
        g.whole(),
        0 <= x,
        x + 1 < 4 * g.wide,
        0 <= y,
        y + 1 < 4 * g.high,
    ensures
        ({
            let h = with_owners(g, sub, x, y, parts);
            &&& h.whole() && h.wide == g.wide && h.high == g.high
            &&& h.mv_at(rx, ry) == (if in_quadrant(rx, ry, x, y) {
                parts[sub.owner(rx - x, ry - y)]
            } else {
                g.mv_at(rx, ry)
            })
        }),
{
    let p = |a: int, b: int| parts[sub.owner(a, b)];
    let g1 = g.with_mv(x, y, p(0, 0));
    let g2 = g1.with_mv(x + 1, y, p(1, 0));
    let g3 = g2.with_mv(x, y + 1, p(0, 1));
    lemma_written(g, x, y, p(0, 0), rx, ry);
    lemma_written(g1, x + 1, y, p(1, 0), rx, ry);
    lemma_written(g2, x, y + 1, p(0, 1), rx, ry);
    lemma_written(g3, x + 1, y + 1, p(1, 1), rx, ry);
}

/// Whether a list that a quadrant uses is still to be read from the `k`-th step on.
spec fn comes(sub: SubMb, i: int, k: int) -> bool {
    (k <= i && quad_uses(sub, 0)) || (k <= 4 + i && quad_uses(sub, 1))
}

#[verifier::spinoff_prover]
#[verifier::rlimit(60)]
proof fn lemma_quadrants(
    t: Syntax,
    g: Grids,
    subs: Seq<SubMb>,
    mb_x: int,
    mb_y: int,
    k: int,
    i: int,
    a: (int, int),
    b: (int, int),
)
    requires
        g.whole(),
        mb_inside(mb_x, mb_y, g.wide, g.high),
        subs.len() == 4,
        forall|j: int| 0 <= j < 4 ==> (#[trigger] subs[j]).divides(),
        0 <= k <= 8,
        0 <= i < 4,
        0 <= a.0 < 2 && 0 <= a.1 < 2,
        0 <= b.0 < 2 && 0 <= b.1 < 2,
        subs[i].owner(a.0, a.1) == subs[i].owner(b.0, b.1),
    ensures
        sub_mvd_from(t, g, subs, mb_x, mb_y, k) matches Ok((h, _)) ==> {
            let (x, y) = (quad_x(mb_x, i), quad_y(mb_y, i));
            let m = h.mv_at(x + a.0, y + a.1);
            &&& comes(subs[i], i, k) ==> m.mb_available && m.pred == subs[i].pred && m == h.mv_at(
                x + b.0,
                y + b.1,
            )
            &&& !comes(subs[i], i, k) ==> m == g.mv_at(x + a.0, y + a.1) && h.mv_at(
                x + b.0,
                y + b.1,
            ) == g.mv_at(x + b.0, y + b.1)
        },
    decreases 8 - k,
{
    if k < 8 {
        let (list, j) = (k / 4, k % 4);
        let (x, y) = (quad_x(mb_x, j), quad_y(mb_y, j));
        let (ix, iy) = (quad_x(mb_x, i), quad_y(mb_y, i));
        if !quad_uses(subs[j], list) {
            lemma_quadrants(t, g, subs, mb_x, mb_y, k + 1, i, a, b);
        } else {
            let r = g.mv_at(x, y).ref_idx.at(list);
            let none = Seq::<MvInfo>::empty();
            assert(subs[j].divides());
            let (ax, ay) = (ix + a.0, iy + a.1);
            let (bx, by) = (ix + b.0, iy + b.1);
            if i != j {
                lemma_parts(t, g, subs[j], x, y, list, r, none, ax, ay);
                lemma_parts(t, g, subs[j], x, y, list, r, none, bx, by);
            } else {
                lemma_parts(t, g, subs[j], x, y, list, r, none, x - 1, y);
            }
            if let Ok((g1, parts, t1)) = parts_from(t, g, subs[j], x, y, list, r, none) {
                let g2 = with_owners(g1, subs[j], x, y, parts);
                lemma_owners(g1, subs[j], x, y, parts, ax, ay);
                lemma_owners(g1, subs[j], x, y, parts, bx, by);
                lemma_quadrants(t1, g2, subs, mb_x, mb_y, k + 1, i, a, b);
                if i == j {
                    crate::sub_mb::law_parts_cover_the_quadrant(subs[i], a.0, a.1, 0);
                    let s = subs[i].owner(a.0, a.1);
                    assert(part_of(parts[s], subs[i], list, r));
                }
            }
        }
    }
}

/// The quadrants of a macroblock are kept apart: every block of a quadrant is
/// predicted from the lists of that quadrant, and blocks of the same part of it hold
/// the same motion; a direct quadrant keeps what it has.
pub proof fn law_quadrants_are_kept(
    t: Syntax,
    g: Grids,
    subs: Seq<SubMb>,
    mb_x: int,
    mb_y: int,
    i: int,
    a: (int, int),
    b: (int, int),
)
    requires
        g.whole(),
        mb_inside(mb_x, mb_y, g.wide, g.high),
        subs.len() == 4,
        forall|j: int| 0 <= j < 4 ==> (#[trigger] subs[j]).divides(),
        0 <= i < 4,
        0 <= a.0 < 2 && 0 <= a.1 < 2,
        0 <= b.0 < 2 && 0 <= b.1 < 2,
        subs[i].owner(a.0, a.1) == subs[i].owner(b.0, b.1),
    ensures
        sub_mvd_from(t, g, subs, mb_x, mb_y, 0) matches Ok((h, _)) ==> {
            let (x, y) = (4 * mb_x + 2 * (i % 2), 4 * mb_y + 2 * (i / 2));
            let m = h.mv_at(x + a.0, y + a.1);
            &&& subs[i].pred is Some ==> m.mb_available && m.pred == subs[i].pred && m == h.mv_at(
                x + b.0,
                y + b.1,
            )
            &&& subs[i].pred is None ==> m == g.mv_at(x + a.0, y + a.1)
        },
{
    lemma_quadrants(t, g, subs, mb_x, mb_y, 0, i, a, b);
}

/// Quadrants of a P slice whose references are inferred read no index; neither do
/// quadrants where each list has just one picture.
pub proof fn law_inferred_references_read_nothing(
    t: Syntax,
    g: Grids,
    subs: Seq<SubMb>,
    n: Lists<u32>,
    inferred: bool,
    mb_x: int,
    mb_y: int,
    k: int,
)
    requires
        subs.len() == 4,
        0 <= k <= 8,
        (inferred && forall|i: int|
            0 <= i < 4 ==> (#[trigger] subs[i]).pred == Some(PartPred::L0)) || (n.l0 == 0 && n.l1
            == 0),
    ensures
        sub_ref_idx_from(t, g, subs, n, inferred, mb_x, mb_y, k) matches Ok((_, rest)) && rest == t,
    decreases 8 - k,
{
    if k < 8 {
        let (list, i) = (k / 4, k % 4);
        let (x, y) = (quad_x(mb_x, i), quad_y(mb_y, i));
        if !quad_uses(subs[i], list) {
            law_inferred_references_read_nothing(t, g, subs, n, inferred, mb_x, mb_y, k + 1);
        } else {
            let g1 = with_quadrant_ref(g, x, y, subs[i].pred->0, list, 0);
            law_inferred_references_read_nothing(t, g1, subs, n, inferred, mb_x, mb_y, k + 1);
        }
    }
}

/// The first quadrant of those that predict from list 0 reads its index first.
pub proof fn law_first_quadrant_reads_first(
    t: Syntax,
    g: Grids,
    subs: Seq<SubMb>,
    n: Lists<u32>,
    mb_x: int,
    mb_y: int,
)
    requires
        subs.len() == 4,
        subs[0].pred == Some(PartPred::L0) || subs[0].pred == Some(PartPred::Bi),
        n.l0 > 0,
    ensures
        ({
            let (x, y) = (4 * mb_x, 4 * mb_y);
            let read = t.ref_idx(g.mv_at(x - 1, y), g.mv_at(x, y - 1), 0, n.l0 as int);
            &&& read matches Ok((v, t1)) ==> sub_ref_idx_from(
                t,
                g,
                subs,
                n,
                false,
                mb_x,
                mb_y,
                0,
            ) == sub_ref_idx_from(
                t1,
                with_quadrant_ref(g, x, y, subs[0].pred->0, 0, v),
                subs,
                n,
                false,
                mb_x,
                mb_y,
                1,
            )
            &&& read is Err ==> sub_ref_idx_from(t, g, subs, n, false, mb_x, mb_y, 0) is Err
        }),
{
}

// --------------------------------------------------------------------- direct
/// A direct block moves as its neighbours do: where just one of three known ones
/// predicts from the reference that they share, as that one; where none predicts
/// from a list at all, not at all.
pub proof fn law_direct_vectors_are_the_neighbours(a: MvInfo, b: MvInfo, c: MvInfo, list: int)
    requires
        list == 0 || list == 1,
        a.mb_available,
        b.mb_available,
        c.mb_available,
    ensures
        ({
            let p = direct_params(a, b, c);
            let r = joint_reference(a, b, c, list);
            let v = if list == 0 {
                p.mv0
            } else {
                p.mv1
            };
            let (ua, ub, uc) = (
                uses_entry(a, list, r),
                uses_entry(b, list, r),
                uses_entry(c, list, r),
            );
            &&& list == 0 ==> p.l0_ref == r
            &&& list == 1 ==> p.l1_ref == r
            &&& r < 0 ==> v == (0i16, 0i16)
            &&& r >= 0 && only(ua, ub, uc) ==> v == stored_vector(a, list)
            &&& r >= 0 && only(ub, ua, uc) ==> v == stored_vector(b, list)
            &&& r >= 0 && only(uc, ua, ub) ==> v == stored_vector(c, list)
        }),
{
}

// --------------------------------------------------------------------- slices
/// What is listed of a skipped macroblock: where it stands, the quantiser as it was,
/// its motion, and no coefficients.
pub proof fn law_skipped_macroblocks_are_listed(x: u32, y: u32, qpy: int, motion: Seq<MvInfo>)
    requires
        0 <= qpy <= 51,
    ensures
        ({
            let m = skipped_summary(x, y, qpy, motion);
            &&& m.mb_x == x && m.mb_y == y && m.qpy == qpy && m.mv_blocks == motion
            &&& m.skipped && m.residual == no_residual()
            &&& !m.is_ipcm && !m.is_intra4x4 && !m.is_intra8x8 && !m.is_intra16x16
            &&& !m.transform_8x8
        }),
{
}

/// What is listed of a coded macroblock is what is known of it.
pub proof fn law_coded_macroblocks_are_listed(
    x: u32,
    y: u32,
    i: CabacMbInfo,
    qpy: int,
    out: crate::mb_residual::Residuals,
    motion: Seq<MvInfo>,
)
    requires
        0 <= qpy <= 51,
    ensures
        ({
            let m = coded_summary(x, y, Some(i), qpy, out, motion);
            &&& m.mb_x == x && m.mb_y == y && m.qpy == qpy && m.mv_blocks == motion
            &&& !m.skipped && m.residual == out
            &&& m.is_ipcm == i.is_ipcm && m.is_intra4x4 == i.is_intra4x4
            &&& m.is_intra8x8 == i.is_intra8x8 && m.is_intra16x16 == i.is_intra16x16
            &&& m.intra16x16_pred_mode == i.intra16x16_pred_mode
            &&& m.intra_chroma_pred_mode == i.intra_chroma_pred_mode
            &&& m.transform_8x8 == i.transform_8x8
        }),
{
}

/// A list of macroblocks grows by one each time, counts those that are skipped, and
/// remembers of the first what it was.
pub proof fn law_lists_of_macroblocks_grow(s: Stats, m: Summary, i: CabacMbInfo, first: bool)
    ensures
        ({
            let a = s.with_skipped(m, first);
            let b = s.with_coded(m, Some(i), first);
            &&& a.count == s.count + 1 && b.count == s.count + 1
            &&& a.skipped == s.skipped + 1 && b.skipped == s.skipped
            &&& a.macroblocks == s.macroblocks.push(m) && b.macroblocks == s.macroblocks.push(m)
            &&& first ==> a.first_cbp == Some((0u8, 0u8)) && b.first_cbp == Some(
                (i.cbp_luma, i.cbp_chroma),
            )
            &&& first ==> a.first_qpy == Some(m.qpy) && b.first_qpy == Some(m.qpy)
            &&& first && i.is_intra16x16 ==> b.first_mode16 == Some(i.intra16x16_pred_mode)
            &&& first && i.is_intra ==> b.first_chroma_mode == Some(i.intra_chroma_pred_mode)
            &&& !first ==> a.first_cbp == s.first_cbp && b.first_cbp == s.first_cbp && a.first_qpy
                == s.first_qpy && b.first_qpy == s.first_qpy && b.first_mode16 == s.first_mode16
                && b.first_chroma_mode == s.first_chroma_mode
        }),
{
}

/// A skipped macroblock goes on to the next address, keeps the quantiser and what is
/// still to be read, and is known as skipped from there on: with it no quantiser
/// difference was read.
pub proof fn law_skipping_keeps_the_input(s: CabacSlice, env: SliceEnv)
    ensures
        ({
            let r = cabac_skip(s, env);
            &&& r.addr == s.addr + 1
            &&& r.st.s == s.st.s
            &&& r.st.qpy == s.st.qpy
            &&& r.st.prev.available && r.st.prev.skipped
            &&& r.stats.skipped == s.stats.skipped + 1
            &&& r.stats.macroblocks.len() == s.stats.macroblocks.len() + 1
            &&& r.stats.macroblocks.last().skipped
        }),
{
}

/// Raw samples take 384 bytes of the input, and leave the quantiser as it was.
pub proof fn law_raw_macroblocks_are_passed(s: crate::bins::Source, st: CabacState, x: u32, y: u32)
    ensures
        ({
            let r = cabac_raw(s, st, x, y);
            &&& r.s == s.past_raw(384)
            &&& r.qpy == st.qpy
            &&& r.prev.available && r.prev.is_ipcm && !r.prev.skipped
        }),
{
}

/// A slice of arithmetic codes goes on with the next macroblock until the end is
/// coded or the picture is full.
pub proof fn law_slices_end_where_their_end_is_coded(
    s: CabacSlice,
    env: SliceEnv,
    pps: crate::headers::Pps,
    room: int,
    total: int,
)
    requires
        s.addr < total,
    ensures
        cabac_step(s, env, pps, room) matches Ok(s1) ==> {
            let (end, rest) = s1.st.s.terminate();
            let s2 = CabacSlice { st: CabacState { s: rest, ..s1.st }, ..s1 };
            &&& end ==> (cabac_slice_from(s, env, pps, room, total) matches Ok(r) && r == s2)
            &&& !end && s2.addr >= total ==> (cabac_slice_from(s, env, pps, room, total) matches Ok(
                r,
            ) && r == s2)
            &&& !end ==> cabac_slice_from(s, env, pps, room, total) == cabac_slice_from(
                s2,
                env,
                pps,
                room,
                total,
            )
        },
        cabac_step(s, env, pps, room) matches Err(e) ==> cabac_slice_from(
            s,
            env,
            pps,
            room,
            total,
        ) is Err,
{
    if let Ok(s1) = cabac_step(s, env, pps, room) {
        let (end, rest) = s1.st.s.terminate();
        let s2 = CabacSlice { st: CabacState { s: rest, ..s1.st }, ..s1 };
        reveal_with_fuel(cabac_slice_from, 2);
    }
}

} // verus!
