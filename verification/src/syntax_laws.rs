//! How syntax elements are read, and where what they say is kept.
use vstd::prelude::*;
use crate::bins::{ctx, CtxTable, Source};
use crate::bits::{bit_at, bits_value, more_data};
use crate::cabac_syntax::mvd_prefix_from;
use crate::cavlc_laws::{
    law_signed_numbers_round_trip, law_truncated_numbers_round_trip,
    law_unsigned_numbers_round_trip, written,
};
use crate::error::Error;
use crate::golomb::me;
use crate::grids::{
    blk_pos, law_read_after_write, mb_inside, mb_motion, CabacMbInfo, Counts, Grids, Lists, Mv,
    MvInfo,
};
use crate::inter::{law_partition_covers_its_rectangle, one_partition, rect_fits, with_rect, Syntax};
use crate::macroblock_laws::{chroma_place, luma_place};
use crate::mb_cabac::{
    cabac_mb_type, flag_inc, transform_flag, with_chroma_cleared, with_flags_cleared,
    with_luma_cleared,
};
use crate::mb_type::{PartPred, SliceKind};
use crate::neighbour_laws::read_motion;
use crate::prediction::{modes4_from, modes8_from, resolved_mode, whole, with_quadrant_mode};
use crate::slice_cabac::cabac_skip_flag;
use crate::slice_cavlc::{
    cavlc_coded, cavlc_run, cavlc_skip, cavlc_skips, cavlc_slice_from, CavlcSlice, SliceEnv,
};
use crate::sub_mb::{with_owners, SubMb};

verus! {

// ------------------------------------------------------------------- contexts
/// How many of two conditions hold.
pub open spec fn both(a: bool, b: bool) -> int {
    if a && b {
        2
    } else if a || b {
        1
    } else {
        0
    }
}

/// Two conditions as a number, the second of which counts twice.
pub open spec fn paired(a: bool, b: bool) -> int {
    if a && b {
        3
    } else if b {
        2
    } else if a {
        1
    } else {
        0
    }
}

/// A macroblock that is known, and of which something holds.
pub open spec fn known(mb: Option<CabacMbInfo>, holds: spec_fn(CabacMbInfo) -> bool) -> bool {
    mb matches Some(i) && holds(i)
}

/// The skip flag is read in the context of how many neighbours are known and not
/// skipped, from the table of its kind of slice; an intra slice has none.
pub proof fn law_skip_flags_are_read_by_their_neighbours(s: Source, g: Grids, x: int, y: int)
    ensures
        ({
            let coded = |i: CabacMbInfo| !i.skipped;
            let n = both(known(g.mb_at(x - 1, y), coded), known(g.mb_at(x, y - 1), coded));
            &&& cabac_skip_flag(s, g, SliceKind::P, x, y) == s.decide(ctx(CtxTable::SkipP, n))
            &&& cabac_skip_flag(s, g, SliceKind::B, x, y) == s.decide(ctx(CtxTable::SkipB, n))
            &&& cabac_skip_flag(s, g, SliceKind::I, x, y) == (false, s)
        }),
{
}

/// The transform size is read in the context of how many neighbours use the large
/// one.
pub proof fn law_transform_sizes_are_read_by_their_neighbours(s: Source, g: Grids, x: int, y: int)
    ensures
        ({
            let large = |i: CabacMbInfo| i.transform_8x8;
            let n = both(known(g.mb_at(x - 1, y), large), known(g.mb_at(x, y - 1), large));
            transform_flag(s, g, x, y) == s.decide(ctx(CtxTable::TransformSize8x8, n))
        }),
{
}

/// The type of a macroblock starts in the context of how many neighbours are of
/// another type than the likeliest; a 0 there means that likeliest type.
pub proof fn law_types_start_by_their_neighbours(s: Source, g: Grids, x: int, y: int)
    ensures
        ({
            let whole = |i: CabacMbInfo| !i.is_intra4x4 && !i.is_intra8x8;
            let n = both(known(g.mb_at(x - 1, y), whole), known(g.mb_at(x, y - 1), whole));
            let (b, s1) = s.decide(ctx(CtxTable::MbTypeI, n));
            &&& !b ==> cabac_mb_type(s, g, SliceKind::I, x, y) == (0int, s1)
            &&& b ==> cabac_mb_type(s, g, SliceKind::I, x, y).0 != 0
        }),
        ({
            let moved = |i: CabacMbInfo| !i.skipped && !i.is_b_direct16x16;
            let n = both(known(g.mb_at(x - 1, y), moved), known(g.mb_at(x, y - 1), moved));
            let (b, s1) = s.decide(ctx(CtxTable::MbTypeB, n));
            &&& !b ==> cabac_mb_type(s, g, SliceKind::B, x, y) == (0int, s1)
            &&& b ==> cabac_mb_type(s, g, SliceKind::B, x, y).0 != 0
        }),
{
}

/// Whether a neighbour counts for a coded-block flag: a missing one for intra
/// macroblocks, raw samples always, any other by its own flag.
pub open spec fn counts_as_coded(mb: Option<CabacMbInfo>, own: Option<bool>, intra: bool) -> bool {
    match mb {
        None => intra,
        Some(i) => i.is_ipcm || own == Some(true),
    }
}

/// A coded-block flag is read in the context of both neighbours, of which the one
/// above counts twice.
pub proof fn law_flags_are_read_by_their_neighbours(
    left_mb: Option<CabacMbInfo>,
    left: Option<bool>,
    above_mb: Option<CabacMbInfo>,
    above: Option<bool>,
    intra: bool,
)
    ensures
        flag_inc(left_mb, left, above_mb, above, intra) == paired(
            counts_as_coded(left_mb, left, intra),
            counts_as_coded(above_mb, above, intra),
        ),
{
}

/// A reference index starts in the context of both neighbours, of which the one
/// above counts twice: they count where they read an index behind the first.
pub proof fn law_reference_indices_start_by_their_neighbours(
    s: Source,
    left: MvInfo,
    above: MvInfo,
    list: int,
    n: int,
)
    requires
        list == 0 || list == 1,
    ensures
        ({
            let later = |m: MvInfo| read_motion(m, list) && m.ref_idx.at(list) > 0;
            let (b, s1) = s.decide(ctx(CtxTable::RefIdx, paired(later(left), later(above))));
            &&& !b ==> Syntax::Bins(s).ref_idx(left, above, list, n) == Ok::<(i8, Syntax), Error>(
                (0i8, Syntax::Bins(s1)),
            )
            &&& b ==> (Syntax::Bins(s).ref_idx(left, above, list, n) matches Ok((v, _)) && v >= 1)
        }),
{
    lemma_index_is_counted(s, 0, crate::cabac_syntax::ref_idx_term(left, list) + 2
        * crate::cabac_syntax::ref_idx_term(above, list));
    reveal_with_fuel(crate::cabac_syntax::ref_idx_from, 2);
    let inc = crate::cabac_syntax::ref_idx_term(left, list) + 2 * crate::cabac_syntax::ref_idx_term(
        above,
        list,
    );
    let (b, s1) = s.decide(ctx(CtxTable::RefIdx, inc));
    lemma_index_is_counted(s1, 1, inc);
}

proof fn lemma_index_is_counted(s: Source, n: int, inc: int)
    requires
        0 <= n <= 32,
    ensures
        n <= crate::cabac_syntax::ref_idx_from(s, n, inc).0 <= 32,
    decreases 32 - n,
{
    if n < 32 {
        let (b, s1) = crate::cabac_syntax::bit(
            s,
            CtxTable::RefIdx,
            crate::cabac_syntax::ref_idx_ctx(n, inc),
        );
        lemma_index_is_counted(s1, n + 1, inc);
    }
}

/// The size of a number.
pub open spec fn magnitude(v: int) -> int {
    if v < 0 {
        -v
    } else {
        v
    }
}

/// The context that a vector difference starts in: by the sizes of those that both
/// neighbours read, less than 3, up to 32, or more.
pub open spec fn by_size(sum: int) -> int {
    if sum <= 2 {
        0
    } else if sum <= 32 {
        1
    } else {
        2
    }
}

/// A vector difference is read across and then down, each component starting in the
/// context of the sizes of its neighbours'; a 0 there means that it is 0.
pub proof fn law_vector_differences_start_by_their_neighbours(
    s: Source,
    left: MvInfo,
    above: MvInfo,
    list: int,
)
    requires
        list == 0 || list == 1,
    ensures
        ({
            let dx = |m: MvInfo|
                if read_motion(m, list) {
                    magnitude(m.mvd.at(list).0 as int)
                } else {
                    0
                };
            let dy = |m: MvInfo|
                if read_motion(m, list) {
                    magnitude(m.mvd.at(list).1 as int)
                } else {
                    0
                };
            let (b0, s0) = s.decide(ctx(CtxTable::MvdComp0, by_size(dx(left) + dx(above))));
            let (b1, s1) = s0.decide(ctx(CtxTable::MvdComp1, by_size(dy(left) + dy(above))));
            !b0 && !b1 ==> Syntax::Bins(s).mvd(left, above, list) == Ok::<(Mv, Syntax), Error>(
                ((0i16, 0i16), Syntax::Bins(s1)),
            )
        }),
{
    reveal_with_fuel(mvd_prefix_from, 2);
}

// ----------------------------------------------------------------------- bits
/// A vector difference is written as two signed numbers, across and then down.
pub proof fn law_vector_differences_are_two_numbers(
    data: Seq<u8>,
    pos: int,
    n: int,
    x: int,
    m: int,
    y: int,
    left: MvInfo,
    above: MvInfo,
    list: int,
)
    requires
        -8192 <= x <= 8191,
        -8192 <= y <= 8191,
        written(data, pos, n, if x > 0 { 2 * x - 1 } else { -2 * x }),
        written(data, pos + 2 * n + 1, m, if y > 0 { 2 * y - 1 } else { -2 * y }),
    ensures
        Syntax::Bits(data, pos).mvd(left, above, list) == Ok::<(Mv, Syntax), Error>(
            ((x as i16, y as i16), Syntax::Bits(data, pos + 2 * n + 2 * m + 2)),
        ),
{
    law_signed_numbers_round_trip(data, pos, n, x, -8192, 8191);
    law_signed_numbers_round_trip(data, pos + 2 * n + 1, m, y, -8192, 8191);
}

/// A reference index is written as any number where there are more than two, and
/// as a single bit where there are two.
pub proof fn law_reference_indices_are_numbers(
    data: Seq<u8>,
    pos: int,
    n: int,
    v: int,
    max: int,
    left: MvInfo,
    above: MvInfo,
    list: int,
)
    requires
        0 <= pos < 8 * data.len(),
        0 <= v <= max <= 31,
    ensures
        1 < max && written(data, pos, n, v) ==> Syntax::Bits(data, pos).ref_idx(
            left,
            above,
            list,
            max,
        ) == Ok::<(i8, Syntax), Error>((v as i8, Syntax::Bits(data, pos + 2 * n + 1))),
        max == 1 && bit_at(data, pos) == 1 - v ==> Syntax::Bits(data, pos).ref_idx(
            left,
            above,
            list,
            max,
        ) == Ok::<(i8, Syntax), Error>((v as i8, Syntax::Bits(data, pos + 1))),
{
    law_truncated_numbers_round_trip(data, pos, n, v, max);
}

/// An intra mode is one bit where it is as predicted, and three more where not, the
/// highest first.
pub proof fn law_intra_modes_are_bits(data: Seq<u8>, pos: int)
    requires
        0 <= pos,
        pos + 4 <= 8 * data.len(),
    ensures
        bit_at(data, pos) == 1 ==> Syntax::Bits(data, pos).pred_mode() == Ok::<
            ((bool, u8), Syntax),
            Error,
        >(((true, 0u8), Syntax::Bits(data, pos + 1))),
        bit_at(data, pos) == 0 ==> Syntax::Bits(data, pos).pred_mode() == Ok::<
            ((bool, u8), Syntax),
            Error,
        >(
            (
                (
                    false,
                    (4 * bit_at(data, pos + 1) + 2 * bit_at(data, pos + 2) + bit_at(
                        data,
                        pos + 3,
                    )) as u8,
                ),
                Syntax::Bits(data, pos + 4),
            ),
        ),
{
    reveal_with_fuel(bits_value, 4);
    crate::bits::lemma_bit_at_is_a_bit(data, pos);
}

/// The codes of the patterns from 0 to 47 in intra macroblocks.
pub open spec fn intra_pattern_codes() -> Seq<int> {
    seq![
        3, 29, 30, 17, 31, 18, 37, 8, 32, 38, 19, 9, 20, 10, 11, 2, 16, 33, 34, 21, 35, 22, 39, 4, 36,
        40, 23, 5, 24, 6, 7, 1, 41, 42, 43, 25, 44, 26, 46, 12, 45, 47, 27, 13, 28, 14, 15, 0,
    ]
}

/// The codes of the patterns from 0 to 47 in inter macroblocks.
pub open spec fn inter_pattern_codes() -> Seq<int> {
    seq![
        0, 2, 3, 7, 4, 8, 17, 13, 5, 18, 9, 14, 10, 15, 16, 11, 1, 32, 33, 36, 34, 37, 44, 40, 35, 45,
        38, 41, 39, 42, 43, 19, 6, 24, 25, 20, 26, 21, 46, 28, 27, 47, 22, 29, 23, 30, 31, 12,
    ]
}

/// Every pattern is read back from its code.
#[verifier::rlimit(40)]
pub proof fn law_patterns_round_trip(data: Seq<u8>, pos: int, n: int, pattern: int, intra: bool)
    requires
        0 <= pattern < 48,
        written(
            data,
            pos,
            n,
            if intra {
                intra_pattern_codes()[pattern]
            } else {
                inter_pattern_codes()[pattern]
            },
        ),
    ensures
        me(data, pos, intra) == Ok::<(int, int), Error>((pattern, pos + 2 * n + 1)),
{
    let code = if intra {
        intra_pattern_codes()[pattern]
    } else {
        inter_pattern_codes()[pattern]
    };
    law_unsigned_numbers_round_trip(data, pos, n, code, 47);
}

// ---------------------------------------------------------------------- modes
proof fn lemma_mode(g: Grids, x: int, y: int, v: u8, rx: int, ry: int)
    requires
        g.whole(),
        0 <= x < 4 * g.wide,
        0 <= y < 4 * g.high,
    ensures
        g.with_mode(x, y, v).whole(),
        g.with_mode(x, y, v).mode_at(rx, ry) == (if rx == x && ry == y {
            Some(v)
        } else {
            g.mode_at(rx, ry)
        }),
{
    reveal(Grids::sized);
    assert((4 * g.wide) * (4 * g.high) == 16 * (g.wide * g.high)) by (nonlinear_arith);
    law_read_after_write(g.modes, x, y, rx, ry, 4 * g.wide, 4 * g.high, Some(v), None);
}

proof fn lemma_modes4(t: Syntax, g: Grids, mb_x: int, mb_y: int, modes: Seq<u8>, b: int)
    requires
        g.whole(),
        mb_inside(mb_x, mb_y, g.wide, g.high),
        modes.len() <= 16,
        0 <= b < 16,
        ({
            let (x, y) = luma_place(mb_x, mb_y, b);
            b < modes.len() ==> g.mode_at(x, y) == Some(modes[b])
        }),
    ensures
        modes4_from(t, g, mb_x, mb_y, modes) matches Ok((m, h, _)) ==> {
            let (x, y) = luma_place(mb_x, mb_y, b);
            &&& m.len() == 16
            &&& h.mode_at(x, y) == Some(m[b])
            &&& b < modes.len() ==> m[b] == modes[b]
        },
    decreases 16 - modes.len(),
{
    let blk = modes.len() as int;
    if blk < 16 {
        if let Ok((read, t1)) = t.pred_mode() {
            let mode = resolved_mode(g, mb_x, mb_y, blk, read);
            let (x, y) = (4 * mb_x + blk_pos(blk).0, 4 * mb_y + blk_pos(blk).1);
            let (bx, by) = luma_place(mb_x, mb_y, b);
            assert(luma_place(mb_x, mb_y, blk) == (x, y));
            assert(b != blk ==> (bx, by) != (x, y));
            lemma_mode(g, x, y, mode, bx, by);
            lemma_modes4(t1, g.with_mode(x, y, mode), mb_x, mb_y, modes.push(mode), b);
        }
    }
}

proof fn lemma_modes8(t: Syntax, g: Grids, mb_x: int, mb_y: int, modes: Seq<u8>, b: int)
    requires
        g.whole(),
        mb_inside(mb_x, mb_y, g.wide, g.high),
        modes.len() <= 4,
        0 <= b < 16,
        ({
            let (x, y) = luma_place(mb_x, mb_y, b);
            b / 4 < modes.len() ==> g.mode_at(x, y) == Some(modes[b / 4])
        }),
    ensures
        modes8_from(t, g, mb_x, mb_y, modes) matches Ok((m, h, _)) ==> {
            let (x, y) = luma_place(mb_x, mb_y, b);
            &&& m.len() == 4
            &&& h.mode_at(x, y) == Some(m[b / 4])
        },
    decreases 4 - modes.len(),
{
    let quad = modes.len() as int;
    if quad < 4 {
        if let Ok((read, t1)) = t.pred_mode() {
            let mode = resolved_mode(g, mb_x, mb_y, 4 * quad, read);
            let (x, y) = (4 * mb_x + blk_pos(4 * quad).0, 4 * mb_y + blk_pos(4 * quad).1);
            let (bx, by) = luma_place(mb_x, mb_y, b);
            let g1 = g.with_mode(x, y, mode);
            let g2 = g1.with_mode(x + 1, y, mode);
            let g3 = g2.with_mode(x, y + 1, mode);
            lemma_mode(g, x, y, mode, bx, by);
            lemma_mode(g1, x + 1, y, mode, bx, by);
            lemma_mode(g2, x, y + 1, mode, bx, by);
            lemma_mode(g3, x + 1, y + 1, mode, bx, by);
            lemma_modes8(
                t1,
                with_quadrant_mode(g, mb_x, mb_y, quad, mode),
                mb_x,
                mb_y,
                modes.push(mode),
                b,
            );
        }
    }
}

/// The modes of an intra macroblock are kept where their blocks stand, those of 8x8
/// blocks at all four places.
pub proof fn law_modes_are_kept_at_their_blocks(t: Syntax, g: Grids, mb_x: int, mb_y: int, b: int)
    requires
        g.whole(),
        mb_inside(mb_x, mb_y, g.wide, g.high),
        0 <= b < 16,
    ensures
        ({
            let (x, y) = luma_place(mb_x, mb_y, b);
            &&& modes4_from(t, g, mb_x, mb_y, Seq::<u8>::empty()) matches Ok((m, h, _)) ==> m.len()
                == 16 && h.mode_at(x, y) == Some(m[b])
            &&& modes8_from(t, g, mb_x, mb_y, Seq::<u8>::empty()) matches Ok((m, h, _)) ==> m.len()
                == 4 && h.mode_at(x, y) == Some(m[b / 4])
        }),
{
    lemma_modes4(t, g, mb_x, mb_y, Seq::<u8>::empty(), b);
    lemma_modes8(t, g, mb_x, mb_y, Seq::<u8>::empty(), b);
}

/// The first mode of a macroblock is what it reads: the predicted mode, or the one
/// that its number means.
pub proof fn law_first_mode_is_read_first(t: Syntax, g: Grids, mb_x: int, mb_y: int)
    ensures
        t.pred_mode() matches Ok((read, t1)) ==> {
            let m = resolved_mode(g, mb_x, mb_y, 0, read);
            &&& modes4_from(t, g, mb_x, mb_y, Seq::<u8>::empty()) == modes4_from(
                t1,
                g.with_mode(4 * mb_x, 4 * mb_y, m),
                mb_x,
                mb_y,
                seq![m],
            )
        },
        t.pred_mode() matches Err(e) ==> modes4_from(t, g, mb_x, mb_y, Seq::<u8>::empty()) is Err,
{
    assert forall|m: u8| #[trigger] Seq::<u8>::empty().push(m) == seq![m] by {
        assert(Seq::<u8>::empty().push(m) =~= seq![m]);
    }
}

/// A mode that is as predicted is the smaller of those of the blocks on the left and
/// above.
pub proof fn law_predicted_modes_are_the_smaller(g: Grids, mb_x: int, mb_y: int, blk: int, v: u8)
    ensures
        ({
            let (a, b) = crate::grids::neighbour_modes(g, mb_x, mb_y, blk);
            let m = resolved_mode(g, mb_x, mb_y, blk, (true, v));
            m <= a && m <= b && (m == a || m == b)
        }),
{
}

// ----------------------------------------------------------------- partitions
/// A partition that covers its rectangle is kept in every block of it, with what was
/// read; nothing else changes. A list that it does not use has no vector.
pub proof fn law_partitions_are_kept(
    t: Syntax,
    g: Grids,
    n: Lists<u32>,
    mb_x: int,
    mb_y: int,
    pred: PartPred,
    r: (u32, u32, u32, u32),
    x: int,
    y: int,
)
    requires
        g.whole(),
        mb_inside(mb_x, mb_y, g.wide, g.high),
        rect_fits(r),
    ensures
        one_partition(t, g, n, mb_x, mb_y, pred, r) matches Ok((h, _)) ==> {
            let m = h.mv_at(x, y);
            let inside = r.0 <= x - 4 * mb_x <= r.2 && r.1 <= y - 4 * mb_y <= r.3;
            &&& !inside ==> m == g.mv_at(x, y)
            &&& inside ==> {
                &&& m == h.mv_at(4 * mb_x + r.0, 4 * mb_y + r.1)
                &&& m.mb_available && !m.direct_or_skip && m.pred == Some(pred)
                &&& pred == PartPred::L0 ==> m.mv.l1 == (0i16, 0i16) && m.mvd.l1 == (0i16, 0i16)
                &&& pred == PartPred::L1 ==> m.mv.l0 == (0i16, 0i16) && m.mvd.l0 == (0i16, 0i16)
                &&& n.l0 == 0 ==> m.ref_idx.l0 == 0
                &&& n.l1 == 0 ==> m.ref_idx.l1 == 0
            }
        },
{
    if let Ok((h, _)) = one_partition(t, g, n, mb_x, mb_y, pred, r) {
        assert(exists|v: MvInfo|
            #[trigger] with_rect(g, mb_x, mb_y, r, v) == h && v.mb_available && !v.direct_or_skip
                && v.pred == Some(pred) && (pred == PartPred::L0 ==> v.mv.l1 == (0i16, 0i16)
                && v.mvd.l1 == (0i16, 0i16)) && (pred == PartPred::L1 ==> v.mv.l0 == (0i16, 0i16)
                && v.mvd.l0 == (0i16, 0i16)) && (n.l0 == 0 ==> v.ref_idx.l0 == 0) && (n.l1 == 0
                ==> v.ref_idx.l1 == 0));
        let v = choose|v: MvInfo|
            #[trigger] with_rect(g, mb_x, mb_y, r, v) == h && v.mb_available && !v.direct_or_skip
                && v.pred == Some(pred) && (pred == PartPred::L0 ==> v.mv.l1 == (0i16, 0i16)
                && v.mvd.l1 == (0i16, 0i16)) && (pred == PartPred::L1 ==> v.mv.l0 == (0i16, 0i16)
                && v.mvd.l0 == (0i16, 0i16)) && (n.l0 == 0 ==> v.ref_idx.l0 == 0) && (n.l1 == 0
                ==> v.ref_idx.l1 == 0);
        law_partition_covers_its_rectangle(g, mb_x, mb_y, r, v, x, y);
        law_partition_covers_its_rectangle(g, mb_x, mb_y, r, v, 4 * mb_x + r.0, 4 * mb_y + r.1);
    }
}

/// The motion of a macroblock is listed row by row.
pub proof fn law_motion_is_listed_by_rows(g: Grids, mb_x: int, mb_y: int, bx: int, by: int)
    requires
        0 <= bx < 4,
        0 <= by < 4,
    ensures
        mb_motion(g, mb_x, mb_y).len() == 16,
        mb_motion(g, mb_x, mb_y)[4 * by + bx] == g.mv_at(4 * mb_x + bx, 4 * mb_y + by),
{
}

/// The parts of a quadrant are handed out to its blocks: by rows where they lie above
/// each other, by columns where side by side, and one each where there are four.
pub proof fn law_parts_go_to_their_blocks(
    g: Grids,
    sub: SubMb,
    x: int,
    y: int,
    parts: Seq<MvInfo>,
    dx: int,
    dy: int,
)
    requires
        g.whole(),
        0 <= x,
        x + 1 < 4 * g.wide,
        0 <= y,
        y + 1 < 4 * g.high,
        0 <= dx < 2,
        0 <= dy < 2,
        sub.divides(),
        parts.len() == sub.num_sub,
    ensures
        ({
            let m = with_owners(g, sub, x, y, parts).mv_at(x + dx, y + dy);
            &&& sub.num_sub == 1 ==> m == parts[0]
            &&& sub.num_sub == 4 ==> m == parts[2 * dy + dx]
            &&& sub.num_sub == 2 && (sub.code == 1 || sub.code == 4 || sub.code == 6 || sub.code
                == 8) ==> m == parts[dy]
            &&& sub.num_sub == 2 && (sub.code == 2 || sub.code == 5 || sub.code == 7 || sub.code
                == 9) ==> m == parts[dx]
        }),
{
    let p = |a: int, b: int| parts[sub.owner(a, b)];
    let g1 = g.with_mv(x, y, p(0, 0));
    let g2 = g1.with_mv(x + 1, y, p(1, 0));
    let g3 = g2.with_mv(x, y + 1, p(0, 1));
    lemma_motion_written(g, x, y, p(0, 0), x + dx, y + dy);
    lemma_motion_written(g1, x + 1, y, p(1, 0), x + dx, y + dy);
    lemma_motion_written(g2, x, y + 1, p(0, 1), x + dx, y + dy);
    lemma_motion_written(g3, x + 1, y + 1, p(1, 1), x + dx, y + dy);
}

proof fn lemma_motion_written(g: Grids, x: int, y: int, v: MvInfo, rx: int, ry: int)
    requires
        g.whole(),
        0 <= x < 4 * g.wide,
        0 <= y < 4 * g.high,
    ensures
        g.with_mv(x, y, v).whole(),
        g.with_mv(x, y, v).mv_at(rx, ry) == (if rx == x && ry == y {
            v
        } else {
            g.mv_at(rx, ry)
        }),
{
    crate::grids::law_motion_read_after_write(g, x, y, v, rx, ry);
    reveal(Grids::sized);
    assert((4 * g.wide) * (4 * g.high) == 16 * (g.wide * g.high)) by (nonlinear_arith);
    law_read_after_write(
        g.mv,
        x,
        y,
        rx,
        ry,
        4 * g.wide,
        4 * g.high,
        v,
        crate::grids::no_motion(),
    );
}

/// A part reaches to the right as far as its blocks do.
pub proof fn law_parts_reach_as_far_as_their_blocks(sub: SubMb, s: int)
    requires
        sub.divides(),
        0 <= s < sub.num_sub,
    ensures
        sub.right(s) == (if sub.owner(1, sub.corner(s).1) == s {
            1int
        } else {
            0
        }),
{
}

// --------------------------------------------------------------------- slices
/// A run of skipped macroblocks goes on by as many as it counts; each is listed as
/// skipped, and none reads anything or changes the quantiser.
pub proof fn law_skip_runs_go_on(s: CavlcSlice, env: SliceEnv, run: int)
    requires
        0 <= run,
    ensures
        ({
            let r = cavlc_skips(s, env, run);
            &&& r.addr == s.addr + run
            &&& r.stats.count == s.stats.count + run
            &&& r.stats.skipped == s.stats.skipped + run
            &&& r.stats.macroblocks.len() == s.stats.macroblocks.len() + run
            &&& forall|i: int|
                0 <= i < s.stats.macroblocks.len() ==> #[trigger] r.stats.macroblocks[i]
                    == s.stats.macroblocks[i]
            &&& forall|i: int|
                s.stats.macroblocks.len() <= i < r.stats.macroblocks.len() ==> (
                #[trigger] r.stats.macroblocks[i]).skipped
            &&& r.st.pos == s.st.pos
            &&& r.st.qpy == s.st.qpy
            &&& r.st.room == s.st.room
        }),
    decreases run,
{
    if run > 0 {
        law_skip_runs_go_on(cavlc_skip(s, env), env, run - 1);
    }
}

/// A slice of variable-length codes ends with the picture or where its data does.
pub proof fn law_slices_end_with_their_data(data: Seq<u8>, s: CavlcSlice, env: SliceEnv, total: int)
    requires
        0 <= s.addr,
    ensures
        cavlc_slice_from(data, s, env, total) matches Ok(r) ==> r.addr >= total || !more_data(
            data,
            r.st.pos,
        ),
    decreases total - s.addr,
{
    if s.addr < total {
        if let Ok((run, s1)) = cavlc_run(data, s, env, total) {
            if !(env.header.kind is I || env.header.kind is Si) {
                if let Ok((n, end)) = crate::golomb::ue(data, s.st.pos, total) {
                    let s0 = CavlcSlice {
                        st: crate::mb_cavlc::CavlcState { pos: end, ..s.st },
                        ..s
                    };
                    lemma_run_is_not_negative(data, s.st.pos, total);
                    law_skip_runs_go_on(s0, env, n);
                }
            }
            assert(s1.addr >= s.addr);
            if s1.addr >= total {
            } else if let Ok(s2) = cavlc_coded(data, s1, env) {
                law_slices_end_with_their_data(data, s2, env, total);
            }
        }
    }
}

/// The macroblocks of an intra slice are all coded, one after another while there is
/// data.
pub proof fn law_intra_slices_skip_nothing(data: Seq<u8>, s: CavlcSlice, env: SliceEnv, total: int)
    requires
        0 <= s.addr < total,
        env.header.kind == SliceKind::I,
    ensures
        cavlc_coded(data, s, env) matches Ok(s2) ==> {
            &&& !more_data(data, s2.st.pos) ==> (cavlc_slice_from(data, s, env, total) matches Ok(r)
                && r == s2)
            &&& more_data(data, s2.st.pos) ==> cavlc_slice_from(data, s, env, total)
                == cavlc_slice_from(data, s2, env, total)
        },
        cavlc_coded(data, s, env) matches Err(e) ==> (cavlc_slice_from(data, s, env, total) matches Err(
            f,
        ) && f == e),
{
}

/// In other slices a run comes before each coded macroblock. A run of none is followed
/// by one in any case; behind any other the slice may be over.
pub proof fn law_runs_come_before_coded_macroblocks(
    data: Seq<u8>,
    s: CavlcSlice,
    env: SliceEnv,
    total: int,
    n: int,
    run: int,
)
    requires
        0 <= s.addr < total,
        env.header.kind == SliceKind::P || env.header.kind == SliceKind::B,
        0 <= run <= total,
        written(data, s.st.pos, n, run),
    ensures
        ({
            let at = CavlcSlice {
                st: crate::mb_cavlc::CavlcState { pos: s.st.pos + 2 * n + 1, ..s.st },
                ..s
            };
            let s1 = cavlc_skips(at, env, run);
            &&& run > 0 && (s1.addr >= total || !more_data(data, s1.st.pos)) ==> (cavlc_slice_from(
                data,
                s,
                env,
                total,
            ) matches Ok(r) && r == s1)
            &&& run == 0 || (s1.addr < total && more_data(data, s1.st.pos)) ==> (cavlc_coded(
                data,
                s1,
                env,
            ) matches Ok(s2) ==> {
                &&& !more_data(data, s2.st.pos) ==> (cavlc_slice_from(data, s, env, total) matches Ok(
                    r,
                ) && r == s2)
                &&& more_data(data, s2.st.pos) ==> cavlc_slice_from(data, s, env, total)
                    == cavlc_slice_from(data, s2, env, total)
            })
        }),
{
    law_unsigned_numbers_round_trip(data, s.st.pos, n, run, total);
    law_skip_runs_go_on(
        CavlcSlice {
            st: crate::mb_cavlc::CavlcState { pos: s.st.pos + 2 * n + 1, ..s.st },
            ..s
        },
        env,
        run,
    );
}

proof fn lemma_run_is_not_negative(data: Seq<u8>, pos: int, max: int)
    ensures
        crate::golomb::ue(data, pos, max) matches Ok((v, _)) ==> v >= 0,
{
    if let Ok(k) = crate::golomb::leading_zeros(data, pos, 0) {
        vstd::arithmetic::power2::lemma_pow2_pos(k as nat);
    }
}

// ------------------------------------------------------------ without residual
proof fn lemma_zero_luma(c: Counts, mb_x: int, mb_y: int, from: int, b: int)
    requires
        c.sized(),
        mb_inside(mb_x, mb_y, c.wide, c.high),
        0 <= from <= 16,
        0 <= b < 16,
    ensures
        ({
            let r = c.with_zero_luma(mb_x, mb_y, from);
            let (x, y) = luma_place(mb_x, mb_y, b);
            &&& r.sized() && r.wide == c.wide && r.high == c.high
            &&& r.luma_at(x, y) == (if b >= from {
                Some(0u8)
            } else {
                c.luma_at(x, y)
            })
        }),
    decreases 16 - from,
{
    if from < 16 {
        let (x, y) = luma_place(mb_x, mb_y, from);
        assert((x, y) == (4 * mb_x + blk_pos(from).0, 4 * mb_y + blk_pos(from).1));
        let (bx, by) = luma_place(mb_x, mb_y, b);
        assert(b != from ==> (bx, by) != (x, y));
        assert((4 * c.wide) * (4 * c.high) == 16 * (c.wide * c.high)) by (nonlinear_arith);
        law_read_after_write(c.luma, x, y, bx, by, 4 * c.wide, 4 * c.high, Some(0u8), None);
        lemma_zero_luma(c.with_luma(x, y, 0), mb_x, mb_y, from + 1, b);
    }
}

proof fn lemma_zero_chroma(c: Counts, mb_x: int, mb_y: int, from: int, b: int)
    requires
        c.sized(),
        mb_inside(mb_x, mb_y, c.wide, c.high),
        0 <= from <= 8,
        0 <= b < 8,
    ensures
        ({
            let r = c.with_zero_chroma(mb_x, mb_y, from);
            let (x, y) = chroma_place(mb_x, mb_y, b);
            &&& r.luma == c.luma && r.wide == c.wide && r.high == c.high
            &&& r.chroma_at(b / 4, x, y) == (if b >= from {
                Some(0u8)
            } else {
                c.chroma_at(b / 4, x, y)
            })
        }),
    decreases 8 - from,
{
    if from < 8 {
        let (x, y) = chroma_place(mb_x, mb_y, from);
        assert((x, y) == (
            2 * mb_x + blk_pos(from % 4).0 % 2,
            2 * mb_y + blk_pos(from % 4).1 % 2,
        ));
        let (bx, by) = chroma_place(mb_x, mb_y, b);
        assert(b != from && b / 4 == from / 4 ==> (bx, by) != (x, y));
        assert((2 * c.wide) * (2 * c.high) == 4 * (c.wide * c.high)) by (nonlinear_arith);
        law_read_after_write(c.cb, x, y, bx, by, 2 * c.wide, 2 * c.high, Some(0u8), None);
        law_read_after_write(c.cr, x, y, bx, by, 2 * c.wide, 2 * c.high, Some(0u8), None);
        lemma_zero_chroma(c.with_chroma(from / 4, x, y, 0), mb_x, mb_y, from + 1, b);
    }
}

/// A macroblock without coefficients leaves a count of 0 at each of its blocks.
pub proof fn law_empty_macroblocks_count_nothing(c: Counts, mb_x: int, mb_y: int, b: int, k: int)
    requires
        c.sized(),
        mb_inside(mb_x, mb_y, c.wide, c.high),
        0 <= b < 16,
        0 <= k < 8,
    ensures
        ({
            let r = c.with_zero_mb(mb_x, mb_y);
            let (x, y) = luma_place(mb_x, mb_y, b);
            let (cx, cy) = chroma_place(mb_x, mb_y, k);
            r.luma_at(x, y) == Some(0u8) && r.chroma_at(k / 4, cx, cy) == Some(0u8)
        }),
{
    lemma_zero_luma(c, mb_x, mb_y, 0, b);
    lemma_zero_chroma(c.with_zero_luma(mb_x, mb_y, 0), mb_x, mb_y, 0, k);
}

proof fn lemma_luma_cleared(g: Grids, mb_x: int, mb_y: int, from: int, b: int)
    requires
        g.whole(),
        mb_inside(mb_x, mb_y, g.wide, g.high),
        0 <= from <= 16,
        0 <= b < 16,
    ensures
        ({
            let r = with_luma_cleared(g, mb_x, mb_y, from);
            let (x, y) = luma_place(mb_x, mb_y, b);
            &&& r.whole() && r.wide == g.wide && r.high == g.high
            &&& r.luma_flag(x, y) == (if b >= from {
                Some(false)
            } else {
                g.luma_flag(x, y)
            })
        }),
    decreases 16 - from,
{
    if from < 16 {
        let (x, y) = luma_place(mb_x, mb_y, from);
        assert((x, y) == (4 * mb_x + blk_pos(from).0, 4 * mb_y + blk_pos(from).1));
        let (bx, by) = luma_place(mb_x, mb_y, b);
        assert(b != from ==> (bx, by) != (x, y));
        reveal(Grids::sized);
        assert((4 * g.wide) * (4 * g.high) == 16 * (g.wide * g.high)) by (nonlinear_arith);
        law_read_after_write(g.cbf_luma, x, y, bx, by, 4 * g.wide, 4 * g.high, Some(false), None);
        lemma_luma_cleared(g.with_luma_flag(x, y, false), mb_x, mb_y, from + 1, b);
    }
}

proof fn lemma_chroma_cleared(g: Grids, mb_x: int, mb_y: int, from: int, b: int)
    requires
        g.whole(),
        mb_inside(mb_x, mb_y, g.wide, g.high),
        0 <= from <= 8,
        0 <= b < 8,
    ensures
        ({
            let r = with_chroma_cleared(g, mb_x, mb_y, from);
            let (x, y) = chroma_place(mb_x, mb_y, b);
            &&& r.cbf_luma == g.cbf_luma && r.wide == g.wide && r.high == g.high
            &&& r.chroma_flag(b / 4, x, y) == (if b >= from {
                Some(false)
            } else {
                g.chroma_flag(b / 4, x, y)
            })
        }),
    decreases 8 - from,
{
    if from < 8 {
        let (x, y) = chroma_place(mb_x, mb_y, from);
        assert((x, y) == (
            2 * mb_x + blk_pos(from % 4).0 % 2,
            2 * mb_y + blk_pos(from % 4).1 % 2,
        ));
        let (bx, by) = chroma_place(mb_x, mb_y, b);
        assert(b != from && b / 4 == from / 4 ==> (bx, by) != (x, y));
        reveal(Grids::sized);
        assert((2 * g.wide) * (2 * g.high) == 4 * (g.wide * g.high)) by (nonlinear_arith);
        law_read_after_write(g.cbf_cb, x, y, bx, by, 2 * g.wide, 2 * g.high, Some(false), None);
        law_read_after_write(g.cbf_cr, x, y, bx, by, 2 * g.wide, 2 * g.high, Some(false), None);
        lemma_chroma_cleared(g.with_chroma_flag(from / 4, x, y, false), mb_x, mb_y, from + 1, b);
    }
}

/// A macroblock without coefficients clears the flags of all its blocks.
pub proof fn law_empty_macroblocks_clear_their_flags(g: Grids, mb_x: int, mb_y: int, b: int, k: int)
    requires
        g.whole(),
        mb_inside(mb_x, mb_y, g.wide, g.high),
        0 <= b < 16,
        0 <= k < 8,
    ensures
        ({
            let r = with_flags_cleared(g, mb_x, mb_y);
            let (x, y) = luma_place(mb_x, mb_y, b);
            let (cx, cy) = chroma_place(mb_x, mb_y, k);
            r.luma_flag(x, y) == Some(false) && r.chroma_flag(k / 4, cx, cy) == Some(false)
        }),
{
    lemma_luma_cleared(g, mb_x, mb_y, 0, b);
    lemma_chroma_cleared(with_luma_cleared(g, mb_x, mb_y, 0), mb_x, mb_y, 0, k);
}

} // verus!
