//! What the layer of a macroblock holds: which of its blocks are there, and what is
//! remembered of them.
use vstd::prelude::*;
use crate::bins::{CtxTable, Source};
use crate::cabac_residual::{residual, Block, ContextCategory};
use crate::grids::{blk_pos, law_read_after_write, mb_inside, CabacMbInfo, Counts, Grids};
use crate::mb_cabac::{
    around, cabac_chroma_ac_from, cabac_chroma_dc_from, cabac_coefficients, cabac_luma8_from,
    cabac_luma_dc, cabac_luma_from, cabac_residual, chroma_dc_flag_of, flag_inc, flagged_block,
    raw_facts, with_quadrant_flags, CabacHeader, CabacWork,
};
use crate::mb_cavlc::{
    cavlc_chroma_ac_from, cavlc_chroma_dc_from, cavlc_coefficients, cavlc_luma_dc, cavlc_luma_from,
    cavlc_residual, chroma_ac_coded, chroma_dc_coded, coded_block, luma_coded, mb_facts, placed,
    CavlcState, CavlcWork,
};
use crate::mb_residual::{no_residual, Residuals};
use crate::mb_type::MbKind;
use crate::slice_cavlc::skipped_facts;

verus! {

// ------------------------------------------------------------------- patterns
/// A luma pattern is the sum of its quadrants, which count 1, 2, 4 and 8.
pub proof fn law_luma_pattern_is_a_sum(cbp: u8)
    requires
        cbp < 16,
    ensures
        cbp == (if luma_coded(cbp, 0) {
            1int
        } else {
            0
        }) + (if luma_coded(cbp, 1) {
            2int
        } else {
            0
        }) + (if luma_coded(cbp, 2) {
            4int
        } else {
            0
        }) + (if luma_coded(cbp, 3) {
            8int
        } else {
            0
        }),
{
}

/// A chroma pattern says how far coefficients go: 0 for none, 1 for DC alone, 2 for
/// all.
pub proof fn law_chroma_pattern_is_a_depth(cbp: u8)
    requires
        cbp <= 2,
    ensures
        chroma_dc_coded(cbp) <==> cbp >= 1,
        chroma_ac_coded(cbp) <==> cbp == 2,
{
}

/// What is remembered of a macroblock is what it is.
pub proof fn law_facts_of_a_macroblock(mb: MbKind, luma: u8, chroma: u8, mode: u8, large: bool)
    ensures
        ({
            let f = mb_facts(mb, luma, chroma, mode, large);
            &&& f.available && !f.skipped && !f.is_ipcm
            &&& f.cbp_luma == luma && f.cbp_chroma == chroma && f.intra_chroma_pred_mode == mode
            &&& f.transform_8x8 == large
            &&& mb == MbKind::Intra4x4 ==> f.is_intra && f.is_intra4x4 && !f.is_intra8x8
                && !f.is_intra16x16 && !f.is_b_direct16x16
            &&& mb == MbKind::Intra8x8 ==> f.is_intra && !f.is_intra4x4 && f.is_intra8x8
                && !f.is_intra16x16 && !f.is_b_direct16x16
            &&& mb matches MbKind::Intra16x16 { pred_mode, .. } ==> f.is_intra && !f.is_intra4x4
                && !f.is_intra8x8 && f.is_intra16x16 && !f.is_b_direct16x16
                && f.intra16x16_pred_mode == pred_mode
            &&& mb == MbKind::BDirect16x16 ==> !f.is_intra && !f.is_intra4x4 && !f.is_intra8x8
                && !f.is_intra16x16 && f.is_b_direct16x16
            &&& mb == MbKind::B8x8 || mb is P8x8 || mb is Inter ==> !f.is_intra && !f.is_intra4x4
                && !f.is_intra8x8 && !f.is_intra16x16 && !f.is_b_direct16x16
        }),
{
}

/// Of a skipped macroblock only that is known, and of raw samples that they are raw.
pub proof fn law_facts_of_macroblocks_without_a_type()
    ensures
        ({
            let (s, r) = (skipped_facts(), raw_facts());
            &&& s.available && s.skipped && !s.is_ipcm
            &&& r.available && !r.skipped && r.is_ipcm
            &&& s == (CabacMbInfo { skipped: true, is_ipcm: false, ..r })
            &&& !s.is_intra && !s.is_intra4x4 && !s.is_intra8x8 && !s.is_intra16x16
            &&& s.cbp_luma == 0 && s.cbp_chroma == 0 && s.intra_chroma_pred_mode == 0
            &&& !s.transform_8x8 && !s.is_b_direct16x16
        }),
{
}

// ------------------------------------------------------- variable-length codes
/// How many coefficients a block has.
pub open spec fn count_of(b: Option<Block>) -> int {
    match b {
        Some(x) => x.levels.len() as int,
        None => 0,
    }
}

/// Where the `blk`-th luma block of a macroblock stands: by quadrants, and inside
/// these row by row.
pub open spec fn luma_place(mb_x: int, mb_y: int, blk: int) -> (int, int) {
    let (quad, k) = (blk / 4, blk % 4);
    (4 * mb_x + 2 * (quad % 2) + k % 2, 4 * mb_y + 2 * (quad / 2) + k / 2)
}

/// Where the `k`-th chroma block of a macroblock stands, in its own component.
pub open spec fn chroma_place(mb_x: int, mb_y: int, k: int) -> (int, int) {
    (2 * mb_x + k % 2, 2 * mb_y + (k % 4) / 2)
}

proof fn lemma_places(mb_x: int, mb_y: int, blk: int)
    requires
        0 <= blk < 16,
    ensures
        luma_place(mb_x, mb_y, blk) == (4 * mb_x + blk_pos(blk).0, 4 * mb_y + blk_pos(blk).1),
        blk < 8 ==> chroma_place(mb_x, mb_y, blk) == (
            2 * mb_x + blk_pos(blk % 4).0 % 2,
            2 * mb_y + blk_pos(blk % 4).1 % 2,
        ),
{
}

proof fn lemma_luma_count(c: Counts, x: int, y: int, n: u8, rx: int, ry: int)
    requires
        c.sized(),
        0 <= x < 4 * c.wide,
        0 <= y < 4 * c.high,
    ensures
        c.with_luma(x, y, n).sized(),
        c.with_luma(x, y, n).luma_at(rx, ry) == (if rx == x && ry == y {
            Some(n)
        } else {
            c.luma_at(rx, ry)
        }),
{
    assert((4 * c.wide) * (4 * c.high) == 16 * (c.wide * c.high)) by (nonlinear_arith);
    law_read_after_write(c.luma, x, y, rx, ry, 4 * c.wide, 4 * c.high, Some(n), None);
}

proof fn lemma_chroma_count(c: Counts, comp: int, x: int, y: int, n: u8, rc: int, rx: int, ry: int)
    requires
        c.sized(),
        0 <= comp < 2,
        0 <= x < 2 * c.wide,
        0 <= y < 2 * c.high,
    ensures
        c.with_chroma(comp, x, y, n).sized(),
        c.with_chroma(comp, x, y, n).chroma_at(rc, rx, ry) == (if rc == comp && rx == x && ry == y {
            Some(n)
        } else {
            c.chroma_at(rc, rx, ry)
        }),
{
    assert((2 * c.wide) * (2 * c.high) == 4 * (c.wide * c.high)) by (nonlinear_arith);
    law_read_after_write(c.cb, x, y, rx, ry, 2 * c.wide, 2 * c.high, Some(n), None);
    law_read_after_write(c.cr, x, y, rx, ry, 2 * c.wide, 2 * c.high, Some(n), None);
}

#[verifier::spinoff_prover]
#[verifier::rlimit(50)]
proof fn lemma_luma_blocks(
    data: Seq<u8>,
    w: CavlcWork,
    mb_x: int,
    mb_y: int,
    cbp: u8,
    is_16x16: bool,
    blk: int,
    b: int,
)
    requires
        w.counts.sized(),
        mb_inside(mb_x, mb_y, w.counts.wide, w.counts.high),
        w.out.luma_ac.len() == 16,
        0 <= blk <= 16,
        0 <= b < 16,
        b >= blk ==> w.out.luma_ac[b] is None,
    ensures
        cavlc_luma_from(data, w, mb_x, mb_y, cbp, is_16x16, blk) matches Ok(r) ==> {
            let (x, y) = luma_place(mb_x, mb_y, b);
            &&& r.counts.sized()
            &&& r.counts.wide == w.counts.wide && r.counts.high == w.counts.high
            &&& r.out.luma_ac.len() == 16
            &&& r.out == (Residuals { luma_ac: r.out.luma_ac, ..w.out })
            &&& b < blk ==> r.out.luma_ac[b] == w.out.luma_ac[b] && r.counts.luma_at(x, y)
                == w.counts.luma_at(x, y)
            &&& b >= blk ==> (r.counts.luma_at(x, y) matches Some(n) && n == count_of(
                r.out.luma_ac[b],
            ))
            &&& b >= blk && !luma_coded(cbp, b / 4) ==> r.out.luma_ac[b] is None
        },
    decreases 16 - blk,
{
    if blk < 16 {
        lemma_places(mb_x, mb_y, blk);
        lemma_places(mb_x, mb_y, b);
        let (x, y) = luma_place(mb_x, mb_y, blk);
        let (bx, by) = luma_place(mb_x, mb_y, b);
        if luma_coded(cbp, blk / 4) {
            let max = if is_16x16 {
                15u8
            } else {
                16u8
            };
            if let Ok(c) = coded_block(data, w.pos, w.counts.nc_luma(x, y), max, w.room) {
                let next = CavlcWork {
                    pos: c.end,
                    counts: w.counts.with_luma(x, y, c.total_coeff),
                    out: Residuals {
                        luma_ac: placed(w.out.luma_ac, blk, c.block),
                        ..w.out
                    },
                    room: c.room,
                };
                lemma_luma_count(w.counts, x, y, c.total_coeff, bx, by);
                lemma_luma_blocks(data, next, mb_x, mb_y, cbp, is_16x16, blk + 1, b);
            }
        } else {
            let next = CavlcWork { counts: w.counts.with_luma(x, y, 0), ..w };
            lemma_luma_count(w.counts, x, y, 0, bx, by);
            lemma_luma_blocks(data, next, mb_x, mb_y, cbp, is_16x16, blk + 1, b);
        }
    }
}

proof fn lemma_chroma_dc_blocks(data: Seq<u8>, w: CavlcWork, cbp: u8, comp: int)
    requires
        w.out.chroma_dc.len() == 2,
        0 <= comp <= 2,
    ensures
        cavlc_chroma_dc_from(data, w, cbp, comp) matches Ok(r) ==> {
            &&& r.counts == w.counts
            &&& r.out.chroma_dc.len() == 2
            &&& r.out == (Residuals { chroma_dc: r.out.chroma_dc, ..w.out })
            &&& !chroma_dc_coded(cbp) ==> r == w
        },
    decreases 2 - comp,
{
    if comp < 2 && chroma_dc_coded(cbp) {
        if let Ok(c) = coded_block(data, w.pos, -1, 4, w.room) {
            let next = CavlcWork {
                pos: c.end,
                counts: w.counts,
                out: Residuals {
                    chroma_dc: placed(w.out.chroma_dc, comp, c.block),
                    ..w.out
                },
                room: c.room,
            };
            lemma_chroma_dc_blocks(data, next, cbp, comp + 1);
        }
    }
}

#[verifier::spinoff_prover]
#[verifier::rlimit(50)]
proof fn lemma_chroma_ac_blocks(
    data: Seq<u8>,
    w: CavlcWork,
    mb_x: int,
    mb_y: int,
    cbp: u8,
    k: int,
    b: int,
)
    requires
        w.counts.sized(),
        mb_inside(mb_x, mb_y, w.counts.wide, w.counts.high),
        w.out.chroma_ac.len() == 8,
        0 <= k <= 8,
        0 <= b < 8,
        b >= k ==> w.out.chroma_ac[b] is None,
    ensures
        cavlc_chroma_ac_from(data, w, mb_x, mb_y, cbp, k) matches Ok(r) ==> {
            let (x, y) = chroma_place(mb_x, mb_y, b);
            &&& r.counts.sized()
            &&& r.counts.luma == w.counts.luma
            &&& r.counts.wide == w.counts.wide && r.counts.high == w.counts.high
            &&& r.out.chroma_ac.len() == 8
            &&& r.out == (Residuals { chroma_ac: r.out.chroma_ac, ..w.out })
            &&& b < k ==> r.out.chroma_ac[b] == w.out.chroma_ac[b] && r.counts.chroma_at(
                b / 4,
                x,
                y,
            ) == w.counts.chroma_at(b / 4, x, y)
            &&& b >= k ==> (r.counts.chroma_at(b / 4, x, y) matches Some(n) && n == count_of(
                r.out.chroma_ac[b],
            ))
            &&& b >= k && !chroma_ac_coded(cbp) ==> r.out.chroma_ac[b] is None
        },
    decreases 8 - k,
{
    if k < 8 {
        lemma_places(mb_x, mb_y, k);
        lemma_places(mb_x, mb_y, b);
        let (x, y) = chroma_place(mb_x, mb_y, k);
        let (bx, by) = chroma_place(mb_x, mb_y, b);
        if chroma_ac_coded(cbp) {
            if let Ok(c) = coded_block(data, w.pos, w.counts.nc_chroma(k / 4, x, y), 15, w.room) {
                let next = CavlcWork {
                    pos: c.end,
                    counts: w.counts.with_chroma(k / 4, x, y, c.total_coeff),
                    out: Residuals {
                        chroma_ac: placed(w.out.chroma_ac, k, c.block),
                        ..w.out
                    },
                    room: c.room,
                };
                lemma_chroma_count(w.counts, k / 4, x, y, c.total_coeff, b / 4, bx, by);
                lemma_chroma_ac_blocks(data, next, mb_x, mb_y, cbp, k + 1, b);
            }
        } else {
            let next = CavlcWork { counts: w.counts.with_chroma(k / 4, x, y, 0), ..w };
            lemma_chroma_count(w.counts, k / 4, x, y, 0, b / 4, bx, by);
            lemma_chroma_ac_blocks(data, next, mb_x, mb_y, cbp, k + 1, b);
        }
    }
}

/// Behind a macroblock of variable-length codes every block has left the number of
/// its coefficients at its place, and blocks that the pattern leaves out are not
/// there: luma blocks by the bit of their quadrant, luma DC unless the macroblock
/// is predicted as a whole, chroma by its depth.
pub proof fn law_counts_are_those_of_the_blocks(
    data: Seq<u8>,
    pos: int,
    counts: Counts,
    mb_x: int,
    mb_y: int,
    luma: u8,
    chroma: u8,
    is_16x16: bool,
    room: int,
    blk: int,
    k: int,
)
    requires
        counts.sized(),
        mb_inside(mb_x, mb_y, counts.wide, counts.high),
        0 <= blk < 16,
        0 <= k < 8,
    ensures
        cavlc_residual(data, pos, counts, mb_x, mb_y, luma, chroma, is_16x16, room) matches Ok(r)
            ==> {
            let (x, y) = luma_place(mb_x, mb_y, blk);
            let (cx, cy) = chroma_place(mb_x, mb_y, k);
            &&& r.counts.luma_at(x, y) matches Some(n) && n == count_of(r.out.luma_ac[blk])
            &&& r.counts.chroma_at(k / 4, cx, cy) matches Some(n) && n == count_of(
                r.out.chroma_ac[k],
            )
            &&& !luma_coded(luma, blk / 4) ==> r.out.luma_ac[blk] is None
            &&& !chroma_ac_coded(chroma) ==> r.out.chroma_ac[k] is None
            &&& !chroma_dc_coded(chroma) ==> r.out.chroma_dc == no_residual().chroma_dc
            &&& !is_16x16 ==> r.out.luma_dc is None
            &&& r.out.luma8x8 == no_residual().luma8x8
        },
{
    let w = CavlcWork { pos, counts, out: no_residual(), room };
    if is_16x16 {
        lemma_places(mb_x, mb_y, 0);
        let (x, y) = (4 * mb_x, 4 * mb_y);
        if let Ok(c) = coded_block(data, w.pos, w.counts.nc_luma(x, y), 16, w.room) {
            lemma_luma_count(counts, x, y, c.total_coeff, x, y);
        }
    }
    let dc = if is_16x16 {
        cavlc_luma_dc(data, w, mb_x, mb_y)
    } else {
        Ok(w)
    };
    if let Ok(w1) = dc {
        assert(w1.out.luma_ac == no_residual().luma_ac);
        lemma_luma_blocks(data, w1, mb_x, mb_y, luma, is_16x16, 0, blk);
        if let Ok(w2) = cavlc_luma_from(data, w1, mb_x, mb_y, luma, is_16x16, 0) {
            lemma_chroma_dc_blocks(data, w2, chroma, 0);
            if let Ok(w3) = cavlc_chroma_dc_from(data, w2, chroma, 0) {
                lemma_chroma_ac_blocks(data, w3, mb_x, mb_y, chroma, 0, k);
            }
        }
    }
}

/// Chroma DC coefficients are read as two blocks of up to four, first of the blue
/// component and then of the red one.
pub proof fn law_chroma_dc_blocks_in_order(data: Seq<u8>, w: CavlcWork, cbp: u8)
    requires
        cbp == 1 || cbp == 2,
        w.out == no_residual(),
    ensures
        coded_block(data, w.pos, -1, 4, w.room) matches Ok(a) ==> (coded_block(
            data,
            a.end,
            -1,
            4,
            a.room,
        ) matches Ok(b) ==> (cavlc_chroma_dc_from(data, w, cbp, 0) matches Ok(r) && r.pos == b.end
            && r.room == b.room && r.out.chroma_dc[0] == a.block && r.out.chroma_dc[1] == b.block)),
{
    reveal_with_fuel(cavlc_chroma_dc_from, 3);
}

/// The quantiser changes only with a macroblock that has coefficients to scale. One
/// without reads nothing and has none.
pub proof fn law_empty_macroblocks_read_nothing(
    data: Seq<u8>,
    st: CavlcState,
    g: Grids,
    mb: MbKind,
    h: CabacHeader,
    mb_x: int,
    mb_y: int,
    room: int,
)
    requires
        !(mb is Intra16x16),
        h.cbp_luma == 0,
        h.cbp_chroma == 0,
    ensures
        cavlc_coefficients(data, st, mb, 0, 0, mb_x, mb_y) matches Ok((out, end)) && out
            == no_residual() && end.pos == st.pos && end.qpy == st.qpy && end.room == st.room,
        cabac_coefficients(g, mb, h, mb_x, mb_y, room) matches Ok((out, s, after)) && out
            == no_residual() && s == h.s,
{
    reveal(cavlc_coefficients);
    reveal(cabac_coefficients);
}

// ------------------------------------------------------------ arithmetic codes
proof fn lemma_flag(g: Grids, x: int, y: int, v: bool, rx: int, ry: int)
    requires
        g.whole(),
        0 <= x < 4 * g.wide,
        0 <= y < 4 * g.high,
    ensures
        g.with_luma_flag(x, y, v).whole(),
        g.with_luma_flag(x, y, v).luma_flag(rx, ry) == (if rx == x && ry == y {
            Some(v)
        } else {
            g.luma_flag(rx, ry)
        }),
{
    reveal(Grids::sized);
    assert((4 * g.wide) * (4 * g.high) == 16 * (g.wide * g.high)) by (nonlinear_arith);
    law_read_after_write(g.cbf_luma, x, y, rx, ry, 4 * g.wide, 4 * g.high, Some(v), None);
}

proof fn lemma_chroma_flag(g: Grids, comp: int, x: int, y: int, v: bool, rc: int, rx: int, ry: int)
    requires
        g.whole(),
        0 <= comp < 2,
        0 <= x < 2 * g.wide,
        0 <= y < 2 * g.high,
    ensures
        g.with_chroma_flag(comp, x, y, v).whole(),
        g.with_chroma_flag(comp, x, y, v).chroma_flag(rc, rx, ry) == (if rc == comp && rx == x && ry
            == y {
            Some(v)
        } else {
            g.chroma_flag(rc, rx, ry)
        }),
{
    reveal(Grids::sized);
    assert((2 * g.wide) * (2 * g.high) == 4 * (g.wide * g.high)) by (nonlinear_arith);
    law_read_after_write(g.cbf_cb, x, y, rx, ry, 2 * g.wide, 2 * g.high, Some(v), None);
    law_read_after_write(g.cbf_cr, x, y, rx, ry, 2 * g.wide, 2 * g.high, Some(v), None);
}

proof fn lemma_dc_flags(g: Grids, comp: int, x: int, y: int, v: bool)
    requires
        g.whole(),
        mb_inside(x, y, g.wide, g.high),
    ensures
        g.with_luma_dc_flag(x, y, v).whole(),
        g.with_chroma_dc_flag(comp, x, y, v).whole(),
{
    reveal(Grids::sized);
    law_read_after_write(g.cbf_luma_dc, x, y, x, y, g.wide, g.high, Some(v), None);
    law_read_after_write(g.cbf_cb_dc, x, y, x, y, g.wide, g.high, Some(v), None);
    law_read_after_write(g.cbf_cr_dc, x, y, x, y, g.wide, g.high, Some(v), None);
}

#[verifier::spinoff_prover]
#[verifier::rlimit(50)]
proof fn lemma_luma_flags(
    w: CabacWork,
    mb_x: int,
    mb_y: int,
    cbp: u8,
    is_16x16: bool,
    intra: bool,
    blk: int,
    b: int,
)
    requires
        w.g.whole(),
        mb_inside(mb_x, mb_y, w.g.wide, w.g.high),
        w.out.luma_ac.len() == 16,
        0 <= blk <= 16,
        0 <= b < 16,
        b >= blk ==> w.out.luma_ac[b] is None,
    ensures
        cabac_luma_from(w, mb_x, mb_y, cbp, is_16x16, intra, blk) matches Ok(r) ==> {
            let (x, y) = luma_place(mb_x, mb_y, b);
            &&& r.g.whole()
            &&& r.g.wide == w.g.wide && r.g.high == w.g.high
            &&& r.out.luma_ac.len() == 16
            &&& r.out == (Residuals { luma_ac: r.out.luma_ac, ..w.out })
            &&& b < blk ==> r.out.luma_ac[b] == w.out.luma_ac[b] && r.g.luma_flag(x, y)
                == w.g.luma_flag(x, y)
            &&& b >= blk ==> r.g.luma_flag(x, y) == Some(r.out.luma_ac[b] is Some)
            &&& b >= blk && !luma_coded(cbp, b / 4) ==> r.out.luma_ac[b] is None
        },
    decreases 16 - blk,
{
    if blk < 16 {
        lemma_places(mb_x, mb_y, blk);
        lemma_places(mb_x, mb_y, b);
        let (x, y) = luma_place(mb_x, mb_y, blk);
        let (bx, by) = luma_place(mb_x, mb_y, b);
        assert(b != blk ==> (bx, by) != (x, y));
        lemma_flag(w.g, x, y, true, bx, by);
        lemma_flag(w.g, x, y, false, bx, by);
        if luma_coded(cbp, blk / 4) {
            let (px, py) = blk_pos(blk);
            let inc = flag_inc(
                around(w.g.left_of(mb_x, mb_y), px == 0),
                w.g.luma_flag(x - 1, y),
                around(w.g.above(mb_x, mb_y), py == 0),
                w.g.luma_flag(x, y - 1),
                intra,
            );
            let read = if is_16x16 {
                flagged_block(
                    w.s,
                    CtxTable::CbfLumaAc,
                    inc,
                    ContextCategory::LumaAc,
                    15,
                    w.room,
                )
            } else {
                flagged_block(
                    w.s,
                    CtxTable::CbfLuma4x4,
                    inc,
                    ContextCategory::Luma4x4,
                    16,
                    w.room,
                )
            };
            if let Ok((block, s, room)) = read {
                let next = CabacWork {
                    s,
                    g: w.g.with_luma_flag(x, y, block is Some),
                    out: Residuals {
                        luma_ac: placed(w.out.luma_ac, blk, block),
                        ..w.out
                    },
                    room,
                };
                lemma_luma_flags(next, mb_x, mb_y, cbp, is_16x16, intra, blk + 1, b);
            }
        } else {
            let next = CabacWork { g: w.g.with_luma_flag(x, y, false), ..w };
            lemma_luma_flags(next, mb_x, mb_y, cbp, is_16x16, intra, blk + 1, b);
        }
    }
}

proof fn lemma_quadrant(g: Grids, mb_x: int, mb_y: int, quad: int, v: bool, b: int)
    requires
        g.whole(),
        mb_inside(mb_x, mb_y, g.wide, g.high),
        0 <= quad < 4,
        0 <= b < 16,
    ensures
        ({
            let h = with_quadrant_flags(g, mb_x, mb_y, quad, v);
            let (x, y) = luma_place(mb_x, mb_y, b);
            &&& h.whole()
            &&& h.wide == g.wide && h.high == g.high
            &&& h.luma_flag(x, y) == (if b / 4 == quad {
                Some(v)
            } else {
                g.luma_flag(x, y)
            })
        }),
{
    let (x, y) = (4 * mb_x + 2 * (quad % 2), 4 * mb_y + 2 * (quad / 2));
    let (bx, by) = luma_place(mb_x, mb_y, b);
    let g1 = g.with_luma_flag(x, y, v);
    let g2 = g1.with_luma_flag(x + 1, y, v);
    let g3 = g2.with_luma_flag(x, y + 1, v);
    lemma_flag(g, x, y, v, bx, by);
    lemma_flag(g1, x + 1, y, v, bx, by);
    lemma_flag(g2, x, y + 1, v, bx, by);
    lemma_flag(g3, x + 1, y + 1, v, bx, by);
}

proof fn lemma_luma8_flags(w: CabacWork, mb_x: int, mb_y: int, cbp: u8, quad: int, b: int)
    requires
        w.g.whole(),
        mb_inside(mb_x, mb_y, w.g.wide, w.g.high),
        w.out.luma8x8.len() == 4,
        0 <= quad <= 4,
        0 <= b < 16,
        b / 4 >= quad ==> w.out.luma8x8[b / 4] is None,
    ensures
        cabac_luma8_from(w, mb_x, mb_y, cbp, quad) matches Ok(r) ==> {
            let (x, y) = luma_place(mb_x, mb_y, b);
            &&& r.g.whole()
            &&& r.g.wide == w.g.wide && r.g.high == w.g.high
            &&& r.out.luma8x8.len() == 4
            &&& r.out == (Residuals { luma8x8: r.out.luma8x8, ..w.out })
            &&& b / 4 < quad ==> r.out.luma8x8[b / 4] == w.out.luma8x8[b / 4] && r.g.luma_flag(x, y)
                == w.g.luma_flag(x, y)
            &&& b / 4 >= quad ==> r.g.luma_flag(x, y) == Some(luma_coded(cbp, b / 4)) && (
            r.out.luma8x8[b / 4] is Some <==> luma_coded(cbp, b / 4))
        },
    decreases 4 - quad,
{
    if quad < 4 {
        lemma_quadrant(w.g, mb_x, mb_y, quad, true, b);
        lemma_quadrant(w.g, mb_x, mb_y, quad, false, b);
        if luma_coded(cbp, quad) {
            if let Ok((block, s)) = residual(
                w.s,
                ContextCategory::Luma8x8,
                64,
                w.room,
            ) {
                let next = CabacWork {
                    s,
                    g: with_quadrant_flags(w.g, mb_x, mb_y, quad, true),
                    out: Residuals { luma8x8: w.out.luma8x8.update(quad, Some(block)), ..w.out },
                    room: w.room - block.charge(),
                };
                lemma_luma8_flags(next, mb_x, mb_y, cbp, quad + 1, b);
            }
        } else {
            let next = CabacWork { g: with_quadrant_flags(w.g, mb_x, mb_y, quad, false), ..w };
            lemma_luma8_flags(next, mb_x, mb_y, cbp, quad + 1, b);
        }
    }
}

#[verifier::spinoff_prover]
#[verifier::rlimit(50)]
proof fn lemma_chroma_dc_flags(w: CabacWork, mb_x: int, mb_y: int, cbp: u8, intra: bool, comp: int)
    requires
        w.g.whole(),
        mb_inside(mb_x, mb_y, w.g.wide, w.g.high),
        w.out.chroma_dc.len() == 2,
        0 <= comp <= 2,
    ensures
        cabac_chroma_dc_from(w, mb_x, mb_y, cbp, intra, comp) matches Ok(r) ==> {
            &&& r.g.whole()
            &&& r.g.wide == w.g.wide && r.g.high == w.g.high
            &&& r.g.cbf_luma == w.g.cbf_luma
            &&& r.out.chroma_dc.len() == 2
            &&& r.out == (Residuals { chroma_dc: r.out.chroma_dc, ..w.out })
            &&& !chroma_dc_coded(cbp) ==> r.out == w.out && r.s == w.s && r.room == w.room
        },
    decreases 2 - comp,
{
    if comp < 2 {
        lemma_dc_flags(w.g, comp, mb_x, mb_y, true);
        lemma_dc_flags(w.g, comp, mb_x, mb_y, false);
        if chroma_dc_coded(cbp) {
            let (left, above) = (w.g.left_of(mb_x, mb_y), w.g.above(mb_x, mb_y));
            let inc = flag_inc(
                left,
                chroma_dc_flag_of(left, w.g.chroma_dc_flag(comp, mb_x - 1, mb_y)),
                above,
                chroma_dc_flag_of(above, w.g.chroma_dc_flag(comp, mb_x, mb_y - 1)),
                intra,
            );
            if let Ok((block, s, room)) = flagged_block(
                w.s,
                CtxTable::CbfChromaDc,
                inc,
                ContextCategory::ChromaDc,
                4,
                w.room,
            ) {
                let next = CabacWork {
                    s,
                    g: w.g.with_chroma_dc_flag(comp, mb_x, mb_y, block is Some),
                    out: Residuals {
                        chroma_dc: placed(w.out.chroma_dc, comp, block),
                        ..w.out
                    },
                    room,
                };
                lemma_chroma_dc_flags(next, mb_x, mb_y, cbp, intra, comp + 1);
            }
        } else {
            let next = CabacWork { g: w.g.with_chroma_dc_flag(comp, mb_x, mb_y, false), ..w };
            lemma_chroma_dc_flags(next, mb_x, mb_y, cbp, intra, comp + 1);
        }
    }
}

#[verifier::spinoff_prover]
#[verifier::rlimit(50)]
proof fn lemma_chroma_ac_flags(
    w: CabacWork,
    mb_x: int,
    mb_y: int,
    cbp: u8,
    intra: bool,
    k: int,
    b: int,
)
    requires
        w.g.whole(),
        mb_inside(mb_x, mb_y, w.g.wide, w.g.high),
        w.out.chroma_ac.len() == 8,
        0 <= k <= 8,
        0 <= b < 8,
        b >= k ==> w.out.chroma_ac[b] is None,
    ensures
        cabac_chroma_ac_from(w, mb_x, mb_y, cbp, intra, k) matches Ok(r) ==> {
            let (x, y) = chroma_place(mb_x, mb_y, b);
            &&& r.g.cbf_luma == w.g.cbf_luma
            &&& r.g.wide == w.g.wide && r.g.high == w.g.high
            &&& r.out.chroma_ac.len() == 8
            &&& r.out == (Residuals { chroma_ac: r.out.chroma_ac, ..w.out })
            &&& b < k ==> r.out.chroma_ac[b] == w.out.chroma_ac[b] && r.g.chroma_flag(b / 4, x, y)
                == w.g.chroma_flag(b / 4, x, y)
            &&& b >= k ==> r.g.chroma_flag(b / 4, x, y) == Some(r.out.chroma_ac[b] is Some)
            &&& b >= k && !chroma_ac_coded(cbp) ==> r.out.chroma_ac[b] is None
        },
    decreases 8 - k,
{
    if k < 8 {
        lemma_places(mb_x, mb_y, k);
        lemma_places(mb_x, mb_y, b);
        let (x, y) = chroma_place(mb_x, mb_y, k);
        let (bx, by) = chroma_place(mb_x, mb_y, b);
        lemma_chroma_flag(w.g, k / 4, x, y, true, b / 4, bx, by);
        lemma_chroma_flag(w.g, k / 4, x, y, false, b / 4, bx, by);
        if chroma_ac_coded(cbp) {
            let (px, py) = blk_pos(k % 4);
            let inc = flag_inc(
                around(w.g.left_of(mb_x, mb_y), px == 0),
                w.g.chroma_flag(k / 4, x - 1, y),
                around(w.g.above(mb_x, mb_y), py == 0),
                w.g.chroma_flag(k / 4, x, y - 1),
                intra,
            );
            if let Ok((block, s, room)) = flagged_block(
                w.s,
                CtxTable::CbfChromaAc,
                inc,
                ContextCategory::ChromaAc,
                15,
                w.room,
            ) {
                let next = CabacWork {
                    s,
                    g: w.g.with_chroma_flag(k / 4, x, y, block is Some),
                    out: Residuals {
                        chroma_ac: placed(w.out.chroma_ac, k, block),
                        ..w.out
                    },
                    room,
                };
                lemma_chroma_ac_flags(next, mb_x, mb_y, cbp, intra, k + 1, b);
            }
        } else {
            let next = CabacWork { g: w.g.with_chroma_flag(k / 4, x, y, false), ..w };
            lemma_chroma_ac_flags(next, mb_x, mb_y, cbp, intra, k + 1, b);
        }
    }
}

/// Behind a macroblock of arithmetic codes every block has left at its place
/// whether it is there, an 8x8 block at all four of its places, and blocks that the
/// pattern leaves out are not.
#[verifier::rlimit(60)]
pub proof fn law_flags_are_those_of_the_blocks(
    s: Source,
    g: Grids,
    mb: MbKind,
    luma: u8,
    chroma: u8,
    large: bool,
    mb_x: int,
    mb_y: int,
    room: int,
    blk: int,
    k: int,
)
    requires
        g.whole(),
        mb_inside(mb_x, mb_y, g.wide, g.high),
        0 <= blk < 16,
        0 <= k < 8,
    ensures
        cabac_residual(s, g, mb, luma, chroma, large, mb_x, mb_y, room) matches Ok(r) ==> {
            let (x, y) = luma_place(mb_x, mb_y, blk);
            let (cx, cy) = chroma_place(mb_x, mb_y, k);
            &&& !large ==> r.g.luma_flag(x, y) == Some(r.out.luma_ac[blk] is Some)
                && r.out.luma8x8[blk / 4] is None
            &&& large ==> r.g.luma_flag(x, y) == Some(r.out.luma8x8[blk / 4] is Some) && (
            r.out.luma8x8[blk / 4] is Some <==> luma_coded(luma, blk / 4)) && r.out.luma_ac[blk] is None
            &&& r.g.chroma_flag(k / 4, cx, cy) == Some(r.out.chroma_ac[k] is Some)
            &&& !luma_coded(luma, blk / 4) ==> r.out.luma_ac[blk] is None
            &&& !chroma_ac_coded(chroma) ==> r.out.chroma_ac[k] is None
            &&& !chroma_dc_coded(chroma) ==> r.out.chroma_dc == no_residual().chroma_dc
            &&& !(mb is Intra16x16) ==> r.out.luma_dc is None
        },
{
    let w = CabacWork { s, g, out: no_residual(), room };
    let intra = mb.intra();
    lemma_dc_flags(g, 0, mb_x, mb_y, true);
    lemma_dc_flags(g, 0, mb_x, mb_y, false);
    let dc = if mb is Intra16x16 {
        cabac_luma_dc(w, mb_x, mb_y, intra)
    } else {
        Ok(w)
    };
    if let Ok(w1) = dc {
        assert(w1.out.luma_ac == no_residual().luma_ac);
        assert(w1.g.whole() && w1.g.wide == g.wide && w1.g.high == g.high);
        if large {
            lemma_luma8_flags(w1, mb_x, mb_y, luma, 0, blk);
        } else {
            lemma_luma_flags(w1, mb_x, mb_y, luma, mb is Intra16x16, intra, 0, blk);
        }
        let read = if large {
            cabac_luma8_from(w1, mb_x, mb_y, luma, 0)
        } else {
            cabac_luma_from(w1, mb_x, mb_y, luma, mb is Intra16x16, intra, 0)
        };
        if let Ok(w2) = read {
            lemma_chroma_dc_flags(w2, mb_x, mb_y, chroma, intra, 0);
            if let Ok(w3) = cabac_chroma_dc_from(w2, mb_x, mb_y, chroma, intra, 0) {
                lemma_chroma_ac_flags(w3, mb_x, mb_y, chroma, intra, 0, k);
            }
        }
    }
}

} // verus!
