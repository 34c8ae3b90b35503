//! No macroblock stores a coefficient that is zero, nor a block without any.
use vstd::prelude::*;
use crate::bins::{CtxTable, Source};
use crate::cabac_residual::{law_residual_shape, residual, Block, ContextCategory};
use crate::cavlc::{law_residual_block_shape, residual_block};
use crate::direct::ColocatedField;
use crate::golomb::ue;
use crate::grids::{blk_pos, Counts, Grids};
use crate::headers::{Pps, SliceHeader, Sps};
use crate::mb_cabac::{
    around, cabac_chroma_ac_from, cabac_chroma_dc_from, cabac_coefficients, cabac_header,
    cabac_kind, cabac_luma8_from, cabac_luma_dc, cabac_luma_from, cabac_macroblock,
    cabac_prediction, cabac_residual, chroma_dc_flag_of, dc_flag_of, flag_inc, flagged_block,
    with_quadrant_flags, CabacHeader, CabacState, CabacWork,
};
use crate::mb_cavlc::{
    cavlc_chroma_ac_from, cavlc_chroma_dc_from, cavlc_coefficients, cavlc_luma_dc, cavlc_luma_from,
    cavlc_macroblock, cavlc_pattern, cavlc_prediction, cavlc_residual, chroma_ac_coded,
    chroma_dc_coded, coded_block, luma_coded, placed as put, CavlcState, CavlcWork,
};
use crate::mb_residual::{
    absent_or_significant, all_significant, law_forward_keeps_levels, no_residual, Residuals,
};
use crate::mb_type::{mb_kind, MbKind};

verus! {

proof fn lemma_put(v: Seq<Option<Block>>, i: int, b: Option<Block>)
    requires
        all_significant(v),
        absent_or_significant(b),
        0 <= i < v.len(),
    ensures
        all_significant(put(v, i, b)),
        put(v, i, b).len() == v.len(),
{
    assert forall|k: int| 0 <= k < v.len() implies absent_or_significant(
        #[trigger] put(v, i, b)[k],
    ) by {
        if k != i {
            assert(absent_or_significant(v[k]));
        }
    }
}

proof fn lemma_coded_block(data: Seq<u8>, pos: int, nc: int, max: u8, room: int)
    ensures
        coded_block(data, pos, nc, max, room) matches Ok(c) ==> absent_or_significant(c.block),
{
    law_residual_block_shape(data, pos, nc, max, room);
    if let Ok((b, _)) = residual_block(data, pos, nc, max, room) {
        if b.total_coeff > 0 {
            law_forward_keeps_levels(b);
        }
    }
}

proof fn lemma_cavlc_luma(
    data: Seq<u8>,
    w: CavlcWork,
    mb_x: int,
    mb_y: int,
    cbp_luma: u8,
    is_16x16: bool,
    blk: int,
)
    requires
        0 <= blk,
        w.out.has_blocks() && w.out.significant(),
    ensures
        cavlc_luma_from(data, w, mb_x, mb_y, cbp_luma, is_16x16, blk) matches Ok(t)
            ==> t.out.has_blocks() && t.out.significant(),
    decreases 16 - blk,
{
    if blk < 16 {
        let (x, y) = (4 * mb_x + blk_pos(blk).0, 4 * mb_y + blk_pos(blk).1);
        if luma_coded(cbp_luma, blk / 4) {
            let max = if is_16x16 {
                15u8
            } else {
                16u8
            };
            lemma_coded_block(data, w.pos, w.counts.nc_luma(x, y), max, w.room);
            if let Ok(c) = coded_block(data, w.pos, w.counts.nc_luma(x, y), max, w.room) {
                lemma_put(w.out.luma_ac, blk, c.block);
                let next = CavlcWork {
                    pos: c.end,
                    counts: w.counts.with_luma(x, y, c.total_coeff),
                    out: Residuals { luma_ac: put(w.out.luma_ac, blk, c.block), ..w.out },
                    room: c.room,
                };
                lemma_cavlc_luma(data, next, mb_x, mb_y, cbp_luma, is_16x16, blk + 1);
            }
        } else {
            let next = CavlcWork { counts: w.counts.with_luma(x, y, 0), ..w };
            lemma_cavlc_luma(data, next, mb_x, mb_y, cbp_luma, is_16x16, blk + 1);
        }
    }
}

proof fn lemma_cavlc_chroma_dc(data: Seq<u8>, w: CavlcWork, cbp_chroma: u8, comp: int)
    requires
        0 <= comp,
        w.out.has_blocks() && w.out.significant(),
    ensures
        cavlc_chroma_dc_from(data, w, cbp_chroma, comp) matches Ok(t) ==> t.out.has_blocks()
            && t.out.significant(),
    decreases 2 - comp,
{
    if comp < 2 && chroma_dc_coded(cbp_chroma) {
        lemma_coded_block(data, w.pos, -1, 4, w.room);
        if let Ok(c) = coded_block(data, w.pos, -1, 4, w.room) {
            lemma_put(w.out.chroma_dc, comp, c.block);
            let next = CavlcWork {
                pos: c.end,
                counts: w.counts,
                out: Residuals { chroma_dc: put(w.out.chroma_dc, comp, c.block), ..w.out },
                room: c.room,
            };
            lemma_cavlc_chroma_dc(data, next, cbp_chroma, comp + 1);
        }
    }
}

proof fn lemma_cavlc_chroma_ac(
    data: Seq<u8>,
    w: CavlcWork,
    mb_x: int,
    mb_y: int,
    cbp_chroma: u8,
    k: int,
)
    requires
        0 <= k,
        w.out.has_blocks() && w.out.significant(),
    ensures
        cavlc_chroma_ac_from(data, w, mb_x, mb_y, cbp_chroma, k) matches Ok(t) ==> t.out.has_blocks()
            && t.out.significant(),
    decreases 8 - k,
{
    if k < 8 {
        let comp = k / 4;
        let (x, y) = (2 * mb_x + blk_pos(k % 4).0 % 2, 2 * mb_y + blk_pos(k % 4).1 % 2);
        if chroma_ac_coded(cbp_chroma) {
            let nc = w.counts.nc_chroma(comp, x, y);
            lemma_coded_block(data, w.pos, nc, 15, w.room);
            if let Ok(c) = coded_block(data, w.pos, nc, 15, w.room) {
                lemma_put(w.out.chroma_ac, k, c.block);
                let next = CavlcWork {
                    pos: c.end,
                    counts: w.counts.with_chroma(comp, x, y, c.total_coeff),
                    out: Residuals { chroma_ac: put(w.out.chroma_ac, k, c.block), ..w.out },
                    room: c.room,
                };
                lemma_cavlc_chroma_ac(data, next, mb_x, mb_y, cbp_chroma, k + 1);
            }
        } else {
            let next = CavlcWork { counts: w.counts.with_chroma(comp, x, y, 0), ..w };
            lemma_cavlc_chroma_ac(data, next, mb_x, mb_y, cbp_chroma, k + 1);
        }
    }
}

proof fn lemma_cavlc_residual(
    data: Seq<u8>,
    pos: int,
    counts: Counts,
    mb_x: int,
    mb_y: int,
    cbp_luma: u8,
    cbp_chroma: u8,
    is_16x16: bool,
    room: int,
)
    ensures
        cavlc_residual(data, pos, counts, mb_x, mb_y, cbp_luma, cbp_chroma, is_16x16, room)
            matches Ok(t) ==> t.out.has_blocks() && t.out.significant(),
{
    let w = CavlcWork { pos, counts, out: no_residual(), room };
    let (x, y) = (4 * mb_x, 4 * mb_y);
    lemma_coded_block(data, w.pos, w.counts.nc_luma(x, y), 16, w.room);
    let dc = if is_16x16 {
        cavlc_luma_dc(data, w, mb_x, mb_y)
    } else {
        Ok(w)
    };
    if let Ok(w1) = dc {
        lemma_cavlc_luma(data, w1, mb_x, mb_y, cbp_luma, is_16x16, 0);
        if let Ok(w2) = cavlc_luma_from(data, w1, mb_x, mb_y, cbp_luma, is_16x16, 0) {
            lemma_cavlc_chroma_dc(data, w2, cbp_chroma, 0);
            if let Ok(w3) = cavlc_chroma_dc_from(data, w2, cbp_chroma, 0) {
                lemma_cavlc_chroma_ac(data, w3, mb_x, mb_y, cbp_chroma, 0);
            }
        }
    }
}

proof fn lemma_cavlc_coefficients(
    data: Seq<u8>,
    st: CavlcState,
    mb: MbKind,
    cbp_luma: u8,
    cbp_chroma: u8,
    mb_x: int,
    mb_y: int,
)
    ensures
        cavlc_coefficients(data, st, mb, cbp_luma, cbp_chroma, mb_x, mb_y) matches Ok((out, t))
            ==> out.has_blocks() && out.significant() && (0 <= st.qpy < 52 ==> 0 <= t.qpy < 52),
{
    reveal(cavlc_coefficients);
    if let Ok((delta, end)) = crate::golomb::se(data, st.pos, -26, 25) {
        lemma_cavlc_residual(
            data,
            end,
            st.counts,
            mb_x,
            mb_y,
            cbp_luma,
            cbp_chroma,
            mb is Intra16x16,
            st.room,
        );
    }
}

/// A variable-length coded macroblock stores blocks that have coefficients,
/// none of which is zero, and its quantiser stays in range.
pub proof fn law_cavlc_macroblock_stores_no_zero(
    data: Seq<u8>,
    st: CavlcState,
    sps: Sps,
    header: SliceHeader,
    mb_x: u32,
    mb_y: u32,
    field: Option<&ColocatedField>,
)
    ensures
        cavlc_macroblock(data, st, sps, header, mb_x, mb_y, field) matches Ok((out, t)) ==> {
            &&& out.has_blocks()
            &&& out.significant()
            &&& 0 <= st.qpy < 52 ==> 0 <= t.qpy < 52
        },
{
    let (x, y) = (mb_x as int, mb_y as int);
    if let Ok((code, p0)) = ue(data, st.pos, 48) {
        if let Ok(mb) = mb_kind(header.kind, code) {
            if let Ok(p) = cavlc_prediction(data, p0, st.grids, sps, header, mb, code, x, y, field) {
                if let Ok((luma, chroma, p2)) = cavlc_pattern(data, p.pos, mb) {
                    let at = CavlcState { pos: p2, grids: p.grids, ..st };
                    lemma_cavlc_coefficients(data, at, mb, luma, chroma, x, y);
                }
            }
        }
    }
}

// ----------------------------------------------------------------- arithmetic
proof fn lemma_flagged_block(
    s: Source,
    t: CtxTable,
    inc: int,
    cat: ContextCategory,
    max: u8,
    room: int,
)
    requires
        max >= 1,
    ensures
        flagged_block(s, t, inc, cat, max, room) matches Ok((b, _, _)) ==> absent_or_significant(b),
{
    let (_, s1) = crate::cabac_syntax::bit(s, t, inc);
    law_residual_shape(s1, cat, max, room);
}

proof fn lemma_cabac_luma(
    w: CabacWork,
    mb_x: int,
    mb_y: int,
    cbp_luma: u8,
    is_16x16: bool,
    intra: bool,
    blk: int,
)
    requires
        0 <= blk,
        w.out.has_blocks() && w.out.significant(),
    ensures
        cabac_luma_from(w, mb_x, mb_y, cbp_luma, is_16x16, intra, blk) matches Ok(t)
            ==> t.out.has_blocks() && t.out.significant(),
    decreases 16 - blk,
{
    if blk < 16 {
        let (bx, by) = blk_pos(blk);
        let (x, y) = (4 * mb_x + bx, 4 * mb_y + by);
        if luma_coded(cbp_luma, blk / 4) {
            let inc = flag_inc(
                around(w.g.left_of(mb_x, mb_y), bx == 0),
                w.g.luma_flag(x - 1, y),
                around(w.g.above(mb_x, mb_y), by == 0),
                w.g.luma_flag(x, y - 1),
                intra,
            );
            let (table, cat, max) = if is_16x16 {
                (CtxTable::CbfLumaAc, ContextCategory::LumaAc, 15u8)
            } else {
                (CtxTable::CbfLuma4x4, ContextCategory::Luma4x4, 16u8)
            };
            lemma_flagged_block(w.s, table, inc, cat, max, w.room);
            if let Ok((block, s, room)) = flagged_block(w.s, table, inc, cat, max, w.room) {
                lemma_put(w.out.luma_ac, blk, block);
                let next = CabacWork {
                    s,
                    g: w.g.with_luma_flag(x, y, block is Some),
                    out: Residuals { luma_ac: put(w.out.luma_ac, blk, block), ..w.out },
                    room,
                };
                lemma_cabac_luma(next, mb_x, mb_y, cbp_luma, is_16x16, intra, blk + 1);
            }
        } else {
            let next = CabacWork { g: w.g.with_luma_flag(x, y, false), ..w };
            lemma_cabac_luma(next, mb_x, mb_y, cbp_luma, is_16x16, intra, blk + 1);
        }
    }
}

proof fn lemma_cabac_luma8(w: CabacWork, mb_x: int, mb_y: int, cbp_luma: u8, quad: int)
    requires
        0 <= quad,
        w.out.has_blocks() && w.out.significant(),
    ensures
        cabac_luma8_from(w, mb_x, mb_y, cbp_luma, quad) matches Ok(t) ==> t.out.has_blocks()
            && t.out.significant(),
    decreases 4 - quad,
{
    if quad < 4 {
        if luma_coded(cbp_luma, quad) {
            law_residual_shape(w.s, ContextCategory::Luma8x8, 64, w.room);
            if let Ok((block, s)) = residual(w.s, ContextCategory::Luma8x8, 64, w.room) {
                lemma_put(w.out.luma8x8, quad, Some(block));
                let next = CabacWork {
                    s,
                    g: with_quadrant_flags(w.g, mb_x, mb_y, quad, true),
                    out: Residuals { luma8x8: w.out.luma8x8.update(quad, Some(block)), ..w.out },
                    room: w.room - block.charge(),
                };
                lemma_cabac_luma8(next, mb_x, mb_y, cbp_luma, quad + 1);
            }
        } else {
            let next = CabacWork { g: with_quadrant_flags(w.g, mb_x, mb_y, quad, false), ..w };
            lemma_cabac_luma8(next, mb_x, mb_y, cbp_luma, quad + 1);
        }
    }
}

proof fn lemma_cabac_chroma_dc(
    w: CabacWork,
    mb_x: int,
    mb_y: int,
    cbp_chroma: u8,
    intra: bool,
    comp: int,
)
    requires
        0 <= comp,
        w.out.has_blocks() && w.out.significant(),
    ensures
        cabac_chroma_dc_from(w, mb_x, mb_y, cbp_chroma, intra, comp) matches Ok(t)
            ==> t.out.has_blocks() && t.out.significant(),
    decreases 2 - comp,
{
    if comp < 2 {
        if chroma_dc_coded(cbp_chroma) {
            let (left, above) = (w.g.left_of(mb_x, mb_y), w.g.above(mb_x, mb_y));
            let inc = flag_inc(
                left,
                chroma_dc_flag_of(left, w.g.chroma_dc_flag(comp, mb_x - 1, mb_y)),
                above,
                chroma_dc_flag_of(above, w.g.chroma_dc_flag(comp, mb_x, mb_y - 1)),
                intra,
            );
            let (table, cat) = (CtxTable::CbfChromaDc, ContextCategory::ChromaDc);
            lemma_flagged_block(w.s, table, inc, cat, 4, w.room);
            if let Ok((block, s, room)) = flagged_block(w.s, table, inc, cat, 4, w.room) {
                lemma_put(w.out.chroma_dc, comp, block);
                let next = CabacWork {
                    s,
                    g: w.g.with_chroma_dc_flag(comp, mb_x, mb_y, block is Some),
                    out: Residuals { chroma_dc: put(w.out.chroma_dc, comp, block), ..w.out },
                    room,
                };
                lemma_cabac_chroma_dc(next, mb_x, mb_y, cbp_chroma, intra, comp + 1);
            }
        } else {
            let next = CabacWork { g: w.g.with_chroma_dc_flag(comp, mb_x, mb_y, false), ..w };
            lemma_cabac_chroma_dc(next, mb_x, mb_y, cbp_chroma, intra, comp + 1);
        }
    }
}

proof fn lemma_cabac_chroma_ac(
    w: CabacWork,
    mb_x: int,
    mb_y: int,
    cbp_chroma: u8,
    intra: bool,
    k: int,
)
    requires
        0 <= k,
        w.out.has_blocks() && w.out.significant(),
    ensures
        cabac_chroma_ac_from(w, mb_x, mb_y, cbp_chroma, intra, k) matches Ok(t)
            ==> t.out.has_blocks() && t.out.significant(),
    decreases 8 - k,
{
    if k < 8 {
        let comp = k / 4;
        let (bx, by) = (blk_pos(k % 4).0, blk_pos(k % 4).1);
        let (x, y) = (2 * mb_x + bx % 2, 2 * mb_y + by % 2);
        if chroma_ac_coded(cbp_chroma) {
            let inc = flag_inc(
                around(w.g.left_of(mb_x, mb_y), bx == 0),
                w.g.chroma_flag(comp, x - 1, y),
                around(w.g.above(mb_x, mb_y), by == 0),
                w.g.chroma_flag(comp, x, y - 1),
                intra,
            );
            let (table, cat) = (CtxTable::CbfChromaAc, ContextCategory::ChromaAc);
            lemma_flagged_block(w.s, table, inc, cat, 15, w.room);
            if let Ok((block, s, room)) = flagged_block(w.s, table, inc, cat, 15, w.room) {
                lemma_put(w.out.chroma_ac, k, block);
                let next = CabacWork {
                    s,
                    g: w.g.with_chroma_flag(comp, x, y, block is Some),
                    out: Residuals { chroma_ac: put(w.out.chroma_ac, k, block), ..w.out },
                    room,
                };
                lemma_cabac_chroma_ac(next, mb_x, mb_y, cbp_chroma, intra, k + 1);
            }
        } else {
            let next = CabacWork { g: w.g.with_chroma_flag(comp, x, y, false), ..w };
            lemma_cabac_chroma_ac(next, mb_x, mb_y, cbp_chroma, intra, k + 1);
        }
    }
}

proof fn lemma_cabac_luma_dc(w: CabacWork, mb_x: int, mb_y: int, intra: bool)
    requires
        w.out.has_blocks() && w.out.significant(),
    ensures
        cabac_luma_dc(w, mb_x, mb_y, intra) matches Ok(t) ==> t.out.has_blocks()
            && t.out.significant(),
{
    let (left, above) = (w.g.left_of(mb_x, mb_y), w.g.above(mb_x, mb_y));
    let inc = flag_inc(
        left,
        dc_flag_of(left, w.g.luma_dc_flag(mb_x - 1, mb_y)),
        above,
        dc_flag_of(above, w.g.luma_dc_flag(mb_x, mb_y - 1)),
        intra,
    );
    lemma_flagged_block(w.s, CtxTable::CbfLumaDc, inc, ContextCategory::LumaDc, 16, w.room);
}

proof fn lemma_cabac_coefficients(
    g: Grids,
    mb: MbKind,
    h: CabacHeader,
    mb_x: int,
    mb_y: int,
    room: int,
)
    ensures
        cabac_coefficients(g, mb, h, mb_x, mb_y, room) matches Ok((out, _, _)) ==> out.has_blocks()
            && out.significant(),
{
    reveal(cabac_coefficients);
    let w = CabacWork { s: h.s, g, out: no_residual(), room };
    let intra = mb.intra();
    lemma_cabac_luma_dc(w, mb_x, mb_y, intra);
    let dc = if mb is Intra16x16 {
        cabac_luma_dc(w, mb_x, mb_y, intra)
    } else {
        Ok(w)
    };
    if let Ok(w1) = dc {
        lemma_cabac_luma8(w1, mb_x, mb_y, h.cbp_luma, 0);
        lemma_cabac_luma(w1, mb_x, mb_y, h.cbp_luma, mb is Intra16x16, intra, 0);
        let luma = if h.transform_8x8 {
            cabac_luma8_from(w1, mb_x, mb_y, h.cbp_luma, 0)
        } else {
            cabac_luma_from(w1, mb_x, mb_y, h.cbp_luma, mb is Intra16x16, intra, 0)
        };
        if let Ok(w2) = luma {
            lemma_cabac_chroma_dc(w2, mb_x, mb_y, h.cbp_chroma, intra, 0);
            if let Ok(w3) = cabac_chroma_dc_from(w2, mb_x, mb_y, h.cbp_chroma, intra, 0) {
                lemma_cabac_chroma_ac(w3, mb_x, mb_y, h.cbp_chroma, intra, 0);
            }
        }
    }
}

/// An arithmetic-coded macroblock stores blocks that have coefficients, none of
/// which is zero.
pub proof fn law_cabac_macroblock_stores_no_zero(
    st: CabacState,
    sps: Sps,
    pps: Pps,
    header: SliceHeader,
    mb_x: u32,
    mb_y: u32,
    field: Option<&ColocatedField>,
    room: int,
)
    ensures
        cabac_macroblock(st, sps, pps, header, mb_x, mb_y, field, room) matches Ok((out, _))
            ==> out.has_blocks() && out.significant(),
{
    let (x, y) = (mb_x as int, mb_y as int);
    if let Ok((mb, code, s0)) = cabac_kind(st.s, st.g, pps, header, x, y) {
        if let Ok(p) = cabac_prediction(s0, st.g, sps, header, mb, code, x, y, field) {
            let h = cabac_header(p.s, p.g, pps, mb, p.large, st.prev, x, y);
            lemma_cabac_coefficients(p.g, mb, h, x, y, room);
        }
    }
}

} // verus!
