//! The macroblock layer of arithmetic-coded slices.
use vstd::prelude::*;
use crate::bins::{BinSource, CtxTable, Source};
use crate::budget::{Budget, Fault};
use crate::cabac_residual::{
    residual, residual_block_cabac, room_after_refusal, Block, CabacResidual, ContextCategory,
};
use crate::cabac_syntax::{
    bit, cbf_cond_term, cbf_term, cbp_chroma_cond_term, cbp_chroma_term, cbp_luma_cond_term,
    cbp_luma_term, decode_bit, decode_mb_type_b, decode_mb_type_i_table, decode_mb_type_p,
    intra_chroma_cond_term, intra_chroma_term, least, mb_type_b, mb_type_b_cond_term,
    mb_type_b_term, mb_type_i, mb_type_i_cond_term, mb_type_i_term, mb_type_p, no_previous,
    qp_delta_bins_from, qp_delta_ctx_inc, qp_delta_inc, transform_8x8_cond_term,
    transform_8x8_term, PrevMbQp,
};
use crate::coder::{ArithmeticDecoder, Coder};
use crate::dequant::{next_qpy, next_qpy_spec};
use crate::direct::ColocatedField;
use crate::error::Error;
use crate::golomb::{se_value, signed_of};
use crate::grids::{
    addressable, blk_pos, blk_xy, own_mb_info, CabacGrids, CabacMbInfo, Grids,
};
use crate::headers::{Pps, SliceHeader, Sps};
use crate::inter::{Syntax, SyntaxReader};
use crate::mb_cavlc::{
    chroma_ac_coded, chroma_dc_coded, gather_facts, is_luma_coded, luma_coded, mb_facts, open_from,
    placed,
};
use crate::mb_residual::{
    averaging, lemma_absent_charges, lemma_charge_update, no_residual, put_block, MbResidual,
    Residuals,
};
use crate::mb_type::{classify_mb_type, mb_kind, MbKind, SliceKind};
use crate::prediction::{
    decode_inter_prediction, decode_modes4, decode_modes8, inter_prediction, modes4_from,
    modes8_from,
};

verus! {

// ------------------------------------------------------------------- patterns
/// The luma pattern from quadrant `q` on. Each quadrant's context depends on
/// whether the quadrants left of and above it are coded, in this macroblock or
/// in the neighbouring one.
pub open spec fn luma_pattern_from(s: Source, g: Grids, mb_x: int, mb_y: int, q: int, cbp: u8) -> (
    u8,
    Source,
)
    decreases 4 - q,
{
    if q >= 4 {
        (cbp, s)
    } else {
        let inc = quadrant_term(g.left_of(mb_x, mb_y), q % 2 == 1, q - 1, q + 1, cbp) + 2
            * quadrant_term(g.above(mb_x, mb_y), q >= 2, q - 2, q + 2, cbp);
        let (b, s1) = bit(s, CtxTable::CbpLuma, inc);
        luma_pattern_from(
            s1,
            g,
            mb_x,
            mb_y,
            q + 1,
            (cbp + b * quadrant_value(q)) as u8,
        )
    }
}

/// What a neighbouring quadrant contributes: quadrant `own` of this macroblock
/// where it lies inside, quadrant `other` of the neighbour otherwise.
pub open spec fn quadrant_term(
    neighbour: Option<CabacMbInfo>,
    inside: bool,
    own: int,
    other: int,
    cbp: u8,
) -> int {
    if inside {
        cbp_luma_term(Some(luma_coded(cbp, own)), None)
    } else {
        cbp_luma_term(
            None,
            match neighbour {
                Some(info) => Some((info, luma_coded(info.cbp_luma, other))),
                None => None,
            },
        )
    }
}

/// The pattern's bit of a quadrant.
pub open spec fn quadrant_value(q: int) -> int {
    if q == 0 {
        1
    } else if q == 1 {
        2
    } else if q == 2 {
        4
    } else {
        8
    }
}

/// The chroma pattern: nothing, DC only, or everything.
pub open spec fn chroma_pattern(s: Source, g: Grids, mb_x: int, mb_y: int) -> (u8, Source) {
    let (left, above) = (g.left_of(mb_x, mb_y), g.above(mb_x, mb_y));
    let (b0, s0) = bit(
        s,
        CtxTable::CbpChroma,
        cbp_chroma_term(left, 0) + 2 * cbp_chroma_term(above, 0),
    );
    if b0 == 0 {
        (0, s0)
    } else {
        let (b1, s1) = bit(
            s0,
            CtxTable::CbpChroma,
            4 + cbp_chroma_term(left, 1) + 2 * cbp_chroma_term(above, 1),
        );
        ((1 + b1) as u8, s1)
    }
}

/// The coded block pattern of a macroblock.
pub open spec fn coded_pattern(s: Source, g: Grids, mb_x: int, mb_y: int) -> (u8, u8, Source) {
    let (luma, s1) = luma_pattern_from(s, g, mb_x, mb_y, 0, 0);
    let (chroma, s2) = chroma_pattern(s1, g, mb_x, mb_y);
    (luma, chroma, s2)
}

fn quadrant_cond_term(
    neighbour: Option<CabacMbInfo>,
    inside: bool,
    own: u32,
    other: u32,
    cbp: u8,
) -> (n: u32)
    ensures
        n == quadrant_term(neighbour, inside, own as int, other as int, cbp),
        n <= 1,
{
    if inside {
        cbp_luma_cond_term(Some(is_luma_coded(cbp, own)), None)
    } else {
        let cross: Option<(CabacMbInfo, bool)> = match neighbour {
            Some(info) => Some((info, is_luma_coded(info.cbp_luma, other))),
            None => None,
        };
        cbp_luma_cond_term(None, cross)
    }
}

/// Nothing stops a macroblock from asking for its left and upper neighbour:
/// neither is being decoded.
pub open spec fn asks_neighbours(g: Grids, mb_x: u32, mb_y: u32) -> bool {
    g.current == Some((mb_x, mb_y)) || g.current is None
}

/// Reads the coded block pattern of a macroblock.
pub fn decode_cbp_cabac<B: BinSource>(
    bins: &mut B,
    grids: &CabacGrids,
    mb_x: u32,
    mb_y: u32,
) -> (r: (u8, u8))
    requires
        old(bins).wf(),
        grids.wf(),
        asks_neighbours(grids@, mb_x, mb_y),
    ensures
        final(bins).wf(),
        (r.0, r.1, final(bins).source()) == coded_pattern(
            old(bins).source(),
            grids@,
            mb_x as int,
            mb_y as int,
        ),
        r.0 <= 15,
        r.1 <= 2,
{
    let left: Option<CabacMbInfo> = grids.mb_left(mb_x, mb_y);
    let above: Option<CabacMbInfo> = grids.mb_above(mb_x, mb_y);
    let mut cbp_luma: u8 = 0;
    let mut weight: u8 = 1;
    for q in 0..4u32
        invariant
            bins.wf(),
            left == grids@.left_of(mb_x as int, mb_y as int),
            above == grids@.above(mb_x as int, mb_y as int),
            q == 0 ==> weight == 1,
            q == 1 ==> weight == 2,
            q == 2 ==> weight == 4,
            q == 3 ==> weight == 8,
            q == 4 ==> weight == 16,
            cbp_luma < weight,
            luma_pattern_from(old(bins).source(), grids@, mb_x as int, mb_y as int, 0, 0)
                == luma_pattern_from(
                bins.source(),
                grids@,
                mb_x as int,
                mb_y as int,
                q as int,
                cbp_luma,
            ),
    {
        let a: u32 = quadrant_cond_term(
            left,
            q % 2 == 1,
            if q > 0 {
                q - 1
            } else {
                0
            },
            q + 1,
            cbp_luma,
        );
        let b: u32 = quadrant_cond_term(
            above,
            q >= 2,
            if q > 1 {
                q - 2
            } else {
                0
            },
            q + 2,
            cbp_luma,
        );
        let coded: u32 = decode_bit(bins, CtxTable::CbpLuma, (a + 2 * b) as usize);
        if coded == 1 {
            cbp_luma = cbp_luma + weight;
        }
        weight = weight * 2;
    }
    let inc0: u32 = cbp_chroma_cond_term(left, 0) + 2 * cbp_chroma_cond_term(above, 0);
    let cbp_chroma: u8 = if decode_bit(bins, CtxTable::CbpChroma, inc0 as usize) == 0 {
        0
    } else {
        let inc1: u32 = 4 + cbp_chroma_cond_term(left, 1) + 2 * cbp_chroma_cond_term(above, 1);
        1 + decode_bit(bins, CtxTable::CbpChroma, inc1 as usize) as u8
    };
    (cbp_luma, cbp_chroma)
}

// -------------------------------------------------------------------- residual
/// The context of a coded-block flag, from the macroblocks around and the
/// neighbouring blocks' own flags where they are known.
pub open spec fn flag_inc(
    left_mb: Option<CabacMbInfo>,
    left: Option<bool>,
    above_mb: Option<CabacMbInfo>,
    above: Option<bool>,
    intra: bool,
) -> int {
    cbf_term(left_mb, left is Some, left == Some(true), intra) + 2 * cbf_term(
        above_mb,
        above is Some,
        above == Some(true),
        intra,
    )
}

/// A block with a flag in front: its coefficients if the flag is set, what
/// follows, and what the budget then allows.
pub open spec fn flagged_block(
    s: Source,
    t: CtxTable,
    inc: int,
    cat: ContextCategory,
    max: u8,
    room: int,
) -> Result<(Option<Block>, Source, int), Fault> {
    let (b, s1) = bit(s, t, inc);
    if b == 0 {
        Ok((None, s1, room))
    } else {
        match residual(s1, cat, max, room) {
            Err(error) => Err(Fault { error, room: room_after_refusal(max, room) }),
            Ok((block, s2)) => Ok((Some(block), s2, room - block.charge())),
        }
    }
}

fn flag_ctx_inc(
    left_mb: Option<CabacMbInfo>,
    left: Option<bool>,
    above_mb: Option<CabacMbInfo>,
    above: Option<bool>,
    intra: bool,
) -> (n: usize)
    ensures
        n == flag_inc(left_mb, left, above_mb, above, intra),
        n <= 3,
{
    let left_set: bool = match left {
        Some(b) => b,
        None => false,
    };
    let above_set: bool = match above {
        Some(b) => b,
        None => false,
    };
    let a: u32 = cbf_cond_term(left_mb, left.is_some(), left_set, intra);
    let b: u32 = cbf_cond_term(above_mb, above.is_some(), above_set, intra);
    (a + 2 * b) as usize
}

fn read_flagged_block<B: BinSource>(
    bins: &mut B,
    t: CtxTable,
    inc: usize,
    cat: ContextCategory,
    max: u8,
    budget: &mut Budget,
) -> (r: Result<Option<CabacResidual>, Error>)
    requires
        old(bins).wf(),
        inc < crate::bins::table_size(t),
        max >= 1,
    ensures
        final(bins).wf(),
        final(budget).limit == old(budget).limit,
        final(budget).committed >= old(budget).committed,
        match flagged_block(old(bins).source(), t, inc as int, cat, max, old(budget).room()) {
            Ok((block, s, room)) => {
                &&& r matches Ok(x)
                &&& match block {
                    Some(b) => x matches Some(y) && y@ == b && final(budget).committed == old(
                        budget).committed + b.charge(),
                    None => x is None && final(budget).committed == old(budget).committed,
                }
                &&& final(bins).source() == s
                &&& final(budget).room() == room
            },
            Err(f) => r matches Err(e) && e == f.error && final(budget).room() == f.room,
        },
{
    if decode_bit(bins, t, inc) == 0 {
        return Ok(None);
    }
    let block: CabacResidual = residual_block_cabac(bins, cat, max, budget)?;
    Ok(Some(block))
}

/// The coefficients of a macroblock while they are being read.
pub struct CabacWork {
    pub s: Source,
    pub g: Grids,
    pub out: Residuals,
    pub room: int,
}

/// A neighbouring macroblock's luma DC flag, where it has one.
pub open spec fn dc_flag_of(neighbour: Option<CabacMbInfo>, stored: Option<bool>) -> Option<bool> {
    match neighbour {
        Some(i) => if i.is_intra16x16 {
            Some(stored == Some(true))
        } else {
            None
        },
        None => None,
    }
}

fn get_dc_flag(neighbour: Option<CabacMbInfo>, stored: Option<bool>) -> (r: Option<bool>)
    ensures
        r == dc_flag_of(neighbour, stored),
{
    match neighbour {
        Some(i) => if i.is_intra16x16 {
            match stored {
                Some(b) => Some(b),
                None => Some(false),
            }
        } else {
            None
        },
        None => None,
    }
}

/// The luma DC block of a sixteen-by-sixteen prediction.
pub open spec fn cabac_luma_dc(w: CabacWork, mb_x: int, mb_y: int, intra: bool) -> Result<
    CabacWork,
    Fault,
> {
    let (left, above) = (w.g.left_of(mb_x, mb_y), w.g.above(mb_x, mb_y));
    let inc = flag_inc(
        left,
        dc_flag_of(left, w.g.luma_dc_flag(mb_x - 1, mb_y)),
        above,
        dc_flag_of(above, w.g.luma_dc_flag(mb_x, mb_y - 1)),
        intra,
    );
    match flagged_block(w.s, CtxTable::CbfLumaDc, inc, ContextCategory::LumaDc, 16, w.room) {
        Err(e) => Err(e),
        Ok((block, s, room)) => Ok(
            CabacWork {
                s,
                g: w.g.with_luma_dc_flag(mb_x, mb_y, block is Some),
                out: Residuals { luma_dc: block, ..w.out },
                room,
            },
        ),
    }
}

/// The facts around a block: those of the neighbouring macroblock at an edge,
/// those of its own elsewhere.
pub open spec fn around(neighbour: Option<CabacMbInfo>, at_edge: bool) -> Option<CabacMbInfo> {
    if at_edge {
        neighbour
    } else {
        Some(own_mb_info())
    }
}

/// The luma blocks from block `blk` on.
pub open spec fn cabac_luma_from(
    w: CabacWork,
    mb_x: int,
    mb_y: int,
    cbp_luma: u8,
    is_16x16: bool,
    intra: bool,
    blk: int,
) -> Result<CabacWork, Fault>
    decreases 16 - blk,
{
    if blk >= 16 {
        Ok(w)
    } else {
        let (bx, by) = blk_pos(blk);
        let (x, y) = (4 * mb_x + bx, 4 * mb_y + by);
        if luma_coded(cbp_luma, blk / 4) {
            let inc = flag_inc(
                around(w.g.left_of(mb_x, mb_y), bx == 0),
                w.g.luma_flag(x - 1, y),
                around(w.g.above(mb_x, mb_y), by == 0),
                w.g.luma_flag(x, y - 1),
                intra,
            );
            let read = if is_16x16 {
                flagged_block(w.s, CtxTable::CbfLumaAc, inc, ContextCategory::LumaAc, 15, w.room)
            } else {
                flagged_block(w.s, CtxTable::CbfLuma4x4, inc, ContextCategory::Luma4x4, 16, w.room)
            };
            match read {
                Err(e) => Err(e),
                Ok((block, s, room)) => cabac_luma_from(
                    CabacWork {
                        s,
                        g: w.g.with_luma_flag(x, y, block is Some),
                        out: Residuals { luma_ac: placed(w.out.luma_ac, blk, block), ..w.out },
                        room,
                    },
                    mb_x,
                    mb_y,
                    cbp_luma,
                    is_16x16,
                    intra,
                    blk + 1,
                ),
            }
        } else {
            cabac_luma_from(
                CabacWork { g: w.g.with_luma_flag(x, y, false), ..w },
                mb_x,
                mb_y,
                cbp_luma,
                is_16x16,
                intra,
                blk + 1,
            )
        }
    }
}

/// The grids with the flags of a quadrant's four blocks written.
pub open spec fn with_quadrant_flags(g: Grids, mb_x: int, mb_y: int, quad: int, v: bool) -> Grids {
    let (x, y) = (4 * mb_x + 2 * (quad % 2), 4 * mb_y + 2 * (quad / 2));
    g.with_luma_flag(x, y, v).with_luma_flag(x + 1, y, v).with_luma_flag(
        x,
        y + 1,
        v,
    ).with_luma_flag(x + 1, y + 1, v)
}

/// The eight-by-eight luma blocks from quadrant `quad` on. They have no flags:
/// the pattern alone says which are coded.
pub open spec fn cabac_luma8_from(w: CabacWork, mb_x: int, mb_y: int, cbp_luma: u8, quad: int) -> Result<
    CabacWork,
    Fault,
>
    decreases 4 - quad,
{
    if quad >= 4 {
        Ok(w)
    } else if luma_coded(cbp_luma, quad) {
        match residual(w.s, ContextCategory::Luma8x8, 64, w.room) {
            Err(error) => Err(Fault { error, room: room_after_refusal(64, w.room) }),
            Ok((block, s)) => cabac_luma8_from(
                CabacWork {
                    s,
                    g: with_quadrant_flags(w.g, mb_x, mb_y, quad, true),
                    out: Residuals { luma8x8: w.out.luma8x8.update(quad, Some(block)), ..w.out },
                    room: w.room - block.charge(),
                },
                mb_x,
                mb_y,
                cbp_luma,
                quad + 1,
            ),
        }
    } else {
        cabac_luma8_from(
            CabacWork { g: with_quadrant_flags(w.g, mb_x, mb_y, quad, false), ..w },
            mb_x,
            mb_y,
            cbp_luma,
            quad + 1,
        )
    }
}

/// A neighbouring macroblock's chroma DC flag, where it has one.
pub open spec fn chroma_dc_flag_of(
    neighbour: Option<CabacMbInfo>,
    stored: Option<bool>,
) -> Option<bool> {
    match neighbour {
        Some(i) => if !i.skipped && !i.is_ipcm && i.cbp_chroma != 0 {
            Some(stored == Some(true))
        } else {
            None
        },
        None => None,
    }
}

fn get_chroma_dc_flag(neighbour: Option<CabacMbInfo>, stored: Option<bool>) -> (r: Option<bool>)
    ensures
        r == chroma_dc_flag_of(neighbour, stored),
{
    match neighbour {
        Some(i) => if !i.skipped && !i.is_ipcm && i.cbp_chroma != 0 {
            match stored {
                Some(b) => Some(b),
                None => Some(false),
            }
        } else {
            None
        },
        None => None,
    }
}

/// The chroma DC blocks from component `comp` on.
pub open spec fn cabac_chroma_dc_from(
    w: CabacWork,
    mb_x: int,
    mb_y: int,
    cbp_chroma: u8,
    intra: bool,
    comp: int,
) -> Result<CabacWork, Fault>
    decreases 2 - comp,
{
    if comp >= 2 {
        Ok(w)
    } else if chroma_dc_coded(cbp_chroma) {
        let (left, above) = (w.g.left_of(mb_x, mb_y), w.g.above(mb_x, mb_y));
        let inc = flag_inc(
            left,
            chroma_dc_flag_of(left, w.g.chroma_dc_flag(comp, mb_x - 1, mb_y)),
            above,
            chroma_dc_flag_of(above, w.g.chroma_dc_flag(comp, mb_x, mb_y - 1)),
            intra,
        );
        match flagged_block(
            w.s,
            CtxTable::CbfChromaDc,
            inc,
            ContextCategory::ChromaDc,
            4,
            w.room,
        ) {
            Err(e) => Err(e),
            Ok((block, s, room)) => cabac_chroma_dc_from(
                CabacWork {
                    s,
                    g: w.g.with_chroma_dc_flag(comp, mb_x, mb_y, block is Some),
                    out: Residuals { chroma_dc: placed(w.out.chroma_dc, comp, block), ..w.out },
                    room,
                },
                mb_x,
                mb_y,
                cbp_chroma,
                intra,
                comp + 1,
            ),
        }
    } else {
        cabac_chroma_dc_from(
            CabacWork { g: w.g.with_chroma_dc_flag(comp, mb_x, mb_y, false), ..w },
            mb_x,
            mb_y,
            cbp_chroma,
            intra,
            comp + 1,
        )
    }
}

/// The chroma AC blocks from the `k`th on: four of each component.
pub open spec fn cabac_chroma_ac_from(
    w: CabacWork,
    mb_x: int,
    mb_y: int,
    cbp_chroma: u8,
    intra: bool,
    k: int,
) -> Result<CabacWork, Fault>
    decreases 8 - k,
{
    if k >= 8 {
        Ok(w)
    } else {
        let comp = k / 4;
        let (bx, by) = (blk_pos(k % 4).0, blk_pos(k % 4).1);
        let (x, y) = (2 * mb_x + bx % 2, 2 * mb_y + by % 2);
        if chroma_ac_coded(cbp_chroma) {
            let inc = flag_inc(
                around(w.g.left_of(mb_x, mb_y), bx == 0),
                w.g.chroma_flag(comp, x - 1, y),
                around(w.g.above(mb_x, mb_y), by == 0),
                w.g.chroma_flag(comp, x, y - 1),
                intra,
            );
            match flagged_block(
                w.s,
                CtxTable::CbfChromaAc,
                inc,
                ContextCategory::ChromaAc,
                15,
                w.room,
            ) {
                Err(e) => Err(e),
                Ok((block, s, room)) => cabac_chroma_ac_from(
                    CabacWork {
                        s,
                        g: w.g.with_chroma_flag(comp, x, y, block is Some),
                        out: Residuals { chroma_ac: placed(w.out.chroma_ac, k, block), ..w.out },
                        room,
                    },
                    mb_x,
                    mb_y,
                    cbp_chroma,
                    intra,
                    k + 1,
                ),
            }
        } else {
            cabac_chroma_ac_from(
                CabacWork { g: w.g.with_chroma_flag(comp, x, y, false), ..w },
                mb_x,
                mb_y,
                cbp_chroma,
                intra,
                k + 1,
            )
        }
    }
}

/// All coefficients of a macroblock.
pub open spec fn cabac_residual(
    s: Source,
    g: Grids,
    mb: MbKind,
    cbp_luma: u8,
    cbp_chroma: u8,
    transform_8x8: bool,
    mb_x: int,
    mb_y: int,
    room: int,
) -> Result<CabacWork, Fault> {
    let w = CabacWork { s, g, out: no_residual(), room };
    let intra = mb.intra();
    let dc = if mb is Intra16x16 {
        cabac_luma_dc(w, mb_x, mb_y, intra)
    } else {
        Ok(w)
    };
    match dc {
        Err(e) => Err(e),
        Ok(w1) => {
            let luma = if transform_8x8 {
                cabac_luma8_from(w1, mb_x, mb_y, cbp_luma, 0)
            } else {
                cabac_luma_from(w1, mb_x, mb_y, cbp_luma, mb is Intra16x16, intra, 0)
            };
            match luma {
                Err(e) => Err(e),
                Ok(w2) => match cabac_chroma_dc_from(w2, mb_x, mb_y, cbp_chroma, intra, 0) {
                    Err(e) => Err(e),
                    Ok(w3) => cabac_chroma_ac_from(w3, mb_x, mb_y, cbp_chroma, intra, 0),
                },
            }
        },
    }
}

/// The work as it stands in source, grids, output and budget.
pub open spec fn cabac_work(s: Source, grids: CabacGrids, out: MbResidual, budget: Budget) -> CabacWork {
    CabacWork { s, g: grids@, out: out@, room: budget.room() }
}

/// A step of the work: done exactly as stated, with the budget's charges those
/// of the blocks that were added.
pub open spec fn works(
    stated: Result<CabacWork, Fault>,
    v: Result<(), Error>,
    now: CabacWork,
    before: Residuals,
    charged: int,
) -> bool {
    match stated {
        Ok(w) => v is Ok && now == w && now.out.shaped() && charged == now.out.charge()
            - before.charge(),
        Err(f) => v == Err::<(), Error>(f.error) && now.room == f.room,
    }
}

#[verifier::loop_isolation(false)]
#[verifier::rlimit(50)]
fn read_luma_blocks<B: BinSource>(
    bins: &mut B,
    budget: &mut Budget,
    grids: &mut CabacGrids,
    out: &mut MbResidual,
    cbp_luma: u8,
    is_16x16: bool,
    intra: bool,
    mb_x: u32,
    mb_y: u32,
) -> (v: Result<(), Error>)
    requires
        old(bins).wf(),
        old(grids).wf(),
        old(grids)@.current == Some((mb_x, mb_y)),
        addressable(mb_x as int, mb_y as int),
        old(out)@.shaped(),
        open_from(old(out)@.luma_ac, 0),
    ensures
        final(bins).wf(),
        final(grids).wf(),
        final(grids).charged_bytes == old(grids).charged_bytes,
        final(grids)@.current == old(grids)@.current,
        final(budget).limit == old(budget).limit,
        final(budget).committed >= old(budget).committed,
        final(out)@ == (Residuals { luma_ac: final(out)@.luma_ac, ..old(out)@ }),
        works(
            cabac_luma_from(
                cabac_work(old(bins).source(), *old(grids), *old(out), *old(budget)),
                mb_x as int,
                mb_y as int,
                cbp_luma,
                is_16x16,
                intra,
                0,
            ),
            v,
            cabac_work(final(bins).source(), *final(grids), *final(out), *final(budget)),
            old(out)@,
            final(budget).committed - old(budget).committed,
        ),
{
    let ghost all = cabac_luma_from(
        cabac_work(old(bins).source(), *old(grids), *old(out), *old(budget)),
        mb_x as int,
        mb_y as int,
        cbp_luma,
        is_16x16,
        intra,
        0,
    );
    for blk in 0..16u32
        invariant
            bins.wf(),
            grids.wf(),
            grids.charged_bytes == old(grids).charged_bytes,
            grids@.current == old(grids)@.current,
            out@.shaped(),
            open_from(out@.luma_ac, blk as int),
            out@ == (Residuals { luma_ac: out@.luma_ac, ..old(out)@ }),
            budget.limit == old(budget).limit,
            budget.committed >= old(budget).committed,
            budget.committed - old(budget).committed == out@.charge() - old(out)@.charge(),
            all == cabac_luma_from(
                cabac_work(bins.source(), *grids, *out, *budget),
                mb_x as int,
                mb_y as int,
                cbp_luma,
                is_16x16,
                intra,
                blk as int,
            ),
    {
        let ghost before = out@;
        let (bx, by) = blk_xy(blk);
        let (x, y) = (mb_x * 4 + bx, mb_y * 4 + by);
        if is_luma_coded(cbp_luma, blk / 4) {
            let left_mb: Option<CabacMbInfo> = if bx == 0 {
                grids.mb_left(mb_x, mb_y)
            } else {
                Some(CabacGrids::current_macroblock_info())
            };
            let above_mb: Option<CabacMbInfo> = if by == 0 {
                grids.mb_above(mb_x, mb_y)
            } else {
                Some(CabacGrids::current_macroblock_info())
            };
            let left: Option<bool> = if x > 0 {
                grids.cbf_luma_at(x - 1, y)
            } else {
                None
            };
            let above: Option<bool> = if y > 0 {
                grids.cbf_luma_at(x, y - 1)
            } else {
                None
            };
            let inc: usize = flag_ctx_inc(left_mb, left, above_mb, above, intra);
            let block: Option<CabacResidual> = if is_16x16 {
                read_flagged_block(
                    bins,
                    CtxTable::CbfLumaAc,
                    inc,
                    ContextCategory::LumaAc,
                    15,
                    budget,
                )?
            } else {
                read_flagged_block(
                    bins,
                    CtxTable::CbfLuma4x4,
                    inc,
                    ContextCategory::Luma4x4,
                    16,
                    budget,
                )?
            };
            grids.set_cbf_luma(x, y, block.is_some());
            if let Some(b) = block {
                proof {
                    lemma_charge_update(before.luma_ac, blk as int, b@);
                }
                put_block(&mut out.luma_ac, blk as usize, b);
            }
        } else {
            grids.set_cbf_luma(x, y, false);
        }
    }
    Ok(())
}

#[verifier::loop_isolation(false)]
#[verifier::rlimit(30)]
fn read_luma8_blocks<B: BinSource>(
    bins: &mut B,
    budget: &mut Budget,
    grids: &mut CabacGrids,
    out: &mut MbResidual,
    cbp_luma: u8,
    mb_x: u32,
    mb_y: u32,
) -> (v: Result<(), Error>)
    requires
        old(bins).wf(),
        old(grids).wf(),
        addressable(mb_x as int, mb_y as int),
        old(out)@.shaped(),
        open_from(old(out)@.luma8x8, 0),
    ensures
        final(bins).wf(),
        final(grids).wf(),
        final(grids).charged_bytes == old(grids).charged_bytes,
        final(grids)@.current == old(grids)@.current,
        final(budget).limit == old(budget).limit,
        final(budget).committed >= old(budget).committed,
        final(out)@ == (Residuals { luma8x8: final(out)@.luma8x8, ..old(out)@ }),
        works(
            cabac_luma8_from(
                cabac_work(old(bins).source(), *old(grids), *old(out), *old(budget)),
                mb_x as int,
                mb_y as int,
                cbp_luma,
                0,
            ),
            v,
            cabac_work(final(bins).source(), *final(grids), *final(out), *final(budget)),
            old(out)@,
            final(budget).committed - old(budget).committed,
        ),
{
    let ghost all = cabac_luma8_from(
        cabac_work(old(bins).source(), *old(grids), *old(out), *old(budget)),
        mb_x as int,
        mb_y as int,
        cbp_luma,
        0,
    );
    for quad in 0..4u32
        invariant
            bins.wf(),
            grids.wf(),
            grids.charged_bytes == old(grids).charged_bytes,
            grids@.current == old(grids)@.current,
            out@.shaped(),
            open_from(out@.luma8x8, quad as int),
            out@ == (Residuals { luma8x8: out@.luma8x8, ..old(out)@ }),
            budget.limit == old(budget).limit,
            budget.committed >= old(budget).committed,
            budget.committed - old(budget).committed == out@.charge() - old(out)@.charge(),
            all == cabac_luma8_from(
                cabac_work(bins.source(), *grids, *out, *budget),
                mb_x as int,
                mb_y as int,
                cbp_luma,
                quad as int,
            ),
    {
        let ghost before = out@;
        let (x, y) = (mb_x * 4 + 2 * (quad % 2), mb_y * 4 + 2 * (quad / 2));
        let coded: bool = is_luma_coded(cbp_luma, quad);
        if coded {
            let block: CabacResidual = residual_block_cabac(
                bins,
                ContextCategory::Luma8x8,
                64,
                budget,
            )?;
            proof {
                lemma_charge_update(before.luma8x8, quad as int, block@);
            }
            put_block(&mut out.luma8x8, quad as usize, block);
        }
        grids.set_cbf_luma(x, y, coded);
        grids.set_cbf_luma(x + 1, y, coded);
        grids.set_cbf_luma(x, y + 1, coded);
        grids.set_cbf_luma(x + 1, y + 1, coded);
    }
    Ok(())
}

#[verifier::loop_isolation(false)]
#[verifier::rlimit(30)]
fn read_chroma_dc_blocks<B: BinSource>(
    bins: &mut B,
    budget: &mut Budget,
    grids: &mut CabacGrids,
    out: &mut MbResidual,
    cbp_chroma: u8,
    intra: bool,
    mb_x: u32,
    mb_y: u32,
) -> (v: Result<(), Error>)
    requires
        old(bins).wf(),
        old(grids).wf(),
        old(grids)@.current == Some((mb_x, mb_y)),
        old(out)@.shaped(),
        open_from(old(out)@.chroma_dc, 0),
    ensures
        final(bins).wf(),
        final(grids).wf(),
        final(grids).charged_bytes == old(grids).charged_bytes,
        final(grids)@.current == old(grids)@.current,
        final(budget).limit == old(budget).limit,
        final(budget).committed >= old(budget).committed,
        final(out)@ == (Residuals { chroma_dc: final(out)@.chroma_dc, ..old(out)@ }),
        works(
            cabac_chroma_dc_from(
                cabac_work(old(bins).source(), *old(grids), *old(out), *old(budget)),
                mb_x as int,
                mb_y as int,
                cbp_chroma,
                intra,
                0,
            ),
            v,
            cabac_work(final(bins).source(), *final(grids), *final(out), *final(budget)),
            old(out)@,
            final(budget).committed - old(budget).committed,
        ),
{
    let ghost all = cabac_chroma_dc_from(
        cabac_work(old(bins).source(), *old(grids), *old(out), *old(budget)),
        mb_x as int,
        mb_y as int,
        cbp_chroma,
        intra,
        0,
    );
    for comp in 0..2usize
        invariant
            bins.wf(),
            grids.wf(),
            grids.charged_bytes == old(grids).charged_bytes,
            grids@.current == old(grids)@.current,
            out@.shaped(),
            open_from(out@.chroma_dc, comp as int),
            out@ == (Residuals { chroma_dc: out@.chroma_dc, ..old(out)@ }),
            budget.limit == old(budget).limit,
            budget.committed >= old(budget).committed,
            budget.committed - old(budget).committed == out@.charge() - old(out)@.charge(),
            all == cabac_chroma_dc_from(
                cabac_work(bins.source(), *grids, *out, *budget),
                mb_x as int,
                mb_y as int,
                cbp_chroma,
                intra,
                comp as int,
            ),
    {
        let ghost before = out@;
        if cbp_chroma % 4 != 0 {
            let left_mb: Option<CabacMbInfo> = grids.mb_left(mb_x, mb_y);
            let above_mb: Option<CabacMbInfo> = grids.mb_above(mb_x, mb_y);
            let left: Option<bool> = if mb_x > 0 {
                get_chroma_dc_flag(left_mb, grids.cbf_chroma_dc_at(comp, mb_x - 1, mb_y))
            } else {
                None
            };
            let above: Option<bool> = if mb_y > 0 {
                get_chroma_dc_flag(above_mb, grids.cbf_chroma_dc_at(comp, mb_x, mb_y - 1))
            } else {
                None
            };
            let inc: usize = flag_ctx_inc(left_mb, left, above_mb, above, intra);
            let block: Option<CabacResidual> = read_flagged_block(
                bins,
                CtxTable::CbfChromaDc,
                inc,
                ContextCategory::ChromaDc,
                4,
                budget,
            )?;
            grids.set_cbf_chroma_dc(comp, mb_x, mb_y, block.is_some());
            if let Some(b) = block {
                proof {
                    lemma_charge_update(before.chroma_dc, comp as int, b@);
                }
                put_block(&mut out.chroma_dc, comp, b);
            }
        } else {
            grids.set_cbf_chroma_dc(comp, mb_x, mb_y, false);
        }
    }
    Ok(())
}

#[verifier::loop_isolation(false)]
#[verifier::rlimit(50)]
fn read_chroma_ac_blocks<B: BinSource>(
    bins: &mut B,
    budget: &mut Budget,
    grids: &mut CabacGrids,
    out: &mut MbResidual,
    cbp_chroma: u8,
    intra: bool,
    mb_x: u32,
    mb_y: u32,
) -> (v: Result<(), Error>)
    requires
        old(bins).wf(),
        old(grids).wf(),
        old(grids)@.current == Some((mb_x, mb_y)),
        addressable(mb_x as int, mb_y as int),
        old(out)@.shaped(),
        open_from(old(out)@.chroma_ac, 0),
    ensures
        final(bins).wf(),
        final(grids).wf(),
        final(grids).charged_bytes == old(grids).charged_bytes,
        final(grids)@.current == old(grids)@.current,
        final(budget).limit == old(budget).limit,
        final(budget).committed >= old(budget).committed,
        final(out)@ == (Residuals { chroma_ac: final(out)@.chroma_ac, ..old(out)@ }),
        works(
            cabac_chroma_ac_from(
                cabac_work(old(bins).source(), *old(grids), *old(out), *old(budget)),
                mb_x as int,
                mb_y as int,
                cbp_chroma,
                intra,
                0,
            ),
            v,
            cabac_work(final(bins).source(), *final(grids), *final(out), *final(budget)),
            old(out)@,
            final(budget).committed - old(budget).committed,
        ),
{
    let ghost all = cabac_chroma_ac_from(
        cabac_work(old(bins).source(), *old(grids), *old(out), *old(budget)),
        mb_x as int,
        mb_y as int,
        cbp_chroma,
        intra,
        0,
    );
    for k in 0..8u32
        invariant
            bins.wf(),
            grids.wf(),
            grids.charged_bytes == old(grids).charged_bytes,
            grids@.current == old(grids)@.current,
            out@.shaped(),
            open_from(out@.chroma_ac, k as int),
            out@ == (Residuals { chroma_ac: out@.chroma_ac, ..old(out)@ }),
            budget.limit == old(budget).limit,
            budget.committed >= old(budget).committed,
            budget.committed - old(budget).committed == out@.charge() - old(out)@.charge(),
            all == cabac_chroma_ac_from(
                cabac_work(bins.source(), *grids, *out, *budget),
                mb_x as int,
                mb_y as int,
                cbp_chroma,
                intra,
                k as int,
            ),
    {
        let ghost before = out@;
        let comp: usize = (k / 4) as usize;
        let (bx, by) = blk_xy(k % 4);
        let (x, y) = (mb_x * 2 + bx % 2, mb_y * 2 + by % 2);
        if (cbp_chroma / 2) % 2 == 1 {
            let left_mb: Option<CabacMbInfo> = if bx == 0 {
                grids.mb_left(mb_x, mb_y)
            } else {
                Some(CabacGrids::current_macroblock_info())
            };
            let above_mb: Option<CabacMbInfo> = if by == 0 {
                grids.mb_above(mb_x, mb_y)
            } else {
                Some(CabacGrids::current_macroblock_info())
            };
            let left: Option<bool> = if x > 0 {
                grids.cbf_chroma_at(comp, x - 1, y)
            } else {
                None
            };
            let above: Option<bool> = if y > 0 {
                grids.cbf_chroma_at(comp, x, y - 1)
            } else {
                None
            };
            let inc: usize = flag_ctx_inc(left_mb, left, above_mb, above, intra);
            let block: Option<CabacResidual> = read_flagged_block(
                bins,
                CtxTable::CbfChromaAc,
                inc,
                ContextCategory::ChromaAc,
                15,
                budget,
            )?;
            grids.set_cbf_chroma(comp, x, y, block.is_some());
            if let Some(b) = block {
                proof {
                    lemma_charge_update(before.chroma_ac, k as int, b@);
                }
                put_block(&mut out.chroma_ac, k as usize, b);
            }
        } else {
            grids.set_cbf_chroma(comp, x, y, false);
        }
    }
    Ok(())
}

fn read_luma_dc<B: BinSource>(
    bins: &mut B,
    budget: &mut Budget,
    grids: &mut CabacGrids,
    out: &mut MbResidual,
    intra: bool,
    mb_x: u32,
    mb_y: u32,
) -> (v: Result<(), Error>)
    requires
        old(bins).wf(),
        old(grids).wf(),
        old(grids)@.current == Some((mb_x, mb_y)),
        old(out)@.shaped(),
        old(out)@.luma_dc is None,
    ensures
        final(bins).wf(),
        final(grids).wf(),
        final(grids).charged_bytes == old(grids).charged_bytes,
        final(grids)@.current == old(grids)@.current,
        final(budget).limit == old(budget).limit,
        final(budget).committed >= old(budget).committed,
        final(out)@ == (Residuals { luma_dc: final(out)@.luma_dc, ..old(out)@ }),
        works(
            cabac_luma_dc(
                cabac_work(old(bins).source(), *old(grids), *old(out), *old(budget)),
                mb_x as int,
                mb_y as int,
                intra,
            ),
            v,
            cabac_work(final(bins).source(), *final(grids), *final(out), *final(budget)),
            old(out)@,
            final(budget).committed - old(budget).committed,
        ),
{
    let left_mb: Option<CabacMbInfo> = grids.mb_left(mb_x, mb_y);
    let above_mb: Option<CabacMbInfo> = grids.mb_above(mb_x, mb_y);
    let left: Option<bool> = if mb_x > 0 {
        get_dc_flag(left_mb, grids.cbf_luma_dc_at(mb_x - 1, mb_y))
    } else {
        None
    };
    let above: Option<bool> = if mb_y > 0 {
        get_dc_flag(above_mb, grids.cbf_luma_dc_at(mb_x, mb_y - 1))
    } else {
        None
    };
    let inc: usize = flag_ctx_inc(left_mb, left, above_mb, above, intra);
    let block: Option<CabacResidual> = read_flagged_block(
        bins,
        CtxTable::CbfLumaDc,
        inc,
        ContextCategory::LumaDc,
        16,
        budget,
    )?;
    grids.set_cbf_luma_dc(mb_x, mb_y, block.is_some());
    out.luma_dc = block;
    Ok(())
}

/// Reads all coefficients of a macroblock.
pub fn decode_residual_cabac<B: BinSource>(
    bins: &mut B,
    budget: &mut Budget,
    grids: &mut CabacGrids,
    mb: MbKind,
    cbp_luma: u8,
    cbp_chroma: u8,
    transform_8x8: bool,
    mb_x: u32,
    mb_y: u32,
) -> (v: Result<MbResidual, Error>)
    requires
        old(bins).wf(),
        old(grids).wf(),
        old(grids)@.current == Some((mb_x, mb_y)),
        addressable(mb_x as int, mb_y as int),
    ensures
        final(bins).wf(),
        final(grids).wf(),
        final(grids).charged_bytes == old(grids).charged_bytes,
        final(grids)@.current == old(grids)@.current,
        final(budget).limit == old(budget).limit,
        final(budget).committed >= old(budget).committed,
        match cabac_residual(
            old(bins).source(),
            old(grids)@,
            mb,
            cbp_luma,
            cbp_chroma,
            transform_8x8,
            mb_x as int,
            mb_y as int,
            old(budget).room(),
        ) {
            Ok(w) => {
                &&& v matches Ok(out)
                &&& cabac_work(final(bins).source(), *final(grids), out, *final(budget)) == w
                &&& out@.shaped()
                &&& out@.modes4 == averaging(16)
                &&& out@.modes8 == averaging(4)
                &&& final(budget).committed == old(budget).committed + out@.charge()
            },
            Err(f) => v matches Err(e) && e == f.error && final(budget).room() == f.room,
        },
{
    proof {
        lemma_absent_charges(16);
        lemma_absent_charges(2);
        lemma_absent_charges(8);
        lemma_absent_charges(4);
    }
    let mut out: MbResidual = MbResidual::default();
    assert(out@.charge() == 0);
    let intra: bool = mb.is_intra();
    let is_16x16: bool = matches!(mb, MbKind::Intra16x16 { .. });
    if is_16x16 {
        read_luma_dc(bins, budget, grids, &mut out, intra, mb_x, mb_y)?;
    }
    if transform_8x8 {
        read_luma8_blocks(bins, budget, grids, &mut out, cbp_luma, mb_x, mb_y)?;
    } else {
        read_luma_blocks(bins, budget, grids, &mut out, cbp_luma, is_16x16, intra, mb_x, mb_y)?;
    }
    read_chroma_dc_blocks(bins, budget, grids, &mut out, cbp_chroma, intra, mb_x, mb_y)?;
    read_chroma_ac_blocks(bins, budget, grids, &mut out, cbp_chroma, intra, mb_x, mb_y)?;
    Ok(out)
}

// --------------------------------------------------------------- uncoded blocks
/// The grids with the flags of all luma blocks from `blk` on cleared.
pub open spec fn with_luma_cleared(g: Grids, mb_x: int, mb_y: int, blk: int) -> Grids
    decreases 16 - blk,
{
    if blk >= 16 {
        g
    } else {
        with_luma_cleared(
            g.with_luma_flag(4 * mb_x + blk_pos(blk).0, 4 * mb_y + blk_pos(blk).1, false),
            mb_x,
            mb_y,
            blk + 1,
        )
    }
}

/// The grids with the flags of all chroma AC blocks from the `k`th on cleared.
pub open spec fn with_chroma_cleared(g: Grids, mb_x: int, mb_y: int, k: int) -> Grids
    decreases 8 - k,
{
    if k >= 8 {
        g
    } else {
        with_chroma_cleared(
            g.with_chroma_flag(
                k / 4,
                2 * mb_x + blk_pos(k % 4).0 % 2,
                2 * mb_y + blk_pos(k % 4).1 % 2,
                false,
            ),
            mb_x,
            mb_y,
            k + 1,
        )
    }
}

/// The grids with a macroblock's block flags cleared.
pub open spec fn with_flags_cleared(g: Grids, mb_x: int, mb_y: int) -> Grids {
    with_chroma_cleared(with_luma_cleared(g, mb_x, mb_y, 0), mb_x, mb_y, 0)
}

/// Clears a macroblock's block flags.
pub fn clear_flags(grids: &mut CabacGrids, mb_x: u32, mb_y: u32)
    requires
        old(grids).wf(),
        addressable(mb_x as int, mb_y as int),
    ensures
        final(grids).wf(),
        final(grids).charged_bytes == old(grids).charged_bytes,
        final(grids)@.current == old(grids)@.current,
        final(grids)@ == with_flags_cleared(old(grids)@, mb_x as int, mb_y as int),
{
    for blk in 0..16u32
        invariant
            grids.wf(),
            grids.charged_bytes == old(grids).charged_bytes,
            grids@.current == old(grids)@.current,
            addressable(mb_x as int, mb_y as int),
            with_luma_cleared(old(grids)@, mb_x as int, mb_y as int, 0) == with_luma_cleared(
                grids@,
                mb_x as int,
                mb_y as int,
                blk as int,
            ),
    {
        let (bx, by) = blk_xy(blk);
        grids.set_cbf_luma(mb_x * 4 + bx, mb_y * 4 + by, false);
    }
    let ghost middle = grids@;
    for k in 0..8u32
        invariant
            grids.wf(),
            grids.charged_bytes == old(grids).charged_bytes,
            grids@.current == old(grids)@.current,
            addressable(mb_x as int, mb_y as int),
            with_chroma_cleared(middle, mb_x as int, mb_y as int, 0) == with_chroma_cleared(
                grids@,
                mb_x as int,
                mb_y as int,
                k as int,
            ),
    {
        let (bx, by) = blk_xy(k % 4);
        grids.set_cbf_chroma((k / 4) as usize, mb_x * 2 + bx % 2, mb_y * 2 + by % 2, false);
    }
}

// ------------------------------------------------------------------ macroblock
/// What a slice carries from macroblock to macroblock.
pub struct CabacState {
    pub s: Source,
    pub g: Grids,
    pub prev: PrevMbQp,
    pub qpy: int,
}

/// The macroblock type code in a slice of each kind.
pub open spec fn cabac_mb_type(s: Source, g: Grids, kind: SliceKind, mb_x: int, mb_y: int) -> (
    int,
    Source,
) {
    let (left, above) = (g.left_of(mb_x, mb_y), g.above(mb_x, mb_y));
    match kind {
        SliceKind::I => mb_type_i(s, mb_type_i_term(left) + mb_type_i_term(above)),
        SliceKind::B => mb_type_b(s, mb_type_b_term(left) + mb_type_b_term(above)),
        _ => mb_type_p(s),
    }
}

/// Whether the transform covers whole quadrants.
pub open spec fn transform_flag(s: Source, g: Grids, mb_x: int, mb_y: int) -> (bool, Source) {
    let inc = transform_8x8_term(g.left_of(mb_x, mb_y)) + transform_8x8_term(g.above(mb_x, mb_y));
    let (b, s1) = bit(s, CtxTable::TransformSize8x8, inc);
    (b == 1, s1)
}

/// The type of a macroblock: its code, and for block-wise intra prediction the
/// size of its blocks.
pub open spec fn cabac_kind(
    s: Source,
    g: Grids,
    pps: Pps,
    header: SliceHeader,
    mb_x: int,
    mb_y: int,
) -> Result<(MbKind, int, Source), Error> {
    let (code, s0) = cabac_mb_type(s, g, header.kind, mb_x, mb_y);
    match mb_kind(header.kind, code) {
        Err(e) => Err(e),
        Ok(mb) => if mb is Intra4x4 && pps.transform_8x8_mode {
            let (large, s1) = transform_flag(s0, g, mb_x, mb_y);
            Ok(
                (
                    if large {
                        MbKind::Intra8x8
                    } else {
                        mb
                    },
                    code,
                    s1,
                ),
            )
        } else {
            Ok((mb, code, s0))
        },
    }
}

/// The chroma prediction mode from bin `n` on: unary, at most 3.
pub open spec fn chroma_mode_from(s: Source, inc0: int, n: int) -> (int, Source)
    decreases 3 - n,
{
    if n >= 3 {
        (n, s)
    } else {
        let (b, s1) = bit(
            s,
            CtxTable::IntraChroma,
            if n == 0 {
                least(inc0, 2)
            } else {
                3
            },
        );
        if b == 0 {
            (n, s1)
        } else {
            chroma_mode_from(s1, inc0, n + 1)
        }
    }
}

/// The source of bins.
pub open spec fn source_of(t: Syntax) -> Source {
    match t {
        Syntax::Bins(s) => s,
        Syntax::Bits(_, _) => Source { respond: |asked: Seq<crate::bins::Ask>| 0u32 },
    }
}

/// What a macroblock's prediction syntax says and leaves behind.
pub struct CabacPredicted {
    pub modes4: Seq<u8>,
    pub modes8: Seq<u8>,
    pub chroma_mode: u8,
    /// No part is smaller than a quadrant.
    pub large: bool,
    pub g: Grids,
    pub s: Source,
}

/// The modes of a block-wise intra prediction.
pub open spec fn cabac_modes(s: Source, g: Grids, mb: MbKind, mb_x: int, mb_y: int) -> Result<
    (Seq<u8>, Seq<u8>, Grids, Source),
    Error,
> {
    let t = Syntax::Bins(s);
    if mb is Intra4x4 {
        match modes4_from(t, g, mb_x, mb_y, Seq::<u8>::empty()) {
            Err(e) => Err(e),
            Ok((m, h, t1)) => Ok((m, averaging(4), h, source_of(t1))),
        }
    } else if mb is Intra8x8 {
        match modes8_from(t, g, mb_x, mb_y, Seq::<u8>::empty()) {
            Err(e) => Err(e),
            Ok((m, h, t1)) => Ok((averaging(16), m, h, source_of(t1))),
        }
    } else {
        Ok((averaging(16), averaging(4), g, s))
    }
}

/// The prediction syntax of a macroblock.
#[verifier::opaque]
pub open spec fn cabac_prediction(
    s: Source,
    g: Grids,
    sps: Sps,
    header: SliceHeader,
    mb: MbKind,
    code: int,
    mb_x: int,
    mb_y: int,
    field: Option<&ColocatedField>,
) -> Result<CabacPredicted, Error> {
    if mb.intra() {
        match cabac_modes(s, g, mb, mb_x, mb_y) {
            Err(e) => Err(e),
            Ok((modes4, modes8, h, s1)) => {
                let inc0 = intra_chroma_term(h.left_of(mb_x, mb_y)) + intra_chroma_term(
                    h.above(mb_x, mb_y),
                );
                let (m, s2) = chroma_mode_from(s1, inc0, 0);
                Ok(
                    CabacPredicted {
                        modes4,
                        modes8,
                        chroma_mode: m as u8,
                        large: true,
                        g: h,
                        s: s2,
                    },
                )
            },
        }
    } else {
        match inter_prediction(
            Syntax::Bins(s),
            g,
            header.kind,
            mb,
            code,
            header.active(),
            mb_x,
            mb_y,
            sps.direct_8x8_inference,
            field,
        ) {
            Err(e) => Err(e),
            Ok((large, h, t1)) => Ok(
                CabacPredicted {
                    modes4: averaging(16),
                    modes8: averaging(4),
                    chroma_mode: 0,
                    large,
                    g: h,
                    s: source_of(t1),
                },
            ),
        }
    }
}

/// What is read between prediction and coefficients.
pub struct CabacHeader {
    pub cbp_luma: u8,
    pub cbp_chroma: u8,
    pub transform_8x8: bool,
    pub qp_delta: int,
    pub s: Source,
}

/// The coded block pattern, the transform size of an inter macroblock, and the
/// quantiser difference where there are coefficients.
#[verifier::opaque]
pub open spec fn cabac_header(
    s: Source,
    g: Grids,
    pps: Pps,
    mb: MbKind,
    large: bool,
    prev: PrevMbQp,
    mb_x: int,
    mb_y: int,
) -> CabacHeader {
    let (cbp_luma, cbp_chroma, s1) = match mb {
        MbKind::Intra16x16 { cbp_luma, cbp_chroma, .. } => (cbp_luma, cbp_chroma, s),
        _ => coded_pattern(s, g, mb_x, mb_y),
    };
    let (transform_8x8, s2) = if !mb.intra() && pps.transform_8x8_mode && cbp_luma > 0 && large {
        transform_flag(s1, g, mb_x, mb_y)
    } else {
        (mb is Intra8x8, s1)
    };
    let (qp_delta, s3) = if cbp_luma == 0 && cbp_chroma == 0 && !(mb is Intra16x16) {
        (0, s2)
    } else {
        let (n, s3) = qp_delta_bins_from(s2, 0, qp_delta_inc(prev), 64);
        (signed_of(n), s3)
    };
    CabacHeader { cbp_luma, cbp_chroma, transform_8x8, qp_delta, s: s3 }
}

/// The coefficients of a macroblock. Without any, its block flags are cleared.
#[verifier::opaque]
pub open spec fn cabac_coefficients(
    g: Grids,
    mb: MbKind,
    h: CabacHeader,
    mb_x: int,
    mb_y: int,
    room: int,
) -> Result<(Residuals, Source, Grids), Fault> {
    if h.cbp_luma > 0 || h.cbp_chroma > 0 || mb is Intra16x16 {
        match cabac_residual(
            h.s,
            g,
            mb,
            h.cbp_luma,
            h.cbp_chroma,
            h.transform_8x8,
            mb_x,
            mb_y,
            room,
        ) {
            Err(e) => Err(e),
            Ok(w) => Ok((w.out, w.s, w.g)),
        }
    } else {
        Ok((no_residual(), h.s, with_flags_cleared(g, mb_x, mb_y)))
    }
}

/// The facts of a macroblock of raw samples.
pub open spec fn raw_facts() -> CabacMbInfo {
    CabacMbInfo { is_ipcm: true, ..own_mb_info() }
}

/// A macroblock of raw samples: 384 of them, and nothing else. The quantiser
/// stays as it is.
pub open spec fn cabac_raw(s: Source, st: CabacState, mb_x: u32, mb_y: u32) -> CabacState {
    CabacState {
        s: s.past_raw(384),
        g: st.g.with_mb(mb_x, mb_y, raw_facts()),
        prev: PrevMbQp { available: true, is_ipcm: true, ..no_previous() },
        qpy: st.qpy,
    }
}

/// A macroblock that is not skipped.
pub open spec fn cabac_macroblock(
    st: CabacState,
    sps: Sps,
    pps: Pps,
    header: SliceHeader,
    mb_x: u32,
    mb_y: u32,
    field: Option<&ColocatedField>,
    room: int,
) -> Result<(Residuals, CabacState), Fault> {
    let (x, y) = (mb_x as int, mb_y as int);
    match cabac_kind(st.s, st.g, pps, header, x, y) {
        Err(error) => Err(Fault { error, room }),
        Ok((mb, code, s0)) => if mb is IPcm {
            Ok((no_residual(), cabac_raw(s0, st, mb_x, mb_y)))
        } else {
            match cabac_prediction(s0, st.g, sps, header, mb, code, x, y, field) {
                Err(error) => Err(Fault { error, room }),
                Ok(p) => {
                    let h = cabac_header(p.s, p.g, pps, mb, p.large, st.prev, x, y);
                    match cabac_coefficients(p.g, mb, h, x, y, room) {
                        Err(e) => Err(e),
                        Ok((out, s, g)) => Ok(
                            (
                                Residuals { modes4: p.modes4, modes8: p.modes8, ..out },
                                CabacState {
                                    s,
                                    g: g.with_mb(
                                        mb_x,
                                        mb_y,
                                        mb_facts(
                                            mb,
                                            h.cbp_luma,
                                            h.cbp_chroma,
                                            p.chroma_mode,
                                            h.transform_8x8,
                                        ),
                                    ),
                                    prev: PrevMbQp {
                                        available: true,
                                        skipped: false,
                                        is_ipcm: false,
                                        is_intra16x16: mb is Intra16x16,
                                        cbp_zero: h.cbp_luma == 0 && h.cbp_chroma == 0,
                                        qp_delta_zero: h.qp_delta == 0,
                                    },
                                    qpy: next_qpy_spec(st.qpy, h.qp_delta),
                                },
                            ),
                        ),
                    }
                },
            }
        },
    }
}

fn read_transform_flag<B: BinSource>(
    bins: &mut B,
    grids: &CabacGrids,
    mb_x: u32,
    mb_y: u32,
) -> (r: bool)
    requires
        old(bins).wf(),
        grids.wf(),
        asks_neighbours(grids@, mb_x, mb_y),
    ensures
        final(bins).wf(),
        (r, final(bins).source()) == transform_flag(
            old(bins).source(),
            grids@,
            mb_x as int,
            mb_y as int,
        ),
{
    let inc: u32 = transform_8x8_cond_term(grids.mb_left(mb_x, mb_y)) + transform_8x8_cond_term(
        grids.mb_above(mb_x, mb_y),
    );
    decode_bit(bins, CtxTable::TransformSize8x8, inc as usize) == 1
}

fn read_kind<B: BinSource>(
    bins: &mut B,
    grids: &CabacGrids,
    pps: &Pps,
    header: &SliceHeader,
    mb_x: u32,
    mb_y: u32,
) -> (r: Result<(MbKind, u32), Error>)
    requires
        old(bins).wf(),
        grids.wf(),
        asks_neighbours(grids@, mb_x, mb_y),
    ensures
        final(bins).wf(),
        match cabac_kind(
            old(bins).source(),
            grids@,
            *pps,
            *header,
            mb_x as int,
            mb_y as int,
        ) {
            Ok((mb, code, s)) => r matches Ok(x) && x.0 == mb && x.1 == code && final(bins).source()
                == s,
            Err(e) => r == Err::<(MbKind, u32), Error>(e),
        },
{
    let left: Option<CabacMbInfo> = grids.mb_left(mb_x, mb_y);
    let above: Option<CabacMbInfo> = grids.mb_above(mb_x, mb_y);
    let code: u32 = match header.kind {
        SliceKind::I => {
            let inc0: u32 = mb_type_i_cond_term(left) + mb_type_i_cond_term(above);
            decode_mb_type_i_table(bins, inc0 as usize)
        },
        SliceKind::B => {
            let inc0: u32 = mb_type_b_cond_term(left) + mb_type_b_cond_term(above);
            decode_mb_type_b(bins, inc0 as usize)
        },
        _ => decode_mb_type_p(bins),
    };
    let mb: MbKind = classify_mb_type(header.kind, code)?;
    if matches!(mb, MbKind::Intra4x4) && pps.transform_8x8_mode {
        if read_transform_flag(bins, grids, mb_x, mb_y) {
            return Ok((MbKind::Intra8x8, code));
        }
    }
    Ok((mb, code))
}

fn read_chroma_mode<B: BinSource>(bins: &mut B, inc0: u32) -> (n: u8)
    requires
        old(bins).wf(),
    ensures
        final(bins).wf(),
        (n as int, final(bins).source()) == chroma_mode_from(
            old(bins).source(),
            inc0 as int,
            0,
        ),
        n <= 3,
{
    let mut n: u8 = 0;
    while n < 3
        invariant
            bins.wf(),
            n <= 3,
            chroma_mode_from(old(bins).source(), inc0 as int, 0) == chroma_mode_from(
                bins.source(),
                inc0 as int,
                n as int,
            ),
        decreases 3 - n,
    {
        let idx: usize = if n == 0 {
            if inc0 < 2 {
                inc0 as usize
            } else {
                2
            }
        } else {
            3
        };
        if decode_bit(bins, CtxTable::IntraChroma, idx) == 0 {
            return n;
        }
        n = n + 1;
    }
    n
}

/// Modes that were read, averaging ones where none were.
pub open spec fn modes_or_averaging(m: Option<Vec<u8>>, n: nat) -> Seq<u8> {
    match m {
        Some(v) => v@,
        None => averaging(n),
    }
}

fn read_prediction<E: ArithmeticDecoder>(
    bins: &mut Coder<E>,
    grids: &mut CabacGrids,
    sps: &Sps,
    header: &SliceHeader,
    mb: MbKind,
    code: u32,
    mb_x: u32,
    mb_y: u32,
    colocated: Option<&ColocatedField>,
) -> (v: Result<(Option<Vec<u8>>, Option<Vec<u8>>, u8, bool), Error>)
    requires
        old(bins).wf(),
        old(grids).wf(),
        old(grids)@.current == Some((mb_x, mb_y)),
        addressable(mb_x as int, mb_y as int),
    ensures
        final(bins).wf(),
        final(grids).wf(),
        final(grids).charged_bytes == old(grids).charged_bytes,
        final(grids)@.current == old(grids)@.current,
        match cabac_prediction(
            old(bins).source(),
            old(grids)@,
            *sps,
            *header,
            mb,
            code as int,
            mb_x as int,
            mb_y as int,
            colocated,
        ) {
            Ok(p) => {
                &&& v matches Ok(x)
                &&& modes_or_averaging(x.0, 16) == p.modes4
                &&& modes_or_averaging(x.1, 4) == p.modes8
                &&& p.modes4.len() == 16
                &&& p.modes8.len() == 4
                &&& x.2 == p.chroma_mode
                &&& x.3 == p.large
                &&& final(grids)@ == p.g
                &&& final(bins).source() == p.s
            },
            Err(e) => v matches Err(f) && f == e,
        },
{
    reveal(cabac_prediction);
    if mb.is_intra() {
        let mut modes4: Option<Vec<u8>> = None;
        let mut modes8: Option<Vec<u8>> = None;
        match mb {
            MbKind::Intra4x4 => {
                modes4 = Some(decode_modes4(bins, grids, mb_x, mb_y)?);
            },
            MbKind::Intra8x8 => {
                modes8 = Some(decode_modes8(bins, grids, mb_x, mb_y)?);
            },
            _ => {},
        }
        let inc0: u32 = intra_chroma_cond_term(grids.mb_left(mb_x, mb_y))
            + intra_chroma_cond_term(grids.mb_above(mb_x, mb_y));
        let chroma_mode: u8 = read_chroma_mode(bins, inc0);
        Ok((modes4, modes8, chroma_mode, true))
    } else {
        let large: bool = decode_inter_prediction(
            bins,
            grids,
            header.kind,
            mb,
            code,
            header.active_minus1(),
            mb_x,
            mb_y,
            sps.direct_8x8_inference,
            colocated,
        )?;
        Ok((None, None, 0, large))
    }
}

fn read_qp_delta<B: BinSource>(bins: &mut B, inc0: u32) -> (delta: i32)
    requires
        old(bins).wf(),
        inc0 <= 1,
    ensures
        final(bins).wf(),
        ({
            let (n, s) = qp_delta_bins_from(old(bins).source(), 0, inc0 as int, 64);
            delta == signed_of(n) && final(bins).source() == s
        }),
        -32 <= delta <= 32,
{
    let mut n: u32 = 0;
    let mut more: bool = true;
    while more && n < 64
        invariant
            bins.wf(),
            inc0 <= 1,
            n <= 64,
            !more ==> n < 64,
            qp_delta_bins_from(old(bins).source(), 0, inc0 as int, 64) == (if more {
                qp_delta_bins_from(bins.source(), n as int, inc0 as int, 64)
            } else {
                (n as int, bins.source())
            }),
        decreases 64 - n, if more { 1int } else { 0int },
    {
        let idx: usize = if n == 0 {
            inc0 as usize
        } else if n == 1 {
            2
        } else {
            3
        };
        if decode_bit(bins, CtxTable::QpDelta, idx) == 0 {
            more = false;
        } else {
            n = n + 1;
        }
    }
    se_value(n) as i32
}

fn read_header<B: BinSource>(
    bins: &mut B,
    grids: &CabacGrids,
    pps: &Pps,
    mb: MbKind,
    large: bool,
    prev: PrevMbQp,
    mb_x: u32,
    mb_y: u32,
) -> (r: (u8, u8, bool, i32))
    requires
        old(bins).wf(),
        grids.wf(),
        asks_neighbours(grids@, mb_x, mb_y),
    ensures
        final(bins).wf(),
        ({
            let h = cabac_header(
                old(bins).source(),
                grids@,
                *pps,
                mb,
                large,
                prev,
                mb_x as int,
                mb_y as int,
            );
            &&& r.0 == h.cbp_luma
            &&& r.1 == h.cbp_chroma
            &&& r.2 == h.transform_8x8
            &&& r.3 == h.qp_delta
            &&& final(bins).source() == h.s
        }),
        -32 <= r.3 <= 32,
{
    reveal(cabac_header);
    let (cbp_luma, cbp_chroma) = match mb {
        MbKind::Intra16x16 { cbp_luma, cbp_chroma, .. } => (cbp_luma, cbp_chroma),
        _ => decode_cbp_cabac(bins, grids, mb_x, mb_y),
    };
    let transform_8x8: bool = if !mb.is_intra() && pps.transform_8x8_mode && cbp_luma > 0 && large {
        read_transform_flag(bins, grids, mb_x, mb_y)
    } else {
        matches!(mb, MbKind::Intra8x8)
    };
    let qp_delta: i32 = if cbp_luma == 0 && cbp_chroma == 0 && !matches!(
        mb,
        MbKind::Intra16x16 { .. }
    ) {
        0
    } else {
        read_qp_delta(bins, qp_delta_ctx_inc(prev))
    };
    (cbp_luma, cbp_chroma, transform_8x8, qp_delta)
}

fn read_coefficients<B: BinSource>(
    bins: &mut B,
    budget: &mut Budget,
    grids: &mut CabacGrids,
    mb: MbKind,
    cbp_luma: u8,
    cbp_chroma: u8,
    transform_8x8: bool,
    mb_x: u32,
    mb_y: u32,
    Ghost(h): Ghost<CabacHeader>,
) -> (v: Result<MbResidual, Error>)
    requires
        old(bins).wf(),
        old(grids).wf(),
        old(grids)@.current == Some((mb_x, mb_y)),
        addressable(mb_x as int, mb_y as int),
        h.cbp_luma == cbp_luma,
        h.cbp_chroma == cbp_chroma,
        h.transform_8x8 == transform_8x8,
        h.s == old(bins).source(),
    ensures
        final(bins).wf(),
        final(grids).wf(),
        final(grids).charged_bytes == old(grids).charged_bytes,
        final(grids)@.current == old(grids)@.current,
        final(budget).limit == old(budget).limit,
        final(budget).committed >= old(budget).committed,
        match cabac_coefficients(
            old(grids)@,
            mb,
            h,
            mb_x as int,
            mb_y as int,
            old(budget).room(),
        ) {
            Ok((out, s, g)) => {
                &&& v matches Ok(x)
                &&& x@ == out
                &&& x@.shaped()
                &&& x@.modes4 == averaging(16)
                &&& x@.modes8 == averaging(4)
                &&& final(bins).source() == s
                &&& final(grids)@ == g
                &&& final(budget).committed == old(budget).committed + out.charge()
            },
            Err(f) => v matches Err(e) && e == f.error && final(budget).room() == f.room,
        },
{
    reveal(cabac_coefficients);
    if cbp_luma > 0 || cbp_chroma > 0 || matches!(mb, MbKind::Intra16x16 { .. }) {
        decode_residual_cabac(
            bins,
            budget,
            grids,
            mb,
            cbp_luma,
            cbp_chroma,
            transform_8x8,
            mb_x,
            mb_y,
        )
    } else {
        proof {
            lemma_absent_charges(16);
            lemma_absent_charges(2);
            lemma_absent_charges(8);
            lemma_absent_charges(4);
        }
        clear_flags(grids, mb_x, mb_y);
        Ok(MbResidual::default())
    }
}

/// Decodes a macroblock that is not skipped.
#[verifier::rlimit(40)]
pub fn decode_macroblock_cabac<E: ArithmeticDecoder>(
    bins: &mut Coder<E>,
    budget: &mut Budget,
    sps: &Sps,
    pps: &Pps,
    header: &SliceHeader,
    grids: &mut CabacGrids,
    prev_qp: &mut PrevMbQp,
    qpy: &mut i32,
    mb_x: u32,
    mb_y: u32,
    colocated: Option<&ColocatedField>,
) -> (v: Result<MbResidual, Error>)
    requires
        old(bins).wf(),
        old(grids).wf(),
        old(grids)@.current == Some((mb_x, mb_y)),
        addressable(mb_x as int, mb_y as int),
        0 <= *old(qpy) < 52,
    ensures
        final(bins).wf(),
        final(grids).wf(),
        final(grids).charged_bytes == old(grids).charged_bytes,
        final(budget).limit == old(budget).limit,
        final(budget).committed >= old(budget).committed,
        0 <= *final(qpy) < 52,
        match cabac_macroblock(
            CabacState {
                s: old(bins).source(),
                g: old(grids)@,
                prev: *old(prev_qp),
                qpy: *old(qpy) as int,
            },
            *sps,
            *pps,
            *header,
            mb_x,
            mb_y,
            colocated,
            old(budget).room(),
        ) {
            Ok((out, end)) => {
                &&& v matches Ok(x)
                &&& x@ == out
                &&& x@.shaped()
                &&& final(bins).source() == end.s
                &&& final(grids)@ == end.g
                &&& final(grids)@.current is None
                &&& *final(prev_qp) == end.prev
                &&& *final(qpy) == end.qpy
                &&& final(budget).committed == old(budget).committed + out.charge()
            },
            Err(f) => v matches Err(e) && e == f.error && final(budget).room() == f.room,
        },
{
    let (mb, code) = read_kind(bins, grids, pps, header, mb_x, mb_y)?;
    if matches!(mb, MbKind::IPcm) {
        proof {
            lemma_absent_charges(16);
            lemma_absent_charges(2);
            lemma_absent_charges(8);
            lemma_absent_charges(4);
        }
        bins.skip_raw(384);
        let mut prev: PrevMbQp = PrevMbQp::default();
        prev.available = true;
        prev.is_ipcm = true;
        *prev_qp = prev;
        let mut info: CabacMbInfo = CabacMbInfo::default();
        info.available = true;
        info.is_ipcm = true;
        grids.set_mb_info(mb_x, mb_y, info);
        return Ok(MbResidual::default());
    }
    let (modes4, modes8, chroma_mode, large) = read_prediction(
        bins,
        grids,
        sps,
        header,
        mb,
        code,
        mb_x,
        mb_y,
        colocated,
    )?;
    let ghost h = cabac_header(
        bins.source(),
        grids@,
        *pps,
        mb,
        large,
        *prev_qp,
        mb_x as int,
        mb_y as int,
    );
    let (cbp_luma, cbp_chroma, transform_8x8, qp_delta) = read_header(
        bins,
        grids,
        pps,
        mb,
        large,
        *prev_qp,
        mb_x,
        mb_y,
    );
    *prev_qp = PrevMbQp {
        available: true,
        skipped: false,
        is_ipcm: false,
        is_intra16x16: matches!(mb, MbKind::Intra16x16 { .. }),
        cbp_zero: cbp_luma == 0 && cbp_chroma == 0,
        qp_delta_zero: qp_delta == 0,
    };
    *qpy = next_qpy(*qpy, qp_delta);
    let mut out: MbResidual = read_coefficients(
        bins,
        budget,
        grids,
        mb,
        cbp_luma,
        cbp_chroma,
        transform_8x8,
        mb_x,
        mb_y,
        Ghost(h),
    )?;
    if let Some(m) = modes4 {
        out.intra4x4_pred_mode = m;
    }
    if let Some(m) = modes8 {
        out.intra8x8_pred_mode = m;
    }
    grids.set_mb_info(
        mb_x,
        mb_y,
        gather_facts(mb, cbp_luma, cbp_chroma, chroma_mode, transform_8x8),
    );
    Ok(out)
}

} // verus!
