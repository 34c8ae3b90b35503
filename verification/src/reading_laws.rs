//! What is read of a macroblock, in which context, and when.
use vstd::prelude::*;
use crate::bins::{ctx, CtxTable, Source};
use crate::cabac_syntax::PrevMbQp;
use crate::cavlc_laws::{law_unsigned_numbers_round_trip, written};
use crate::direct::ColocatedField;
use crate::error::Error;
use crate::grids::{no_motion, CabacMbInfo, Counts, Grids};
use crate::headers::{Pps, SliceHeader, Sps};
use crate::interp::{chroma_mc, partition_fraction};
use crate::mb_cabac::{
    cabac_chroma_dc_from, cabac_header, cabac_kind, cabac_luma_dc, cabac_luma_from, cabac_mb_type,
    cabac_prediction, coded_pattern, transform_flag, CabacWork,
};
use crate::mb_cavlc::{cavlc_pattern, cavlc_prediction};
use crate::mb_residual::averaging;
use crate::mb_type::{mb_kind, MbKind};
use crate::sub_mb::{no_small_parts, SubMb};
use crate::syntax_laws::{both, counts_as_coded, known, paired};

verus! {

// -------------------------------------------------------------- interpolation
/// A partition is interpolated at the fraction of its vector.
pub proof fn law_partitions_keep_their_fraction(fx: int, fy: int)
    requires
        0 <= fx < 4,
        0 <= fy < 4,
    ensures
        partition_fraction(fx, fy) == (fx, fy),
{
}

/// Eight more in a chroma vector are one sample more, in either direction.
pub proof fn law_chroma_vectors_shift(
    p: spec_fn(int, int) -> u8,
    x: int,
    y: int,
    mv_x: int,
    mv_y: int,
    across: int,
    down: int,
)
    ensures
        chroma_mc(p, x, y, mv_x + 8 * across, mv_y + 8 * down) == chroma_mc(
            p,
            x + across,
            y + down,
            mv_x,
            mv_y,
        ),
        chroma_mc(p, x, y, 0, 0) == p(x, y),
{
    assert((mv_x + 8 * across) / 8 == mv_x / 8 + across && (mv_x + 8 * across) % 8 == mv_x % 8);
    assert((mv_y + 8 * down) / 8 == mv_y / 8 + down && (mv_y + 8 * down) % 8 == mv_y % 8);
    assert((x + (mv_x + 8 * across) / 8) == (x + across) + mv_x / 8);
    assert((y + (mv_y + 8 * down) / 8) == (y + down) + mv_y / 8);
    assert((8 - 0) * (8 - 0) * (p(x, y) as int) == 64 * p(x, y)) by (nonlinear_arith);
    assert(0 * (8 - 0) * (p(x + 1, y) as int) == 0) by (nonlinear_arith);
    assert((8 - 0) * 0 * (p(x, y + 1) as int) == 0) by (nonlinear_arith);
    assert(0 * 0 * (p(x + 1, y + 1) as int) == 0) by (nonlinear_arith);
}

// --------------------------------------------------------------------- counts
/// The count of a block is predicted from the blocks on its left and above it, of its
/// own component.
pub proof fn law_counts_are_predicted_from_left_and_above(c: Counts, comp: int, x: int, y: int)
    ensures
        c.luma_at(x - 1, y) matches Some(a) ==> (c.luma_at(x, y - 1) matches Some(b) ==> 2
            * c.nc_luma(x, y) == a + b || 2 * c.nc_luma(x, y) == a + b + 1),
        c.luma_at(x - 1, y) matches Some(a) ==> (c.luma_at(x, y - 1) is None ==> c.nc_luma(x, y)
            == a),
        c.luma_at(x, y - 1) matches Some(b) ==> (c.luma_at(x - 1, y) is None ==> c.nc_luma(x, y)
            == b),
        c.luma_at(x - 1, y) is None && c.luma_at(x, y - 1) is None ==> c.nc_luma(x, y) == 0,
        c.chroma_at(comp, x - 1, y) matches Some(a) ==> (c.chroma_at(comp, x, y - 1) matches Some(b)
            ==> 2 * c.nc_chroma(comp, x, y) == a + b || 2 * c.nc_chroma(comp, x, y) == a + b + 1),
        c.chroma_at(comp, x - 1, y) matches Some(a) ==> (c.chroma_at(comp, x, y - 1) is None
            ==> c.nc_chroma(comp, x, y) == a),
        c.chroma_at(comp, x, y - 1) matches Some(b) ==> (c.chroma_at(comp, x - 1, y) is None
            ==> c.nc_chroma(comp, x, y) == b),
        c.chroma_at(comp, x - 1, y) is None && c.chroma_at(comp, x, y - 1) is None ==> c.nc_chroma(
            comp,
            x,
            y,
        ) == 0,
{
}

// ---------------------------------------------------------------------- flags
/// Whether a neighbouring macroblock counts for the flag of a luma DC block: a
/// missing one for intra macroblocks, raw samples always, one predicted as a whole by
/// its own flag, and any other not.
pub open spec fn has_luma_dc(mb: Option<CabacMbInfo>, own: Option<bool>, intra: bool) -> bool {
    match mb {
        None => intra,
        Some(i) => i.is_ipcm || (i.is_intra16x16 && own == Some(true)),
    }
}

/// The luma DC block of a macroblock is read in the context of the neighbours' and is
/// not there where its flag is 0.
pub proof fn law_luma_dc_is_read_by_its_neighbours(w: CabacWork, x: int, y: int, intra: bool)
    ensures
        ({
            let c = paired(
                has_luma_dc(w.g.mb_at(x - 1, y), w.g.luma_dc_flag(x - 1, y), intra),
                has_luma_dc(w.g.mb_at(x, y - 1), w.g.luma_dc_flag(x, y - 1), intra),
            );
            let (b, s1) = w.s.decide(ctx(CtxTable::CbfLumaDc, c));
            &&& !b ==> (cabac_luma_dc(w, x, y, intra) matches Ok(r) && r.s == s1 && r.out.luma_dc
                is None && r.room == w.room)
            &&& b ==> (cabac_luma_dc(w, x, y, intra) matches Ok(r) ==> r.out.luma_dc is Some)
        }),
{
}

/// Whether a neighbouring macroblock counts for the flag of a chroma DC block: a
/// missing one for intra macroblocks, raw samples always, one with chroma by its own
/// flag, and any other not.
pub open spec fn has_chroma_dc(mb: Option<CabacMbInfo>, own: Option<bool>, intra: bool) -> bool {
    match mb {
        None => intra,
        Some(i) => i.is_ipcm || (!i.skipped && i.cbp_chroma != 0 && own == Some(true)),
    }
}

/// The chroma DC blocks of a macroblock are read in the context of the neighbours' of
/// the same component.
pub proof fn law_chroma_dc_is_read_by_its_neighbours(
    w: CabacWork,
    x: int,
    y: int,
    cbp: u8,
    intra: bool,
    comp: int,
)
    requires
        cbp == 1 || cbp == 2,
        comp == 0 || comp == 1,
        w.out.chroma_dc.len() == 2,
    ensures
        ({
            let c = paired(
                has_chroma_dc(w.g.mb_at(x - 1, y), w.g.chroma_dc_flag(comp, x - 1, y), intra),
                has_chroma_dc(w.g.mb_at(x, y - 1), w.g.chroma_dc_flag(comp, x, y - 1), intra),
            );
            let (b, s1) = w.s.decide(ctx(CtxTable::CbfChromaDc, c));
            !b ==> cabac_chroma_dc_from(w, x, y, cbp, intra, comp) == cabac_chroma_dc_from(
                CabacWork { s: s1, g: w.g.with_chroma_dc_flag(comp, x, y, false), ..w },
                x,
                y,
                cbp,
                intra,
                comp + 1,
            )
        }),
{
    let (left, above) = (w.g.left_of(x, y), w.g.above(x, y));
    let inc = crate::mb_cabac::flag_inc(
        left,
        crate::mb_cabac::chroma_dc_flag_of(left, w.g.chroma_dc_flag(comp, x - 1, y)),
        above,
        crate::mb_cabac::chroma_dc_flag_of(above, w.g.chroma_dc_flag(comp, x, y - 1)),
        intra,
    );
    assert(inc == paired(
        has_chroma_dc(w.g.mb_at(x - 1, y), w.g.chroma_dc_flag(comp, x - 1, y), intra),
        has_chroma_dc(w.g.mb_at(x, y - 1), w.g.chroma_dc_flag(comp, x, y - 1), intra),
    ));
    let (b, s1) = w.s.decide(ctx(CtxTable::CbfChromaDc, inc));
    if !b {
        let out = crate::mb_residual::Residuals {
            chroma_dc: crate::mb_cavlc::placed(w.out.chroma_dc, comp, None),
            ..w.out
        };
        assert(out == w.out);
    }
}

/// The first luma block of a macroblock is read in the context of the last block of
/// the first row on the left, and of the first one of the last row above: where these
/// macroblocks are missing or hold raw samples, as for any flag.
pub proof fn law_first_luma_block_is_read_by_its_neighbours(
    w: CabacWork,
    x: int,
    y: int,
    cbp: u8,
    is_16x16: bool,
    intra: bool,
)
    requires
        cbp % 2 == 1,
    ensures
        ({
            let c = paired(
                counts_as_coded(w.g.mb_at(x - 1, y), w.g.luma_flag(4 * x - 1, 4 * y), intra),
                counts_as_coded(w.g.mb_at(x, y - 1), w.g.luma_flag(4 * x, 4 * y - 1), intra),
            );
            let table = if is_16x16 {
                CtxTable::CbfLumaAc
            } else {
                CtxTable::CbfLuma4x4
            };
            let (b, s1) = w.s.decide(ctx(table, c));
            !b ==> cabac_luma_from(w, x, y, cbp, is_16x16, intra, 0) == cabac_luma_from(
                CabacWork { s: s1, g: w.g.with_luma_flag(4 * x, 4 * y, false), ..w },
                x,
                y,
                cbp,
                is_16x16,
                intra,
                1,
            )
        }),
{
    let inc = crate::mb_cabac::flag_inc(
        crate::mb_cabac::around(w.g.left_of(x, y), true),
        w.g.luma_flag(4 * x - 1, 4 * y),
        crate::mb_cabac::around(w.g.above(x, y), true),
        w.g.luma_flag(4 * x, 4 * y - 1),
        intra,
    );
    assert(inc == paired(
        counts_as_coded(w.g.mb_at(x - 1, y), w.g.luma_flag(4 * x - 1, 4 * y), intra),
        counts_as_coded(w.g.mb_at(x, y - 1), w.g.luma_flag(4 * x, 4 * y - 1), intra),
    ));
    let out = crate::mb_residual::Residuals {
        luma_ac: crate::mb_cavlc::placed(w.out.luma_ac, 0, None),
        ..w.out
    };
    assert(out == w.out);
    assert(crate::mb_cavlc::luma_coded(cbp, 0));
}

// --------------------------------------------------------------------- headers
/// A macroblock in small intra blocks reads their size where both are possible; any
/// other reads nothing but its type.
pub proof fn law_small_intra_blocks_read_their_size(
    s: Source,
    g: Grids,
    pps: Pps,
    header: SliceHeader,
    x: int,
    y: int,
)
    ensures
        ({
            let (code, s0) = cabac_mb_type(s, g, header.kind, x, y);
            let (large, s1) = transform_flag(s0, g, x, y);
            mb_kind(header.kind, code) matches Ok(mb) ==> {
                &&& mb is Intra4x4 && pps.transform_8x8_mode && large ==> cabac_kind(
                    s,
                    g,
                    pps,
                    header,
                    x,
                    y,
                ) == Ok::<(MbKind, int, Source), Error>((MbKind::Intra8x8, code, s1))
                &&& mb is Intra4x4 && pps.transform_8x8_mode && !large ==> cabac_kind(
                    s,
                    g,
                    pps,
                    header,
                    x,
                    y,
                ) == Ok::<(MbKind, int, Source), Error>((MbKind::Intra4x4, code, s1))
                &&& !(mb is Intra4x4) || !pps.transform_8x8_mode ==> cabac_kind(
                    s,
                    g,
                    pps,
                    header,
                    x,
                    y,
                ) == Ok::<(MbKind, int, Source), Error>((mb, code, s0))
            }
        }),
{
}

/// What stands between the prediction and the coefficients of a macroblock: the
/// pattern, unless its type holds it; the transform size of inter macroblocks where it
/// matters; and a quantiser difference, unless there is nothing to scale.
pub proof fn law_headers_read_what_matters(
    s: Source,
    g: Grids,
    pps: Pps,
    mb: MbKind,
    large: bool,
    prev: PrevMbQp,
    x: int,
    y: int,
)
    ensures
        ({
            let h = cabac_header(s, g, pps, mb, large, prev, x, y);
            let (luma, chroma, s1) = coded_pattern(s, g, x, y);
            let asks = !mb.intra() && pps.transform_8x8_mode && large;
            &&& mb matches MbKind::Intra16x16 { cbp_luma, cbp_chroma, .. } ==> h.cbp_luma
                == cbp_luma && h.cbp_chroma == cbp_chroma && !h.transform_8x8
            &&& !(mb is Intra16x16) ==> h.cbp_luma == luma && h.cbp_chroma == chroma
            &&& !(mb is Intra16x16) && luma == 0 && chroma == 0 ==> h.qp_delta == 0 && h.s == s1
            &&& mb is Intra8x8 ==> h.transform_8x8
            &&& mb is Intra4x4 || (!mb.intra() && !asks) || (!mb.intra() && luma == 0)
                ==> !h.transform_8x8
            &&& asks && luma > 0 ==> h.transform_8x8 == transform_flag(s1, g, x, y).0
        }),
{
    reveal(cabac_header);
}

/// The chroma prediction mode starts in the context of how many neighbours have one
/// that does not average; a 0 there means averaging. Inter macroblocks have none.
pub proof fn law_chroma_modes_start_by_their_neighbours(
    s: Source,
    g: Grids,
    sps: Sps,
    header: SliceHeader,
    cbp: (u8, u8),
    mode: u8,
    code: int,
    x: int,
    y: int,
)
    ensures
        ({
            let mb = MbKind::Intra16x16 { cbp_luma: cbp.0, cbp_chroma: cbp.1, pred_mode: mode };
            let other = |i: CabacMbInfo|
                i.is_intra && !i.is_ipcm && i.intra_chroma_pred_mode != 0;
            let n = both(known(g.mb_at(x - 1, y), other), known(g.mb_at(x, y - 1), other));
            let (b, s1) = s.decide(ctx(CtxTable::IntraChroma, n));
            cabac_prediction(s, g, sps, header, mb, code, x, y, None) matches Ok(p) && p.g == g && (!b
                ==> p.chroma_mode == 0 && p.s == s1) && p.modes4 == averaging(16)
        }),
{
    reveal(cabac_prediction);
    reveal_with_fuel(crate::mb_cabac::chroma_mode_from, 2);
}

/// A macroblock of variable-length codes that is predicted as a whole reads its chroma
/// mode and nothing else, and has its pattern from its type.
pub proof fn law_chroma_modes_are_numbers(
    data: Seq<u8>,
    pos: int,
    n: int,
    v: int,
    g: Grids,
    sps: Sps,
    header: SliceHeader,
    cbp: (u8, u8),
    mode: u8,
    code: int,
    x: int,
    y: int,
)
    requires
        0 <= v <= 3,
        written(data, pos, n, v),
    ensures
        ({
            let mb = MbKind::Intra16x16 { cbp_luma: cbp.0, cbp_chroma: cbp.1, pred_mode: mode };
            &&& cavlc_prediction(data, pos, g, sps, header, mb, code, x, y, None) matches Ok(p)
                && p.chroma_mode == v && p.grids == g && p.pos == pos + 2 * n + 1 && p.modes4
                == averaging(16)
            &&& cavlc_pattern(data, pos, mb) matches Ok(c) && c == (cbp.0, cbp.1, pos)
        }),
{
    reveal(cavlc_prediction);
    reveal(cavlc_pattern);
    law_unsigned_numbers_round_trip(data, pos, n, v, 3);
}

/// Patterns that are read hold the luma quadrants in their lower four bits and the
/// chroma depth above.
pub proof fn law_patterns_have_two_parts(data: Seq<u8>, pos: int, n: int, pattern: int)
    requires
        0 <= pattern < 48,
        written(data, pos, n, crate::syntax_laws::inter_pattern_codes()[pattern]),
    ensures
        cavlc_pattern(data, pos, MbKind::B8x8) matches Ok((luma, chroma, end)) && luma + 16 * chroma
            == pattern && luma < 16 && end == pos + 2 * n + 1,
{
    reveal(cavlc_pattern);
    crate::syntax_laws::law_patterns_round_trip(data, pos, n, pattern, false);
}

// ------------------------------------------------------------------- sub types
/// Large transforms are possible where no quadrant is cut, and a direct one is inferred
/// as a whole.
pub proof fn law_large_transforms_need_whole_quadrants(
    subs: Seq<SubMb>,
    is_b: bool,
    inference: bool,
    i: int,
)
    requires
        0 <= i < subs.len(),
        no_small_parts(subs, is_b, inference),
    ensures
        is_b && subs[i].pred is None ==> inference,
        !is_b || subs[i].pred is Some ==> subs[i].num_sub == 1,
{
}

/// Quadrants that are each whole, or direct and inferred as a whole, allow them.
pub proof fn law_whole_quadrants_allow_large_transforms(
    subs: Seq<SubMb>,
    is_b: bool,
    inference: bool,
)
    requires
        forall|i: int|
            0 <= i < subs.len() ==> (#[trigger] subs[i]).num_sub == 1 && subs[i].pred is Some || (is_b
                && subs[i].pred is None && inference),
    ensures
        no_small_parts(subs, is_b, inference),
{
}

// ------------------------------------------------------------------ colocated
/// A co-located field is read row by row, and has no motion outside itself.
pub proof fn law_colocated_blocks_are_read_by_rows(f: ColocatedField, x: int, y: int)
    requires
        f.blocks@.len() == f.width_4x4 * f.height_4x4,
        f.blocks@.len() <= u32::MAX,
    ensures
        0 <= x < f.width_4x4 && 0 <= y < f.height_4x4 ==> f.block(x, y) == f.blocks@[y * f.width_4x4
            + x],
        !(0 <= x < f.width_4x4 && 0 <= y < f.height_4x4) ==> f.block(x, y) == no_motion(),
{
    if 0 <= x < f.width_4x4 && 0 <= y < f.height_4x4 {
        crate::grids::lemma_cell_bound(x, y, f.width_4x4 as int, f.height_4x4 as int);
    }
}

} // verus!
