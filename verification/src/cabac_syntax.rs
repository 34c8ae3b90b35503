//! Arithmetic-coded syntax elements of the macroblock layer: how neighbours
//! select contexts, and the bin trees of the elements themselves.
use vstd::prelude::*;
use crate::bins::{ctx, table_size, Ask, BinSource, Ctx, CtxTable, Source};
use crate::cabac_residual::saturated;
use crate::grids::{CabacMbInfo, MvInfo};
use crate::mb_type::{mb_kind, sub_mb_kind, SliceKind};

verus! {

/// A truth value as a number.
pub open spec fn flag(b: bool) -> int {
    if b {
        1
    } else {
        0
    }
}

fn count(b: bool) -> (n: u32)
    ensures
        n == flag(b),
{
    if b {
        1
    } else {
        0
    }
}

// ------------------------------------------------- what neighbours contribute
/// A neighbour's part in the context of a coded-block flag: an unknown
/// neighbour counts for intra macroblocks, raw samples always count, and
/// otherwise the neighbouring block's own flag counts, where it has one.
pub open spec fn cbf_term(
    neighbour: Option<CabacMbInfo>,
    trans_available: bool,
    trans_cbf: bool,
    current_is_intra: bool,
) -> int {
    match neighbour {
        None => flag(current_is_intra),
        Some(info) => flag(info.is_ipcm || (trans_available && trans_cbf)),
    }
}

pub fn cbf_cond_term(
    neighbour: Option<CabacMbInfo>,
    trans_available: bool,
    trans_cbf: bool,
    current_is_intra: bool,
) -> (r: u32)
    ensures
        r == cbf_term(neighbour, trans_available, trans_cbf, current_is_intra),
{
    match neighbour {
        None => count(current_is_intra),
        Some(info) => if info.is_ipcm {
            1
        } else if !trans_available {
            0
        } else {
            count(trans_cbf)
        },
    }
}

/// A neighbouring quadrant's part in the context of a luma pattern bit: it
/// counts when it is known to be uncoded.
pub open spec fn cbp_luma_term(
    same_mb_bit: Option<bool>,
    cross_mb: Option<(CabacMbInfo, bool)>,
) -> int {
    match same_mb_bit {
        Some(bit) => flag(!bit),
        None => match cross_mb {
            None => 0,
            Some((info, bit)) => flag(!info.is_ipcm && (info.skipped || !bit)),
        },
    }
}

pub fn cbp_luma_cond_term(
    same_mb_bit: Option<bool>,
    cross_mb: Option<(CabacMbInfo, bool)>,
) -> (r: u32)
    ensures
        r == cbp_luma_term(same_mb_bit, cross_mb),
{
    if let Some(bit) = same_mb_bit {
        return count(!bit);
    }
    match cross_mb {
        None => 0,
        Some((info, bit)) => if info.is_ipcm {
            0
        } else {
            count(info.skipped || !bit)
        },
    }
}

/// A neighbour's part in the context of a chroma pattern bin: whether it has
/// chroma coefficients at all (bin 0) or beyond the DC ones (bin 1).
pub open spec fn cbp_chroma_term(neighbour: Option<CabacMbInfo>, bin_idx: int) -> int {
    match neighbour {
        None => 0,
        Some(info) => flag(
            info.is_ipcm || (!info.skipped && (bin_idx == 0 ==> info.cbp_chroma != 0) && (bin_idx
                == 1 ==> info.cbp_chroma == 2)),
        ),
    }
}

pub fn cbp_chroma_cond_term(neighbour: Option<CabacMbInfo>, bin_idx: u32) -> (r: u32)
    ensures
        r == cbp_chroma_term(neighbour, bin_idx as int),
{
    match neighbour {
        None => 0,
        Some(info) => if info.is_ipcm {
            1
        } else if info.skipped {
            0
        } else if bin_idx == 0 && info.cbp_chroma == 0 {
            0
        } else if bin_idx == 1 && info.cbp_chroma != 2 {
            0
        } else {
            1
        },
    }
}

/// A neighbour's part in the context of an intra macroblock type: it counts
/// unless it predicts block by block.
pub open spec fn mb_type_i_term(neighbour: Option<CabacMbInfo>) -> int {
    match neighbour {
        None => 0,
        Some(info) => flag(!info.is_intra4x4 && !info.is_intra8x8),
    }
}

pub fn mb_type_i_cond_term(neighbour: Option<CabacMbInfo>) -> (r: u32)
    ensures
        r == mb_type_i_term(neighbour),
{
    match neighbour {
        None => 0,
        Some(info) => count(!(info.is_intra4x4 || info.is_intra8x8)),
    }
}

/// A neighbour's part in the context of a bipredictive macroblock type: it
/// counts unless it is skipped or direct.
pub open spec fn mb_type_b_term(neighbour: Option<CabacMbInfo>) -> int {
    match neighbour {
        None => 0,
        Some(info) => flag(!info.skipped && !info.is_b_direct16x16),
    }
}

pub fn mb_type_b_cond_term(neighbour: Option<CabacMbInfo>) -> (r: u32)
    ensures
        r == mb_type_b_term(neighbour),
{
    match neighbour {
        None => 0,
        Some(info) => count(!info.skipped && !info.is_b_direct16x16),
    }
}

/// A neighbour's part in the context of a skip flag: it counts unless it is
/// skipped.
pub open spec fn skip_term(neighbour: Option<CabacMbInfo>) -> int {
    match neighbour {
        None => 0,
        Some(info) => flag(!info.skipped),
    }
}

pub fn skip_cond_term(neighbour: Option<CabacMbInfo>) -> (r: u32)
    ensures
        r == skip_term(neighbour),
{
    match neighbour {
        None => 0,
        Some(info) => count(!info.skipped),
    }
}

/// A neighbour's part in the context of the transform size: its own choice.
pub open spec fn transform_8x8_term(neighbour: Option<CabacMbInfo>) -> int {
    match neighbour {
        None => 0,
        Some(info) => flag(info.transform_8x8),
    }
}

pub fn transform_8x8_cond_term(neighbour: Option<CabacMbInfo>) -> (r: u32)
    ensures
        r == transform_8x8_term(neighbour),
{
    match neighbour {
        None => 0,
        Some(info) => count(info.transform_8x8),
    }
}

/// A neighbour's part in the context of the chroma prediction mode.
pub open spec fn intra_chroma_term(neighbour: Option<CabacMbInfo>) -> int {
    match neighbour {
        None => 0,
        Some(info) => flag(
            info.is_intra && !info.is_ipcm && info.intra_chroma_pred_mode != 0,
        ),
    }
}

pub fn intra_chroma_cond_term(neighbour: Option<CabacMbInfo>) -> (r: u32)
    ensures
        r == intra_chroma_term(neighbour),
{
    match neighbour {
        None => 0,
        Some(info) => count(info.is_intra && !info.is_ipcm && info.intra_chroma_pred_mode != 0),
    }
}

/// A neighbouring block's part in the context of a reference index: whether it
/// names a reference behind the first.
pub open spec fn ref_idx_term(n: MvInfo, list: int) -> int {
    flag(!n.direct_or_skip && n.uses(list) && n.ref_idx.at(list) > 0)
}

pub fn ref_idx_cond_term(n: MvInfo, list: usize) -> (r: u32)
    ensures
        r == ref_idx_term(n, list as int),
{
    if n.direct_or_skip {
        return 0;
    }
    let reads: bool = match n.pred {
        Some(p) => p.reads(list),
        None => false,
    };
    count(reads && n.ref_idx.get(list) > 0)
}

/// The magnitude of a neighbouring block's vector difference in one component,
/// 0 where it read none.
pub open spec fn mvd_term(n: MvInfo, list: int, comp: int) -> int {
    if n.direct_or_skip || !n.uses(list) {
        0
    } else {
        let v: int = if comp == 0 {
            n.mvd.at(list).0 as int
        } else {
            n.mvd.at(list).1 as int
        };
        if v < 0 {
            -v
        } else {
            v
        }
    }
}

pub fn mvd_abs_term(n: MvInfo, list: usize, comp: usize) -> (r: u32)
    ensures
        r == mvd_term(n, list as int, comp as int),
        r <= 0x8000,
{
    if n.direct_or_skip {
        return 0;
    }
    let reads: bool = match n.pred {
        Some(p) => p.reads(list),
        None => false,
    };
    if !reads {
        return 0;
    }
    let (x, y) = n.mvd.get(list);
    let v: i32 = if comp == 0 {
        x as i32
    } else {
        y as i32
    };
    if v < 0 {
        (-v) as u32
    } else {
        v as u32
    }
}

/// What the quantiser difference's context needs to know of the previous
/// macroblock in decoding order.
#[derive(Debug, Clone, Copy, PartialEq, Eq, Structural)]
pub struct PrevMbQp {
    pub available: bool,
    pub skipped: bool,
    pub is_ipcm: bool,
    pub is_intra16x16: bool,
    pub cbp_zero: bool,
    pub qp_delta_zero: bool,
}

/// No previous macroblock.
pub open spec fn no_previous() -> PrevMbQp {
    PrevMbQp {
        available: false,
        skipped: false,
        is_ipcm: false,
        is_intra16x16: false,
        cbp_zero: false,
        qp_delta_zero: false,
    }
}

impl Default for PrevMbQp {
    fn default() -> (r: Self)
        ensures
            r == no_previous(),
    {
        PrevMbQp {
            available: false,
            skipped: false,
            is_ipcm: false,
            is_intra16x16: false,
            cbp_zero: false,
            qp_delta_zero: false,
        }
    }
}

/// The first context of the quantiser difference: 1 when the previous
/// macroblock read a difference and it was not 0.
pub open spec fn qp_delta_inc(prev: PrevMbQp) -> int {
    flag(
        prev.available && !prev.skipped && !prev.is_ipcm && (prev.is_intra16x16 || !prev.cbp_zero)
            && !prev.qp_delta_zero,
    )
}

pub fn qp_delta_ctx_inc(prev: PrevMbQp) -> (r: u32)
    ensures
        r == qp_delta_inc(prev),
{
    if !prev.available || prev.skipped || prev.is_ipcm {
        return 0;
    }
    if !prev.is_intra16x16 && prev.cbp_zero {
        return 0;
    }
    count(!prev.qp_delta_zero)
}

// ------------------------------------------------------------------ bin trees
/// A context-coded bin as a number.
pub open spec fn bit(s: Source, t: CtxTable, i: int) -> (int, Source) {
    let (b, s1) = s.decide(ctx(t, i));
    (flag(b), s1)
}

/// Reads a context-coded bin as a number.
pub fn decode_bit<B: BinSource>(bins: &mut B, t: CtxTable, i: usize) -> (b: u32)
    requires
        old(bins).wf(),
        i < table_size(t),
    ensures
        final(bins).wf(),
        (b as int, final(bins).source()) == bit(old(bins).source(), t, i as int),
        b <= 1,
{
    let b: bool = bins.decode_decision(Ctx { table: t, index: i });
    count(b)
}

/// The smaller of two numbers.
pub open spec fn least(a: int, b: int) -> int {
    if a < b {
        a
    } else {
        b
    }
}

/// The bins of an intra type behind the termination bin: coefficients, chroma
/// pattern (two bins where it is not 0) and prediction mode. `c[k]` is the
/// context of bin `k`; those behind the chroma pattern's first bin depend on it.
pub open spec fn intra16_fields(
    s: Source,
    t: CtxTable,
    luma: int,
    chroma: int,
    with_chroma: (int, int, int),
    without: (int, int),
) -> (int, Source) {
    let (b2, s2) = bit(s, t, luma);
    let (b3, s3) = bit(s2, t, chroma);
    if b3 == 0 {
        let (p0, s4) = bit(s3, t, without.0);
        let (p1, s5) = bit(s4, t, without.1);
        (1 + 12 * b2 + 2 * p0 + p1, s5)
    } else {
        let (b4, s4) = bit(s3, t, with_chroma.0);
        let (p0, s5) = bit(s4, t, with_chroma.1);
        let (p1, s6) = bit(s5, t, with_chroma.2);
        (1 + 12 * b2 + 4 * (1 + b4) + 2 * p0 + p1, s6)
    }
}

/// The macroblock type of an I slice.
pub open spec fn mb_type_i(s: Source, inc0: int) -> (int, Source) {
    let (b0, s0) = bit(s, CtxTable::MbTypeI, least(inc0, 2));
    let (end, s1) = s0.terminate();
    if b0 == 0 {
        (0, s0)
    } else if end {
        (25, s1)
    } else {
        intra16_fields(s1, CtxTable::MbTypeI, 3, 4, (5, 6, 7), (6, 7))
    }
}

/// The intra suffix behind its own first bin, with contexts that follow
/// context `base` of a table.
pub open spec fn intra_suffix_tail(s: Source, t: CtxTable, base: int) -> (int, Source) {
    let (end, s1) = s.terminate();
    if end {
        (25, s1)
    } else {
        intra16_fields(
            s1,
            t,
            base + 1,
            base + 2,
            (base + 2, base + 3, base + 3),
            (base + 3, base + 3),
        )
    }
}

/// The intra suffix of a macroblock type in a P slice.
pub open spec fn intra_suffix(s: Source, t: CtxTable, base: int) -> (int, Source) {
    let (b0, s0) = bit(s, t, base);
    if b0 == 0 {
        (0, s0)
    } else {
        intra_suffix_tail(s0, t, base)
    }
}

/// The macroblock type of a P slice: 5 and more are intra types.
pub open spec fn mb_type_p(s: Source) -> (int, Source) {
    let (b0, s0) = bit(s, CtxTable::MbTypeP, 0);
    if b0 == 1 {
        let (v, s1) = intra_suffix(s0, CtxTable::MbTypeP, 3);
        (5 + v, s1)
    } else {
        let (b1, s1) = bit(s0, CtxTable::MbTypeP, 1);
        let (b2, s2) = bit(
            s1,
            CtxTable::MbTypeP,
            if b1 == 1 {
                3
            } else {
                2
            },
        );
        (
            if b1 == 0 {
                3 * b2
            } else {
                2 - b2
            },
            s2,
        )
    }
}

/// The sub-macroblock type of a P slice.
pub open spec fn sub_mb_type_p(s: Source) -> (int, Source) {
    let (b0, s0) = bit(s, CtxTable::SubMbTypeP, 0);
    let (b1, s1) = bit(s0, CtxTable::SubMbTypeP, 1);
    let (b2, s2) = bit(s1, CtxTable::SubMbTypeP, 2);
    if b0 == 1 {
        (0, s0)
    } else if b1 == 0 {
        (1, s1)
    } else {
        (3 - b2, s2)
    }
}

/// What the prefix of a macroblock type in a B slice says: a type of its own,
/// or that an intra type follows.
#[derive(Debug, Clone, Copy, PartialEq, Eq, Structural)]
pub enum MbTypeBPrefix {
    Code(u32),
    NeedsIntraSuffix,
}

/// The prefix of a macroblock type in a B slice.
pub open spec fn mb_type_b_prefix(s: Source, inc0: int) -> (MbTypeBPrefix, Source) {
    let t = CtxTable::MbTypeB;
    let (b0, s0) = bit(s, t, least(inc0, 2));
    let (b1, s1) = bit(s0, t, 3);
    if b0 == 0 {
        (MbTypeBPrefix::Code(0), s0)
    } else if b1 == 0 {
        let (b2, s2) = bit(s1, t, 5);
        (MbTypeBPrefix::Code((1 + b2) as u32), s2)
    } else {
        let (b2, s2) = bit(s1, t, 4);
        let (b3, s3) = bit(s2, t, 5);
        let (b4, s4) = bit(s3, t, 5);
        let (b5, s5) = bit(s4, t, 5);
        let (b6, s6) = bit(s5, t, 5);
        let four = 4 * b3 + 2 * b4 + b5;
        if b2 == 0 {
            (MbTypeBPrefix::Code((3 + four) as u32), s5)
        } else if four == 6 {
            (MbTypeBPrefix::Code(11), s5)
        } else if four == 7 {
            (MbTypeBPrefix::Code(22), s5)
        } else if four < 5 {
            (MbTypeBPrefix::Code((12 + 2 * four + b6) as u32), s6)
        } else if b6 == 0 {
            (MbTypeBPrefix::Code(23), s6)
        } else {
            (MbTypeBPrefix::NeedsIntraSuffix, s6)
        }
    }
}

/// The macroblock type of a B slice: 23 and more are intra types. The prefix's
/// last bin has already said that the intra type is not the first.
pub open spec fn mb_type_b(s: Source, inc0: int) -> (int, Source) {
    let (p, s1) = mb_type_b_prefix(s, inc0);
    match p {
        MbTypeBPrefix::Code(v) => (v as int, s1),
        MbTypeBPrefix::NeedsIntraSuffix => {
            let (v, s2) = intra_suffix_tail(s1, CtxTable::MbTypeB, 5);
            (23 + v, s2)
        },
    }
}

/// The sub-macroblock type of a B slice.
pub open spec fn sub_mb_type_b(s: Source) -> (int, Source) {
    let t = CtxTable::SubMbTypeB;
    let (b0, s0) = bit(s, t, 0);
    if b0 == 0 {
        (0, s0)
    } else {
        let (b1, s1) = bit(s0, t, 1);
        if b1 == 0 {
            let (b2, s2) = bit(s1, t, 3);
            (1 + b2, s2)
        } else {
            let (b2, s2) = bit(s1, t, 2);
            let (b3, s3) = bit(s2, t, 3);
            let (b4, s4) = bit(s3, t, 3);
            if b2 == 0 {
                (3 + 2 * b3 + b4, s4)
            } else if b3 == 0 {
                let (b5, s5) = bit(s4, t, 3);
                (7 + 2 * b4 + b5, s5)
            } else {
                (11 + b4, s4)
            }
        }
    }
}

fn decode_intra16_fields<B: BinSource>(
    bins: &mut B,
    t: CtxTable,
    luma: usize,
    chroma: usize,
    with_chroma: (usize, usize, usize),
    without: (usize, usize),
) -> (v: u32)
    requires
        old(bins).wf(),
        luma < table_size(t),
        chroma < table_size(t),
        with_chroma.0 < table_size(t),
        with_chroma.1 < table_size(t),
        with_chroma.2 < table_size(t),
        without.0 < table_size(t),
        without.1 < table_size(t),
    ensures
        final(bins).wf(),
        (v as int, final(bins).source()) == intra16_fields(
            old(bins).source(),
            t,
            luma as int,
            chroma as int,
            (with_chroma.0 as int, with_chroma.1 as int, with_chroma.2 as int),
            (without.0 as int, without.1 as int),
        ),
        1 <= v <= 24,
{
    let b2: u32 = decode_bit(bins, t, luma);
    let b3: u32 = decode_bit(bins, t, chroma);
    if b3 == 0 {
        let p0: u32 = decode_bit(bins, t, without.0);
        let p1: u32 = decode_bit(bins, t, without.1);
        1 + 12 * b2 + 2 * p0 + p1
    } else {
        let b4: u32 = decode_bit(bins, t, with_chroma.0);
        let p0: u32 = decode_bit(bins, t, with_chroma.1);
        let p1: u32 = decode_bit(bins, t, with_chroma.2);
        1 + 12 * b2 + 4 * (1 + b4) + 2 * p0 + p1
    }
}

/// Reads the macroblock type of an I slice.
pub fn decode_mb_type_i_table<B: BinSource>(bins: &mut B, inc0: usize) -> (v: u32)
    requires
        old(bins).wf(),
    ensures
        final(bins).wf(),
        (v as int, final(bins).source()) == mb_type_i(old(bins).source(), inc0 as int),
        v <= 25,
{
    let first: usize = if inc0 < 2 {
        inc0
    } else {
        2
    };
    if decode_bit(bins, CtxTable::MbTypeI, first) == 0 {
        return 0;
    }
    if bins.decode_terminate() {
        return 25;
    }
    decode_intra16_fields(bins, CtxTable::MbTypeI, 3, 4, (5, 6, 7), (6, 7))
}

/// Reads the intra suffix behind its first bin.
pub fn decode_mb_type_intra_suffix_tail<B: BinSource>(
    bins: &mut B,
    t: CtxTable,
    base: usize,
) -> (v: u32)
    requires
        old(bins).wf(),
        base + 3 < table_size(t),
    ensures
        final(bins).wf(),
        (v as int, final(bins).source()) == intra_suffix_tail(
            old(bins).source(),
            t,
            base as int,
        ),
        1 <= v <= 25,
{
    if bins.decode_terminate() {
        return 25;
    }
    decode_intra16_fields(
        bins,
        t,
        base + 1,
        base + 2,
        (base + 2, base + 3, base + 3),
        (base + 3, base + 3),
    )
}

/// Reads the intra suffix of a macroblock type in a P slice.
pub fn decode_mb_type_intra_suffix<B: BinSource>(bins: &mut B, t: CtxTable, base: usize) -> (v: u32)
    requires
        old(bins).wf(),
        base + 3 < table_size(t),
    ensures
        final(bins).wf(),
        (v as int, final(bins).source()) == intra_suffix(old(bins).source(), t, base as int),
        v <= 25,
{
    if decode_bit(bins, t, base) == 0 {
        return 0;
    }
    decode_mb_type_intra_suffix_tail(bins, t, base)
}

/// Reads the macroblock type of a P slice.
pub fn decode_mb_type_p<B: BinSource>(bins: &mut B) -> (v: u32)
    requires
        old(bins).wf(),
    ensures
        final(bins).wf(),
        (v as int, final(bins).source()) == mb_type_p(old(bins).source()),
        v <= 30,
{
    if decode_bit(bins, CtxTable::MbTypeP, 0) == 1 {
        return 5 + decode_mb_type_intra_suffix(bins, CtxTable::MbTypeP, 3);
    }
    let b1: u32 = decode_bit(bins, CtxTable::MbTypeP, 1);
    let b2: u32 = decode_bit(
        bins,
        CtxTable::MbTypeP,
        if b1 == 1 {
            3
        } else {
            2
        },
    );
    if b1 == 0 {
        if b2 == 0 {
            0
        } else {
            3
        }
    } else if b2 == 0 {
        2
    } else {
        1
    }
}

/// Reads the sub-macroblock type of a P slice.
pub fn decode_sub_mb_type_p<B: BinSource>(bins: &mut B) -> (v: u32)
    requires
        old(bins).wf(),
    ensures
        final(bins).wf(),
        (v as int, final(bins).source()) == sub_mb_type_p(old(bins).source()),
        v <= 3,
{
    if decode_bit(bins, CtxTable::SubMbTypeP, 0) == 1 {
        return 0;
    }
    if decode_bit(bins, CtxTable::SubMbTypeP, 1) == 0 {
        return 1;
    }
    if decode_bit(bins, CtxTable::SubMbTypeP, 2) == 0 {
        3
    } else {
        2
    }
}

/// Reads the prefix of a macroblock type in a B slice.
pub fn decode_mb_type_b_prefix<B: BinSource>(inc0: usize, bins: &mut B) -> (p: MbTypeBPrefix)
    requires
        old(bins).wf(),
    ensures
        final(bins).wf(),
        (p, final(bins).source()) == mb_type_b_prefix(old(bins).source(), inc0 as int),
        p matches MbTypeBPrefix::Code(v) ==> v <= 23,
{
    let t: CtxTable = CtxTable::MbTypeB;
    let first: usize = if inc0 < 2 {
        inc0
    } else {
        2
    };
    if decode_bit(bins, t, first) == 0 {
        return MbTypeBPrefix::Code(0);
    }
    if decode_bit(bins, t, 3) == 0 {
        let b: u32 = decode_bit(bins, t, 5);
        return MbTypeBPrefix::Code(1 + b);
    }
    let b2: u32 = decode_bit(bins, t, 4);
    let b3: u32 = decode_bit(bins, t, 5);
    let b4: u32 = decode_bit(bins, t, 5);
    let b5: u32 = decode_bit(bins, t, 5);
    let four: u32 = 4 * b3 + 2 * b4 + b5;
    if b2 == 0 {
        return MbTypeBPrefix::Code(3 + four);
    }
    if four == 6 {
        return MbTypeBPrefix::Code(11);
    }
    if four == 7 {
        return MbTypeBPrefix::Code(22);
    }
    let b6: u32 = decode_bit(bins, t, 5);
    if four < 5 {
        MbTypeBPrefix::Code(12 + 2 * four + b6)
    } else if b6 == 0 {
        MbTypeBPrefix::Code(23)
    } else {
        MbTypeBPrefix::NeedsIntraSuffix
    }
}

/// Reads the macroblock type of a B slice.
pub fn decode_mb_type_b<B: BinSource>(bins: &mut B, inc0: usize) -> (v: u32)
    requires
        old(bins).wf(),
    ensures
        final(bins).wf(),
        (v as int, final(bins).source()) == mb_type_b(old(bins).source(), inc0 as int),
        v <= 48,
{
    match decode_mb_type_b_prefix(inc0, bins) {
        MbTypeBPrefix::Code(v) => v,
        MbTypeBPrefix::NeedsIntraSuffix => 23 + decode_mb_type_intra_suffix_tail(
            bins,
            CtxTable::MbTypeB,
            5,
        ),
    }
}

/// Reads the sub-macroblock type of a B slice.
pub fn decode_sub_mb_type_b_tree<B: BinSource>(bins: &mut B) -> (v: u32)
    requires
        old(bins).wf(),
    ensures
        final(bins).wf(),
        (v as int, final(bins).source()) == sub_mb_type_b(old(bins).source()),
        v <= 12,
{
    let t: CtxTable = CtxTable::SubMbTypeB;
    if decode_bit(bins, t, 0) == 0 {
        return 0;
    }
    if decode_bit(bins, t, 1) == 0 {
        let b2: u32 = decode_bit(bins, t, 3);
        return 1 + b2;
    }
    if decode_bit(bins, t, 2) == 0 {
        let b3: u32 = decode_bit(bins, t, 3);
        let b4: u32 = decode_bit(bins, t, 3);
        return 3 + 2 * b3 + b4;
    }
    if decode_bit(bins, t, 3) == 0 {
        let b4: u32 = decode_bit(bins, t, 3);
        let b5: u32 = decode_bit(bins, t, 3);
        return 7 + 2 * b4 + b5;
    }
    let b4: u32 = decode_bit(bins, t, 3);
    11 + b4
}

// ------------------------------------------------------------- unary elements
/// The context of bin `n` of a reference index.
pub open spec fn ref_idx_ctx(n: int, inc0: int) -> int {
    if n == 0 {
        least(inc0, 3)
    } else if n == 1 {
        4
    } else {
        5
    }
}

/// A reference index from bin `n` on: unary, at most 32.
pub open spec fn ref_idx_from(s: Source, n: int, inc0: int) -> (int, Source)
    decreases 32 - n,
{
    if n >= 32 {
        (n, s)
    } else {
        let (b, s1) = bit(s, CtxTable::RefIdx, ref_idx_ctx(n, inc0));
        if b == 0 {
            (n, s1)
        } else {
            ref_idx_from(s1, n + 1, inc0)
        }
    }
}

/// Reads a reference index.
pub fn decode_ref_idx<B: BinSource>(bins: &mut B, inc0: u32) -> (v: u32)
    requires
        old(bins).wf(),
    ensures
        final(bins).wf(),
        (v as int, final(bins).source()) == ref_idx_from(old(bins).source(), 0, inc0 as int),
        v <= 32,
{
    let mut n: u32 = 0;
    while n < 32
        invariant
            bins.wf(),
            n <= 32,
            ref_idx_from(old(bins).source(), 0, inc0 as int) == ref_idx_from(
                bins.source(),
                n as int,
                inc0 as int,
            ),
        decreases 32 - n,
    {
        let idx: usize = if n == 0 {
            if inc0 < 3 {
                inc0 as usize
            } else {
                3
            }
        } else if n == 1 {
            4
        } else {
            5
        };
        if decode_bit(bins, CtxTable::RefIdx, idx) == 0 {
            return n;
        }
        n = n + 1;
    }
    n
}

/// The context of bin `n` of a vector difference, given the sum of its
/// neighbours' magnitudes.
pub open spec fn mvd_ctx(n: int, sum_abs: int) -> int {
    if n == 0 {
        if sum_abs < 3 {
            0
        } else if sum_abs > 32 {
            2
        } else {
            1
        }
    } else {
        least(n + 2, 6)
    }
}

/// The unary prefix of a vector difference from bin `n` on, at most 9.
pub open spec fn mvd_prefix_from(s: Source, t: CtxTable, n: int, sum_abs: int) -> (int, Source)
    decreases 9 - n,
{
    if n >= 9 {
        (n, s)
    } else {
        let (b, s1) = bit(s, t, mvd_ctx(n, sum_abs));
        if b == 0 {
            (n, s1)
        } else {
            mvd_prefix_from(s1, t, n + 1, sum_abs)
        }
    }
}

/// A component of a vector difference: a prefix, behind a full one an
/// equiprobable suffix of order 3, and a sign where it is not 0. Magnitudes
/// stop at the largest 32-bit one.
pub open spec fn mvd_component(s: Source, t: CtxTable, sum_abs: int) -> (int, Source) {
    let (n, s1) = mvd_prefix_from(s, t, 0, sum_abs);
    let (magnitude, s2) = if n >= 9 {
        let (v, s2) = s1.suffix(3);
        (saturated(9 + v) as int, s2)
    } else {
        (n, s1)
    };
    if magnitude == 0 {
        (0, s2)
    } else {
        let m = least(magnitude, i32::MAX as int);
        let (neg, s3) = s2.bypass();
        (
            if neg {
                -m
            } else {
                m
            },
            s3,
        )
    }
}

/// The table of a component's contexts.
pub open spec fn mvd_table(comp: int) -> CtxTable {
    if comp == 0 {
        CtxTable::MvdComp0
    } else {
        CtxTable::MvdComp1
    }
}

/// Reads a component of a vector difference.
pub fn decode_mvd_component<B: BinSource>(bins: &mut B, comp: usize, sum_abs: u32) -> (v: i32)
    requires
        old(bins).wf(),
    ensures
        final(bins).wf(),
        (v as int, final(bins).source()) == mvd_component(
            old(bins).source(),
            mvd_table(comp as int),
            sum_abs as int,
        ),
{
    let t: CtxTable = if comp == 0 {
        CtxTable::MvdComp0
    } else {
        CtxTable::MvdComp1
    };
    let mut n: u32 = 0;
    let mut more: bool = true;
    while more && n < 9
        invariant
            bins.wf(),
            t == mvd_table(comp as int),
            n <= 9,
            !more ==> n < 9,
            mvd_prefix_from(old(bins).source(), t, 0, sum_abs as int) == (if more {
                mvd_prefix_from(bins.source(), t, n as int, sum_abs as int)
            } else {
                (n as int, bins.source())
            }),
        decreases 9 - n, if more { 1int } else { 0int },
    {
        let idx: usize = if n == 0 {
            if sum_abs < 3 {
                0
            } else if sum_abs > 32 {
                2
            } else {
                1
            }
        } else if n < 4 {
            n as usize + 2
        } else {
            6
        };
        if decode_bit(bins, t, idx) == 0 {
            more = false;
        } else {
            n = n + 1;
        }
    }
    let magnitude: u32 = if n >= 9 {
        n.saturating_add(bins.decode_bypass_egk(3))
    } else {
        n
    };
    if magnitude == 0 {
        return 0;
    }
    let m: i32 = if magnitude < 0x7fff_ffff {
        magnitude as i32
    } else {
        0x7fff_ffff
    };
    if bins.decode_bypass() {
        -m
    } else {
        m
    }
}

/// The bins of a quantiser difference from bin `n` on, at most `max`.
pub open spec fn qp_delta_bins_from(s: Source, n: int, inc0: int, max: int) -> (int, Source)
    decreases max - n,
{
    if n >= max {
        (n, s)
    } else {
        let (b, s1) = bit(
            s,
            CtxTable::QpDelta,
            if n == 0 {
                inc0
            } else if n == 1 {
                2
            } else {
                3
            },
        );
        if b == 0 {
            (n, s1)
        } else {
            qp_delta_bins_from(s1, n + 1, inc0, max)
        }
    }
}

// ------------------------------------------------------------------------ laws
/// Every bin sequence names a macroblock type that exists in the slice.
pub proof fn law_mb_types_are_known(s: Source, inc0: int)
    ensures
        mb_kind(SliceKind::I, mb_type_i(s, inc0).0) is Ok,
        mb_kind(SliceKind::P, mb_type_p(s).0) is Ok,
        mb_kind(SliceKind::B, mb_type_b(s, inc0).0) is Ok,
{
}

/// Every bin sequence names a sub-macroblock type that exists in the slice.
pub proof fn law_sub_mb_types_are_known(s: Source)
    ensures
        sub_mb_kind(false, sub_mb_type_p(s).0) is Ok,
        sub_mb_kind(true, sub_mb_type_b(s).0) is Ok,
{
}

/// How many bins name sub-macroblock type `v` of a B slice.
pub open spec fn sub_b_len(v: int) -> int {
    if v == 0 {
        1
    } else if v <= 2 {
        3
    } else if v <= 6 {
        5
    } else if v <= 10 {
        6
    } else {
        5
    }
}

/// Bin `k` of those that name sub-macroblock type `v` of a B slice.
pub open spec fn sub_b_bin(v: int, k: int) -> int {
    if k == 0 {
        flag(v > 0)
    } else if k == 1 {
        flag(v > 2)
    } else if k == 2 {
        if v <= 2 {
            v - 1
        } else {
            flag(v > 6)
        }
    } else if k == 3 {
        if v <= 6 {
            (v - 3) / 2
        } else {
            flag(v > 10)
        }
    } else if k == 4 {
        if v <= 6 {
            (v - 3) % 2
        } else if v <= 10 {
            (v - 7) / 2
        } else {
            v - 11
        }
    } else {
        (v - 7) % 2
    }
}

/// The context that bin `k` is coded with.
pub open spec fn sub_b_ctx(v: int, k: int) -> int {
    if k < 2 {
        k
    } else if k == 2 && v > 2 {
        2
    } else {
        3
    }
}

/// The source answers the bins of sub-macroblock type `v` from the `k`th on.
pub open spec fn answers_sub_b(s: Source, v: int, k: int) -> bool
    decreases sub_b_len(v) - k,
{
    k >= sub_b_len(v) || {
        let (b, s1) = bit(s, CtxTable::SubMbTypeB, sub_b_ctx(v, k));
        b == sub_b_bin(v, k) && answers_sub_b(s1, v, k + 1)
    }
}

/// The source behind the bins of sub-macroblock type `v` from the `k`th on.
pub open spec fn behind_sub_b(s: Source, v: int, k: int) -> Source
    decreases sub_b_len(v) - k,
{
    if k >= sub_b_len(v) {
        s
    } else {
        behind_sub_b(bit(s, CtxTable::SubMbTypeB, sub_b_ctx(v, k)).1, v, k + 1)
    }
}

/// The sub-macroblock types of a B slice are coded by a complete prefix code:
/// every source answers the bins of exactly one type, which is the one that is
/// read, and reading stops behind those bins.
pub proof fn law_sub_types_are_a_prefix_code(s: Source, v: int)
    requires
        0 <= v <= 12,
    ensures
        0 <= sub_mb_type_b(s).0 <= 12,
        answers_sub_b(s, v, 0) <==> sub_mb_type_b(s).0 == v,
        sub_mb_type_b(s).0 == v ==> sub_mb_type_b(s).1 == behind_sub_b(s, v, 0),
{
    reveal_with_fuel(answers_sub_b, 7);
    reveal_with_fuel(behind_sub_b, 7);
}

/// No two sub-macroblock types of a B slice share their bins, not even as the
/// beginning of one another's.
pub proof fn law_sub_types_differ_early(v: int, w: int)
    requires
        0 <= v < w <= 12,
    ensures
        exists|k: int|
            0 <= k < sub_b_len(v) && k < sub_b_len(w) && #[trigger] sub_b_bin(v, k) != sub_b_bin(w, k),
{
    let k: int = if v == 0 {
        0
    } else if v <= 2 {
        if w <= 2 {
            2
        } else {
            1
        }
    } else if v <= 6 {
        if w > 6 {
            2
        } else if (v - 3) / 2 != (w - 3) / 2 {
            3
        } else {
            4
        }
    } else if v <= 10 {
        if w > 10 {
            3
        } else if (v - 7) / 2 != (w - 7) / 2 {
            4
        } else {
            5
        }
    } else {
        4
    };
    assert(sub_b_bin(v, k) != sub_b_bin(w, k));
}

/// The source whose answers follow a list, whatever is asked.
pub open spec fn scripted(answers: Seq<u32>) -> Source {
    Source {
        respond: |asked: Seq<Ask>|
            if 0 < asked.len() <= answers.len() {
                answers[asked.len() - 1]
            } else {
                0u32
            },
    }
}

/// The bins that name sub-macroblock type `v` of a B slice.
pub open spec fn sub_b_bins(v: int) -> Seq<u32> {
    Seq::new(sub_b_len(v) as nat, |k: int| sub_b_bin(v, k) as u32)
}

proof fn lemma_scripted(answers: Seq<u32>, t: CtxTable, i: int)
    requires
        answers.len() > 0,
    ensures
        bit(scripted(answers), t, i) == (flag(answers[0] != 0), scripted(answers.skip(1))),
{
    let a = Ask::Decision(ctx(t, i));
    assert(scripted(answers).after(a).respond =~= scripted(answers.skip(1)).respond) by {
        assert forall|asked: Seq<Ask>| #[trigger]
            (scripted(answers).after(a).respond)(asked) == (scripted(answers.skip(1)).respond)(
                asked,
            ) by {
            assert((seq![a] + asked).len() == asked.len() + 1);
        }
    }
}

proof fn lemma_scripted_answers(v: int, k: int)
    requires
        0 <= v <= 12,
        0 <= k <= sub_b_len(v),
    ensures
        answers_sub_b(scripted(sub_b_bins(v).skip(k)), v, k),
    decreases sub_b_len(v) - k,
{
    if k < sub_b_len(v) {
        let rest = sub_b_bins(v).skip(k);
        lemma_scripted(rest, CtxTable::SubMbTypeB, sub_b_ctx(v, k));
        assert(rest.skip(1) =~= sub_b_bins(v).skip(k + 1));
        assert(rest[0] == sub_b_bin(v, k) as u32);
        assert(0 <= sub_b_bin(v, k) <= 1);
        lemma_scripted_answers(v, k + 1);
    }
}

/// Every sub-macroblock type of a B slice can be coded: its bins are read back
/// as that type.
pub proof fn law_sub_types_are_all_coded(v: int)
    requires
        0 <= v <= 12,
    ensures
        sub_mb_type_b(scripted(sub_b_bins(v))).0 == v,
{
    assert(sub_b_bins(v).skip(0) =~= sub_b_bins(v));
    lemma_scripted_answers(v, 0);
    law_sub_types_are_a_prefix_code(scripted(sub_b_bins(v)), v);
}

/// The number of a prefix among the twenty-five that there are: a type's own,
/// and 24 where an intra type follows.
pub open spec fn prefix_number(p: MbTypeBPrefix) -> int {
    match p {
        MbTypeBPrefix::Code(v) => v as int,
        MbTypeBPrefix::NeedsIntraSuffix => 24,
    }
}

/// How many bins name prefix `v` of a macroblock type in a B slice.
pub open spec fn type_b_len(v: int) -> int {
    if v == 0 {
        1
    } else if v <= 2 {
        3
    } else if v <= 11 || v == 22 {
        6
    } else {
        7
    }
}

/// What bins 3 to 5 of prefix `v` spell.
pub open spec fn type_b_middle(v: int) -> int {
    if v <= 10 {
        v - 3
    } else if v == 11 {
        6
    } else if v == 22 {
        7
    } else if v >= 23 {
        5
    } else {
        (v - 12) / 2
    }
}

/// Bin `k` of those that name prefix `v`.
pub open spec fn type_b_bin(v: int, k: int) -> int {
    if k == 0 {
        flag(v > 0)
    } else if k == 1 {
        flag(v > 2)
    } else if k == 2 {
        if v <= 2 {
            v - 1
        } else {
            flag(v > 10)
        }
    } else if k == 3 {
        type_b_middle(v) / 4
    } else if k == 4 {
        type_b_middle(v) / 2 % 2
    } else if k == 5 {
        type_b_middle(v) % 2
    } else if v >= 23 {
        v - 23
    } else {
        v % 2
    }
}

/// The context that bin `k` is coded with.
pub open spec fn type_b_ctx(v: int, k: int, inc0: int) -> int {
    if k == 0 {
        least(inc0, 2)
    } else if k == 1 {
        3
    } else if k == 2 && v > 2 {
        4
    } else {
        5
    }
}

/// The source answers the bins of prefix `v` from the `k`th on.
pub open spec fn answers_type_b(s: Source, v: int, inc0: int, k: int) -> bool
    decreases type_b_len(v) - k,
{
    k >= type_b_len(v) || {
        let (b, s1) = bit(s, CtxTable::MbTypeB, type_b_ctx(v, k, inc0));
        b == type_b_bin(v, k) && answers_type_b(s1, v, inc0, k + 1)
    }
}

/// The prefixes of macroblock types in a B slice are coded by a complete prefix
/// code: every source answers the bins of exactly one, which is the one that is
/// read.
#[verifier::rlimit(40)]
pub proof fn law_types_are_a_prefix_code(s: Source, inc0: int, v: int)
    requires
        0 <= v <= 24,
    ensures
        0 <= prefix_number(mb_type_b_prefix(s, inc0).0) <= 24,
        answers_type_b(s, v, inc0, 0) <==> prefix_number(mb_type_b_prefix(s, inc0).0) == v,
{
    reveal_with_fuel(answers_type_b, 8);
}

/// The bins that name prefix `v` of a macroblock type in a B slice.
pub open spec fn type_b_bins(v: int) -> Seq<u32> {
    Seq::new(type_b_len(v) as nat, |k: int| type_b_bin(v, k) as u32)
}

proof fn lemma_scripted_type_answers(v: int, inc0: int, k: int)
    requires
        0 <= v <= 24,
        0 <= k <= type_b_len(v),
    ensures
        answers_type_b(scripted(type_b_bins(v).skip(k)), v, inc0, k),
    decreases type_b_len(v) - k,
{
    if k < type_b_len(v) {
        let rest = type_b_bins(v).skip(k);
        lemma_scripted(rest, CtxTable::MbTypeB, type_b_ctx(v, k, inc0));
        assert(rest.skip(1) =~= type_b_bins(v).skip(k + 1));
        assert(rest[0] == type_b_bin(v, k) as u32);
        assert(0 <= type_b_bin(v, k) <= 1);
        lemma_scripted_type_answers(v, inc0, k + 1);
    }
}

/// Every prefix of a macroblock type in a B slice can be coded: its bins are
/// read back as that prefix.
pub proof fn law_types_are_all_coded(inc0: int, v: int)
    requires
        0 <= v <= 24,
    ensures
        prefix_number(mb_type_b_prefix(scripted(type_b_bins(v)), inc0).0) == v,
{
    assert(type_b_bins(v).skip(0) =~= type_b_bins(v));
    lemma_scripted_type_answers(v, inc0, 0);
    law_types_are_a_prefix_code(scripted(type_b_bins(v)), inc0, v);
}

} // verus!
