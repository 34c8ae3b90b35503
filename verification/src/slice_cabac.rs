//! Arithmetic-coded slices.
use vstd::prelude::*;
use crate::bins::{BinSource, CtxTable, Source};
use crate::budget::{Budget, Fault};
use crate::cabac_syntax::{bit, decode_bit, no_previous, skip_cond_term, skip_term, PrevMbQp};
use crate::coder::{coder_source, ArithmeticDecoder, Coder};
use crate::contexts::{slice_init, starting_models, CabacMbCtx};
use crate::direct::ColocatedField;
use crate::error::{Error, Reason};
use crate::grids::{
    collect_mv_blocks, fresh_grids_for, mb_addr_xy, mb_motion, numbered_or_refused,
    room_without_grids, CabacGrids, CabacMbInfo, Grids, MvInfo,
};
use crate::headers::{check_direct, check_scope, refusal, temporal_direct, Pps, SliceHeader, Sps};
use crate::inter::with_rect;
use crate::mb_cabac::{
    cabac_macroblock, clear_flags, decode_macroblock_cabac, with_flags_cleared, CabacState,
};
use crate::mb_residual::{lemma_charge_nonnegative, mb_residual_charged_bytes, MbResidual};
use crate::mb_type::SliceKind;
use crate::prediction::{
    apply_intra_motion, apply_skip_motion, intra_motion, whole, with_skip_motion,
};
use crate::slice::{
    coded_summary, no_stats, skipped_summary, summarise_coded, summarise_skipped, MbSummary,
    SliceStats, Stats,
};
use crate::slice_cavlc::{
    col_of, counted, lemma_position, lemma_total, row_of, skipped_facts, SliceEnv,
};

verus! {

/// A slice between two macroblocks.
pub struct CabacSlice {
    pub st: CabacState,
    pub stats: Stats,
    /// The next macroblock's address.
    pub addr: int,
}

/// Whether a macroblock is skipped, in slices that can skip.
pub open spec fn cabac_skip_flag(s: Source, g: Grids, kind: SliceKind, mb_x: int, mb_y: int) -> (
    bool,
    Source,
) {
    if kind is I {
        (false, s)
    } else {
        let inc = skip_term(g.left_of(mb_x, mb_y)) + skip_term(g.above(mb_x, mb_y));
        let t = if kind is B {
            CtxTable::SkipB
        } else {
            CtxTable::SkipP
        };
        let (b, s1) = bit(s, t, inc);
        (b == 1, s1)
    }
}

/// A skipped macroblock: derived motion, no coefficients anywhere, and the
/// quantiser as it was.
pub open spec fn cabac_skip(s: CabacSlice, env: SliceEnv) -> CabacSlice {
    let wide = env.sps.pic_width_in_mbs as int;
    let (x, y) = (col_of(s.addr, wide), row_of(s.addr, wide));
    let g0 = Grids { current: Some((x, y)), ..s.st.g };
    let g1 = with_skip_motion(
        g0,
        x as int,
        y as int,
        env.header.kind is B,
        env.sps.direct_8x8_inference,
        env.colocated,
    );
    let g2 = with_flags_cleared(g1, x as int, y as int).with_chroma_dc_flag(
        0,
        x as int,
        y as int,
        false,
    ).with_chroma_dc_flag(1, x as int, y as int, false);
    let g3 = g2.with_mb(x, y, skipped_facts());
    let m = skipped_summary(x, y, s.st.qpy, mb_motion(g3, x as int, y as int));
    CabacSlice {
        st: CabacState {
            g: g3,
            prev: PrevMbQp { available: true, skipped: true, ..no_previous() },
            ..s.st
        },
        stats: s.stats.with_skipped(m, s.addr == env.header.first_mb_in_slice),
        addr: s.addr + 1,
    }
}

/// A macroblock that is not skipped. What its coefficients were charged is
/// given back once they are handed on.
pub open spec fn cabac_coded(s: CabacSlice, env: SliceEnv, pps: Pps, room: int) -> Result<
    CabacSlice,
    Fault,
> {
    let wide = env.sps.pic_width_in_mbs as int;
    let (x, y) = (col_of(s.addr, wide), row_of(s.addr, wide));
    let g0 = Grids { current: Some((x, y)), ..s.st.g };
    match cabac_macroblock(
        CabacState { g: g0, ..s.st },
        env.sps,
        pps,
        env.header,
        x,
        y,
        env.colocated,
        room,
    ) {
        Err(e) => Err(e),
        Ok((out, end)) => {
            let info = end.g.mb_at(x as int, y as int);
            let g = if info matches Some(i) && (i.is_intra || i.is_ipcm) {
                with_rect(end.g, x as int, y as int, whole(), intra_motion())
            } else {
                end.g
            };
            let m = coded_summary(x, y, info, end.qpy, out, mb_motion(g, x as int, y as int));
            Ok(
                CabacSlice {
                    st: CabacState { g, ..end },
                    stats: s.stats.with_coded(m, info, s.addr == env.header.first_mb_in_slice),
                    addr: s.addr + 1,
                },
            )
        },
    }
}

/// The next macroblock, skipped or not.
pub open spec fn cabac_step(s: CabacSlice, env: SliceEnv, pps: Pps, room: int) -> Result<
    CabacSlice,
    Fault,
> {
    let wide = env.sps.pic_width_in_mbs as int;
    let (skipped, src) = cabac_skip_flag(
        s.st.s,
        s.st.g,
        env.header.kind,
        col_of(s.addr, wide) as int,
        row_of(s.addr, wide) as int,
    );
    let s0 = CabacSlice { st: CabacState { s: src, ..s.st }, ..s };
    if skipped {
        Ok(cabac_skip(s0, env))
    } else {
        cabac_coded(s0, env, pps, room)
    }
}

/// The rest of a slice: behind each macroblock one bin says whether the slice
/// ends.
pub open spec fn cabac_slice_from(
    s: CabacSlice,
    env: SliceEnv,
    pps: Pps,
    room: int,
    total: int,
) -> Result<CabacSlice, Fault>
    decreases total - s.addr,
{
    if s.addr >= total {
        Ok(s)
    } else {
        match cabac_step(s, env, pps, room) {
            Err(e) => Err(e),
            Ok(s1) => {
                let (end, src) = s1.st.s.terminate();
                let s2 = CabacSlice { st: CabacState { s: src, ..s1.st }, ..s1 };
                if end {
                    Ok(s2)
                } else {
                    cabac_slice_from(s2, env, pps, room, total)
                }
            },
        }
    }
}

/// A whole slice: what it held and what is left of its source. A slice that
/// fails keeps the charges of its grids and of the coefficients of the
/// macroblock that it fails in.
pub open spec fn cabac_slice<E: ArithmeticDecoder>(
    engine: E::State,
    sps: Sps,
    pps: Pps,
    header: SliceHeader,
    field: Option<&ColocatedField>,
    room: int,
) -> Result<(Stats, Source), Fault> {
    let (wide, high) = (sps.pic_width_in_mbs as int, sps.mbs_high());
    if refusal(sps, pps, header) is Some {
        Err(Fault { error: Error::Unsupported(refusal(sps, pps, header)->0), room })
    } else if temporal_direct(header) {
        Err(Fault { error: Error::Unsupported(Reason::TemporalDirect), room })
    } else {
        match fresh_grids_for(wide, high, room) {
            Err(error) => Err(Fault { error, room: room_without_grids(wide, high, room) }),
            Ok((g, charge)) => {
                let qpy = pps.slice_qp(header.slice_qp_delta as int);
                let idc = init_idc(header);
                let start = CabacSlice {
                    st: CabacState {
                        s: coder_source::<E>(
                            engine,
                            starting_models(qpy, slice_init(header.kind is I, idc), idc),
                        ),
                        g,
                        prev: no_previous(),
                        qpy,
                    },
                    stats: no_stats(),
                    addr: header.first_mb_in_slice as int,
                };
                let env = SliceEnv { sps, header, colocated: field };
                match cabac_slice_from(start, env, pps, room - charge, wide * high) {
                    Err(e) => Err(e),
                    Ok(s) => Ok((s.stats, s.st.s)),
                }
            },
        }
    }
}

/// The initialisation index of a slice, 0 where it names none.
pub open spec fn init_idc(header: SliceHeader) -> u8 {
    match header.cabac_init_idc {
        Some(v) => v as u8,
        None => 0,
    }
}

/// A slice as it stands between two macroblocks.
pub open spec fn cabac_slice_at(
    s: Source,
    grids: CabacGrids,
    prev: PrevMbQp,
    qpy: i32,
    stats: SliceStats,
    addr: u32,
) -> CabacSlice {
    CabacSlice {
        st: CabacState { s, g: grids@, prev, qpy: qpy as int },
        stats: stats@,
        addr: addr as int,
    }
}

fn skip_macroblock(
    grids: &mut CabacGrids,
    stats: &mut SliceStats,
    prev_qp: &mut PrevMbQp,
    qpy: i32,
    addr: u32,
    env: SliceEnv,
    Ghost(s): Ghost<Source>,
)
    requires
        old(grids).wf(),
        1 <= env.sps.pic_width_in_mbs <= 0x0fff_ffff,
        counted(*old(stats), addr, env.header.first_mb_in_slice),
        addr < 0x2fff_ffff,
    ensures
        final(grids).wf(),
        final(grids)@.current is None,
        final(grids).charged_bytes == old(grids).charged_bytes,
        counted(*final(stats), (addr + 1) as u32, env.header.first_mb_in_slice),
        cabac_slice_at(s, *final(grids), *final(prev_qp), qpy, *final(stats), (addr + 1) as u32)
            == cabac_skip(
            cabac_slice_at(s, *old(grids), *old(prev_qp), qpy, *old(stats), addr),
            env,
        ),
{
    proof {
        lemma_position(addr as int, env.sps.pic_width_in_mbs as int);
    }
    let (x, y) = mb_addr_xy(addr, env.sps.pic_width_in_mbs);
    grids.begin_macroblock(x, y);
    apply_skip_motion(
        grids,
        x,
        y,
        matches!(env.header.kind, SliceKind::B),
        env.sps.direct_8x8_inference,
        env.colocated,
    );
    clear_flags(grids, x, y);
    grids.set_cbf_chroma_dc(0, x, y, false);
    grids.set_cbf_chroma_dc(1, x, y, false);
    let mut info: CabacMbInfo = CabacMbInfo::default();
    info.available = true;
    info.skipped = true;
    grids.set_mb_info(x, y, info);
    let mut prev: PrevMbQp = PrevMbQp::default();
    prev.available = true;
    prev.skipped = true;
    *prev_qp = prev;
    let blocks: [MvInfo; 16] = collect_mv_blocks(grids, x, y);
    let m: MbSummary = summarise_skipped(x, y, qpy, blocks);
    stats.push_skipped(m, addr == env.header.first_mb_in_slice);
}

#[verifier::rlimit(30)]
fn coded_macroblock<E: ArithmeticDecoder>(
    bins: &mut Coder<E>,
    budget: &mut Budget,
    grids: &mut CabacGrids,
    stats: &mut SliceStats,
    prev_qp: &mut PrevMbQp,
    qpy: &mut i32,
    addr: u32,
    env: SliceEnv,
    pps: &Pps,
) -> (v: Result<(), Error>)
    requires
        old(bins).wf(),
        old(grids).wf(),
        0 <= *old(qpy) < 52,
        1 <= env.sps.pic_width_in_mbs <= 0x0fff_ffff,
        counted(*old(stats), addr, env.header.first_mb_in_slice),
        addr < 0x2fff_ffff,
    ensures
        final(bins).wf(),
        final(grids).wf(),
        final(grids).charged_bytes == old(grids).charged_bytes,
        final(budget).limit == old(budget).limit,
        final(budget).committed >= old(budget).committed,
        0 <= *final(qpy) < 52,
        match cabac_coded(
            cabac_slice_at(
                old(bins).source(),
                *old(grids),
                *old(prev_qp),
                *old(qpy),
                *old(stats),
                addr,
            ),
            env,
            *pps,
            old(budget).room(),
        ) {
            Ok(s) => {
                &&& v is Ok
                &&& counted(*final(stats), (addr + 1) as u32, env.header.first_mb_in_slice)
                &&& cabac_slice_at(
                    final(bins).source(),
                    *final(grids),
                    *final(prev_qp),
                    *final(qpy),
                    *final(stats),
                    (addr + 1) as u32,
                ) == s
                &&& final(grids)@.current is None
                &&& final(budget).committed == old(budget).committed
            },
            Err(f) => v == Err::<(), Error>(f.error) && final(budget).room() == f.room,
        },
{
    proof {
        lemma_position(addr as int, env.sps.pic_width_in_mbs as int);
    }
    let (x, y) = mb_addr_xy(addr, env.sps.pic_width_in_mbs);
    grids.begin_macroblock(x, y);
    let residual: MbResidual = decode_macroblock_cabac(
        bins,
        budget,
        &env.sps,
        pps,
        &env.header,
        grids,
        prev_qp,
        qpy,
        x,
        y,
        env.colocated,
    )?;
    let info: Option<CabacMbInfo> = grids.mb_info_at(x, y);
    let intra: bool = match info {
        Some(i) => i.is_intra || i.is_ipcm,
        None => false,
    };
    if intra {
        apply_intra_motion(grids, x, y);
    }
    proof {
        lemma_charge_nonnegative(residual@);
    }
    let residual_bytes: u64 = mb_residual_charged_bytes(&residual);
    let blocks: [MvInfo; 16] = collect_mv_blocks(grids, x, y);
    let m: MbSummary = summarise_coded(x, y, info, *qpy, residual, blocks);
    stats.push_coded(m, info, addr == env.header.first_mb_in_slice);
    budget.release(residual_bytes);
    Ok(())
}

fn read_skip_flag<B: BinSource>(
    bins: &mut B,
    grids: &CabacGrids,
    kind: SliceKind,
    mb_x: u32,
    mb_y: u32,
) -> (r: bool)
    requires
        old(bins).wf(),
        grids.wf(),
        grids@.current is None,
    ensures
        final(bins).wf(),
        (r, final(bins).source()) == cabac_skip_flag(
            old(bins).source(),
            grids@,
            kind,
            mb_x as int,
            mb_y as int,
        ),
{
    if matches!(kind, SliceKind::I) {
        return false;
    }
    let inc: u32 = skip_cond_term(grids.mb_left(mb_x, mb_y)) + skip_cond_term(
        grids.mb_above(mb_x, mb_y),
    );
    let t: CtxTable = if matches!(kind, SliceKind::B) {
        CtxTable::SkipB
    } else {
        CtxTable::SkipP
    };
    decode_bit(bins, t, inc as usize) == 1
}

#[verifier::loop_isolation(false)]
#[verifier::rlimit(60)]
fn run_slice<E: ArithmeticDecoder>(
    bins: &mut Coder<E>,
    budget: &mut Budget,
    grids: &mut CabacGrids,
    stats: &mut SliceStats,
    start_qpy: i32,
    env: SliceEnv,
    pps: &Pps,
    total: u32,
) -> (v: Result<(), Error>)
    requires
        old(bins).wf(),
        old(grids).wf(),
        old(grids)@.current is None,
        0 <= start_qpy < 52,
        total > 0 ==> 1 <= env.sps.pic_width_in_mbs <= 0x0fff_ffff,
        total <= 0x0fff_ffff,
        old(stats)@ == no_stats(),
    ensures
        final(bins).wf(),
        final(grids).charged_bytes == old(grids).charged_bytes,
        final(budget).limit == old(budget).limit,
        final(budget).committed >= old(budget).committed,
        match cabac_slice_from(
            cabac_slice_at(
                old(bins).source(),
                *old(grids),
                no_previous(),
                start_qpy,
                *old(stats),
                env.header.first_mb_in_slice,
            ),
            env,
            *pps,
            old(budget).room(),
            total as int,
        ) {
            Ok(s) => {
                &&& v is Ok
                &&& final(stats)@ == s.stats
                &&& final(bins).source() == s.st.s
                &&& final(budget).committed == old(budget).committed
            },
            Err(f) => v == Err::<(), Error>(f.error) && final(budget).room() == f.room,
        },
{
    let mut qpy: i32 = start_qpy;
    let mut prev_qp: PrevMbQp = PrevMbQp::default();
    let mut addr: u32 = env.header.first_mb_in_slice;
    let ghost all = cabac_slice_from(
        cabac_slice_at(
            old(bins).source(),
            *old(grids),
            no_previous(),
            start_qpy,
            *old(stats),
            env.header.first_mb_in_slice,
        ),
        env,
        *pps,
        old(budget).room(),
        total as int,
    );
    while addr < total
        invariant
            bins.wf(),
            grids.wf(),
            grids@.current is None,
            grids.charged_bytes == old(grids).charged_bytes,
            budget.limit == old(budget).limit,
            budget.committed >= old(budget).committed,
            budget.committed == old(budget).committed,
            0 <= qpy < 52,
            addr < total ==> counted(*stats, addr, env.header.first_mb_in_slice),
            all == cabac_slice_from(
                cabac_slice_at(bins.source(), *grids, prev_qp, qpy, *stats, addr),
                env,
                *pps,
                old(budget).room(),
                total as int,
            ),
        decreases total - addr,
    {
        proof {
            lemma_position(addr as int, env.sps.pic_width_in_mbs as int);
        }
        let (x, y) = mb_addr_xy(addr, env.sps.pic_width_in_mbs);
        let skipped: bool = read_skip_flag(bins, grids, env.header.kind, x, y);
        if skipped {
            skip_macroblock(grids, stats, &mut prev_qp, qpy, addr, env, Ghost(bins.source()));
        } else {
            coded_macroblock(
                bins,
                budget,
                grids,
                stats,
                &mut prev_qp,
                &mut qpy,
                addr,
                env,
                pps,
            )?;
        }
        addr = addr + 1;
        if bins.decode_terminate() {
            return Ok(());
        }
    }
    Ok(())
}

/// Decodes an arithmetic-coded slice from an engine at its first bin.
pub fn decode_slice_cabac<E: ArithmeticDecoder>(
    bins: &mut Coder<E>,
    budget: &mut Budget,
    sps: &Sps,
    pps: &Pps,
    header: &SliceHeader,
    colocated: Option<&ColocatedField>,
) -> (v: Result<SliceStats, Error>)
    requires
        old(bins).wf(),
        sps.wf(),
        numbered_or_refused(
            sps.pic_width_in_mbs as int,
            sps.mbs_high(),
            old(budget).room(),
        ),
    ensures
        final(bins).wf(),
        final(budget).limit == old(budget).limit,
        final(budget).committed >= old(budget).committed,
        match cabac_slice::<E>(
            old(bins).engine.state(),
            *sps,
            *pps,
            *header,
            colocated,
            old(budget).room(),
        ) {
            Ok((stats, s)) => {
                &&& v matches Ok(x)
                &&& x@ == stats
                &&& final(bins).source() == s
                &&& final(budget).committed == old(budget).committed
            },
            Err(f) => v matches Err(e) && e == f.error && final(budget).room() == f.room,
        },
{
    check_scope(sps, pps, header)?;
    check_direct(header)?;
    let mbs_wide: u32 = sps.pic_width_in_mbs;
    let mbs_high: u32 = sps.height_in_mbs();
    let mut grids: CabacGrids = CabacGrids::new(mbs_wide, mbs_high, budget)?;
    proof {
        lemma_total(mbs_wide as int, mbs_high as int);
    }
    let total: u32 = mbs_wide * mbs_high;
    let qpy: i32 = pps.start_qp(header.slice_qp_delta);
    let idc: u8 = match header.cabac_init_idc {
        Some(v) => v as u8,
        None => 0,
    };
    let contexts: CabacMbCtx = CabacMbCtx::new(
        qpy as i8,
        matches!(header.kind, SliceKind::I),
        idc,
    );
    bins.start_slice(contexts);
    let mut stats: SliceStats = SliceStats::default();
    let env = SliceEnv { sps: *sps, header: *header, colocated };
    run_slice(bins, budget, &mut grids, &mut stats, qpy, env, pps, total)?;
    grids.release(budget);
    Ok(stats)
}

} // verus!
