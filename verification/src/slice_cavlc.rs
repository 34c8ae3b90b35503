//! Variable-length coded slices.
use vstd::prelude::*;
use vstd::arithmetic::power2::lemma_pow2_pos;
use crate::bits::{more_data, more_rbsp_data, BitReader};
use crate::budget::{Budget, Fault};
use crate::direct::ColocatedField;
use crate::error::{Error, Reason};
use crate::golomb::{leading_zeros, ue};
use crate::grids::{
    addressable, at_least_one, collect_mv_blocks, countable, fresh_counts, fresh_grids_for,
    mb_addr_xy, mb_motion, numbered_or_refused, own_mb_info, room_without_grids, zero_out_mb_neighbours, CabacGrids,
    CabacMbInfo, Grids, MvInfo, NeighbourGrid,
};
use crate::headers::{check_direct, check_scope, refusal, temporal_direct, Pps, SliceHeader, Sps};
use crate::inter::with_rect;
use crate::mb_cavlc::{cavlc_macroblock, decode_macroblock_cavlc, CavlcState};
use crate::mb_residual::{lemma_charge_nonnegative, mb_residual_charged_bytes, MbResidual};
use crate::mb_type::SliceKind;
use crate::prediction::{
    apply_intra_motion, apply_skip_motion, intra_motion, whole, with_skip_motion,
};
use crate::slice::{
    coded_summary, no_stats, skipped_summary, summarise_coded, summarise_skipped, MbSummary,
    SliceStats, Stats,
};

verus! {

/// A slice between two macroblocks.
pub struct CavlcSlice {
    pub st: CavlcState,
    pub stats: Stats,
    /// The next macroblock's address.
    pub addr: int,
}

/// What does not change inside a slice.
#[derive(Clone, Copy)]
pub struct SliceEnv<'a> {
    pub sps: Sps,
    pub header: SliceHeader,
    pub colocated: Option<&'a ColocatedField>,
}

/// The facts of a skipped macroblock.
pub open spec fn skipped_facts() -> CabacMbInfo {
    CabacMbInfo { skipped: true, ..own_mb_info() }
}

/// The column of a macroblock address.
pub open spec fn col_of(addr: int, wide: int) -> u32 {
    (addr % wide) as u32
}

/// The row of a macroblock address.
pub open spec fn row_of(addr: int, wide: int) -> u32 {
    (addr / wide) as u32
}

/// One skipped macroblock: no coefficients, derived motion, and the quantiser
/// as it was.
pub open spec fn cavlc_skip(s: CavlcSlice, env: SliceEnv) -> CavlcSlice {
    let wide = env.sps.pic_width_in_mbs as int;
    let (x, y) = (col_of(s.addr, wide), row_of(s.addr, wide));
    let g0 = Grids { current: Some((x, y)), ..s.st.grids };
    let g1 = with_skip_motion(
        g0,
        x as int,
        y as int,
        env.header.kind is B,
        env.sps.direct_8x8_inference,
        env.colocated,
    );
    let g2 = g1.with_mb(x, y, skipped_facts());
    let m = skipped_summary(x, y, s.st.qpy, mb_motion(g2, x as int, y as int));
    CavlcSlice {
        st: CavlcState {
            counts: s.st.counts.with_zero_mb(x as int, y as int),
            grids: g2,
            ..s.st
        },
        stats: s.stats.with_skipped(m, s.addr == env.header.first_mb_in_slice),
        addr: s.addr + 1,
    }
}

/// A run of skipped macroblocks.
pub open spec fn cavlc_skips(s: CavlcSlice, env: SliceEnv, run: int) -> CavlcSlice
    decreases run,
{
    if run <= 0 {
        s
    } else {
        cavlc_skips(cavlc_skip(s, env), env, run - 1)
    }
}

/// One macroblock that is not skipped. What its coefficients were charged is
/// given back once they are handed on.
pub open spec fn cavlc_coded(data: Seq<u8>, s: CavlcSlice, env: SliceEnv) -> Result<
    CavlcSlice,
    Fault,
> {
    let wide = env.sps.pic_width_in_mbs as int;
    let (x, y) = (col_of(s.addr, wide), row_of(s.addr, wide));
    let g0 = Grids { current: Some((x, y)), ..s.st.grids };
    match cavlc_macroblock(
        data,
        CavlcState { grids: g0, ..s.st },
        env.sps,
        env.header,
        x,
        y,
        env.colocated,
    ) {
        Err(e) => Err(e),
        Ok((out, end)) => {
            let info = end.grids.mb_at(x as int, y as int);
            let g = if info matches Some(i) && i.is_intra {
                with_rect(end.grids, x as int, y as int, whole(), intra_motion())
            } else {
                end.grids
            };
            let m = coded_summary(x, y, info, end.qpy, out, mb_motion(g, x as int, y as int));
            Ok(
                CavlcSlice {
                    st: CavlcState { grids: g, room: end.room + out.charge(), ..end },
                    stats: s.stats.with_coded(m, info, s.addr == env.header.first_mb_in_slice),
                    addr: s.addr + 1,
                },
            )
        },
    }
}

/// The rest of a slice: in slices that can skip, a run of skipped macroblocks
/// in front of each coded one; it ends with the picture or with its data.
pub open spec fn cavlc_slice_from(data: Seq<u8>, s: CavlcSlice, env: SliceEnv, total: int) -> Result<
    CavlcSlice,
    Fault,
>
    decreases total - s.addr,
    when s.addr >= 0
    via cavlc_slice_decreases
{
    if s.addr >= total {
        Ok(s)
    } else {
        match cavlc_run(data, s, env, total) {
            Err(e) => Err(e),
            Ok((run, s1)) => if s1.addr >= total || (run > 0 && !more_data(data, s1.st.pos)) {
                Ok(s1)
            } else {
                match cavlc_coded(data, s1, env) {
                    Err(e) => Err(e),
                    Ok(s2) => if more_data(data, s2.st.pos) {
                        cavlc_slice_from(data, s2, env, total)
                    } else {
                        Ok(s2)
                    },
                }
            },
        }
    }
}

/// The run of skipped macroblocks in front of a coded one.
pub open spec fn cavlc_run(data: Seq<u8>, s: CavlcSlice, env: SliceEnv, total: int) -> Result<
    (int, CavlcSlice),
    Fault,
> {
    if env.header.kind is I || env.header.kind is Si {
        Ok((0, s))
    } else {
        match ue(data, s.st.pos, total) {
            Err(error) => Err(Fault { error, room: s.st.room }),
            Ok((run, end)) => {
                let s0 = CavlcSlice { st: CavlcState { pos: end, ..s.st }, ..s };
                Ok((run, cavlc_skips(s0, env, run)))
            },
        }
    }
}

proof fn lemma_skips_advance(s: CavlcSlice, env: SliceEnv, run: int)
    requires
        run >= 0,
    ensures
        cavlc_skips(s, env, run).addr == s.addr + run,
        cavlc_skips(s, env, run).stats.count == s.stats.count + run,
        cavlc_skips(s, env, run).stats.skipped == s.stats.skipped + run,
    decreases run,
{
    if run > 0 {
        lemma_skips_advance(cavlc_skip(s, env), env, run - 1);
    }
}

pub proof fn lemma_ue_nonnegative(data: Seq<u8>, pos: int, max: int)
    ensures
        ue(data, pos, max) matches Ok((v, end)) ==> 0 <= v <= max,
{
    if let Ok(k) = leading_zeros(data, pos, 0) {
        lemma_pow2_pos(k as nat);
    }
}

#[via_fn]
proof fn cavlc_slice_decreases(data: Seq<u8>, s: CavlcSlice, env: SliceEnv, total: int) {
    if s.addr < total {
        if let Ok((run, s1)) = cavlc_run(data, s, env, total) {
            lemma_ue_nonnegative(data, s.st.pos, total);
            let end = s1.st.pos;
            if !(env.header.kind is I || env.header.kind is Si) {
                if let Ok((r, e)) = ue(data, s.st.pos, total) {
                    let s0 = CavlcSlice { st: CavlcState { pos: e, ..s.st }, ..s };
                    lemma_skips_advance(s0, env, r);
                }
            }
        }
    }
}

/// A slice as it stands between two macroblocks.
pub open spec fn cavlc_slice_at(
    r: BitReader,
    nc_grid: NeighbourGrid,
    grids: CabacGrids,
    qpy: i32,
    budget: Budget,
    stats: SliceStats,
    addr: u32,
) -> CavlcSlice {
    CavlcSlice {
        st: CavlcState {
            pos: r.pos as int,
            counts: nc_grid@,
            grids: grids@,
            qpy: qpy as int,
            room: budget.room(),
        },
        stats: stats@,
        addr: addr as int,
    }
}

/// Counts that follow the address.
pub open spec fn counted(stats: SliceStats, addr: u32, first: u32) -> bool {
    &&& first <= addr <= 0x2fff_ffff
    &&& stats.macroblock_count == addr - first
    &&& stats.skipped_count <= stats.macroblock_count
}

pub proof fn lemma_position(addr: int, wide: int)
    requires
        0 <= addr <= 0x2fff_ffff,
        1 <= wide <= 0x0fff_ffff,
    ensures
        addressable(addr % wide, addr / wide),
        col_of(addr, wide) == addr % wide,
        row_of(addr, wide) == addr / wide,
{
    vstd::arithmetic::div_mod::lemma_mod_bound(addr, wide);
    assert(0 <= addr / wide <= addr) by (nonlinear_arith)
        requires
            0 <= addr,
            1 <= wide,
    ;
}

fn skip_macroblock(
    nc_grid: &mut NeighbourGrid,
    grids: &mut CabacGrids,
    stats: &mut SliceStats,
    qpy: i32,
    addr: u32,
    env: SliceEnv,
    Ghost(r): Ghost<BitReader>,
    Ghost(budget): Ghost<Budget>,
)
    requires
        old(nc_grid).wf(),
        old(grids).wf(),
        1 <= env.sps.pic_width_in_mbs <= 0x0fff_ffff,
        counted(*old(stats), addr, env.header.first_mb_in_slice),
        addr < 0x2fff_ffff,
    ensures
        final(nc_grid).wf(),
        final(grids).wf(),
        final(grids).charged_bytes == old(grids).charged_bytes,
        counted(*final(stats), (addr + 1) as u32, env.header.first_mb_in_slice),
        cavlc_slice_at(
            r,
            *final(nc_grid),
            *final(grids),
            qpy,
            budget,
            *final(stats),
            (addr + 1) as u32,
        ) == cavlc_skip(
            cavlc_slice_at(r, *old(nc_grid), *old(grids), qpy, budget, *old(stats), addr),
            env,
        ),
{
    proof {
        lemma_position(addr as int, env.sps.pic_width_in_mbs as int);
    }
    let (x, y) = mb_addr_xy(addr, env.sps.pic_width_in_mbs);
    zero_out_mb_neighbours(nc_grid, x, y);
    grids.begin_macroblock(x, y);
    apply_skip_motion(
        grids,
        x,
        y,
        matches!(env.header.kind, SliceKind::B),
        env.sps.direct_8x8_inference,
        env.colocated,
    );
    let mut info: CabacMbInfo = CabacMbInfo::default();
    info.available = true;
    info.skipped = true;
    grids.set_mb_info(x, y, info);
    let blocks: [MvInfo; 16] = collect_mv_blocks(grids, x, y);
    let m: MbSummary = summarise_skipped(x, y, qpy, blocks);
    stats.push_skipped(m, addr == env.header.first_mb_in_slice);
}

#[verifier::rlimit(30)]
fn coded_macroblock(
    r: &mut BitReader,
    budget: &mut Budget,
    nc_grid: &mut NeighbourGrid,
    grids: &mut CabacGrids,
    stats: &mut SliceStats,
    qpy: &mut i32,
    addr: u32,
    env: SliceEnv,
) -> (v: Result<(), Error>)
    requires
        old(r).wf(),
        old(nc_grid).wf(),
        old(grids).wf(),
        0 <= *old(qpy) < 52,
        1 <= env.sps.pic_width_in_mbs <= 0x0fff_ffff,
        counted(*old(stats), addr, env.header.first_mb_in_slice),
        addr < 0x2fff_ffff,
    ensures
        final(r).wf(),
        final(r).data@ == old(r).data@,
        final(nc_grid).wf(),
        final(grids).wf(),
        final(grids).charged_bytes == old(grids).charged_bytes,
        final(budget).limit == old(budget).limit,
        final(budget).committed >= old(budget).committed,
        0 <= *final(qpy) < 52,
        match cavlc_coded(
            old(r).data@,
            cavlc_slice_at(
                *old(r),
                *old(nc_grid),
                *old(grids),
                *old(qpy),
                *old(budget),
                *old(stats),
                addr,
            ),
            env,
        ) {
            Ok(s) => {
                &&& v is Ok
                &&& counted(*final(stats), (addr + 1) as u32, env.header.first_mb_in_slice)
                &&& cavlc_slice_at(
                    *final(r),
                    *final(nc_grid),
                    *final(grids),
                    *final(qpy),
                    *final(budget),
                    *final(stats),
                    (addr + 1) as u32,
                ) == s
            },
            Err(f) => v == Err::<(), Error>(f.error) && final(budget).room() == f.room,
        },
{
    proof {
        lemma_position(addr as int, env.sps.pic_width_in_mbs as int);
    }
    let (x, y) = mb_addr_xy(addr, env.sps.pic_width_in_mbs);
    grids.begin_macroblock(x, y);
    let residual: MbResidual = decode_macroblock_cavlc(
        r,
        budget,
        &env.sps,
        &env.header,
        nc_grid,
        grids,
        qpy,
        x,
        y,
        env.colocated,
    )?;
    let info: Option<CabacMbInfo> = grids.mb_info_at(x, y);
    let intra: bool = match info {
        Some(i) => i.is_intra,
        None => false,
    };
    if intra {
        apply_intra_motion(grids, x, y);
    }
    proof {
        lemma_charge_nonnegative(residual@);
    }
    let residual_bytes: u64 = mb_residual_charged_bytes(&residual);
    let blocks: [MvInfo; 16] = collect_mv_blocks(grids, x, y);
    let m: MbSummary = summarise_coded(x, y, info, *qpy, residual, blocks);
    stats.push_coded(m, info, addr == env.header.first_mb_in_slice);
    budget.release(residual_bytes);
    Ok(())
}

/// A whole slice: what it held, where reading ended and what the budget then
/// allows. A slice that fails keeps the charges of its grids and of the
/// coefficients of the macroblock that it fails in.
pub open spec fn cavlc_slice(
    data: Seq<u8>,
    pos: int,
    sps: Sps,
    pps: Pps,
    header: SliceHeader,
    field: Option<&ColocatedField>,
    room: int,
) -> Result<(Stats, int, int), Fault> {
    let (wide, high) = (sps.pic_width_in_mbs as int, sps.mbs_high());
    if refusal(sps, pps, header) is Some {
        Err(Fault { error: Error::Unsupported(refusal(sps, pps, header)->0), room })
    } else if pps.transform_8x8_mode {
        Err(Fault { error: Error::Unsupported(Reason::Transform8x8), room })
    } else if temporal_direct(header) {
        Err(Fault { error: Error::Unsupported(Reason::TemporalDirect), room })
    } else {
        match fresh_grids_for(wide, high, room) {
            Err(error) => Err(Fault { error, room: room_without_grids(wide, high, room) }),
            Ok((grids, charge)) => {
                let start = CavlcSlice {
                    st: CavlcState {
                        pos,
                        counts: fresh_counts(at_least_one(wide), at_least_one(high)),
                        grids,
                        qpy: pps.slice_qp(header.slice_qp_delta as int),
                        room: room - charge,
                    },
                    stats: no_stats(),
                    addr: header.first_mb_in_slice as int,
                };
                let env = SliceEnv { sps, header, colocated: field };
                match cavlc_slice_from(data, start, env, wide * high) {
                    Err(e) => Err(e),
                    Ok(s) => Ok((s.stats, s.st.pos, s.st.room + charge)),
                }
            },
        }
    }
}

#[verifier::loop_isolation(false)]
#[verifier::rlimit(60)]
fn run_slice(
    r: &mut BitReader,
    budget: &mut Budget,
    nc_grid: &mut NeighbourGrid,
    grids: &mut CabacGrids,
    stats: &mut SliceStats,
    start_qpy: i32,
    env: SliceEnv,
    total: u32,
) -> (v: Result<(), Error>)
    requires
        old(r).wf(),
        old(nc_grid).wf(),
        old(grids).wf(),
        0 <= start_qpy < 52,
        total > 0 ==> 1 <= env.sps.pic_width_in_mbs <= 0x0fff_ffff,
        total <= 0x0fff_ffff,
        old(stats)@ == no_stats(),
    ensures
        final(r).wf(),
        final(r).data@ == old(r).data@,
        final(grids).charged_bytes == old(grids).charged_bytes,
        final(budget).limit == old(budget).limit,
        final(budget).committed >= old(budget).committed,
        match cavlc_slice_from(
            old(r).data@,
            cavlc_slice_at(
                *old(r),
                *old(nc_grid),
                *old(grids),
                start_qpy,
                *old(budget),
                *old(stats),
                env.header.first_mb_in_slice,
            ),
            env,
            total as int,
        ) {
            Ok(s) => {
                &&& v is Ok
                &&& final(stats)@ == s.stats
                &&& final(r).pos == s.st.pos
                &&& final(budget).room() == s.st.room
            },
            Err(f) => v == Err::<(), Error>(f.error) && final(budget).room() == f.room,
        },
{
    let mut qpy: i32 = start_qpy;
    let mut addr: u32 = env.header.first_mb_in_slice;
    let can_skip: bool = !matches!(env.header.kind, SliceKind::I | SliceKind::Si);
    let ghost all = cavlc_slice_from(
        old(r).data@,
        cavlc_slice_at(
            *old(r),
            *old(nc_grid),
            *old(grids),
            start_qpy,
            *old(budget),
            *old(stats),
            env.header.first_mb_in_slice,
        ),
        env,
        total as int,
    );
    while addr < total
        invariant
            r.wf(),
            r.data@ == old(r).data@,
            nc_grid.wf(),
            grids.wf(),
            grids.charged_bytes == old(grids).charged_bytes,
            budget.limit == old(budget).limit,
            budget.committed >= old(budget).committed,
            0 <= qpy < 52,
            addr < total ==> counted(*stats, addr, env.header.first_mb_in_slice),
            all == cavlc_slice_from(
                r.data@,
                cavlc_slice_at(*r, *nc_grid, *grids, qpy, *budget, *stats, addr),
                env,
                total as int,
            ),
        decreases total - addr,
    {
        let ghost before = cavlc_slice_at(*r, *nc_grid, *grids, qpy, *budget, *stats, addr);
        if can_skip {
            proof {
                lemma_ue_nonnegative(r.data@, r.pos as int, total as int);
            }
            let run: u32 = r.ue_v(total)?;
            let ghost s0 = cavlc_slice_at(*r, *nc_grid, *grids, qpy, *budget, *stats, addr);
            let ghost start = addr;
            for k in 0..run
                invariant
                    nc_grid.wf(),
                    grids.wf(),
                    grids.charged_bytes == old(grids).charged_bytes,
                    addr == start + k,
                    counted(*stats, addr, env.header.first_mb_in_slice),
                    cavlc_skips(s0, env, run as int) == cavlc_skips(
                        cavlc_slice_at(*r, *nc_grid, *grids, qpy, *budget, *stats, addr),
                        env,
                        run - k,
                    ),
            {
                skip_macroblock(
                    nc_grid,
                    grids,
                    stats,
                    qpy,
                    addr,
                    env,
                    Ghost(*r),
                    Ghost(*budget),
                );
                addr = addr + 1;
            }
            if addr >= total {
                return Ok(());
            }
            if run > 0 && !more_rbsp_data(r) {
                return Ok(());
            }
        }
        coded_macroblock(r, budget, nc_grid, grids, stats, &mut qpy, addr, env)?;
        addr = addr + 1;
        if !more_rbsp_data(r) {
            return Ok(());
        }
    }
    Ok(())
}

/// Decodes a variable-length coded slice from its first bit on.
pub fn decode_slice_cavlc(
    r: &mut BitReader,
    budget: &mut Budget,
    sps: &Sps,
    pps: &Pps,
    header: &SliceHeader,
    colocated: Option<&ColocatedField>,
) -> (v: Result<SliceStats, Error>)
    requires
        old(r).wf(),
        sps.wf(),
        numbered_or_refused(
            sps.pic_width_in_mbs as int,
            sps.mbs_high(),
            old(budget).room(),
        ),
    ensures
        final(r).wf(),
        final(r).data@ == old(r).data@,
        final(budget).limit == old(budget).limit,
        final(budget).committed >= old(budget).committed,
        match cavlc_slice(
            old(r).data@,
            old(r).pos as int,
            *sps,
            *pps,
            *header,
            colocated,
            old(budget).room(),
        ) {
            Ok((stats, pos, room)) => v matches Ok(x) && x@ == stats && final(r).pos == pos
                && final(budget).room() == room,
            Err(f) => v matches Err(e) && e == f.error && final(budget).room() == f.room,
        },
{
    check_scope(sps, pps, header)?;
    if pps.transform_8x8_mode {
        return Err(Error::Unsupported(Reason::Transform8x8));
    }
    check_direct(header)?;
    let mbs_wide: u32 = sps.pic_width_in_mbs;
    let mbs_high: u32 = sps.height_in_mbs();
    let mut grids: CabacGrids = CabacGrids::new(mbs_wide, mbs_high, budget)?;
    let (wide, high) = (
        if mbs_wide < 1 {
            1
        } else {
            mbs_wide
        },
        if mbs_high < 1 {
            1
        } else {
            mbs_high
        },
    );
    proof {
        lemma_total(mbs_wide as int, mbs_high as int);
    }
    let total: u32 = mbs_wide * mbs_high;
    let mut nc_grid: NeighbourGrid = NeighbourGrid::new(wide, high);
    let qpy: i32 = pps.start_qp(header.slice_qp_delta);
    let mut stats: SliceStats = SliceStats::default();
    let env = SliceEnv { sps: *sps, header: *header, colocated };
    run_slice(r, budget, &mut nc_grid, &mut grids, &mut stats, qpy, env, total)?;
    grids.release(budget);
    Ok(stats)
}

pub proof fn lemma_total(wide: int, high: int)
    requires
        0 <= wide,
        0 <= high,
        countable(at_least_one(wide), at_least_one(high)),
    ensures
        0 <= wide * high <= 0x0fff_ffff,
        wide * high > 0 ==> 1 <= wide <= 0x0fff_ffff,
{
    assert(0 <= wide * high <= at_least_one(wide) * at_least_one(high)) by (nonlinear_arith)
        requires
            0 <= wide,
            0 <= high,
            at_least_one(wide) == (if wide < 1 {
                1
            } else {
                wide
            }),
            at_least_one(high) == (if high < 1 {
                1
            } else {
                high
            }),
    ;
    assert(wide <= at_least_one(wide) * at_least_one(high)) by (nonlinear_arith)
        requires
            0 <= wide <= at_least_one(wide),
            1 <= at_least_one(high),
    ;
    if wide == 0 {
        assert(wide * high == 0);
    }
}

} // verus!
