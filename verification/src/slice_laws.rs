//! What holds of every decoded slice.
use vstd::prelude::*;
use crate::bits::more_data;
use crate::coefficient_laws::{law_cabac_macroblock_stores_no_zero, law_cavlc_macroblock_stores_no_zero};
use crate::coder::{coder_source, ArithmeticDecoder};
use crate::contexts::{slice_init, starting_models};
use crate::direct::ColocatedField;
use crate::golomb::ue;
use crate::grids::{at_least_one, fresh_counts, fresh_grids_for, Grids};
use crate::headers::{Pps, SliceHeader, Sps};
use crate::mb_cabac::CabacState;
use crate::mb_cavlc::CavlcState;
use crate::slice::{no_stats, Stats, Summary};
use crate::slice_cabac::{cabac_slice, cabac_slice_from, cabac_skip_flag, cabac_step, init_idc, CabacSlice};
use crate::slice_cavlc::{
    cavlc_coded, cavlc_run, cavlc_skip, cavlc_skips, cavlc_slice, cavlc_slice_from, col_of,
    lemma_ue_nonnegative, row_of, CavlcSlice, SliceEnv,
};

verus! {

/// A macroblock that stands at an address, with a valid quantiser, the motion
/// of sixteen blocks, and no stored coefficient that is zero.
pub open spec fn placed(m: Summary, addr: int, wide: int) -> bool {
    &&& m.mb_x == col_of(addr, wide)
    &&& m.mb_y == row_of(addr, wide)
    &&& 0 <= m.qpy < 52
    &&& m.mv_blocks.len() == 16
    &&& m.residual.has_blocks()
    &&& m.residual.significant()
}

/// Counts and macroblocks that belong together: one macroblock per address
/// from the first on.
pub open spec fn consistent(t: Stats, first: int, wide: int) -> bool {
    &&& t.count == t.macroblocks.len()
    &&& 0 <= t.skipped <= t.count
    &&& forall|i: int|
        0 <= i < t.macroblocks.len() ==> placed(#[trigger] t.macroblocks[i], first + i, wide)
}

proof fn lemma_consistent_with(t: Stats, u: Stats, m: Summary, first: int, wide: int)
    requires
        consistent(t, first, wide),
        placed(m, first + t.count, wide),
        u.macroblocks == t.macroblocks.push(m),
        u.count == t.count + 1,
        t.skipped <= u.skipped <= t.skipped + 1,
    ensures
        consistent(u, first, wide),
{
    assert forall|i: int| 0 <= i < u.macroblocks.len() implies placed(
        #[trigger] u.macroblocks[i],
        first + i,
        wide,
    ) by {
        if i < t.macroblocks.len() {
            assert(u.macroblocks[i] == t.macroblocks[i]);
        }
    }
}

// ------------------------------------------------------------ variable length
/// A slice between two macroblocks whose counts and quantiser are right.
pub open spec fn cavlc_sound(s: CavlcSlice, env: SliceEnv) -> bool {
    let first = env.header.first_mb_in_slice as int;
    &&& consistent(s.stats, first, env.sps.pic_width_in_mbs as int)
    &&& s.addr == first + s.stats.count
    &&& 0 <= s.st.qpy < 52
}

proof fn lemma_cavlc_skips(s: CavlcSlice, env: SliceEnv, run: int)
    requires
        cavlc_sound(s, env),
    ensures
        cavlc_sound(cavlc_skips(s, env, run), env),
        run >= 0 ==> cavlc_skips(s, env, run).addr == s.addr + run,
    decreases run,
{
    if run > 0 {
        let t = cavlc_skip(s, env);
        let first = env.header.first_mb_in_slice as int;
        let wide = env.sps.pic_width_in_mbs as int;
        lemma_consistent_with(s.stats, t.stats, t.stats.macroblocks.last(), first, wide);
        lemma_cavlc_skips(t, env, run - 1);
    }
}

proof fn lemma_cavlc_coded(data: Seq<u8>, s: CavlcSlice, env: SliceEnv)
    requires
        cavlc_sound(s, env),
    ensures
        cavlc_coded(data, s, env) matches Ok(t) ==> cavlc_sound(t, env) && t.addr == s.addr + 1,
{
    let (x, y) = (
        col_of(s.addr, env.sps.pic_width_in_mbs as int),
        row_of(s.addr, env.sps.pic_width_in_mbs as int),
    );
    let st = CavlcState { grids: Grids { current: Some((x, y)), ..s.st.grids }, ..s.st };
    law_cavlc_macroblock_stores_no_zero(data, st, env.sps, env.header, x, y, env.colocated);
    if let Ok(t) = cavlc_coded(data, s, env) {
        let first = env.header.first_mb_in_slice as int;
        let wide = env.sps.pic_width_in_mbs as int;
        assert(0 <= t.st.qpy < 52);
        lemma_consistent_with(s.stats, t.stats, t.stats.macroblocks.last(), first, wide);
    }
}

proof fn lemma_cavlc_slice_from(data: Seq<u8>, s: CavlcSlice, env: SliceEnv, total: int)
    requires
        cavlc_sound(s, env),
        s.addr >= 0,
    ensures
        cavlc_slice_from(data, s, env, total) matches Ok(t) ==> cavlc_sound(t, env),
    decreases total - s.addr,
{
    if s.addr < total {
        if let Ok((run, s1)) = cavlc_run(data, s, env, total) {
            lemma_ue_nonnegative(data, s.st.pos, total);
            if let Ok((r, end)) = ue(data, s.st.pos, total) {
                lemma_cavlc_skips(
                    CavlcSlice { st: CavlcState { pos: end, ..s.st }, ..s },
                    env,
                    r,
                );
            }
            assert(cavlc_sound(s1, env));
            assert(s1.addr >= s.addr);
            if !(s1.addr >= total || (run > 0 && !more_data(data, s1.st.pos))) {
                lemma_cavlc_coded(data, s1, env);
                if let Ok(s2) = cavlc_coded(data, s1, env) {
                    if more_data(data, s2.st.pos) {
                        lemma_cavlc_slice_from(data, s2, env, total);
                    }
                }
            }
        }
    }
}

/// A variable-length coded slice yields one macroblock per address from its
/// first on, each with a valid quantiser and no coefficient that is zero, and
/// counts them exactly.
pub proof fn law_cavlc_slice_is_consistent(
    data: Seq<u8>,
    pos: int,
    sps: Sps,
    pps: Pps,
    header: SliceHeader,
    field: Option<&ColocatedField>,
    room: int,
)
    ensures
        cavlc_slice(data, pos, sps, pps, header, field, room) matches Ok((stats, end, left))
            ==> consistent(stats, header.first_mb_in_slice as int, sps.pic_width_in_mbs as int),
{
    let (wide, high) = (sps.pic_width_in_mbs as int, sps.mbs_high());
    if let Ok((grids, charge)) = fresh_grids_for(wide, high, room) {
        let start = CavlcSlice {
            st: CavlcState {
                pos,
                counts: fresh_counts(at_least_one(wide), at_least_one(high)),
                grids,
                qpy: pps.slice_qp(header.slice_qp_delta as int),
                room: room - charge,
            },
            stats: no_stats(),
            addr: header.first_mb_in_slice as int,
        };
        let env = SliceEnv { sps, header, colocated: field };
        lemma_cavlc_slice_from(data, start, env, wide * high);
    }
}

// ----------------------------------------------------------------- arithmetic
/// A slice between two macroblocks whose counts and quantiser are right.
pub open spec fn cabac_sound(s: CabacSlice, env: SliceEnv) -> bool {
    let first = env.header.first_mb_in_slice as int;
    &&& consistent(s.stats, first, env.sps.pic_width_in_mbs as int)
    &&& s.addr == first + s.stats.count
    &&& 0 <= s.st.qpy < 52
}

proof fn lemma_cabac_step(s: CabacSlice, env: SliceEnv, pps: Pps, room: int)
    requires
        cabac_sound(s, env),
    ensures
        cabac_step(s, env, pps, room) matches Ok(t) ==> cabac_sound(t, env) && t.addr == s.addr + 1,
{
    let (x, y) = (
        col_of(s.addr, env.sps.pic_width_in_mbs as int),
        row_of(s.addr, env.sps.pic_width_in_mbs as int),
    );
    let (_, src) = cabac_skip_flag(s.st.s, s.st.g, env.header.kind, x as int, y as int);
    let st = CabacState { s: src, g: Grids { current: Some((x, y)), ..s.st.g }, ..s.st };
    law_cabac_macroblock_stores_no_zero(
        st,
        env.sps,
        pps,
        env.header,
        x,
        y,
        env.colocated,
        room,
    );
    if let Ok(t) = cabac_step(s, env, pps, room) {
        let first = env.header.first_mb_in_slice as int;
        let wide = env.sps.pic_width_in_mbs as int;
        assert(0 <= t.st.qpy < 52);
        lemma_consistent_with(s.stats, t.stats, t.stats.macroblocks.last(), first, wide);
    }
}

proof fn lemma_cabac_slice_from(s: CabacSlice, env: SliceEnv, pps: Pps, room: int, total: int)
    requires
        cabac_sound(s, env),
    ensures
        cabac_slice_from(s, env, pps, room, total) matches Ok(t) ==> cabac_sound(t, env)
            && (s.addr <= total ==> t.addr <= total),
    decreases total - s.addr,
{
    if s.addr < total {
        lemma_cabac_step(s, env, pps, room);
        if let Ok(s1) = cabac_step(s, env, pps, room) {
            let (end, src) = s1.st.s.terminate();
            let s2 = CabacSlice { st: CabacState { s: src, ..s1.st }, ..s1 };
            if !end {
                lemma_cabac_slice_from(s2, env, pps, room, total);
            }
        }
    }
}

/// An arithmetic-coded slice yields one macroblock per address from its first
/// on, each with a valid quantiser and no coefficient that is zero, counts them
/// exactly, and never runs past the picture that it starts in.
pub proof fn law_cabac_slice_is_consistent<E: ArithmeticDecoder>(
    engine: E::State,
    sps: Sps,
    pps: Pps,
    header: SliceHeader,
    field: Option<&ColocatedField>,
    room: int,
)
    ensures
        cabac_slice::<E>(engine, sps, pps, header, field, room) matches Ok((stats, s)) ==> {
            &&& consistent(stats, header.first_mb_in_slice as int, sps.pic_width_in_mbs as int)
            &&& header.first_mb_in_slice <= sps.pic_width_in_mbs * sps.mbs_high()
                ==> header.first_mb_in_slice + stats.count <= sps.pic_width_in_mbs * sps.mbs_high()
        },
{
    let (wide, high) = (sps.pic_width_in_mbs as int, sps.mbs_high());
    if let Ok((g, charge)) = fresh_grids_for(wide, high, room) {
        let qpy = pps.slice_qp(header.slice_qp_delta as int);
        let idc = init_idc(header);
        let start = CabacSlice {
            st: CabacState {
                s: coder_source::<E>(
                    engine,
                    starting_models(qpy, slice_init(header.kind is I, idc), idc),
                ),
                g,
                prev: crate::cabac_syntax::no_previous(),
                qpy,
            },
            stats: no_stats(),
            addr: header.first_mb_in_slice as int,
        };
        let env = SliceEnv { sps, header, colocated: field };
        lemma_cabac_slice_from(start, env, pps, room - charge, wide * high);
    }
}

} // verus!
