//! The macroblock layer of variable-length coded slices.
use vstd::prelude::*;
use crate::bits::BitReader;
use crate::budget::{Budget, Fault};
use crate::cabac_residual::{Block, CabacResidual};
use crate::cavlc::{
    law_residual_block_shape, residual_block, residual_block_cavlc, room_after_block, CavlcResidual,
};
use crate::dequant::{next_qpy, next_qpy_spec};
use crate::direct::ColocatedField;
use crate::error::{Error, Reason};
use crate::golomb::{me, se, ue};
use crate::grids::{
    addressable, blk_pos, blk_xy, zero_out_mb_neighbours, CabacGrids, CabacMbInfo, Counts, Grids,
    NeighbourGrid,
};
use crate::headers::{SliceHeader, Sps};
use crate::inter::{Syntax, SyntaxReader};
use crate::mb_residual::{
    averaging, cavlc_residual_to_forward, forward, lemma_absent_charges, lemma_charge_update,
    no_residual, put_block, room_after_turn, MbResidual, Residuals,
};
use crate::mb_type::{classify_mb_type, mb_kind, MbKind};
use crate::prediction::{
    decode_inter_prediction, decode_modes4, inter_prediction, modes4_from,
};

verus! {

/// Bit `i` of a luma pattern: whether quadrant `i` is coded.
pub open spec fn luma_coded(cbp: u8, i: int) -> bool {
    if i == 0 {
        cbp % 2 == 1
    } else if i == 1 {
        (cbp / 2) % 2 == 1
    } else if i == 2 {
        (cbp / 4) % 2 == 1
    } else {
        (cbp / 8) % 2 == 1
    }
}

pub fn is_luma_coded(cbp: u8, i: u32) -> (r: bool)
    ensures
        r == luma_coded(cbp, i as int),
{
    if i == 0 {
        cbp % 2 == 1
    } else if i == 1 {
        (cbp / 2) % 2 == 1
    } else if i == 2 {
        (cbp / 4) % 2 == 1
    } else {
        (cbp / 8) % 2 == 1
    }
}

/// Whether a chroma pattern has DC coefficients.
pub open spec fn chroma_dc_coded(cbp: u8) -> bool {
    cbp % 4 != 0
}

/// Whether a chroma pattern has AC coefficients.
pub open spec fn chroma_ac_coded(cbp: u8) -> bool {
    (cbp / 2) % 2 == 1
}

// -------------------------------------------------------------------- residual
/// A block as it was read: its coefficient count, its coefficients if it has
/// any, where reading continues and what the budget still allows.
pub struct Coded {
    pub total_coeff: u8,
    pub block: Option<Block>,
    pub end: int,
    pub room: int,
}

/// One residual block. It charges its coefficients once as they are read and
/// once more as they are turned round.
pub open spec fn coded_block(data: Seq<u8>, pos: int, nc: int, max: u8, room: int) -> Result<
    Coded,
    Fault,
> {
    match residual_block(data, pos, nc, max, room) {
        Err(error) => Err(Fault { error, room: room_after_block(data, pos, nc, room) }),
        Ok((b, end)) => {
            let left = room - 5 * b.total_coeff;
            if b.total_coeff == 0 {
                Ok(Coded { total_coeff: 0, block: None, end, room: left })
            } else if 5 * b.total_coeff > left {
                Err(
                    Fault {
                        error: Error::LimitExceeded,
                        room: room_after_turn(b.total_coeff, left),
                    },
                )
            } else {
                Ok(
                    Coded {
                        total_coeff: b.total_coeff,
                        block: Some(forward(b)),
                        end,
                        room: left - 5 * b.total_coeff,
                    },
                )
            }
        },
    }
}

fn read_coded_block(r: &mut BitReader, nc: i32, max: u8, budget: &mut Budget) -> (v: Result<
    (u8, Option<CabacResidual>),
    Error,
>)
    requires
        old(r).wf(),
    ensures
        final(r).wf(),
        final(r).data == old(r).data,
        final(budget).limit == old(budget).limit,
        final(budget).committed >= old(budget).committed,
        match coded_block(old(r).data@, old(r).pos as int, nc as int, max, old(budget).room()) {
            Ok(c) => {
                &&& v matches Ok(x)
                &&& x.0 == c.total_coeff
                &&& match c.block {
                    Some(b) => x.1 matches Some(y) && y@ == b && b.charge() == 5 * c.total_coeff,
                    None => x.1 is None && c.total_coeff == 0,
                }
                &&& final(r).pos == c.end
                &&& final(budget).room() == c.room
                &&& final(budget).committed == old(budget).committed + 10 * c.total_coeff
            },
            Err(f) => v matches Err(e) && e == f.error && final(budget).room() == f.room,
        },
{
    proof {
        law_residual_block_shape(r.data@, r.pos as int, nc as int, max, budget.room());
    }
    let raw: CavlcResidual = residual_block_cavlc(r, nc, max, budget)?;
    if raw.total_coeff == 0 {
        return Ok((0, None));
    }
    let block: CabacResidual = cavlc_residual_to_forward(&raw, budget)?;
    Ok((raw.total_coeff, Some(block)))
}

/// The coefficients of a macroblock while they are being read.
pub struct CavlcWork {
    pub pos: int,
    pub counts: Counts,
    pub out: Residuals,
    pub room: int,
}

/// A list of blocks with one put in its place where it has coefficients.
pub open spec fn placed(v: Seq<Option<Block>>, i: int, b: Option<Block>) -> Seq<Option<Block>> {
    match b {
        Some(x) => v.update(i, Some(x)),
        None => v,
    }
}

/// The luma DC block of a sixteen-by-sixteen prediction.
pub open spec fn cavlc_luma_dc(data: Seq<u8>, w: CavlcWork, mb_x: int, mb_y: int) -> Result<
    CavlcWork,
    Fault,
> {
    let (x, y) = (4 * mb_x, 4 * mb_y);
    match coded_block(data, w.pos, w.counts.nc_luma(x, y), 16, w.room) {
        Err(e) => Err(e),
        Ok(c) => Ok(
            CavlcWork {
                pos: c.end,
                counts: w.counts.with_luma(x, y, c.total_coeff),
                out: Residuals { luma_dc: c.block, ..w.out },
                room: c.room,
            },
        ),
    }
}

/// The luma blocks from block `blk` on.
pub open spec fn cavlc_luma_from(
    data: Seq<u8>,
    w: CavlcWork,
    mb_x: int,
    mb_y: int,
    cbp_luma: u8,
    is_16x16: bool,
    blk: int,
) -> Result<CavlcWork, Fault>
    decreases 16 - blk,
{
    if blk >= 16 {
        Ok(w)
    } else {
        let (x, y) = (4 * mb_x + blk_pos(blk).0, 4 * mb_y + blk_pos(blk).1);
        if luma_coded(cbp_luma, blk / 4) {
            let max = if is_16x16 {
                15u8
            } else {
                16u8
            };
            match coded_block(data, w.pos, w.counts.nc_luma(x, y), max, w.room) {
                Err(e) => Err(e),
                Ok(c) => cavlc_luma_from(
                    data,
                    CavlcWork {
                        pos: c.end,
                        counts: w.counts.with_luma(x, y, c.total_coeff),
                        out: Residuals { luma_ac: placed(w.out.luma_ac, blk, c.block), ..w.out },
                        room: c.room,
                    },
                    mb_x,
                    mb_y,
                    cbp_luma,
                    is_16x16,
                    blk + 1,
                ),
            }
        } else {
            cavlc_luma_from(
                data,
                CavlcWork { counts: w.counts.with_luma(x, y, 0), ..w },
                mb_x,
                mb_y,
                cbp_luma,
                is_16x16,
                blk + 1,
            )
        }
    }
}

/// The chroma DC blocks from component `comp` on.
pub open spec fn cavlc_chroma_dc_from(data: Seq<u8>, w: CavlcWork, cbp_chroma: u8, comp: int) -> Result<
    CavlcWork,
    Fault,
>
    decreases 2 - comp,
{
    if comp >= 2 || !chroma_dc_coded(cbp_chroma) {
        Ok(w)
    } else {
        match coded_block(data, w.pos, -1, 4, w.room) {
            Err(e) => Err(e),
            Ok(c) => cavlc_chroma_dc_from(
                data,
                CavlcWork {
                    pos: c.end,
                    counts: w.counts,
                    out: Residuals { chroma_dc: placed(w.out.chroma_dc, comp, c.block), ..w.out },
                    room: c.room,
                },
                cbp_chroma,
                comp + 1,
            ),
        }
    }
}

/// The chroma AC blocks from the `k`th on: four of each component.
pub open spec fn cavlc_chroma_ac_from(
    data: Seq<u8>,
    w: CavlcWork,
    mb_x: int,
    mb_y: int,
    cbp_chroma: u8,
    k: int,
) -> Result<CavlcWork, Fault>
    decreases 8 - k,
{
    if k >= 8 {
        Ok(w)
    } else {
        let comp = k / 4;
        let (x, y) = (2 * mb_x + blk_pos(k % 4).0 % 2, 2 * mb_y + blk_pos(k % 4).1 % 2);
        if chroma_ac_coded(cbp_chroma) {
            match coded_block(data, w.pos, w.counts.nc_chroma(comp, x, y), 15, w.room) {
                Err(e) => Err(e),
                Ok(c) => cavlc_chroma_ac_from(
                    data,
                    CavlcWork {
                        pos: c.end,
                        counts: w.counts.with_chroma(comp, x, y, c.total_coeff),
                        out: Residuals { chroma_ac: placed(w.out.chroma_ac, k, c.block), ..w.out },
                        room: c.room,
                    },
                    mb_x,
                    mb_y,
                    cbp_chroma,
                    k + 1,
                ),
            }
        } else {
            cavlc_chroma_ac_from(
                data,
                CavlcWork { counts: w.counts.with_chroma(comp, x, y, 0), ..w },
                mb_x,
                mb_y,
                cbp_chroma,
                k + 1,
            )
        }
    }
}

/// All coefficients of a macroblock.
pub open spec fn cavlc_residual(
    data: Seq<u8>,
    pos: int,
    counts: Counts,
    mb_x: int,
    mb_y: int,
    cbp_luma: u8,
    cbp_chroma: u8,
    is_16x16: bool,
    room: int,
) -> Result<CavlcWork, Fault> {
    let w = CavlcWork { pos, counts, out: no_residual(), room };
    let dc = if is_16x16 {
        cavlc_luma_dc(data, w, mb_x, mb_y)
    } else {
        Ok(w)
    };
    match dc {
        Err(e) => Err(e),
        Ok(w1) => match cavlc_luma_from(data, w1, mb_x, mb_y, cbp_luma, is_16x16, 0) {
            Err(e) => Err(e),
            Ok(w2) => match cavlc_chroma_dc_from(data, w2, cbp_chroma, 0) {
                Err(e) => Err(e),
                Ok(w3) => cavlc_chroma_ac_from(data, w3, mb_x, mb_y, cbp_chroma, 0),
            },
        },
    }
}

/// The work as it stands in reader, grid, output and budget.
pub open spec fn cavlc_work(
    r: BitReader,
    nc_grid: NeighbourGrid,
    out: MbResidual,
    budget: Budget,
) -> CavlcWork {
    CavlcWork { pos: r.pos as int, counts: nc_grid@, out: out@, room: budget.room() }
}

/// A list of blocks whose coefficients come one block after the other: none is
/// in place from `k` on.
pub open spec fn open_from(v: Seq<Option<Block>>, k: int) -> bool {
    forall|i: int| k <= i < v.len() ==> (#[trigger] v[i]) is None
}

#[verifier::loop_isolation(false)]
#[verifier::rlimit(40)]
fn read_luma_blocks(
    r: &mut BitReader,
    budget: &mut Budget,
    nc_grid: &mut NeighbourGrid,
    out: &mut MbResidual,
    cbp_luma: u8,
    is_16x16: bool,
    mb_x: u32,
    mb_y: u32,
) -> (v: Result<(), Error>)
    requires
        old(r).wf(),
        old(nc_grid).wf(),
        old(out)@.shaped(),
        open_from(old(out)@.luma_ac, 0),
        addressable(mb_x as int, mb_y as int),
    ensures
        final(r).wf(),
        final(r).data == old(r).data,
        final(nc_grid).wf(),
        final(budget).limit == old(budget).limit,
        final(budget).committed >= old(budget).committed,
        match cavlc_luma_from(
            old(r).data@,
            cavlc_work(*old(r), *old(nc_grid), *old(out), *old(budget)),
            mb_x as int,
            mb_y as int,
            cbp_luma,
            is_16x16,
            0,
        ) {
            Ok(w) => v is Ok && cavlc_work(*final(r), *final(nc_grid), *final(out), *final(budget))
                == w && final(out)@.shaped() && final(budget).committed - old(budget).committed == 2
                * (final(out)@.charge() - old(out)@.charge()) && final(out)@ == (Residuals {
                luma_ac: final(out)@.luma_ac,
                ..old(out)@
            }),
            Err(f) => v == Err::<(), Error>(f.error) && final(budget).room() == f.room,
        },
{
    let ghost all = cavlc_luma_from(
        old(r).data@,
        cavlc_work(*old(r), *old(nc_grid), *old(out), *old(budget)),
        mb_x as int,
        mb_y as int,
        cbp_luma,
        is_16x16,
        0,
    );
    for blk in 0..16u32
        invariant
            r.wf(),
            r.data == old(r).data,
            nc_grid.wf(),
            out@.shaped(),
            open_from(out@.luma_ac, blk as int),
            out@ == (Residuals { luma_ac: out@.luma_ac, ..old(out)@ }),
            budget.limit == old(budget).limit,
            budget.committed >= old(budget).committed,
            budget.committed - old(budget).committed == 2 * (out@.charge() - old(out)@.charge()),
            all == cavlc_luma_from(
                r.data@,
                cavlc_work(*r, *nc_grid, *out, *budget),
                mb_x as int,
                mb_y as int,
                cbp_luma,
                is_16x16,
                blk as int,
            ),
    {
        let ghost before = out@;
        let (bx, by) = blk_xy(blk);
        let (x, y) = (mb_x * 4 + bx, mb_y * 4 + by);
        if is_luma_coded(cbp_luma, blk / 4) {
            let nc: i32 = nc_grid.nc_luma(x, y);
            let max: u8 = if is_16x16 {
                15
            } else {
                16
            };
            let (total_coeff, block) = read_coded_block(r, nc, max, budget)?;
            nc_grid.set_luma(x, y, total_coeff);
            if let Some(b) = block {
                proof {
                    lemma_charge_update(before.luma_ac, blk as int, b@);
                }
                put_block(&mut out.luma_ac, blk as usize, b);
            }
        } else {
            nc_grid.set_luma(x, y, 0);
        }
    }
    Ok(())
}

#[verifier::loop_isolation(false)]
fn read_chroma_dc_blocks(
    r: &mut BitReader,
    budget: &mut Budget,
    nc_grid: &NeighbourGrid,
    out: &mut MbResidual,
    cbp_chroma: u8,
) -> (v: Result<(), Error>)
    requires
        old(r).wf(),
        old(out)@.shaped(),
        open_from(old(out)@.chroma_dc, 0),
    ensures
        final(r).wf(),
        final(r).data == old(r).data,
        final(budget).limit == old(budget).limit,
        final(budget).committed >= old(budget).committed,
        match cavlc_chroma_dc_from(
            old(r).data@,
            cavlc_work(*old(r), *nc_grid, *old(out), *old(budget)),
            cbp_chroma,
            0,
        ) {
            Ok(w) => v is Ok && cavlc_work(*final(r), *nc_grid, *final(out), *final(budget)) == w
                && final(out)@.shaped() && final(budget).committed - old(budget).committed == 2 * (
            final(out)@.charge() - old(out)@.charge()) && final(out)@ == (Residuals {
                chroma_dc: final(out)@.chroma_dc,
                ..old(out)@
            }),
            Err(f) => v == Err::<(), Error>(f.error) && final(budget).room() == f.room,
        },
{
    if cbp_chroma % 4 == 0 {
        return Ok(());
    }
    let ghost all = cavlc_chroma_dc_from(
        old(r).data@,
        cavlc_work(*old(r), *nc_grid, *old(out), *old(budget)),
        cbp_chroma,
        0,
    );
    for comp in 0..2usize
        invariant
            r.wf(),
            r.data == old(r).data,
            out@.shaped(),
            open_from(out@.chroma_dc, comp as int),
            out@ == (Residuals { chroma_dc: out@.chroma_dc, ..old(out)@ }),
            budget.limit == old(budget).limit,
            budget.committed >= old(budget).committed,
            budget.committed - old(budget).committed == 2 * (out@.charge() - old(out)@.charge()),
            all == cavlc_chroma_dc_from(
                r.data@,
                cavlc_work(*r, *nc_grid, *out, *budget),
                cbp_chroma,
                comp as int,
            ),
    {
        let ghost before = out@;
        let (total_coeff, block) = read_coded_block(r, -1, 4, budget)?;
        if let Some(b) = block {
            proof {
                lemma_charge_update(before.chroma_dc, comp as int, b@);
            }
            put_block(&mut out.chroma_dc, comp, b);
        }
    }
    Ok(())
}

#[verifier::loop_isolation(false)]
#[verifier::rlimit(40)]
fn read_chroma_ac_blocks(
    r: &mut BitReader,
    budget: &mut Budget,
    nc_grid: &mut NeighbourGrid,
    out: &mut MbResidual,
    cbp_chroma: u8,
    mb_x: u32,
    mb_y: u32,
) -> (v: Result<(), Error>)
    requires
        old(r).wf(),
        old(nc_grid).wf(),
        old(out)@.shaped(),
        open_from(old(out)@.chroma_ac, 0),
        addressable(mb_x as int, mb_y as int),
    ensures
        final(r).wf(),
        final(r).data == old(r).data,
        final(nc_grid).wf(),
        final(budget).limit == old(budget).limit,
        final(budget).committed >= old(budget).committed,
        match cavlc_chroma_ac_from(
            old(r).data@,
            cavlc_work(*old(r), *old(nc_grid), *old(out), *old(budget)),
            mb_x as int,
            mb_y as int,
            cbp_chroma,
            0,
        ) {
            Ok(w) => v is Ok && cavlc_work(*final(r), *final(nc_grid), *final(out), *final(budget))
                == w && final(out)@.shaped() && final(budget).committed - old(budget).committed == 2
                * (final(out)@.charge() - old(out)@.charge()) && final(out)@ == (Residuals {
                chroma_ac: final(out)@.chroma_ac,
                ..old(out)@
            }),
            Err(f) => v == Err::<(), Error>(f.error) && final(budget).room() == f.room,
        },
{
    let ghost all = cavlc_chroma_ac_from(
        old(r).data@,
        cavlc_work(*old(r), *old(nc_grid), *old(out), *old(budget)),
        mb_x as int,
        mb_y as int,
        cbp_chroma,
        0,
    );
    for k in 0..8u32
        invariant
            r.wf(),
            r.data == old(r).data,
            nc_grid.wf(),
            out@.shaped(),
            open_from(out@.chroma_ac, k as int),
            out@ == (Residuals { chroma_ac: out@.chroma_ac, ..old(out)@ }),
            budget.limit == old(budget).limit,
            budget.committed >= old(budget).committed,
            budget.committed - old(budget).committed == 2 * (out@.charge() - old(out)@.charge()),
            all == cavlc_chroma_ac_from(
                r.data@,
                cavlc_work(*r, *nc_grid, *out, *budget),
                mb_x as int,
                mb_y as int,
                cbp_chroma,
                k as int,
            ),
    {
        let ghost before = out@;
        let comp: usize = (k / 4) as usize;
        let (bx, by) = blk_xy(k % 4);
        let (x, y) = (mb_x * 2 + bx % 2, mb_y * 2 + by % 2);
        if (cbp_chroma / 2) % 2 == 1 {
            let nc: i32 = nc_grid.nc_chroma(comp, x, y);
            let (total_coeff, block) = read_coded_block(r, nc, 15, budget)?;
            nc_grid.set_chroma(comp, x, y, total_coeff);
            if let Some(b) = block {
                proof {
                    lemma_charge_update(before.chroma_ac, k as int, b@);
                }
                put_block(&mut out.chroma_ac, k as usize, b);
            }
        } else {
            nc_grid.set_chroma(comp, x, y, 0);
        }
    }
    Ok(())
}

/// Reads all coefficients of a macroblock.
#[verifier::spinoff_prover]
#[verifier::rlimit(60)]
pub fn decode_residual_cavlc(
    r: &mut BitReader,
    budget: &mut Budget,
    is_16x16: bool,
    cbp_luma: u8,
    cbp_chroma: u8,
    nc_grid: &mut NeighbourGrid,
    mb_x: u32,
    mb_y: u32,
) -> (v: Result<MbResidual, Error>)
    requires
        old(r).wf(),
        old(nc_grid).wf(),
        addressable(mb_x as int, mb_y as int),
    ensures
        final(r).wf(),
        final(r).data == old(r).data,
        final(nc_grid).wf(),
        final(budget).limit == old(budget).limit,
        final(budget).committed >= old(budget).committed,
        match cavlc_residual(
            old(r).data@,
            old(r).pos as int,
            old(nc_grid)@,
            mb_x as int,
            mb_y as int,
            cbp_luma,
            cbp_chroma,
            is_16x16,
            old(budget).room(),
        ) {
            Ok(w) => {
                &&& v matches Ok(out)
                &&& cavlc_work(*final(r), *final(nc_grid), out, *final(budget)) == w
                &&& out@.shaped()
                &&& out@.modes4 == averaging(16)
                &&& final(budget).committed == old(budget).committed + 2 * out@.charge()
            },
            Err(f) => v matches Err(e) && e == f.error && final(budget).room() == f.room,
        },
{
    proof {
        lemma_absent_charges(16);
        lemma_absent_charges(2);
        lemma_absent_charges(8);
        lemma_absent_charges(4);
    }
    let mut out: MbResidual = MbResidual::default();
    assert(out@.charge() == 0);
    if is_16x16 {
        let (x, y) = (mb_x * 4, mb_y * 4);
        let nc: i32 = nc_grid.nc_luma(x, y);
        let (total_coeff, block) = read_coded_block(r, nc, 16, budget)?;
        nc_grid.set_luma(x, y, total_coeff);
        out.luma_dc = block;
    }
    read_luma_blocks(r, budget, nc_grid, &mut out, cbp_luma, is_16x16, mb_x, mb_y)?;
    read_chroma_dc_blocks(r, budget, nc_grid, &mut out, cbp_chroma)?;
    read_chroma_ac_blocks(r, budget, nc_grid, &mut out, cbp_chroma, mb_x, mb_y)?;
    Ok(out)
}

// ------------------------------------------------------------------ macroblock
/// What a slice carries from macroblock to macroblock.
pub struct CavlcState {
    pub pos: int,
    pub counts: Counts,
    pub grids: Grids,
    pub qpy: int,
    pub room: int,
}

/// The position of a bit reader.
pub open spec fn bit_pos(t: Syntax) -> int {
    match t {
        Syntax::Bits(_, pos) => pos,
        Syntax::Bins(_) => 0,
    }
}

/// What a macroblock's prediction syntax says and leaves behind.
pub struct Predicted {
    pub modes4: Seq<u8>,
    pub chroma_mode: u8,
    pub grids: Grids,
    pub pos: int,
}

/// The prediction syntax of a macroblock.
#[verifier::opaque]
pub open spec fn cavlc_prediction(
    data: Seq<u8>,
    pos: int,
    g: Grids,
    sps: Sps,
    header: SliceHeader,
    mb: MbKind,
    code: int,
    mb_x: int,
    mb_y: int,
    field: Option<&ColocatedField>,
) -> Result<Predicted, Error> {
    let t = Syntax::Bits(data, pos);
    if mb.intra() {
        let modes = if mb is Intra4x4 {
            modes4_from(t, g, mb_x, mb_y, Seq::<u8>::empty())
        } else {
            Ok((averaging(16), g, t))
        };
        match modes {
            Err(e) => Err(e),
            Ok((modes4, grids, t1)) => match ue(data, bit_pos(t1), 3) {
                Err(e) => Err(e),
                Ok((m, end)) => Ok(Predicted { modes4, chroma_mode: m as u8, grids, pos: end }),
            },
        }
    } else {
        match inter_prediction(
            t,
            g,
            header.kind,
            mb,
            code,
            header.active(),
            mb_x,
            mb_y,
            sps.direct_8x8_inference,
            field,
        ) {
            Err(e) => Err(e),
            Ok((large, grids, t1)) => Ok(
                Predicted { modes4: averaging(16), chroma_mode: 0, grids, pos: bit_pos(t1) },
            ),
        }
    }
}

/// The coded block pattern of a macroblock: part of the type of a
/// sixteen-by-sixteen prediction, read otherwise.
#[verifier::opaque]
pub open spec fn cavlc_pattern(data: Seq<u8>, pos: int, mb: MbKind) -> Result<(u8, u8, int), Error> {
    match mb {
        MbKind::Intra16x16 { cbp_luma, cbp_chroma, .. } => Ok((cbp_luma, cbp_chroma, pos)),
        _ => match me(data, pos, mb.intra()) {
            Err(e) => Err(e),
            Ok((v, end)) => Ok(((v % 16) as u8, (v / 16) as u8, end)),
        },
    }
}

/// The prediction mode of a sixteen-by-sixteen prediction.
pub open spec fn mode16(mb: MbKind) -> u8 {
    match mb {
        MbKind::Intra16x16 { pred_mode, .. } => pred_mode,
        _ => 0,
    }
}

/// What later macroblocks are told of a macroblock.
pub open spec fn mb_facts(
    mb: MbKind,
    cbp_luma: u8,
    cbp_chroma: u8,
    chroma_mode: u8,
    transform_8x8: bool,
) -> CabacMbInfo {
    CabacMbInfo {
        available: true,
        skipped: false,
        is_intra4x4: mb is Intra4x4,
        is_intra8x8: mb is Intra8x8,
        is_intra: mb.intra(),
        is_intra16x16: mb is Intra16x16,
        is_ipcm: false,
        cbp_luma,
        cbp_chroma,
        intra_chroma_pred_mode: chroma_mode,
        intra16x16_pred_mode: mode16(mb),
        transform_8x8,
        is_b_direct16x16: mb is BDirect16x16,
    }
}

/// Gathers what later macroblocks are told of a macroblock.
pub fn gather_facts(
    mb: MbKind,
    cbp_luma: u8,
    cbp_chroma: u8,
    chroma_mode: u8,
    transform_8x8: bool,
) -> (info: CabacMbInfo)
    ensures
        info == mb_facts(mb, cbp_luma, cbp_chroma, chroma_mode, transform_8x8),
{
    let intra16x16_pred_mode: u8 = match mb {
        MbKind::Intra16x16 { pred_mode, .. } => pred_mode,
        _ => 0,
    };
    CabacMbInfo {
        available: true,
        skipped: false,
        is_intra4x4: matches!(mb, MbKind::Intra4x4),
        is_intra8x8: matches!(mb, MbKind::Intra8x8),
        is_intra: mb.is_intra(),
        is_intra16x16: matches!(mb, MbKind::Intra16x16 { .. }),
        is_ipcm: false,
        cbp_luma,
        cbp_chroma,
        intra_chroma_pred_mode: chroma_mode,
        intra16x16_pred_mode,
        transform_8x8,
        is_b_direct16x16: matches!(mb, MbKind::BDirect16x16),
    }
}

/// The quantiser difference and the coefficients of a macroblock. Without any
/// coefficients its blocks count as empty.
#[verifier::opaque]
pub open spec fn cavlc_coefficients(
    data: Seq<u8>,
    st: CavlcState,
    mb: MbKind,
    cbp_luma: u8,
    cbp_chroma: u8,
    mb_x: int,
    mb_y: int,
) -> Result<(Residuals, CavlcState), Fault> {
    if cbp_luma > 0 || cbp_chroma > 0 || mb is Intra16x16 {
        match se(data, st.pos, -26, 25) {
            Err(error) => Err(Fault { error, room: st.room }),
            Ok((delta, end)) => match cavlc_residual(
                data,
                end,
                st.counts,
                mb_x,
                mb_y,
                cbp_luma,
                cbp_chroma,
                mb is Intra16x16,
                st.room,
            ) {
                Err(e) => Err(e),
                Ok(w) => Ok(
                    (
                        w.out,
                        CavlcState {
                            pos: w.pos,
                            counts: w.counts,
                            grids: st.grids,
                            qpy: next_qpy_spec(st.qpy, delta),
                            room: w.room,
                        },
                    ),
                ),
            },
        }
    } else {
        Ok((no_residual(), CavlcState { counts: st.counts.with_zero_mb(mb_x, mb_y), ..st }))
    }
}

/// A macroblock that is not skipped: its type, how it is predicted, and its
/// coefficients.
pub open spec fn cavlc_macroblock(
    data: Seq<u8>,
    st: CavlcState,
    sps: Sps,
    header: SliceHeader,
    mb_x: u32,
    mb_y: u32,
    field: Option<&ColocatedField>,
) -> Result<(Residuals, CavlcState), Fault> {
    match ue(data, st.pos, 48) {
        Err(error) => Err(Fault { error, room: st.room }),
        Ok((code, p0)) => match mb_kind(header.kind, code) {
            Err(error) => Err(Fault { error, room: st.room }),
            Ok(mb) => if mb is IPcm {
                Err(
                    Fault { error: Error::Unsupported(Reason::RawSamples), room: st.room },
                )
            } else {
                match cavlc_prediction(
                    data,
                    p0,
                    st.grids,
                    sps,
                    header,
                    mb,
                    code,
                    mb_x as int,
                    mb_y as int,
                    field,
                ) {
                    Err(error) => Err(Fault { error, room: st.room }),
                    Ok(p) => match cavlc_pattern(data, p.pos, mb) {
                        Err(error) => Err(Fault { error, room: st.room }),
                        Ok((cbp_luma, cbp_chroma, p2)) => match cavlc_coefficients(
                            data,
                            CavlcState { pos: p2, grids: p.grids, ..st },
                            mb,
                            cbp_luma,
                            cbp_chroma,
                            mb_x as int,
                            mb_y as int,
                        ) {
                            Err(e) => Err(e),
                            Ok((out, end)) => Ok(
                                (
                                    Residuals { modes4: p.modes4, ..out },
                                    CavlcState {
                                        grids: end.grids.with_mb(
                                            mb_x,
                                            mb_y,
                                            mb_facts(
                                                mb,
                                                cbp_luma,
                                                cbp_chroma,
                                                p.chroma_mode,
                                                false,
                                            ),
                                        ),
                                        ..end
                                    },
                                ),
                            ),
                        },
                    },
                }
            },
        },
    }
}

fn read_prediction(
    r: &mut BitReader,
    grids: &mut CabacGrids,
    sps: &Sps,
    header: &SliceHeader,
    mb: MbKind,
    code: u32,
    mb_x: u32,
    mb_y: u32,
    colocated: Option<&ColocatedField>,
) -> (v: Result<(Option<Vec<u8>>, u8), Error>)
    requires
        old(r).wf(),
        old(grids).wf(),
        addressable(mb_x as int, mb_y as int),
        old(grids)@.current == Some((mb_x, mb_y)),
    ensures
        final(r).wf(),
        final(r).data@ == old(r).data@,
        final(grids).wf(),
        final(grids).charged_bytes == old(grids).charged_bytes,
        match cavlc_prediction(
            old(r).data@,
            old(r).pos as int,
            old(grids)@,
            *sps,
            *header,
            mb,
            code as int,
            mb_x as int,
            mb_y as int,
            colocated,
        ) {
            Ok(p) => {
                &&& v matches Ok(x)
                &&& match x.0 {
                    Some(m) => m@ == p.modes4,
                    None => p.modes4 == averaging(16),
                }
                &&& p.modes4.len() == 16
                &&& x.1 == p.chroma_mode
                &&& final(grids)@ == p.grids
                &&& final(r).pos == p.pos
                &&& final(grids)@.current == old(grids)@.current
            },
            Err(e) => v matches Err(f) && f == e,
        },
{
    reveal(cavlc_prediction);
    if mb.is_intra() {
        let modes: Option<Vec<u8>> = if matches!(mb, MbKind::Intra4x4) {
            Some(decode_modes4(r, grids, mb_x, mb_y)?)
        } else {
            None
        };
        let chroma_mode: u32 = r.ue_v(3)?;
        Ok((modes, chroma_mode as u8))
    } else {
        let _large: bool = decode_inter_prediction(
            r,
            grids,
            header.kind,
            mb,
            code,
            header.active_minus1(),
            mb_x,
            mb_y,
            sps.direct_8x8_inference,
            colocated,
        )?;
        Ok((None, 0))
    }
}

fn read_pattern(r: &mut BitReader, mb: MbKind) -> (v: Result<(u8, u8), Error>)
    requires
        old(r).wf(),
    ensures
        final(r).wf(),
        final(r).data == old(r).data,
        match cavlc_pattern(old(r).data@, old(r).pos as int, mb) {
            Ok((l, c, end)) => v == Ok::<(u8, u8), Error>((l, c)) && final(r).pos == end,
            Err(e) => v == Err::<(u8, u8), Error>(e),
        },
{
    reveal(cavlc_pattern);
    match mb {
        MbKind::Intra16x16 { cbp_luma, cbp_chroma, .. } => Ok((cbp_luma, cbp_chroma)),
        _ => {
            let cbp: u8 = r.me_v(mb.is_intra())?;
            Ok((cbp % 16, cbp / 16))
        },
    }
}

fn read_coefficients(
    r: &mut BitReader,
    budget: &mut Budget,
    mb: MbKind,
    cbp_luma: u8,
    cbp_chroma: u8,
    nc_grid: &mut NeighbourGrid,
    qpy: &mut i32,
    mb_x: u32,
    mb_y: u32,
    Ghost(grids): Ghost<Grids>,
) -> (v: Result<MbResidual, Error>)
    requires
        old(r).wf(),
        old(nc_grid).wf(),
        addressable(mb_x as int, mb_y as int),
        0 <= *old(qpy) < 52,
    ensures
        final(r).wf(),
        final(r).data == old(r).data,
        final(nc_grid).wf(),
        final(budget).limit == old(budget).limit,
        final(budget).committed >= old(budget).committed,
        0 <= *final(qpy) < 52,
        match cavlc_coefficients(
            old(r).data@,
            CavlcState {
                pos: old(r).pos as int,
                counts: old(nc_grid)@,
                grids,
                qpy: *old(qpy) as int,
                room: old(budget).room(),
            },
            mb,
            cbp_luma,
            cbp_chroma,
            mb_x as int,
            mb_y as int,
        ) {
            Ok((out, end)) => {
                &&& v matches Ok(x)
                &&& x@ == out
                &&& x@.shaped()
                &&& x@.modes4 == averaging(16)
                &&& final(r).pos == end.pos
                &&& final(nc_grid)@ == end.counts
                &&& grids == end.grids
                &&& *final(qpy) == end.qpy
                &&& final(budget).room() == end.room
                &&& final(budget).committed == old(budget).committed + 2 * out.charge()
            },
            Err(f) => v matches Err(e) && e == f.error && final(budget).room() == f.room,
        },
{
    reveal(cavlc_coefficients);
    let is_16x16: bool = matches!(mb, MbKind::Intra16x16 { .. });
    if cbp_luma > 0 || cbp_chroma > 0 || is_16x16 {
        let mb_qp_delta: i32 = r.se_v(-26, 25)?;
        *qpy = next_qpy(*qpy, mb_qp_delta);
        decode_residual_cavlc(r, budget, is_16x16, cbp_luma, cbp_chroma, nc_grid, mb_x, mb_y)
    } else {
        proof {
            lemma_absent_charges(16);
            lemma_absent_charges(2);
            lemma_absent_charges(8);
            lemma_absent_charges(4);
        }
        zero_out_mb_neighbours(nc_grid, mb_x, mb_y);
        Ok(MbResidual::default())
    }
}

/// Decodes a macroblock that is not skipped.
#[verifier::rlimit(40)]
pub fn decode_macroblock_cavlc(
    r: &mut BitReader,
    budget: &mut Budget,
    sps: &Sps,
    header: &SliceHeader,
    nc_grid: &mut NeighbourGrid,
    grids: &mut CabacGrids,
    qpy: &mut i32,
    mb_x: u32,
    mb_y: u32,
    colocated: Option<&ColocatedField>,
) -> (v: Result<MbResidual, Error>)
    requires
        old(r).wf(),
        old(nc_grid).wf(),
        old(grids).wf(),
        addressable(mb_x as int, mb_y as int),
        old(grids)@.current == Some((mb_x, mb_y)),
        0 <= *old(qpy) < 52,
    ensures
        final(r).wf(),
        final(r).data@ == old(r).data@,
        final(nc_grid).wf(),
        final(grids).wf(),
        final(grids).charged_bytes == old(grids).charged_bytes,
        final(budget).limit == old(budget).limit,
        final(budget).committed >= old(budget).committed,
        0 <= *final(qpy) < 52,
        match cavlc_macroblock(
            old(r).data@,
            CavlcState {
                pos: old(r).pos as int,
                counts: old(nc_grid)@,
                grids: old(grids)@,
                qpy: *old(qpy) as int,
                room: old(budget).room(),
            },
            *sps,
            *header,
            mb_x,
            mb_y,
            colocated,
        ) {
            Ok((out, end)) => {
                &&& v matches Ok(x)
                &&& x@ == out
                &&& x@.shaped()
                &&& final(r).pos == end.pos
                &&& final(nc_grid)@ == end.counts
                &&& final(grids)@ == end.grids
                &&& final(grids)@.current is None
                &&& *final(qpy) == end.qpy
                &&& final(budget).room() == end.room
                &&& final(budget).committed == old(budget).committed + 2 * out.charge()
            },
            Err(f) => v matches Err(e) && e == f.error && final(budget).room() == f.room,
        },
{
    let code: u32 = r.ue_v(48)?;
    let mb: MbKind = classify_mb_type(header.kind, code)?;
    if matches!(mb, MbKind::IPcm) {
        return Err(Error::Unsupported(Reason::RawSamples));
    }
    let (modes, chroma_mode) = read_prediction(
        r,
        grids,
        sps,
        header,
        mb,
        code,
        mb_x,
        mb_y,
        colocated,
    )?;
    let (cbp_luma, cbp_chroma) = read_pattern(r, mb)?;
    let mut out: MbResidual = read_coefficients(
        r,
        budget,
        mb,
        cbp_luma,
        cbp_chroma,
        nc_grid,
        qpy,
        mb_x,
        mb_y,
        Ghost(grids@),
    )?;
    if let Some(m) = modes {
        out.intra4x4_pred_mode = m;
    }
    grids.set_mb_info(
        mb_x,
        mb_y,
        gather_facts(mb, cbp_luma, cbp_chroma, chroma_mode, false),
    );
    Ok(out)
}

} // verus!
