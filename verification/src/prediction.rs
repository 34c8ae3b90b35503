//! How a macroblock is predicted: the modes of its intra blocks, or the motion
//! of its partitions.
use vstd::prelude::*;
use crate::direct::{
    apply_spatial_direct_16x16, direct_params, spatial_direct_params, with_direct_mb,
    ColocatedField, DirectParams,
};
use crate::error::{Error, Reason};
use crate::grids::{
    above_of, addressable, blk_pos, blk_xy, corner_neighbour, infer_intra4x4_neighbour_modes,
    left_of, neighbour_modes, no_motion, resolve_c, CabacGrids, Grids, Lists, Mv, MvInfo,
};
use crate::inter::{
    decode_one_partition, decode_two_partitions, fill_rect, one_partition, two_partitions,
    with_rect, Syntax, SyntaxReader, TwoParts,
};
use crate::intra::{infer_intra4x4_pred_mode, predicted_mode, remaining_mode};
use crate::mb_type::{partition_rects, two_partition_rects, MbKind, PartPred, Rect, SliceKind};
use crate::motion::{p_skip_mv, skip_mv};
use crate::sub_mb::{decode_sub_mb_pred, sub_mb_pred, DirectEnv};

verus! {

// ----------------------------------------------------------------------- intra
/// The mode that a block gets from its neighbours and what was read for it.
pub open spec fn resolved_mode(g: Grids, mb_x: int, mb_y: int, blk: int, read: (bool, u8)) -> u8 {
    let (a, b) = neighbour_modes(g, mb_x, mb_y, blk);
    if read.0 {
        predicted_mode(a, b)
    } else {
        remaining_mode(a, b, read.1) as u8
    }
}

/// The modes of four-by-four blocks from block `modes.len()` on. Each is known
/// to the next.
pub open spec fn modes4_from(t: Syntax, g: Grids, mb_x: int, mb_y: int, modes: Seq<u8>) -> Result<
    (Seq<u8>, Grids, Syntax),
    Error,
>
    decreases 16 - modes.len(),
{
    let blk = modes.len() as int;
    if blk >= 16 {
        Ok((modes, g, t))
    } else {
        match t.pred_mode() {
            Err(e) => Err(e),
            Ok((read, t1)) => {
                let mode = resolved_mode(g, mb_x, mb_y, blk, read);
                let (x, y) = (4 * mb_x + blk_pos(blk).0, 4 * mb_y + blk_pos(blk).1);
                modes4_from(t1, g.with_mode(x, y, mode), mb_x, mb_y, modes.push(mode))
            },
        }
    }
}

/// The grids with the mode of a quadrant written to its four blocks.
pub open spec fn with_quadrant_mode(g: Grids, mb_x: int, mb_y: int, quad: int, mode: u8) -> Grids {
    let (x, y) = (4 * mb_x + blk_pos(4 * quad).0, 4 * mb_y + blk_pos(4 * quad).1);
    g.with_mode(x, y, mode).with_mode(x + 1, y, mode).with_mode(x, y + 1, mode).with_mode(
        x + 1,
        y + 1,
        mode,
    )
}

/// The modes of eight-by-eight blocks from block `modes.len()` on.
pub open spec fn modes8_from(t: Syntax, g: Grids, mb_x: int, mb_y: int, modes: Seq<u8>) -> Result<
    (Seq<u8>, Grids, Syntax),
    Error,
>
    decreases 4 - modes.len(),
{
    let quad = modes.len() as int;
    if quad >= 4 {
        Ok((modes, g, t))
    } else {
        match t.pred_mode() {
            Err(e) => Err(e),
            Ok((read, t1)) => {
                let mode = resolved_mode(g, mb_x, mb_y, 4 * quad, read);
                modes8_from(
                    t1,
                    with_quadrant_mode(g, mb_x, mb_y, quad, mode),
                    mb_x,
                    mb_y,
                    modes.push(mode),
                )
            },
        }
    }
}

/// Modes that agree with a statement of them.
pub open spec fn reads_modes(
    r: Result<Vec<u8>, Error>,
    g: Grids,
    rest: Syntax,
    stated: Result<(Seq<u8>, Grids, Syntax), Error>,
) -> bool {
    match stated {
        Ok((modes, h, t)) => r matches Ok(v) && v@ == modes && g == h && rest == t,
        Err(e) => r matches Err(f) && f == e,
    }
}

/// Reads and records the modes of sixteen four-by-four blocks.
#[verifier::loop_isolation(false)]
pub fn decode_modes4<R: SyntaxReader>(
    reader: &mut R,
    grids: &mut CabacGrids,
    mb_x: u32,
    mb_y: u32,
) -> (r: Result<Vec<u8>, Error>)
    requires
        old(reader).sound(),
        old(grids).wf(),
        addressable(mb_x as int, mb_y as int),
        old(grids)@.current == Some((mb_x, mb_y)),
    ensures
        final(reader).sound(),
        final(reader).input() == old(reader).input(),
        final(grids).wf(),
        final(grids).charged_bytes == old(grids).charged_bytes,
        final(grids)@.current == old(grids)@.current,
        r matches Ok(v) ==> v@.len() == 16,
        reads_modes(
            r,
            final(grids)@,
            final(reader).syntax(),
            modes4_from(
                old(reader).syntax(),
                old(grids)@,
                mb_x as int,
                mb_y as int,
                Seq::<u8>::empty(),
            ),
        ),
{
    let mut modes: Vec<u8> = Vec::new();
    for blk in 0..16u32
        invariant
            reader.sound(),
            reader.input() == old(reader).input(),
            grids.wf(),
            grids.charged_bytes == old(grids).charged_bytes,
            grids@.current == old(grids)@.current,
            modes@.len() == blk,
            modes4_from(
                old(reader).syntax(),
                old(grids)@,
                mb_x as int,
                mb_y as int,
                Seq::<u8>::empty(),
            ) == modes4_from(reader.syntax(), grids@, mb_x as int, mb_y as int, modes@),
    {
        let (prev_flag, rem) = reader.read_pred_mode()?;
        let (mode_a, mode_b) = infer_intra4x4_neighbour_modes(grids, mb_x, mb_y, blk);
        let mode: u8 = infer_intra4x4_pred_mode(mode_a, mode_b, prev_flag, rem);
        let (bx, by) = blk_xy(blk);
        grids.set_intra4x4_pred_mode(mb_x * 4 + bx, mb_y * 4 + by, mode);
        modes.push(mode);
    }
    Ok(modes)
}

/// Reads and records the modes of four eight-by-eight blocks.
#[verifier::loop_isolation(false)]
pub fn decode_modes8<R: SyntaxReader>(
    reader: &mut R,
    grids: &mut CabacGrids,
    mb_x: u32,
    mb_y: u32,
) -> (r: Result<Vec<u8>, Error>)
    requires
        old(reader).sound(),
        old(grids).wf(),
        addressable(mb_x as int, mb_y as int),
        old(grids)@.current == Some((mb_x, mb_y)),
    ensures
        final(reader).sound(),
        final(reader).input() == old(reader).input(),
        final(grids).wf(),
        final(grids).charged_bytes == old(grids).charged_bytes,
        final(grids)@.current == old(grids)@.current,
        r matches Ok(v) ==> v@.len() == 4,
        reads_modes(
            r,
            final(grids)@,
            final(reader).syntax(),
            modes8_from(
                old(reader).syntax(),
                old(grids)@,
                mb_x as int,
                mb_y as int,
                Seq::<u8>::empty(),
            ),
        ),
{
    let mut modes: Vec<u8> = Vec::new();
    for quad in 0..4u32
        invariant
            reader.sound(),
            reader.input() == old(reader).input(),
            grids.wf(),
            grids.charged_bytes == old(grids).charged_bytes,
            grids@.current == old(grids)@.current,
            modes@.len() == quad,
            modes8_from(
                old(reader).syntax(),
                old(grids)@,
                mb_x as int,
                mb_y as int,
                Seq::<u8>::empty(),
            ) == modes8_from(reader.syntax(), grids@, mb_x as int, mb_y as int, modes@),
    {
        let (prev_flag, rem) = reader.read_pred_mode()?;
        let (mode_a, mode_b) = infer_intra4x4_neighbour_modes(grids, mb_x, mb_y, 4 * quad);
        let mode: u8 = infer_intra4x4_pred_mode(mode_a, mode_b, prev_flag, rem);
        let (bx, by) = blk_xy(4 * quad);
        let (x, y) = (mb_x * 4 + bx, mb_y * 4 + by);
        grids.set_intra4x4_pred_mode(x, y, mode);
        grids.set_intra4x4_pred_mode(x + 1, y, mode);
        grids.set_intra4x4_pred_mode(x, y + 1, mode);
        grids.set_intra4x4_pred_mode(x + 1, y + 1, mode);
        modes.push(mode);
    }
    Ok(modes)
}

// ----------------------------------------------------------------------- inter
/// A whole macroblock as a rectangle of blocks.
pub open spec fn whole() -> Rect {
    (0, 0, 3, 3)
}

/// The direct motion of a macroblock, from the blocks around it.
pub open spec fn mb_direct_params(g: Grids, mb_x: int, mb_y: int) -> DirectParams {
    direct_params(
        g.mv_at(4 * mb_x - 1, 4 * mb_y),
        g.mv_at(4 * mb_x, 4 * mb_y - 1),
        corner_neighbour(g, 4 * mb_x, 4 * mb_x + 3, 4 * mb_y),
    )
}

fn derive_direct_params(grids: &CabacGrids, mb_x: u32, mb_y: u32) -> (p: DirectParams)
    requires
        grids.wf(),
        addressable(mb_x as int, mb_y as int),
    ensures
        p == mb_direct_params(grids@, mb_x as int, mb_y as int),
{
    let (x, y) = (mb_x * 4, mb_y * 4);
    let left: MvInfo = left_of(grids, x, y);
    let above: MvInfo = above_of(grids, x, y);
    let corner: MvInfo = resolve_c(grids, x, x + 3, y);
    spatial_direct_params(left, above, corner)
}

/// The motion of an inter macroblock. Says besides whether no part is smaller
/// than a quadrant.
pub open spec fn inter_prediction(
    t: Syntax,
    g: Grids,
    kind: SliceKind,
    mb: MbKind,
    code: int,
    n: Lists<u32>,
    mb_x: int,
    mb_y: int,
    inference: bool,
    field: Option<&ColocatedField>,
) -> Result<(bool, Grids, Syntax), Error> {
    match mb {
        MbKind::BDirect16x16 => if kind is B {
            Ok(
                (
                    true,
                    with_direct_mb(
                        g,
                        mb_x,
                        mb_y,
                        inference,
                        mb_direct_params(g, mb_x, mb_y),
                        field,
                    ),
                    t,
                ),
            )
        } else {
            Err(Error::InvalidData(Reason::DirectOutsideB))
        },
        MbKind::Inter { first, second } => {
            let moved = match second {
                None => one_partition(t, g, n, mb_x, mb_y, first, whole()),
                Some(p) => {
                    let (r0, r1) = partition_rects(kind, code);
                    two_partitions(
                        t,
                        g,
                        n,
                        mb_x,
                        mb_y,
                        TwoParts {
                            preds: Lists { l0: first, l1: p },
                            rects: Lists { l0: r0, l1: r1 },
                        },
                    )
                },
            };
            match moved {
                Err(e) => Err(e),
                Ok((h, t1)) => Ok((true, h, t1)),
            }
        },
        MbKind::P8x8 { ref0_inferred } => sub_mb_pred(
            t,
            g,
            n,
            mb_x,
            mb_y,
            ref0_inferred,
            false,
            DirectEnv { inference: false, params: None, colocated: None },
        ),
        MbKind::B8x8 => if kind is B {
            sub_mb_pred(
                t,
                g,
                n,
                mb_x,
                mb_y,
                false,
                true,
                DirectEnv {
                    inference,
                    params: Some(mb_direct_params(g, mb_x, mb_y)),
                    colocated: field,
                },
            )
        } else {
            Err(Error::InvalidData(Reason::B8x8OutsideB))
        },
        _ => Err(Error::InvalidData(Reason::NotInter)),
    }
}

/// Reads and applies the motion of an inter macroblock.
pub fn decode_inter_prediction<R: SyntaxReader>(
    reader: &mut R,
    grids: &mut CabacGrids,
    kind: SliceKind,
    mb: MbKind,
    code: u32,
    n: Lists<u32>,
    mb_x: u32,
    mb_y: u32,
    inference: bool,
    colocated: Option<&ColocatedField>,
) -> (r: Result<bool, Error>)
    requires
        old(reader).sound(),
        old(grids).wf(),
        addressable(mb_x as int, mb_y as int),
    ensures
        final(reader).sound(),
        final(reader).input() == old(reader).input(),
        final(grids).wf(),
        final(grids).charged_bytes == old(grids).charged_bytes,
        final(grids)@.current == old(grids)@.current,
        match inter_prediction(
            old(reader).syntax(),
            old(grids)@,
            kind,
            mb,
            code as int,
            n,
            mb_x as int,
            mb_y as int,
            inference,
            colocated,
        ) {
            Ok((large, g, t)) => r == Ok::<bool, Error>(large) && final(grids)@ == g
                && final(reader).syntax() == t,
            Err(e) => r == Err::<bool, Error>(e),
        },
{
    match mb {
        MbKind::BDirect16x16 => {
            if !matches!(kind, SliceKind::B) {
                return Err(Error::InvalidData(Reason::DirectOutsideB));
            }
            let params: DirectParams = derive_direct_params(grids, mb_x, mb_y);
            apply_spatial_direct_16x16(grids, mb_x, mb_y, inference, params, colocated);
            Ok(true)
        },
        MbKind::Inter { first, second } => {
            match second {
                None => decode_one_partition(reader, grids, n, mb_x, mb_y, first, (0, 0, 3, 3))?,
                Some(p) => {
                    let (r0, r1) = two_partition_rects(kind, code);
                    let two = TwoParts {
                        preds: Lists { l0: first, l1: p },
                        rects: Lists { l0: r0, l1: r1 },
                    };
                    decode_two_partitions(reader, grids, n, mb_x, mb_y, two)?
                },
            }
            Ok(true)
        },
        MbKind::P8x8 { ref0_inferred } => decode_sub_mb_pred(
            reader,
            grids,
            n,
            mb_x,
            mb_y,
            ref0_inferred,
            false,
            DirectEnv { inference: false, params: None, colocated: None },
        ),
        MbKind::B8x8 => {
            if !matches!(kind, SliceKind::B) {
                return Err(Error::InvalidData(Reason::B8x8OutsideB));
            }
            let params: DirectParams = derive_direct_params(grids, mb_x, mb_y);
            let env = DirectEnv { inference, params: Some(params), colocated };
            decode_sub_mb_pred(reader, grids, n, mb_x, mb_y, false, true, env)
        },
        _ => Err(Error::InvalidData(Reason::NotInter)),
    }
}

/// The motion of a skipped macroblock of a P slice.
pub open spec fn skip_motion(mv: Mv) -> MvInfo {
    MvInfo {
        mb_available: true,
        pred: Some(PartPred::L0),
        ref_idx: Lists { l0: 0, l1: -1i8 },
        mvd: Lists { l0: (0, 0), l1: (0, 0) },
        mv: Lists { l0: mv, l1: (0, 0) },
        direct_or_skip: true,
    }
}

/// The grids with the motion of a skipped macroblock written: direct motion in
/// a B slice, a single vector from list 0 elsewhere.
pub open spec fn with_skip_motion(
    g: Grids,
    mb_x: int,
    mb_y: int,
    is_b: bool,
    inference: bool,
    field: Option<&ColocatedField>,
) -> Grids {
    if is_b {
        with_direct_mb(g, mb_x, mb_y, inference, mb_direct_params(g, mb_x, mb_y), field)
    } else {
        let mv = skip_mv(
            g.mv_at(4 * mb_x - 1, 4 * mb_y).neighbour(0),
            g.mv_at(4 * mb_x, 4 * mb_y - 1).neighbour(0),
            corner_neighbour(g, 4 * mb_x, 4 * mb_x + 3, 4 * mb_y).neighbour(0),
        );
        with_rect(g, mb_x, mb_y, whole(), skip_motion(mv))
    }
}

/// Derives and applies the motion of a skipped macroblock.
pub fn apply_skip_motion(
    grids: &mut CabacGrids,
    mb_x: u32,
    mb_y: u32,
    is_b: bool,
    inference: bool,
    colocated: Option<&ColocatedField>,
)
    requires
        old(grids).wf(),
        addressable(mb_x as int, mb_y as int),
    ensures
        final(grids).wf(),
        final(grids).charged_bytes == old(grids).charged_bytes,
        final(grids)@.current == old(grids)@.current,
        final(grids)@ == with_skip_motion(
            old(grids)@,
            mb_x as int,
            mb_y as int,
            is_b,
            inference,
            colocated,
        ),
{
    if is_b {
        let params: DirectParams = derive_direct_params(grids, mb_x, mb_y);
        apply_spatial_direct_16x16(grids, mb_x, mb_y, inference, params, colocated);
    } else {
        let (x, y) = (mb_x * 4, mb_y * 4);
        let left: MvInfo = left_of(grids, x, y);
        let above: MvInfo = above_of(grids, x, y);
        let corner: MvInfo = resolve_c(grids, x, x + 3, y);
        let mv: Mv = p_skip_mv(
            left.as_motion_neighbour(0),
            above.as_motion_neighbour(0),
            corner.as_motion_neighbour(0),
        );
        let info = MvInfo {
            mb_available: true,
            pred: Some(PartPred::L0),
            ref_idx: Lists { l0: 0, l1: -1 },
            mvd: Lists { l0: (0, 0), l1: (0, 0) },
            mv: Lists { l0: mv, l1: (0, 0) },
            direct_or_skip: true,
        };
        fill_rect(grids, mb_x, mb_y, (0, 0, 3, 3), info);
    }
}

/// What later macroblocks see of an intra macroblock's motion: available, and
/// without any.
pub open spec fn intra_motion() -> MvInfo {
    MvInfo { mb_available: true, ref_idx: Lists { l0: -1i8, l1: -1i8 }, ..no_motion() }
}

/// Records an intra macroblock's lack of motion.
pub fn apply_intra_motion(grids: &mut CabacGrids, mb_x: u32, mb_y: u32)
    requires
        old(grids).wf(),
        addressable(mb_x as int, mb_y as int),
    ensures
        final(grids).wf(),
        final(grids).charged_bytes == old(grids).charged_bytes,
        final(grids)@.current == old(grids)@.current,
        final(grids)@ == with_rect(
            old(grids)@,
            mb_x as int,
            mb_y as int,
            whole(),
            intra_motion(),
        ),
{
    let info = MvInfo {
        mb_available: true,
        pred: None,
        ref_idx: Lists { l0: -1, l1: -1 },
        mvd: Lists { l0: (0, 0), l1: (0, 0) },
        mv: Lists { l0: (0, 0), l1: (0, 0) },
        direct_or_skip: false,
    };
    fill_rect(grids, mb_x, mb_y, (0, 0, 3, 3), info);
}

} // verus!
