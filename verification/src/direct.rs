//! Spatial direct prediction: reference indices and vectors derived from the
//! neighbouring macroblocks, held still where the co-located block stood still.
use vstd::prelude::*;
use std::sync::Arc;
use crate::grids::{
    addressable, law_motion_read_after_write, mb_inside, no_motion, CabacGrids, Grids, Lists, Mv,
    MvInfo,
};
use crate::mb_type::PartPred;
use crate::motion::{predict_mv, predicted_mv, PartitionShape};

verus! {

/// The motion of a decoded reference picture, one entry per four-by-four block
/// in raster order.
#[derive(Debug)]
pub struct ColocatedField {
    pub width_4x4: u32,
    pub height_4x4: u32,
    pub blocks: Arc<Vec<MvInfo>>,
}

/// Whether a vector is at most one quarter sample in each direction.
pub open spec fn small(mv: Mv) -> bool {
    -1 <= mv.0 <= 1 && -1 <= mv.1 <= 1
}

/// The reference index by which a known block predicts from a list, or -1.
pub open spec fn direct_reference(info: MvInfo, list: int) -> i8 {
    if info.mb_available {
        info.reference(list)
    } else {
        -1i8
    }
}

/// Whether a co-located block moves: unless its first list, or failing that its
/// second, has a small vector into the first reference.
pub open spec fn moves(info: MvInfo) -> bool {
    let r0 = direct_reference(info, 0);
    let r1 = direct_reference(info, 1);
    !((r0 == 0 && small(info.mv.l0)) || (r0 == -1 && r1 == 0 && small(info.mv.l1)))
}

impl ColocatedField {
    /// The block at a position, nothing known outside. Indices beyond 32 bits
    /// stop at the largest.
    pub open spec fn block(&self, x: int, y: int) -> MvInfo {
        let i = y * self.width_4x4 + x;
        let i = if i > u32::MAX {
            u32::MAX as int
        } else {
            i
        };
        if 0 <= x < self.width_4x4 && 0 <= y < self.height_4x4 && i < self.blocks@.len() {
            self.blocks@[i]
        } else {
            no_motion()
        }
    }

    pub fn new(width_4x4: u32, height_4x4: u32, blocks: Arc<Vec<MvInfo>>) -> (r: Self)
        ensures
            r.width_4x4 == width_4x4,
            r.height_4x4 == height_4x4,
            r.blocks@ == blocks@,
    {
        ColocatedField { width_4x4, height_4x4, blocks }
    }

    pub fn at(&self, x: u32, y: u32) -> (r: MvInfo)
        ensures
            r == self.block(x as int, y as int),
    {
        if x >= self.width_4x4 || y >= self.height_4x4 {
            return MvInfo::default();
        }
        proof {
            assert(0 <= y * self.width_4x4 <= 0xffff_ffff * 0xffff_ffff) by (nonlinear_arith)
                requires
                    0 <= y <= 0xffff_ffff,
                    0 <= self.width_4x4 <= 0xffff_ffff,
            ;
        }
        let i: u64 = y as u64 * self.width_4x4 as u64 + x as u64;
        let i: usize = if i > 0xffff_ffff {
            0xffff_ffff
        } else {
            i as usize
        };
        if i < self.blocks.len() {
            self.blocks[i]
        } else {
            MvInfo::default()
        }
    }

    /// Whether the block at a position moves.
    pub fn is_moving(&self, x: u32, y: u32) -> (r: bool)
        ensures
            r == moves(self.block(x as int, y as int)),
    {
        let info: MvInfo = self.at(x, y);
        let r0: i8 = direct_ref_idx(info, 0);
        let r1: i8 = direct_ref_idx(info, 1);
        let (a, b): (Mv, Mv) = (info.mv.l0, info.mv.l1);
        let small0: bool = -1 <= a.0 && a.0 <= 1 && -1 <= a.1 && a.1 <= 1;
        let small1: bool = -1 <= b.0 && b.0 <= 1 && -1 <= b.1 && b.1 <= 1;
        !((r0 == 0 && small0) || (r0 == -1 && r1 == 0 && small1))
    }
}

pub fn direct_ref_idx(info: MvInfo, list: usize) -> (r: i8)
    ensures
        r == direct_reference(info, list as int),
{
    if !info.mb_available {
        return -1;
    }
    match info.pred {
        None => -1,
        Some(p) => if p.reads(list) {
            info.ref_idx.get(list)
        } else {
            -1
        },
    }
}

/// An index as its unsigned byte: negative ones come after all others.
pub open spec fn as_byte(v: i8) -> int {
    if v < 0 {
        256 + v
    } else {
        v as int
    }
}

/// The smaller of two reference indices, one that is not used counting as
/// larger than any.
pub open spec fn min_positive(a: i8, b: i8) -> i8 {
    if as_byte(a) <= as_byte(b) {
        a
    } else {
        b
    }
}

pub fn min_positive_ref_idx(a: i8, b: i8) -> (r: i8)
    ensures
        r == min_positive(a, b),
{
    if (a < 0) == (b < 0) {
        if a <= b {
            a
        } else {
            b
        }
    } else if a < 0 {
        b
    } else {
        a
    }
}

/// What a whole macroblock's direct prediction starts from.
#[derive(Debug, Clone, Copy)]
pub struct DirectParams {
    pub l0_ref: i8,
    pub l1_ref: i8,
    pub mv0: Mv,
    pub mv1: Mv,
}

/// The smallest reference index in use among three neighbours.
pub open spec fn joint_reference(a: MvInfo, b: MvInfo, c: MvInfo, list: int) -> i8 {
    min_positive(
        min_positive(direct_reference(a, list), direct_reference(b, list)),
        direct_reference(c, list),
    )
}

/// The vector predicted for that reference, zero where no list is in use.
pub open spec fn joint_mv(a: MvInfo, b: MvInfo, c: MvInfo, list: int) -> Mv {
    let r = joint_reference(a, b, c, list);
    if r >= 0 {
        predicted_mv(
            PartitionShape::Whole,
            a.neighbour(list),
            b.neighbour(list),
            c.neighbour(list),
            r,
        )
    } else {
        (0i16, 0i16)
    }
}

pub open spec fn direct_params(a: MvInfo, b: MvInfo, c: MvInfo) -> DirectParams {
    DirectParams {
        l0_ref: joint_reference(a, b, c, 0),
        l1_ref: joint_reference(a, b, c, 1),
        mv0: joint_mv(a, b, c, 0),
        mv1: joint_mv(a, b, c, 1),
    }
}

pub fn spatial_direct_params(a: MvInfo, b: MvInfo, c: MvInfo) -> (r: DirectParams)
    ensures
        r == direct_params(a, b, c),
{
    let l0_ref: i8 = min_positive_ref_idx(
        min_positive_ref_idx(direct_ref_idx(a, 0), direct_ref_idx(b, 0)),
        direct_ref_idx(c, 0),
    );
    let l1_ref: i8 = min_positive_ref_idx(
        min_positive_ref_idx(direct_ref_idx(a, 1), direct_ref_idx(b, 1)),
        direct_ref_idx(c, 1),
    );
    let mv0: Mv = if l0_ref >= 0 {
        predict_mv(
            PartitionShape::Whole,
            a.as_motion_neighbour(0),
            b.as_motion_neighbour(0),
            c.as_motion_neighbour(0),
            l0_ref,
        )
    } else {
        (0, 0)
    };
    let mv1: Mv = if l1_ref >= 0 {
        predict_mv(
            PartitionShape::Whole,
            a.as_motion_neighbour(1),
            b.as_motion_neighbour(1),
            c.as_motion_neighbour(1),
            l1_ref,
        )
    } else {
        (0, 0)
    };
    DirectParams { l0_ref, l1_ref, mv0, mv1 }
}

/// One list of a direct block: its reference and vector, the vector held at
/// zero where the first reference is used and the co-located block stands
/// still.
pub open spec fn direct_list(r: i8, mv: Mv, moving: bool) -> (i8, Mv) {
    if r == 0 && !moving {
        (0, (0i16, 0i16))
    } else {
        (r, mv)
    }
}

/// The references and vectors of a direct block. With no list in use at all,
/// both predict from the first reference without motion; a single unused list
/// stays unused.
pub open spec fn direct_assignment(
    l0_ref: i8,
    l1_ref: i8,
    mv0: Mv,
    mv1: Mv,
    moving: bool,
) -> (Lists<i8>, Lists<Mv>) {
    let zero: Mv = (0i16, 0i16);
    if l0_ref < 0 && l1_ref < 0 {
        (Lists { l0: 0i8, l1: 0i8 }, Lists { l0: zero, l1: zero })
    } else if l1_ref == -1 {
        let (r, m) = direct_list(l0_ref, mv0, moving);
        (Lists { l0: r, l1: -1i8 }, Lists { l0: m, l1: zero })
    } else if l0_ref == -1 {
        let (r, m) = direct_list(l1_ref, mv1, moving);
        (Lists { l0: -1i8, l1: r }, Lists { l0: zero, l1: m })
    } else {
        let (r0, m0) = direct_list(l0_ref, mv0, moving);
        let (r1, m1) = direct_list(l1_ref, mv1, moving);
        (Lists { l0: r0, l1: r1 }, Lists { l0: m0, l1: m1 })
    }
}

pub fn direct_block(l0_ref: i8, l1_ref: i8, mv0: Mv, mv1: Mv, moving: bool) -> (r: (
    Lists<i8>,
    Lists<Mv>,
))
    ensures
        r == direct_assignment(l0_ref, l1_ref, mv0, mv1, moving),
{
    let zero: Mv = (0, 0);
    if l0_ref < 0 && l1_ref < 0 {
        return (Lists { l0: 0, l1: 0 }, Lists { l0: zero, l1: zero });
    }
    let m0: Mv = if l0_ref == 0 && !moving {
        zero
    } else {
        mv0
    };
    let m1: Mv = if l1_ref == 0 && !moving {
        zero
    } else {
        mv1
    };
    if l1_ref == -1 {
        (Lists { l0: l0_ref, l1: -1 }, Lists { l0: m0, l1: zero })
    } else if l0_ref == -1 {
        (Lists { l0: -1, l1: l1_ref }, Lists { l0: zero, l1: m1 })
    } else {
        (Lists { l0: l0_ref, l1: l1_ref }, Lists { l0: m0, l1: m1 })
    }
}

/// The lists that non-negative references name.
pub open spec fn lists_in_use(r: Lists<i8>) -> Option<PartPred> {
    if r.l0 >= 0 && r.l1 >= 0 {
        Some(PartPred::Bi)
    } else if r.l0 >= 0 {
        Some(PartPred::L0)
    } else if r.l1 >= 0 {
        Some(PartPred::L1)
    } else {
        None
    }
}

pub fn pred_from_ref_idx(r: Lists<i8>) -> (p: Option<PartPred>)
    ensures
        p == lists_in_use(r),
{
    if r.l0 >= 0 && r.l1 >= 0 {
        Some(PartPred::Bi)
    } else if r.l0 >= 0 {
        Some(PartPred::L0)
    } else if r.l1 >= 0 {
        Some(PartPred::L1)
    } else {
        None
    }
}

/// A direct block's motion.
pub open spec fn direct_info(p: DirectParams, moving: bool) -> MvInfo {
    let (ref_idx, mv) = direct_assignment(p.l0_ref, p.l1_ref, p.mv0, p.mv1, moving);
    MvInfo {
        mb_available: true,
        pred: lists_in_use(ref_idx),
        ref_idx,
        mvd: Lists { l0: (0i16, 0i16), l1: (0i16, 0i16) },
        mv,
        direct_or_skip: true,
    }
}

/// Whether the co-located block at a position moves; without a co-located
/// picture everything does.
pub open spec fn colocated_moves(field: Option<&ColocatedField>, x: int, y: int) -> bool {
    match field {
        Some(f) => moves(f.block(x, y)),
        None => true,
    }
}

/// The grids with block `(bx, by)` of a macroblock's quadrant written. With
/// eight-by-eight inference the quadrant's corner speaks for all of it.
pub open spec fn with_direct_block(
    g: Grids,
    mb_x: int,
    mb_y: int,
    k: int,
    i: int,
    inference: bool,
    p: DirectParams,
    field: Option<&ColocatedField>,
) -> Grids {
    let (qx, qy) = (4 * mb_x + 2 * (k % 2), 4 * mb_y + 2 * (k / 2));
    let (x, y) = (qx + i % 2, qy + i / 2);
    let moving = if inference {
        colocated_moves(field, qx, qy)
    } else {
        colocated_moves(field, x, y)
    };
    g.with_mv(x, y, direct_info(p, moving))
}

/// The grids with a direct quadrant written.
pub open spec fn with_direct_quadrant(
    g: Grids,
    mb_x: int,
    mb_y: int,
    k: int,
    inference: bool,
    p: DirectParams,
    field: Option<&ColocatedField>,
) -> Grids {
    let g1 = with_direct_block(g, mb_x, mb_y, k, 0, inference, p, field);
    let g2 = with_direct_block(g1, mb_x, mb_y, k, 1, inference, p, field);
    let g3 = with_direct_block(g2, mb_x, mb_y, k, 2, inference, p, field);
    with_direct_block(g3, mb_x, mb_y, k, 3, inference, p, field)
}

/// The grids with a wholly direct macroblock written.
pub open spec fn with_direct_mb(
    g: Grids,
    mb_x: int,
    mb_y: int,
    inference: bool,
    p: DirectParams,
    field: Option<&ColocatedField>,
) -> Grids {
    let g1 = with_direct_quadrant(g, mb_x, mb_y, 0, inference, p, field);
    let g2 = with_direct_quadrant(g1, mb_x, mb_y, 1, inference, p, field);
    let g3 = with_direct_quadrant(g2, mb_x, mb_y, 2, inference, p, field);
    with_direct_quadrant(g3, mb_x, mb_y, 3, inference, p, field)
}

fn write_direct_block(
    grids: &mut CabacGrids,
    mb_x: u32,
    mb_y: u32,
    k: u32,
    i: u32,
    inference: bool,
    params: DirectParams,
    colocated: Option<&ColocatedField>,
)
    requires
        old(grids).wf(),
        addressable(mb_x as int, mb_y as int),
        k < 4,
        i < 4,
    ensures
        final(grids).wf(),
        final(grids).charged_bytes == old(grids).charged_bytes,
        final(grids)@.current == old(grids)@.current,
        final(grids)@ == with_direct_block(
            old(grids)@,
            mb_x as int,
            mb_y as int,
            k as int,
            i as int,
            inference,
            params,
            colocated,
        ),
{
    let (qx, qy) = (mb_x * 4 + 2 * (k % 2), mb_y * 4 + 2 * (k / 2));
    let (x, y) = (qx + i % 2, qy + i / 2);
    let moving: bool = match colocated {
        None => true,
        Some(f) => if inference {
            f.is_moving(qx, qy)
        } else {
            f.is_moving(x, y)
        },
    };
    let (ref_idx, mv) = direct_block(
        params.l0_ref,
        params.l1_ref,
        params.mv0,
        params.mv1,
        moving,
    );
    let info = MvInfo {
        mb_available: true,
        pred: pred_from_ref_idx(ref_idx),
        ref_idx,
        mvd: Lists { l0: (0, 0), l1: (0, 0) },
        mv,
        direct_or_skip: true,
    };
    grids.set_mv(x, y, info);
}

/// Applies direct prediction to one quadrant of a macroblock.
pub fn apply_direct_quadrant(
    grids: &mut CabacGrids,
    mb_x: u32,
    mb_y: u32,
    k: u32,
    direct_8x8_inference: bool,
    params: DirectParams,
    colocated: Option<&ColocatedField>,
)
    requires
        old(grids).wf(),
        addressable(mb_x as int, mb_y as int),
        k < 4,
    ensures
        final(grids).wf(),
        final(grids).charged_bytes == old(grids).charged_bytes,
        final(grids)@.current == old(grids)@.current,
        final(grids)@ == with_direct_quadrant(
            old(grids)@,
            mb_x as int,
            mb_y as int,
            k as int,
            direct_8x8_inference,
            params,
            colocated,
        ),
{
    write_direct_block(grids, mb_x, mb_y, k, 0, direct_8x8_inference, params, colocated);
    write_direct_block(grids, mb_x, mb_y, k, 1, direct_8x8_inference, params, colocated);
    write_direct_block(grids, mb_x, mb_y, k, 2, direct_8x8_inference, params, colocated);
    write_direct_block(grids, mb_x, mb_y, k, 3, direct_8x8_inference, params, colocated);
}

/// Applies direct prediction to a whole macroblock.
pub fn apply_spatial_direct_16x16(
    grids: &mut CabacGrids,
    mb_x: u32,
    mb_y: u32,
    direct_8x8_inference: bool,
    params: DirectParams,
    colocated: Option<&ColocatedField>,
)
    requires
        old(grids).wf(),
        addressable(mb_x as int, mb_y as int),
    ensures
        final(grids).wf(),
        final(grids).charged_bytes == old(grids).charged_bytes,
        final(grids)@.current == old(grids)@.current,
        final(grids)@ == with_direct_mb(
            old(grids)@,
            mb_x as int,
            mb_y as int,
            direct_8x8_inference,
            params,
            colocated,
        ),
{
    apply_direct_quadrant(grids, mb_x, mb_y, 0, direct_8x8_inference, params, colocated);
    apply_direct_quadrant(grids, mb_x, mb_y, 1, direct_8x8_inference, params, colocated);
    apply_direct_quadrant(grids, mb_x, mb_y, 2, direct_8x8_inference, params, colocated);
    apply_direct_quadrant(grids, mb_x, mb_y, 3, direct_8x8_inference, params, colocated);
}

/// A direct block always predicts from at least one list, and never from one
/// that it stores a negative reference for.
pub proof fn law_direct_blocks_always_predict(p: DirectParams, moving: bool)
    requires
        p.l0_ref >= -1,
        p.l1_ref >= -1,
    ensures
        direct_info(p, moving).pred is Some,
        direct_info(p, moving).uses(0) == (direct_info(p, moving).ref_idx.l0 >= 0),
        direct_info(p, moving).uses(1) == (direct_info(p, moving).ref_idx.l1 >= 0),
{
}

/// The joint reference is -1 exactly when no neighbour uses the list, and
/// otherwise the smallest of those in use.
pub proof fn law_joint_reference_is_the_smallest_in_use(a: i8, b: i8, c: i8)
    requires
        a >= -1,
        b >= -1,
        c >= -1,
    ensures
        ({
            let m = min_positive(min_positive(a, b), c);
            &&& m == -1 <==> a == -1 && b == -1 && c == -1
            &&& m >= 0 ==> (a >= 0 ==> m <= a) && (b >= 0 ==> m <= b) && (c >= 0 ==> m <= c)
            &&& m == a || m == b || m == c
        }),
{
}

/// The motion that direct prediction gives the block at a position.
pub open spec fn direct_at(
    x: int,
    y: int,
    inference: bool,
    p: DirectParams,
    field: Option<&ColocatedField>,
) -> MvInfo {
    direct_info(
        p,
        if inference {
            colocated_moves(field, x - x % 2, y - y % 2)
        } else {
            colocated_moves(field, x, y)
        },
    )
}

/// Whether a block position lies in a macroblock.
pub open spec fn in_mb(x: int, y: int, mb_x: int, mb_y: int) -> bool {
    4 * mb_x <= x < 4 * mb_x + 4 && 4 * mb_y <= y < 4 * mb_y + 4
}

/// The quadrant of its macroblock that a block position lies in.
pub open spec fn quadrant_of(x: int, y: int) -> int {
    (x % 4) / 2 + 2 * ((y % 4) / 2)
}

/// Grids that differ in motion alone, if at all.
pub open spec fn same_but_motion(g: Grids, h: Grids) -> bool {
    h == (Grids { mv: h.mv, ..g })
}

proof fn lemma_block_written(
    g: Grids,
    mb_x: int,
    mb_y: int,
    k: int,
    i: int,
    inference: bool,
    p: DirectParams,
    field: Option<&ColocatedField>,
    rx: int,
    ry: int,
)
    requires
        g.whole(),
        mb_inside(mb_x, mb_y, g.wide, g.high),
        0 <= k < 4,
        0 <= i < 4,
    ensures
        ({
            let h = with_direct_block(g, mb_x, mb_y, k, i, inference, p, field);
            let (x, y) = (4 * mb_x + 2 * (k % 2) + i % 2, 4 * mb_y + 2 * (k / 2) + i / 2);
            &&& h.whole()
            &&& same_but_motion(g, h)
            &&& h.mv.len() == g.mv.len()
            &&& h.mv_at(rx, ry) == (if rx == x && ry == y {
                direct_at(x, y, inference, p, field)
            } else {
                g.mv_at(rx, ry)
            })
        }),
{
    reveal(Grids::sized);
    let (qx, qy) = (4 * mb_x + 2 * (k % 2), 4 * mb_y + 2 * (k / 2));
    let (x, y) = (qx + i % 2, qy + i / 2);
    assert(x - x % 2 == qx && y - y % 2 == qy);
    let v = direct_at(x, y, inference, p, field);
    law_motion_read_after_write(g, x, y, v, rx, ry);
}

proof fn lemma_quadrant_written(
    g: Grids,
    mb_x: int,
    mb_y: int,
    k: int,
    inference: bool,
    p: DirectParams,
    field: Option<&ColocatedField>,
    rx: int,
    ry: int,
)
    requires
        g.whole(),
        mb_inside(mb_x, mb_y, g.wide, g.high),
        0 <= k < 4,
    ensures
        ({
            let h = with_direct_quadrant(g, mb_x, mb_y, k, inference, p, field);
            &&& h.whole()
            &&& same_but_motion(g, h)
            &&& h.mv.len() == g.mv.len()
            &&& h.mv_at(rx, ry) == (if in_mb(rx, ry, mb_x, mb_y) && quadrant_of(rx, ry) == k {
                direct_at(rx, ry, inference, p, field)
            } else {
                g.mv_at(rx, ry)
            })
        }),
{
    let g1 = with_direct_block(g, mb_x, mb_y, k, 0, inference, p, field);
    let g2 = with_direct_block(g1, mb_x, mb_y, k, 1, inference, p, field);
    let g3 = with_direct_block(g2, mb_x, mb_y, k, 2, inference, p, field);
    lemma_block_written(g, mb_x, mb_y, k, 0, inference, p, field, rx, ry);
    lemma_block_written(g1, mb_x, mb_y, k, 1, inference, p, field, rx, ry);
    lemma_block_written(g2, mb_x, mb_y, k, 2, inference, p, field, rx, ry);
    lemma_block_written(g3, mb_x, mb_y, k, 3, inference, p, field, rx, ry);
}

/// The grids with direct quadrants of a macroblock written in some order.
pub open spec fn with_direct_quadrants(
    g: Grids,
    mb_x: int,
    mb_y: int,
    order: Seq<int>,
    inference: bool,
    p: DirectParams,
    field: Option<&ColocatedField>,
) -> Grids
    decreases order.len(),
{
    if order.len() == 0 {
        g
    } else {
        with_direct_quadrant(
            with_direct_quadrants(g, mb_x, mb_y, order.drop_last(), inference, p, field),
            mb_x,
            mb_y,
            order.last(),
            inference,
            p,
            field,
        )
    }
}

proof fn lemma_quadrants_written(
    g: Grids,
    mb_x: int,
    mb_y: int,
    order: Seq<int>,
    inference: bool,
    p: DirectParams,
    field: Option<&ColocatedField>,
    rx: int,
    ry: int,
)
    requires
        g.whole(),
        mb_inside(mb_x, mb_y, g.wide, g.high),
        forall|j: int| 0 <= j < order.len() ==> 0 <= #[trigger] order[j] < 4,
    ensures
        ({
            let h = with_direct_quadrants(g, mb_x, mb_y, order, inference, p, field);
            &&& h.whole()
            &&& same_but_motion(g, h)
            &&& h.mv.len() == g.mv.len()
            &&& h.mv_at(rx, ry) == (if in_mb(rx, ry, mb_x, mb_y) && order.contains(
                quadrant_of(rx, ry),
            ) {
                direct_at(rx, ry, inference, p, field)
            } else {
                g.mv_at(rx, ry)
            })
        }),
    decreases order.len(),
{
    if order.len() > 0 {
        let first = order.drop_last();
        lemma_quadrants_written(g, mb_x, mb_y, first, inference, p, field, rx, ry);
        let h = with_direct_quadrants(g, mb_x, mb_y, first, inference, p, field);
        lemma_quadrant_written(h, mb_x, mb_y, order.last(), inference, p, field, rx, ry);
        let q = quadrant_of(rx, ry);
        if first.contains(q) {
            let j = choose|j: int| 0 <= j < first.len() && first[j] == q;
            assert(order[j] == q);
        }
        if order.contains(q) && order.last() != q {
            let j = choose|j: int| 0 <= j < order.len() && order[j] == q;
            assert(first[j] == q);
        }
        if order.last() == q {
            assert(order[order.len() - 1] == q);
        }
    }
}

/// An order in which every quadrant of a macroblock comes.
pub open spec fn every_quadrant(order: Seq<int>) -> bool {
    &&& forall|j: int| 0 <= j < order.len() ==> 0 <= #[trigger] order[j] < 4
    &&& forall|k: int| 0 <= k < 4 ==> #[trigger] order.contains(k)
}

/// A wholly direct macroblock gives each of its sixteen blocks the motion that
/// direct prediction has for its position, all available and none of it read,
/// and leaves every other block alone. Without a reference in either list they
/// all predict from both lists' first pictures without motion.
pub proof fn law_direct_macroblock_writes_its_blocks(
    g: Grids,
    mb_x: int,
    mb_y: int,
    inference: bool,
    p: DirectParams,
    field: Option<&ColocatedField>,
    x: int,
    y: int,
)
    requires
        g.whole(),
        mb_inside(mb_x, mb_y, g.wide, g.high),
        p.l0_ref >= -1,
        p.l1_ref >= -1,
    ensures
        ({
            let h = with_direct_mb(g, mb_x, mb_y, inference, p, field);
            let m = h.mv_at(x, y);
            &&& same_but_motion(g, h)
            &&& !in_mb(x, y, mb_x, mb_y) ==> m == g.mv_at(x, y)
            &&& in_mb(x, y, mb_x, mb_y) ==> {
                &&& m == direct_at(x, y, inference, p, field)
                &&& m.mb_available && m.direct_or_skip && m.pred is Some
                &&& m.mvd == (Lists { l0: (0i16, 0i16), l1: (0i16, 0i16) })
                &&& p.l0_ref == -1 && p.l1_ref == -1 ==> {
                    &&& m.pred == Some(PartPred::Bi)
                    &&& m.ref_idx == (Lists { l0: 0i8, l1: 0i8 })
                    &&& m.mv == (Lists { l0: (0i16, 0i16), l1: (0i16, 0i16) })
                }
            }
        }),
{
    let order = seq![0int, 1, 2, 3];
    lemma_in_order(g, mb_x, mb_y, inference, p, field);
    lemma_quadrants_written(g, mb_x, mb_y, order, inference, p, field, x, y);
    assert(order[0] == 0 && order[1] == 1 && order[2] == 2 && order[3] == 3);
    assert(order.contains(quadrant_of(x, y)));
}

proof fn lemma_in_order(
    g: Grids,
    mb_x: int,
    mb_y: int,
    inference: bool,
    p: DirectParams,
    field: Option<&ColocatedField>,
)
    ensures
        with_direct_mb(g, mb_x, mb_y, inference, p, field) == with_direct_quadrants(
            g,
            mb_x,
            mb_y,
            seq![0int, 1, 2, 3],
            inference,
            p,
            field,
        ),
        every_quadrant(seq![0int, 1, 2, 3]),
{
    let order = seq![0int, 1, 2, 3];
    assert(order.drop_last() =~= seq![0int, 1, 2]);
    assert(seq![0int, 1, 2].drop_last() =~= seq![0int, 1]);
    assert(seq![0int, 1].drop_last() =~= seq![0int]);
    assert(seq![0int].drop_last() =~= Seq::<int>::empty());
    reveal_with_fuel(with_direct_quadrants, 5);
    assert(order[0] == 0 && order[1] == 1 && order[2] == 2 && order[3] == 3);
    assert forall|k: int| 0 <= k < 4 implies #[trigger] order.contains(k) by {
        assert(order[k] == k);
    }
}

/// A wholly direct macroblock does not depend on the order in which its
/// quadrants are written.
pub proof fn law_direct_quadrants_come_in_any_order(
    g: Grids,
    mb_x: int,
    mb_y: int,
    order: Seq<int>,
    inference: bool,
    p: DirectParams,
    field: Option<&ColocatedField>,
)
    requires
        g.whole(),
        mb_inside(mb_x, mb_y, g.wide, g.high),
        every_quadrant(order),
    ensures
        with_direct_quadrants(g, mb_x, mb_y, order, inference, p, field) == with_direct_mb(
            g,
            mb_x,
            mb_y,
            inference,
            p,
            field,
        ),
{
    let usual = seq![0int, 1, 2, 3];
    lemma_in_order(g, mb_x, mb_y, inference, p, field);
    let a = with_direct_quadrants(g, mb_x, mb_y, order, inference, p, field);
    let b = with_direct_quadrants(g, mb_x, mb_y, usual, inference, p, field);
    lemma_quadrants_written(g, mb_x, mb_y, order, inference, p, field, 0, 0);
    lemma_quadrants_written(g, mb_x, mb_y, usual, inference, p, field, 0, 0);
    let (w, h) = (4 * g.wide, 4 * g.high);
    reveal(Grids::sized);
    assert(w * h == 16 * (g.wide * g.high)) by (nonlinear_arith)
        requires
            w == 4 * g.wide,
            h == 4 * g.high,
    ;
    assert forall|i: int| 0 <= i < a.mv.len() implies a.mv[i] == b.mv[i] by {
        let (x, y) = (i % w, i / w);
        vstd::arithmetic::div_mod::lemma_fundamental_div_mod(i, w);
        vstd::arithmetic::div_mod::lemma_mod_bound(i, w);
        assert(w * (i / w) == (i / w) * w) by (nonlinear_arith);
        assert(0 <= i / w < h) by (nonlinear_arith)
            requires
                0 <= i < w * h,
                0 < w,
        ;
        lemma_quadrants_written(g, mb_x, mb_y, order, inference, p, field, x, y);
        lemma_quadrants_written(g, mb_x, mb_y, usual, inference, p, field, x, y);
        assert(order.contains(quadrant_of(x, y)) && usual.contains(quadrant_of(x, y)));
        assert(a.mv_at(x, y) == a.mv[i] && b.mv_at(x, y) == b.mv[i]);
    }
    assert(a.mv =~= b.mv);
}

} // verus!
