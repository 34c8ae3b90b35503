//! Deblocking of a picture: how strongly each edge is filtered, and in which
//! order.
use vstd::prelude::*;
use crate::arith::clip3;
use crate::cabac_residual::Block;
use crate::dequant::{chroma_qp, chroma_qp_spec};
use crate::edge_filter::{
    chroma_line, filter_chroma_line, filter_luma_line, luma_line, thresholds, EdgeThresholds, Line,
};
use crate::error::Error;
use crate::grids::{blk_pos, no_motion, Mv, MvInfo};
use crate::mb_residual::absent_or_significant;
use crate::slice::{summaries, MbSummary, Summary};

verus! {

// ------------------------------------------------------------------- strength
impl Summary {
    /// Whether the macroblock is intra coded, raw samples included.
    pub open spec fn intra(self) -> bool {
        self.is_intra4x4 || self.is_intra8x8 || self.is_intra16x16 || self.is_ipcm
    }

    /// The motion of a block, in raster order.
    pub open spec fn motion(self, raster: int) -> MvInfo {
        if 0 <= raster < self.mv_blocks.len() {
            self.mv_blocks[raster]
        } else {
            no_motion()
        }
    }
}

pub fn is_intra(mb: &MbSummary) -> (r: bool)
    ensures
        r == mb@.intra(),
{
    mb.is_intra4x4 || mb.is_intra8x8 || mb.is_intra16x16 || mb.is_ipcm
}

/// The coding order of the block at a raster position.
pub open spec fn coding_order(raster: int) -> int {
    let (bx, by) = (raster % 4, raster / 4);
    4 * (2 * (by / 2) + bx / 2) + 2 * (by % 2) + bx % 2
}

pub fn raster_to_luma4x4_blk_idx(raster: usize) -> (r: usize)
    ensures
        r == coding_order(raster as int),
        raster < 16 ==> r < 16,
{
    assert(usize::MAX % 8 == 7) by {
        assert(usize::MAX == 0xffff_ffff || usize::MAX == 0xffff_ffff_ffff_ffff);
    }
    let (bx, by) = (raster % 4, raster / 4);
    let quadrant: usize = (by / 2) * 2 + bx / 2;
    let within: usize = (by % 2) * 2 + bx % 2;
    quadrant * 4 + within
}

/// Coding order and raster order name the same block.
pub proof fn law_coding_order_inverts_block_positions(raster: int)
    requires
        0 <= raster < 16,
    ensures
        0 <= coding_order(raster) < 16,
        blk_pos(coding_order(raster)) == (raster % 4, raster / 4),
{
}

/// Whether the transform block around a raster position has coefficients.
pub open spec fn coefficients_at(mb: Summary, raster: int) -> bool {
    if mb.transform_8x8 {
        let quadrant = 2 * (raster / 4 / 2) + (raster % 4) / 2;
        0 <= quadrant < mb.residual.luma8x8.len() && (mb.residual.luma8x8[quadrant] matches Some(b)
            && b.levels.len() > 0)
    } else {
        let k = coding_order(raster);
        0 <= k < mb.residual.luma_ac.len() && (mb.residual.luma_ac[k] matches Some(b)
            && b.levels.len() > 0)
    }
}

fn block_has_levels(v: &Vec<Option<crate::cabac_residual::CabacResidual>>, i: usize) -> (r: bool)
    ensures
        r == (i < v@.len() && (crate::mb_residual::contents(v@)[i as int] matches Some(b)
            && b.levels.len() > 0)),
{
    if i < v.len() {
        match &v[i] {
            Some(b) => b.levels.len() > 0,
            None => false,
        }
    } else {
        false
    }
}

pub fn has_luma_coeffs(mb: &MbSummary, raster: usize) -> (r: bool)
    ensures
        r == coefficients_at(mb@, raster as int),
{
    if mb.transform_8x8 {
        let quadrant: usize = (raster / 4 / 2) * 2 + (raster % 4) / 2;
        block_has_levels(&mb.residual.luma8x8, quadrant)
    } else {
        block_has_levels(&mb.residual.luma_ac, raster_to_luma4x4_blk_idx(raster))
    }
}

/// Whether a macroblock's luma edge at a sample offset is filtered: with the
/// larger transform, those inside its blocks are not.
pub open spec fn luma_edge_filtered(mb: Summary, local: int) -> bool {
    !(mb.transform_8x8 && (local == 4 || local == 12))
}

pub fn filters_luma_edge(mb: &MbSummary, local: u32) -> (r: bool)
    ensures
        r == luma_edge_filtered(mb@, local as int),
{
    !(mb.transform_8x8 && (local == 4 || local == 12))
}

/// Whether two vectors differ by at least a full sample in a component.
pub open spec fn vectors_differ(a: Mv, b: Mv) -> bool {
    a.0 - b.0 >= 4 || b.0 - a.0 >= 4 || a.1 - b.1 >= 4 || b.1 - a.1 >= 4
}

pub fn mv_differs(a: Mv, b: Mv) -> (r: bool)
    ensures
        r == vectors_differ(a, b),
{
    let dx: i32 = a.0 as i32 - b.0 as i32;
    let dy: i32 = a.1 as i32 - b.1 as i32;
    dx >= 4 || dx <= -4 || dy >= 4 || dy <= -4
}

/// The picture that a reference index names, none where the list is not used
/// or has no such entry.
pub open spec fn picture_of(list_poc: Seq<i32>, ref_idx: i8) -> Option<i32> {
    if 0 <= ref_idx < list_poc.len() {
        Some(list_poc[ref_idx as int])
    } else {
        None
    }
}

pub fn ref_poc(list_poc: &[i32], ref_idx: i8) -> (r: Option<i32>)
    ensures
        r == picture_of(list_poc@, ref_idx),
{
    if ref_idx < 0 {
        return None;
    }
    let i: usize = ref_idx as usize;
    if i < list_poc.len() {
        Some(list_poc[i])
    } else {
        None
    }
}

/// Whether the vectors of two blocks differ, list by list.
pub open spec fn direct_pair_differs(p: MvInfo, q: MvInfo) -> bool {
    vectors_differ(p.mv.l0, q.mv.l0) || vectors_differ(p.mv.l1, q.mv.l1)
}

/// Whether the vectors of two blocks differ, with the lists exchanged.
pub open spec fn crossed_pair_differs(p: MvInfo, q: MvInfo) -> bool {
    vectors_differ(p.mv.l0, q.mv.l1) || vectors_differ(p.mv.l1, q.mv.l0)
}

/// Whether two inter blocks move differently: they use different pictures, or
/// the vectors that go with the same pictures differ. Where both lists name
/// one picture either assignment of vectors will do.
pub open spec fn motion_differs(p: MvInfo, q: MvInfo, l0: Seq<i32>, l1: Seq<i32>) -> bool {
    let (p0, p1) = (picture_of(l0, p.reference(0)), picture_of(l1, p.reference(1)));
    let (q0, q1) = (picture_of(l0, q.reference(0)), picture_of(l1, q.reference(1)));
    if !((p0 == q0 && p1 == q1) || (p0 == q1 && p1 == q0)) {
        true
    } else if p0 == p1 {
        direct_pair_differs(p, q) && crossed_pair_differs(p, q)
    } else if p0 == q0 {
        direct_pair_differs(p, q)
    } else {
        crossed_pair_differs(p, q)
    }
}

/// How strongly the edge between two blocks is filtered: 4 or 3 next to an
/// intra macroblock, 2 next to coefficients, 1 where motion differs, 0
/// elsewhere.
pub open spec fn strength(
    mb_edge: bool,
    p: Summary,
    p_blk: int,
    q: Summary,
    q_blk: int,
    l0: Seq<i32>,
    l1: Seq<i32>,
) -> u8 {
    if p.intra() || q.intra() {
        if mb_edge {
            4
        } else {
            3
        }
    } else if coefficients_at(p, p_blk) || coefficients_at(q, q_blk) {
        2
    } else if motion_differs(p.motion(p_blk), q.motion(q_blk), l0, l1) {
        1
    } else {
        0
    }
}

fn motion_at(mb: &MbSummary, raster: usize) -> (r: MvInfo)
    ensures
        r == mb@.motion(raster as int),
{
    if raster < 16 {
        mb.mv_blocks[raster]
    } else {
        MvInfo::default()
    }
}

fn same_picture(a: Option<i32>, b: Option<i32>) -> (r: bool)
    ensures
        r == (a == b),
{
    match (a, b) {
        (Some(x), Some(y)) => x == y,
        (None, None) => true,
        _ => false,
    }
}

pub fn boundary_strength(
    mb_edge: bool,
    p_mb: &MbSummary,
    p_blk: usize,
    q_mb: &MbSummary,
    q_blk: usize,
    ref_list0_poc: &[i32],
    ref_list1_poc: &[i32],
) -> (r: u8)
    ensures
        r == strength(
            mb_edge,
            p_mb@,
            p_blk as int,
            q_mb@,
            q_blk as int,
            ref_list0_poc@,
            ref_list1_poc@,
        ),
        r <= 4,
{
    if is_intra(p_mb) || is_intra(q_mb) {
        return if mb_edge {
            4
        } else {
            3
        };
    }
    if has_luma_coeffs(p_mb, p_blk) || has_luma_coeffs(q_mb, q_blk) {
        return 2;
    }
    let p: MvInfo = motion_at(p_mb, p_blk);
    let q: MvInfo = motion_at(q_mb, q_blk);
    let p0: Option<i32> = ref_poc(ref_list0_poc, p.ref_idx_l0());
    let p1: Option<i32> = ref_poc(ref_list1_poc, p.ref_idx_l1());
    let q0: Option<i32> = ref_poc(ref_list0_poc, q.ref_idx_l0());
    let q1: Option<i32> = ref_poc(ref_list1_poc, q.ref_idx_l1());
    let same_direct: bool = same_picture(p0, q0) && same_picture(p1, q1);
    let same_swapped: bool = same_picture(p0, q1) && same_picture(p1, q0);
    if !(same_direct || same_swapped) {
        return 1;
    }
    let direct: bool = mv_differs(p.mv_l0(), q.mv_l0()) || mv_differs(p.mv_l1(), q.mv_l1());
    let crossed: bool = mv_differs(p.mv_l0(), q.mv_l1()) || mv_differs(p.mv_l1(), q.mv_l0());
    let differs: bool = if same_picture(p0, p1) {
        direct && crossed
    } else if same_picture(p0, q0) {
        direct
    } else {
        crossed
    };
    if differs {
        1
    } else {
        0
    }
}

/// The strength of an edge does not depend on which side is looked at first.
pub proof fn law_strength_is_symmetric(
    mb_edge: bool,
    p: Summary,
    p_blk: int,
    q: Summary,
    q_blk: int,
    l0: Seq<i32>,
    l1: Seq<i32>,
)
    ensures
        strength(mb_edge, p, p_blk, q, q_blk, l0, l1) == strength(
            mb_edge,
            q,
            q_blk,
            p,
            p_blk,
            l0,
            l1,
        ),
        strength(mb_edge, p, p_blk, q, q_blk, l0, l1) <= 4,
{
}

/// Whether a block holds a coefficient that is not zero.
pub open spec fn has_nonzero(b: Block) -> bool {
    exists|k: int| 0 <= k < b.levels.len() && #[trigger] b.levels[k] != 0
}

/// Whether the transform block around a raster position holds a coefficient
/// that is not zero.
pub open spec fn nonzero_at(mb: Summary, raster: int) -> bool {
    if mb.transform_8x8 {
        mb.residual.luma8x8[2 * (raster / 4 / 2) + (raster % 4) / 2] matches Some(b) && has_nonzero(
            b,
        )
    } else {
        mb.residual.luma_ac[coding_order(raster)] matches Some(b) && has_nonzero(b)
    }
}

/// Between two decoded macroblocks, which store no coefficient that is zero,
/// the strength is 4 at the edge of an intra macroblock and 3 inside one; it
/// is 2 exactly where neither is intra and the transform block on one side
/// holds a coefficient that is not zero; everywhere else it is at most 1.
pub proof fn law_strength_by_cases(
    mb_edge: bool,
    p: Summary,
    p_blk: int,
    q: Summary,
    q_blk: int,
    l0: Seq<i32>,
    l1: Seq<i32>,
)
    requires
        p.residual.has_blocks() && p.residual.significant(),
        q.residual.has_blocks() && q.residual.significant(),
        0 <= p_blk < 16,
        0 <= q_blk < 16,
    ensures
        ({
            let r = strength(mb_edge, p, p_blk, q, q_blk, l0, l1);
            let intra = p.intra() || q.intra();
            &&& r == 4 <==> intra && mb_edge
            &&& r == 3 <==> intra && !mb_edge
            &&& r == 2 <==> !intra && (nonzero_at(p, p_blk) || nonzero_at(q, q_blk))
            &&& r <= 4
        }),
{
    lemma_stored_is_nonzero(p, p_blk);
    lemma_stored_is_nonzero(q, q_blk);
}

proof fn lemma_stored_is_nonzero(mb: Summary, raster: int)
    requires
        mb.residual.has_blocks() && mb.residual.significant(),
        0 <= raster < 16,
    ensures
        coefficients_at(mb, raster) == nonzero_at(mb, raster),
{
    let quadrant = 2 * (raster / 4 / 2) + (raster % 4) / 2;
    let k = coding_order(raster);
    assert(0 <= quadrant < 4);
    law_coding_order_inverts_block_positions(raster);
    assert(absent_or_significant(mb.residual.luma8x8[quadrant]));
    assert(absent_or_significant(mb.residual.luma_ac[k]));
    let block = if mb.transform_8x8 {
        mb.residual.luma8x8[quadrant]
    } else {
        mb.residual.luma_ac[k]
    };
    if let Some(b) = block {
        assert(b.levels[0] != 0);
        assert(has_nonzero(b));
    }
}

// ----------------------------------------------------------------------- grid
/// The address of a macroblock.
pub open spec fn address(mb: Summary, wide: int) -> int {
    mb.mb_y * wide + mb.mb_x
}

/// The first `k` macroblocks at their addresses among `n`; of two at one
/// address the later stays.
pub open spec fn by_address(mbs: Seq<Summary>, wide: int, n: nat, k: int) -> Seq<Option<Summary>>
    decreases k,
{
    if k <= 0 {
        Seq::new(n, |i: int| None)
    } else {
        let before = by_address(mbs, wide, n, k - 1);
        let a = address(mbs[k - 1], wide);
        if a < n {
            before.update(a, Some(mbs[k - 1]))
        } else {
            before
        }
    }
}

/// A picture whose macroblocks can be counted in 32 bits.
pub open spec fn grid_fits(wide: int, high: int) -> bool {
    0 <= wide && 0 <= high && wide * high <= u32::MAX
}

/// A picture whose luma samples can be counted in 32 bits.
pub open spec fn picture_fits(wide: int, high: int) -> bool {
    0 <= wide && 0 <= high && (16 * wide) * (16 * high) <= u32::MAX
}

/// A picture of which the samples of a chroma plane can be counted in 32 bits.
pub open spec fn chroma_fits(wide: int, high: int) -> bool {
    0 <= wide && 0 <= high && (8 * wide) * (8 * high) <= u32::MAX
}

/// The macroblocks of a picture by position.
pub struct MbGrid<'a> {
    pub mbs_wide: u32,
    pub mbs_high: u32,
    pub macroblocks: &'a [MbSummary],
    pub by_addr: Vec<Option<usize>>,
}

impl<'a> MbGrid<'a> {
    pub open spec fn wf(&self) -> bool {
        &&& grid_fits(self.mbs_wide as int, self.mbs_high as int)
        &&& self.by_addr@.len() == self.mbs_wide * self.mbs_high
        &&& forall|i: int|
            0 <= i < self.by_addr@.len() ==> (#[trigger] self.by_addr@[i] matches Some(k) ==> k
                < self.macroblocks@.len())
    }

    /// The macroblock of each cell.
    pub open spec fn cells(&self) -> Seq<Option<Summary>> {
        Seq::new(
            self.by_addr@.len(),
            |i: int|
                match self.by_addr@[i] {
                    Some(k) => Some(self.macroblocks@[k as int]@),
                    None => None,
                },
        )
    }

    pub fn new(macroblocks: &'a [MbSummary], mbs_wide: u32, mbs_high: u32) -> (g: Self)
        requires
            grid_fits(mbs_wide as int, mbs_high as int),
        ensures
            g.wf(),
            g.mbs_wide == mbs_wide,
            g.mbs_high == mbs_high,
            g.cells() == by_address(
                summaries(macroblocks@),
                mbs_wide as int,
                (mbs_wide * mbs_high) as nat,
                macroblocks@.len() as int,
            ),
    {
        proof {
            assert(0 <= mbs_wide * mbs_high) by (nonlinear_arith)
                requires
                    0 <= mbs_wide,
                    0 <= mbs_high,
            ;
        }
        let n: usize = (mbs_wide * mbs_high) as usize;
        let mut by_addr: Vec<Option<usize>> = Vec::new();
        for i in 0..n
            invariant
                by_addr@.len() == i,
                forall|j: int| 0 <= j < i ==> (#[trigger] by_addr@[j]) is None,
        {
            by_addr.push(None);
        }
        let mut g = MbGrid { mbs_wide, mbs_high, macroblocks, by_addr };
        let ghost mbs = summaries(macroblocks@);
        assert(g.cells() =~= by_address(mbs, mbs_wide as int, n as nat, 0));
        for i in 0..macroblocks.len()
            invariant
                g.wf(),
                g.mbs_wide == mbs_wide,
                g.mbs_high == mbs_high,
                g.macroblocks == macroblocks,
                mbs == summaries(macroblocks@),
                n == mbs_wide * mbs_high,
                g.by_addr@.len() == n,
                g.cells() == by_address(mbs, mbs_wide as int, n as nat, i as int),
        {
            let ghost before = g;
            let (x, y) = (macroblocks[i].mb_x, macroblocks[i].mb_y);
            proof {
                assert(0 <= y * mbs_wide <= 0xffff_ffff * 0xffff_ffff) by (nonlinear_arith)
                    requires
                        0 <= y <= 0xffff_ffff,
                        0 <= mbs_wide <= 0xffff_ffff,
                ;
                assert(mbs[i as int] == macroblocks@[i as int]@);
            }
            let a: u64 = y as u64 * mbs_wide as u64 + x as u64;
            if a < n as u64 {
                g.by_addr.set(a as usize, Some(i));
                assert(g.cells() =~= before.cells().update(
                    a as int,
                    Some(macroblocks@[i as int]@),
                ));
            }
        }
        g
    }

    pub fn at(&self, mx: u32, my: u32) -> (r: Option<&'a MbSummary>)
        requires
            self.wf(),
        ensures
            match r {
                Some(mb) => cell_of(
                    self.cells(),
                    self.mbs_wide as int,
                    self.mbs_high as int,
                    mx as int,
                    my as int,
                ) == Some(mb@),
                None => cell_of(
                    self.cells(),
                    self.mbs_wide as int,
                    self.mbs_high as int,
                    mx as int,
                    my as int,
                ) is None,
            },
    {
        if mx >= self.mbs_wide || my >= self.mbs_high {
            return None;
        }
        proof {
            lemma_inside(self.mbs_wide as int, self.mbs_high as int, mx as int, my as int);
        }
        match self.by_addr[(my * self.mbs_wide + mx) as usize] {
            Some(k) => Some(&self.macroblocks[k]),
            None => None,
        }
    }

    pub fn qpy(&self, mx: u32, my: u32) -> (r: u8)
        requires
            self.wf(),
        ensures
            r == cell_qpy(
                cell_of(
                    self.cells(),
                    self.mbs_wide as int,
                    self.mbs_high as int,
                    mx as int,
                    my as int,
                ),
            ),
            r <= 51,
    {
        let v: i32 = match self.at(mx, my) {
            Some(mb) => mb.qpy,
            None => 0,
        };
        if v < 0 {
            0
        } else if v > 51 {
            51
        } else {
            v as u8
        }
    }
}

/// The macroblock at a position, none outside the picture.
pub open spec fn cell_of(cells: Seq<Option<Summary>>, wide: int, high: int, mx: int, my: int) -> Option<
    Summary,
> {
    if 0 <= mx < wide && 0 <= my < high {
        cells[my * wide + mx]
    } else {
        None
    }
}

/// Whether a macroblock stands at a position.
pub open spec fn stands_at(mb: Summary, mx: int, my: int) -> bool {
    mb.mb_x == mx && mb.mb_y == my
}

/// Whether macroblock `j` is the last of a list at a position.
pub open spec fn last_at(mbs: Seq<Summary>, mx: int, my: int, j: int) -> bool {
    &&& 0 <= j < mbs.len()
    &&& stands_at(mbs[j], mx, my)
    &&& forall|i: int| j < i < mbs.len() ==> !stands_at(#[trigger] mbs[i], mx, my)
}

proof fn lemma_by_address(mbs: Seq<Summary>, wide: int, high: int, mx: int, my: int, k: int)
    requires
        grid_fits(wide, high),
        forall|i: int|
            0 <= i < mbs.len() ==> (#[trigger] mbs[i]).mb_x < wide && mbs[i].mb_y < high,
        0 <= mx < wide,
        0 <= my < high,
        0 <= k <= mbs.len(),
    ensures
        by_address(mbs, wide, (wide * high) as nat, k).len() == wide * high,
        match by_address(mbs, wide, (wide * high) as nat, k)[my * wide + mx] {
            Some(m) => exists|j: int| #[trigger] last_at(mbs.take(k), mx, my, j) && m == mbs[j],
            None => forall|i: int| 0 <= i < k ==> !stands_at(#[trigger] mbs[i], mx, my),
        },
    decreases k,
{
    let n = (wide * high) as nat;
    lemma_inside(wide, high, mx, my);
    if k > 0 {
        lemma_by_address(mbs, wide, high, mx, my, k - 1);
        let m = mbs[k - 1];
        lemma_inside(wide, high, m.mb_x as int, m.mb_y as int);
        let before = by_address(mbs, wide, n, k - 1);
        if address(m, wide) == my * wide + mx {
            vstd::arithmetic::div_mod::lemma_fundamental_div_mod_converse(
                address(m, wide),
                wide,
                m.mb_y as int,
                m.mb_x as int,
            );
            vstd::arithmetic::div_mod::lemma_fundamental_div_mod_converse(
                my * wide + mx,
                wide,
                my,
                mx,
            );
            assert(last_at(mbs.take(k), mx, my, k - 1));
        } else {
            assert(!stands_at(m, mx, my));
            if let Some(x) = before[my * wide + mx] {
                let j = choose|j: int| #[trigger] last_at(mbs.take(k - 1), mx, my, j) && x == mbs[j];
                assert forall|i: int| j < i < k implies !stands_at(
                    #[trigger] mbs.take(k)[i],
                    mx,
                    my,
                ) by {
                    if i < k - 1 {
                        assert(mbs.take(k - 1)[i] == mbs[i]);
                    }
                }
                assert(mbs.take(k - 1)[j] == mbs[j]);
                assert(last_at(mbs.take(k), mx, my, j));
            }
        }
    }
}

/// Looking a position up gives the last macroblock of the list that stands
/// there, nothing where none does, and nothing outside the picture.
pub proof fn law_lookup_gives_the_last(
    mbs: Seq<Summary>,
    wide: int,
    high: int,
    mx: int,
    my: int,
    j: int,
)
    requires
        grid_fits(wide, high),
        forall|i: int|
            0 <= i < mbs.len() ==> (#[trigger] mbs[i]).mb_x < wide && mbs[i].mb_y < high,
        0 <= mx,
        0 <= my,
    ensures
        ({
            let cells = by_address(mbs, wide, (wide * high) as nat, mbs.len() as int);
            let found = cell_of(cells, wide, high, mx, my);
            &&& mx >= wide || my >= high ==> found is None
            &&& last_at(mbs, mx, my, j) ==> found == Some(mbs[j])
            &&& found is None <==> forall|i: int|
                0 <= i < mbs.len() ==> !stands_at(#[trigger] mbs[i], mx, my)
        }),
{
    let cells = by_address(mbs, wide, (wide * high) as nat, mbs.len() as int);
    if mx < wide && my < high {
        lemma_by_address(mbs, wide, high, mx, my, mbs.len() as int);
        assert(mbs.take(mbs.len() as int) =~= mbs);
        if let Some(m) = cells[my * wide + mx] {
            let k = choose|k: int| #[trigger] last_at(mbs, mx, my, k) && m == mbs[k];
            assert(stands_at(mbs[k], mx, my));
        }
    }
}

/// The luma quantiser of a cell, kept in range.
pub open spec fn cell_qpy(cell: Option<Summary>) -> int {
    match cell {
        Some(mb) => clip3(0, 51, mb.qpy as int),
        None => 0,
    }
}

proof fn lemma_cells_fit(wide: int, high: int)
    requires
        picture_fits(wide, high) || chroma_fits(wide, high),
    ensures
        grid_fits(wide, high),
        0 <= wide * high,
        8 * wide <= u32::MAX || high == 0,
        8 * high <= u32::MAX || wide == 0,
        picture_fits(wide, high) ==> chroma_fits(wide, high) && (16 * wide <= u32::MAX || high == 0)
            && (16 * high <= u32::MAX || wide == 0),
{
    assert((16 * wide) * (16 * high) == 256 * (wide * high)) by (nonlinear_arith);
    assert((8 * wide) * (8 * high) == 64 * (wide * high)) by (nonlinear_arith);
    assert(0 <= wide * high) by (nonlinear_arith)
        requires
            0 <= wide,
            0 <= high,
    ;
    assert(high >= 1 ==> wide <= wide * high) by (nonlinear_arith)
        requires
            0 <= wide,
            0 <= high,
    ;
    assert(wide >= 1 ==> high <= wide * high) by (nonlinear_arith)
        requires
            0 <= wide,
            0 <= high,
    ;
}

proof fn lemma_inside(w: int, h: int, x: int, y: int)
    requires
        0 <= x < w,
        0 <= y < h,
    ensures
        0 <= y * w,
        0 <= y * w + x < w * h,
{
    assert(0 <= y * w && (y + 1) * w <= w * h && (y + 1) * w == y * w + w) by (nonlinear_arith)
        requires
            0 <= x < w,
            0 <= y < h,
    ;
}

// ---------------------------------------------------------------------- edges
/// A sample of a plane, 0 outside.
pub open spec fn sample(plane: Seq<u8>, w: int, x: int, y: int) -> u8 {
    if 0 <= y * w + x < plane.len() {
        plane[y * w + x]
    } else {
        0
    }
}

/// The plane with a sample replaced; outside there is none.
pub open spec fn with_sample(plane: Seq<u8>, w: int, x: int, y: int, v: u8) -> Seq<u8> {
    if 0 <= y * w + x < plane.len() {
        plane.update(y * w + x, v)
    } else {
        plane
    }
}

fn get_sample(plane: &[u8], w: u32, x: u32, y: u32) -> (v: u8)
    requires
        y * w + x <= u32::MAX,
    ensures
        v == sample(plane@, w as int, x as int, y as int),
{
    proof {
        lemma_product_nonnegative(y as int, w as int);
    }
    let i: usize = (y * w + x) as usize;
    if i < plane.len() {
        plane[i]
    } else {
        0
    }
}

fn set_sample(plane: &mut [u8], w: u32, x: u32, y: u32, v: u8)
    requires
        y * w + x <= u32::MAX,
    ensures
        final(plane)@ == with_sample(old(plane)@, w as int, x as int, y as int, v),
{
    proof {
        lemma_product_nonnegative(y as int, w as int);
    }
    let i: usize = (y * w + x) as usize;
    if i < plane.len() {
        plane[i] = v;
    }
}

proof fn lemma_product_nonnegative(a: int, b: int)
    requires
        0 <= a,
        0 <= b,
    ensures
        0 <= a * b,
{
    assert(0 <= a * b) by (nonlinear_arith)
        requires
            0 <= a,
            0 <= b,
    ;
}

/// The column of sample `i` (negative before the edge) of line `k` across an
/// edge that begins at `(x, y)`.
pub open spec fn line_x(vertical: bool, x: int, k: int, i: int) -> int {
    if vertical {
        x + i
    } else {
        x + k
    }
}

/// The row of that sample.
pub open spec fn line_y(vertical: bool, y: int, k: int, i: int) -> int {
    if vertical {
        y + k
    } else {
        y + i
    }
}

/// Sample `i` of line `k`.
pub open spec fn across(plane: Seq<u8>, w: int, vertical: bool, x: int, y: int, k: int, i: int) -> u8 {
    sample(plane, w, line_x(vertical, x, k, i), line_y(vertical, y, k, i))
}

/// The plane with sample `i` of line `k` replaced.
pub open spec fn with_across(
    plane: Seq<u8>,
    w: int,
    vertical: bool,
    x: int,
    y: int,
    k: int,
    i: int,
    v: u8,
) -> Seq<u8> {
    with_sample(plane, w, line_x(vertical, x, k, i), line_y(vertical, y, k, i), v)
}

/// The eight samples of line `k`.
pub open spec fn line_at(plane: Seq<u8>, w: int, vertical: bool, x: int, y: int, k: int) -> Line {
    Line {
        p0: across(plane, w, vertical, x, y, k, -1),
        p1: across(plane, w, vertical, x, y, k, -2),
        p2: across(plane, w, vertical, x, y, k, -3),
        p3: across(plane, w, vertical, x, y, k, -4),
        q0: across(plane, w, vertical, x, y, k, 0),
        q1: across(plane, w, vertical, x, y, k, 1),
        q2: across(plane, w, vertical, x, y, k, 2),
        q3: across(plane, w, vertical, x, y, k, 3),
    }
}

/// The plane with the six inner samples of line `k` replaced.
pub open spec fn with_line(
    plane: Seq<u8>,
    w: int,
    vertical: bool,
    x: int,
    y: int,
    k: int,
    l: Line,
) -> Seq<u8> {
    let a = with_across(plane, w, vertical, x, y, k, -1, l.p0);
    let b = with_across(a, w, vertical, x, y, k, -2, l.p1);
    let c = with_across(b, w, vertical, x, y, k, -3, l.p2);
    let d = with_across(c, w, vertical, x, y, k, 0, l.q0);
    let e = with_across(d, w, vertical, x, y, k, 1, l.q1);
    with_across(e, w, vertical, x, y, k, 2, l.q2)
}

/// A luma edge from line `k` on: four lines share each strength.
pub open spec fn luma_lines_from(
    plane: Seq<u8>,
    w: int,
    vertical: bool,
    x: int,
    y: int,
    bs: Seq<u8>,
    t: EdgeThresholds,
    k: int,
) -> Seq<u8>
    decreases 16 - k,
{
    if k >= 16 {
        plane
    } else {
        let l = luma_line(line_at(plane, w, vertical, x, y, k), bs[k / 4] as int, t);
        luma_lines_from(
            with_line(plane, w, vertical, x, y, k, l),
            w,
            vertical,
            x,
            y,
            bs,
            t,
            k + 1,
        )
    }
}

/// A chroma edge from line `k` on: two lines share each strength, and only the
/// samples at the edge change.
pub open spec fn chroma_lines_from(
    plane: Seq<u8>,
    w: int,
    vertical: bool,
    x: int,
    y: int,
    bs: Seq<u8>,
    t: EdgeThresholds,
    k: int,
) -> Seq<u8>
    decreases 8 - k,
{
    if k >= 8 {
        plane
    } else {
        let (p0, q0) = chroma_line(
            across(plane, w, vertical, x, y, k, -1),
            across(plane, w, vertical, x, y, k, -2),
            across(plane, w, vertical, x, y, k, 0),
            across(plane, w, vertical, x, y, k, 1),
            bs[k / 2] as int,
            t,
        );
        let a = with_across(plane, w, vertical, x, y, k, -1, p0);
        chroma_lines_from(
            with_across(a, w, vertical, x, y, k, 0, q0),
            w,
            vertical,
            x,
            y,
            bs,
            t,
            k + 1,
        )
    }
}

/// An edge whose samples, `before` of them in front, `behind` behind and
/// `lines` along it, lie inside a plane that 32 bits can count.
pub open spec fn edge_fits(
    w: int,
    h: int,
    vertical: bool,
    x: int,
    y: int,
    lines: int,
    before: int,
    behind: int,
) -> bool {
    &&& w * h <= u32::MAX
    &&& if vertical {
        before <= x && x + behind <= w && 0 <= y && y + lines <= h
    } else {
        before <= y && y + behind <= h && 0 <= x && x + lines <= w
    }
}

proof fn lemma_edge_index(w: int, h: int, x: int, y: int)
    requires
        0 <= x < w,
        0 <= y < h,
        w * h <= u32::MAX,
    ensures
        0 <= y * w + x <= u32::MAX,
{
    lemma_inside(w, h, x, y);
}

/// The exact position of a sample across an edge.
fn across_pos(vertical: bool, x: u32, y: u32, k: u32, i: i32, w: u32, Ghost(h): Ghost<int>) -> (r: (
    u32,
    u32,
))
    requires
        -4 <= i <= 3,
        if vertical {
            0 <= x + i < w && y + k < h && y + k <= u32::MAX
        } else {
            x + k < w && 0 <= y + i < h && y + i <= u32::MAX
        },
        w * h <= u32::MAX,
    ensures
        r.0 == line_x(vertical, x as int, k as int, i as int),
        r.1 == line_y(vertical, y as int, k as int, i as int),
        r.1 * w + r.0 <= u32::MAX,
{
    let r: (u32, u32) = if vertical {
        ((x as i64 + i as i64) as u32, y + k)
    } else {
        (x + k, (y as i64 + i as i64) as u32)
    };
    proof {
        lemma_edge_index(w as int, h, r.0 as int, r.1 as int);
    }
    r
}

fn read_across(
    plane: &[u8],
    w: u32,
    vertical: bool,
    x: u32,
    y: u32,
    k: u32,
    i: i32,
    Ghost(h): Ghost<int>,
) -> (v: u8)
    requires
        -4 <= i <= 3,
        if vertical {
            0 <= x + i < w && y + k < h && y + k <= u32::MAX
        } else {
            x + k < w && 0 <= y + i < h && y + i <= u32::MAX
        },
        w * h <= u32::MAX,
    ensures
        v == across(plane@, w as int, vertical, x as int, y as int, k as int, i as int),
{
    let (sx, sy) = across_pos(vertical, x, y, k, i, w, Ghost(h));
    get_sample(plane, w, sx, sy)
}

fn write_across(
    plane: &mut [u8],
    w: u32,
    vertical: bool,
    x: u32,
    y: u32,
    k: u32,
    i: i32,
    v: u8,
    Ghost(h): Ghost<int>,
)
    requires
        -4 <= i <= 3,
        if vertical {
            0 <= x + i < w && y + k < h && y + k <= u32::MAX
        } else {
            x + k < w && 0 <= y + i < h && y + i <= u32::MAX
        },
        w * h <= u32::MAX,
    ensures
        final(plane)@ == with_across(
            old(plane)@,
            w as int,
            vertical,
            x as int,
            y as int,
            k as int,
            i as int,
            v,
        ),
{
    let (sx, sy) = across_pos(vertical, x, y, k, i, w, Ghost(h));
    set_sample(plane, w, sx, sy, v);
}

fn filter_luma_edge(
    plane: &mut [u8],
    w: u32,
    vertical: bool,
    x: u32,
    y: u32,
    bs: [u8; 4],
    t: EdgeThresholds,
    Ghost(h): Ghost<int>,
)
    requires
        edge_fits(w as int, h, vertical, x as int, y as int, 16, 4, 4),
        h <= u32::MAX,
        t.wf(),
        forall|i: int| 0 <= i < 4 ==> (#[trigger] bs@[i]) <= 4,
    ensures
        final(plane)@ == luma_lines_from(
            old(plane)@,
            w as int,
            vertical,
            x as int,
            y as int,
            bs@,
            t,
            0,
        ),
{
    for k in 0..16u32
        invariant
            edge_fits(w as int, h, vertical, x as int, y as int, 16, 4, 4),
            h <= u32::MAX,
            t.wf(),
            forall|i: int| 0 <= i < 4 ==> (#[trigger] bs@[i]) <= 4,
            luma_lines_from(old(plane)@, w as int, vertical, x as int, y as int, bs@, t, 0)
                == luma_lines_from(
                plane@,
                w as int,
                vertical,
                x as int,
                y as int,
                bs@,
                t,
                k as int,
            ),
    {
        let line = Line {
            p0: read_across(plane, w, vertical, x, y, k, -1, Ghost(h)),
            p1: read_across(plane, w, vertical, x, y, k, -2, Ghost(h)),
            p2: read_across(plane, w, vertical, x, y, k, -3, Ghost(h)),
            p3: read_across(plane, w, vertical, x, y, k, -4, Ghost(h)),
            q0: read_across(plane, w, vertical, x, y, k, 0, Ghost(h)),
            q1: read_across(plane, w, vertical, x, y, k, 1, Ghost(h)),
            q2: read_across(plane, w, vertical, x, y, k, 2, Ghost(h)),
            q3: read_across(plane, w, vertical, x, y, k, 3, Ghost(h)),
        };
        assert(bs@[k as int / 4] <= 4);
        let l: Line = filter_luma_line(line, bs[(k / 4) as usize], t);
        write_across(plane, w, vertical, x, y, k, -1, l.p0, Ghost(h));
        write_across(plane, w, vertical, x, y, k, -2, l.p1, Ghost(h));
        write_across(plane, w, vertical, x, y, k, -3, l.p2, Ghost(h));
        write_across(plane, w, vertical, x, y, k, 0, l.q0, Ghost(h));
        write_across(plane, w, vertical, x, y, k, 1, l.q1, Ghost(h));
        write_across(plane, w, vertical, x, y, k, 2, l.q2, Ghost(h));
    }
}

fn filter_chroma_edge(
    plane: &mut [u8],
    w: u32,
    vertical: bool,
    x: u32,
    y: u32,
    bs: [u8; 4],
    t: EdgeThresholds,
    Ghost(h): Ghost<int>,
)
    requires
        edge_fits(w as int, h, vertical, x as int, y as int, 8, 2, 2),
        h <= u32::MAX,
        t.wf(),
        forall|i: int| 0 <= i < 4 ==> (#[trigger] bs@[i]) <= 4,
    ensures
        final(plane)@ == chroma_lines_from(
            old(plane)@,
            w as int,
            vertical,
            x as int,
            y as int,
            bs@,
            t,
            0,
        ),
{
    for k in 0..8u32
        invariant
            edge_fits(w as int, h, vertical, x as int, y as int, 8, 2, 2),
            h <= u32::MAX,
            t.wf(),
            forall|i: int| 0 <= i < 4 ==> (#[trigger] bs@[i]) <= 4,
            chroma_lines_from(old(plane)@, w as int, vertical, x as int, y as int, bs@, t, 0)
                == chroma_lines_from(
                plane@,
                w as int,
                vertical,
                x as int,
                y as int,
                bs@,
                t,
                k as int,
            ),
    {
        let p0: u8 = read_across(plane, w, vertical, x, y, k, -1, Ghost(h));
        let p1: u8 = read_across(plane, w, vertical, x, y, k, -2, Ghost(h));
        let q0: u8 = read_across(plane, w, vertical, x, y, k, 0, Ghost(h));
        let q1: u8 = read_across(plane, w, vertical, x, y, k, 1, Ghost(h));
        assert(bs@[k as int / 2] <= 4);
        let (a, b) = filter_chroma_line(p0, p1, q0, q1, bs[(k / 2) as usize], t);
        write_across(plane, w, vertical, x, y, k, -1, a, Ghost(h));
        write_across(plane, w, vertical, x, y, k, 0, b, Ghost(h));
    }
}

// ----------------------------------------------------------------------- rows
/// What is constant across a picture.
pub struct Deblock {
    pub cells: Seq<Option<Summary>>,
    pub wide: int,
    pub high: int,
    pub offset_a: int,
    pub offset_b: int,
    pub l0: Seq<i32>,
    pub l1: Seq<i32>,
}

/// A block of the macroblock in front of edge `e`, the `i`th along the edge.
pub open spec fn block_before(vertical: bool, e: int, i: int) -> int {
    let last = if e == 0 {
        3
    } else {
        e - 1
    };
    if vertical {
        4 * i + last
    } else {
        4 * last + i
    }
}

/// A block behind edge `e`, the `i`th along the edge.
pub open spec fn block_behind(vertical: bool, e: int, i: int) -> int {
    if vertical {
        4 * i + e
    } else {
        4 * e + i
    }
}

impl Deblock {
    pub open spec fn at(self, mx: int, my: int) -> Option<Summary> {
        cell_of(self.cells, self.wide, self.high, mx, my)
    }

    pub open spec fn qpy(self, mx: int, my: int) -> int {
        cell_qpy(self.at(mx, my))
    }

    /// Whether the luma quantisers of a row of macroblocks, and of the row above
    /// it, leave room for an offset in 32 bits.
    pub open spec fn row_offset_fits(self, offset: int, my: int) -> bool {
        forall|mx: int, y: int|
            0 <= mx < self.wide && my - 1 <= y <= my ==> #[trigger] self.qpy(mx, y) + offset
                <= i32::MAX
    }

    /// The chroma quantiser of a macroblock.
    #[verifier::opaque]
    pub open spec fn qpc(self, mx: int, my: int, offset: int) -> int {
        chroma_qp_spec(self.qpy(mx, my), offset)
    }

    /// The position of the macroblock in front of edge `e`.
    pub open spec fn before(self, mx: int, my: int, vertical: bool, e: int) -> (int, int) {
        if e != 0 {
            (mx, my)
        } else if vertical {
            (mx - 1, my)
        } else {
            (mx, my - 1)
        }
    }

    /// Whether edge `e` of a macroblock has anything in front of it.
    pub open spec fn has_before(self, mx: int, my: int, vertical: bool, e: int) -> bool {
        e != 0 || (if vertical {
            mx > 0
        } else {
            my > 0
        })
    }

    /// The four strengths along edge `e`.
    pub open spec fn strengths(self, mx: int, my: int, vertical: bool, e: int) -> Seq<u8> {
        let (px, py) = self.before(mx, my, vertical, e);
        Seq::new(
            4,
            |i: int|
                strength(
                    e == 0,
                    self.at(px, py)->0,
                    block_before(vertical, e, i),
                    self.at(mx, my)->0,
                    block_behind(vertical, e, i),
                    self.l0,
                    self.l1,
                ),
        )
    }

    /// Luma edge `e` of a macroblock.
    pub open spec fn luma_edge(self, plane: Seq<u8>, mx: int, my: int, vertical: bool, e: int) -> Seq<
        u8,
    > {
        let (px, py) = self.before(mx, my, vertical, e);
        if !self.has_before(mx, my, vertical, e) || !luma_edge_filtered(
            self.at(mx, my)->0,
            4 * e,
        ) {
            plane
        } else {
            luma_lines_from(
                plane,
                16 * self.wide,
                vertical,
                if vertical {
                    16 * mx + 4 * e
                } else {
                    16 * mx
                },
                if vertical {
                    16 * my
                } else {
                    16 * my + 4 * e
                },
                self.strengths(mx, my, vertical, e),
                thresholds(self.qpy(px, py), self.qpy(mx, my), self.offset_a, self.offset_b),
                0,
            )
        }
    }

    /// The chroma edge that goes with luma edge `e`, 0 or 2.
    pub open spec fn chroma_edge(
        self,
        plane: Seq<u8>,
        qp_offset: int,
        mx: int,
        my: int,
        vertical: bool,
        e: int,
    ) -> Seq<u8> {
        let (px, py) = self.before(mx, my, vertical, e);
        if !self.has_before(mx, my, vertical, e) {
            plane
        } else {
            chroma_lines_from(
                plane,
                8 * self.wide,
                vertical,
                if vertical {
                    8 * mx + 2 * e
                } else {
                    8 * mx
                },
                if vertical {
                    8 * my
                } else {
                    8 * my + 2 * e
                },
                self.strengths(mx, my, vertical, e),
                thresholds(
                    self.qpc(px, py, qp_offset),
                    self.qpc(mx, my, qp_offset),
                    self.offset_a,
                    self.offset_b,
                ),
                0,
            )
        }
    }

    /// The luma edges of a macroblock from the `j`th on: the vertical ones from
    /// left to right, then the horizontal ones from top to bottom.
    pub open spec fn luma_edges_from(self, plane: Seq<u8>, mx: int, my: int, j: int) -> Seq<u8>
        decreases 8 - j,
    {
        if j >= 8 {
            plane
        } else {
            self.luma_edges_from(self.luma_edge(plane, mx, my, j < 4, j % 4), mx, my, j + 1)
        }
    }

    /// The chroma edges of a macroblock from the `j`th on.
    pub open spec fn chroma_edges_from(
        self,
        plane: Seq<u8>,
        qp_offset: int,
        mx: int,
        my: int,
        j: int,
    ) -> Seq<u8>
        decreases 4 - j,
    {
        if j >= 4 {
            plane
        } else {
            self.chroma_edges_from(
                self.chroma_edge(plane, qp_offset, mx, my, j < 2, 2 * (j % 2)),
                qp_offset,
                mx,
                my,
                j + 1,
            )
        }
    }

    /// A row of luma macroblocks from column `mx` on.
    pub open spec fn luma_row_from(self, plane: Seq<u8>, my: int, mx: int) -> Seq<u8>
        decreases self.wide - mx,
    {
        if mx >= self.wide {
            plane
        } else if self.at(mx, my) is None {
            self.luma_row_from(plane, my, mx + 1)
        } else {
            self.luma_row_from(self.luma_edges_from(plane, mx, my, 0), my, mx + 1)
        }
    }

    /// A row of chroma macroblocks from column `mx` on.
    pub open spec fn chroma_row_from(self, plane: Seq<u8>, qp_offset: int, my: int, mx: int) -> Seq<u8>
        decreases self.wide - mx,
    {
        if mx >= self.wide {
            plane
        } else if self.at(mx, my) is None {
            self.chroma_row_from(plane, qp_offset, my, mx + 1)
        } else {
            self.chroma_row_from(
                self.chroma_edges_from(plane, qp_offset, mx, my, 0),
                qp_offset,
                my,
                mx + 1,
            )
        }
    }

    /// The luma rows from row `my` on.
    pub open spec fn luma_rows_from(self, plane: Seq<u8>, my: int) -> Seq<u8>
        decreases self.high - my,
    {
        if my >= self.high {
            plane
        } else {
            self.luma_rows_from(self.luma_row_from(plane, my, 0), my + 1)
        }
    }

    /// The chroma rows from row `my` on.
    pub open spec fn chroma_rows_from(self, plane: Seq<u8>, qp_offset: int, my: int) -> Seq<u8>
        decreases self.high - my,
    {
        if my >= self.high {
            plane
        } else {
            self.chroma_rows_from(self.chroma_row_from(plane, qp_offset, my, 0), qp_offset, my + 1)
        }
    }

    /// A macroblock that is there has its left and its upper neighbour.
    pub open spec fn connected(self, mx: int, my: int) -> bool {
        self.at(mx, my) is Some ==> (mx > 0 ==> self.at(mx - 1, my) is Some) && (my > 0
            ==> self.at(mx, my - 1) is Some)
    }

    /// Every macroblock of a row that is there has its left and its upper
    /// neighbour.
    pub open spec fn row_connected(self, my: int) -> bool {
        forall|mx: int| 0 <= mx < self.wide ==> #[trigger] self.connected(mx, my)
    }
}

/// A doubled offset, kept in 32 bits.
pub open spec fn doubled(v: int) -> int {
    clip3(i32::MIN as int, i32::MAX as int, 2 * v)
}

fn double(v: i32) -> (r: i32)
    ensures
        r == doubled(v as int),
{
    let d: i64 = 2 * v as i64;
    if d < -0x8000_0000 {
        i32::MIN
    } else if d > 0x7fff_ffff {
        i32::MAX
    } else {
        d as i32
    }
}

/// Everything that filtering needs and that is constant across a picture.
pub struct DeblockCtx<'a> {
    pub grid: MbGrid<'a>,
    pub mbs_wide: u32,
    pub filter_offset_a: i32,
    pub filter_offset_b: i32,
    pub ref_list0_poc: &'a [i32],
    pub ref_list1_poc: &'a [i32],
}

/// The state of a picture with these macroblocks and slice offsets.
pub open spec fn deblock_of(
    mbs: Seq<Summary>,
    wide: int,
    high: int,
    alpha_div2: int,
    beta_div2: int,
    l0: Seq<i32>,
    l1: Seq<i32>,
) -> Deblock {
    Deblock {
        cells: by_address(mbs, wide, (wide * high) as nat, mbs.len() as int),
        wide,
        high,
        offset_a: doubled(alpha_div2),
        offset_b: doubled(beta_div2),
        l0,
        l1,
    }
}

impl<'a> DeblockCtx<'a> {
    pub open spec fn wf(&self) -> bool {
        &&& self.grid.wf()
        &&& self.mbs_wide == self.grid.mbs_wide
    }

    pub open spec fn state(&self) -> Deblock {
        Deblock {
            cells: self.grid.cells(),
            wide: self.grid.mbs_wide as int,
            high: self.grid.mbs_high as int,
            offset_a: self.filter_offset_a as int,
            offset_b: self.filter_offset_b as int,
            l0: self.ref_list0_poc@,
            l1: self.ref_list1_poc@,
        }
    }

    /// Gathers the state of a picture.
    pub fn new(
        macroblocks: &'a [MbSummary],
        mbs_wide: u32,
        mbs_high: u32,
        slice_alpha_c0_offset_div2: i32,
        slice_beta_offset_div2: i32,
        ref_list0_poc: &'a [i32],
        ref_list1_poc: &'a [i32],
    ) -> (r: Self)
        requires
            grid_fits(mbs_wide as int, mbs_high as int),
        ensures
            r.wf(),
            r.state() == deblock_of(
                summaries(macroblocks@),
                mbs_wide as int,
                mbs_high as int,
                slice_alpha_c0_offset_div2 as int,
                slice_beta_offset_div2 as int,
                ref_list0_poc@,
                ref_list1_poc@,
            ),
    {
        DeblockCtx {
            grid: MbGrid::new(macroblocks, mbs_wide, mbs_high),
            mbs_wide,
            filter_offset_a: double(slice_alpha_c0_offset_div2),
            filter_offset_b: double(slice_beta_offset_div2),
            ref_list0_poc,
            ref_list1_poc,
        }
    }

    fn edge_strengths(
        &self,
        p: &MbSummary,
        q: &MbSummary,
        vertical: bool,
        e: u32,
        Ghost(mx): Ghost<int>,
        Ghost(my): Ghost<int>,
    ) -> (bs: [u8; 4])
        requires
            self.wf(),
            e < 4,
            self.state().at(mx, my) == Some(q@),
            ({
                let (px, py) = self.state().before(mx, my, vertical, e as int);
                self.state().at(px, py) == Some(p@)
            }),
        ensures
            bs@ == self.state().strengths(mx, my, vertical, e as int),
            forall|i: int| 0 <= i < 4 ==> (#[trigger] bs@[i]) <= 4,
    {
        let ghost stated = self.state().strengths(mx, my, vertical, e as int);
        let last: u32 = if e == 0 {
            3
        } else {
            e - 1
        };
        let mut bs: [u8; 4] = [0;4];
        for i in 0..4u32
            invariant
                self.wf(),
                e < 4,
                last == (if e == 0 {
                    3
                } else {
                    e - 1
                }),
                self.state().at(mx, my) == Some(q@),
                ({
                    let (px, py) = self.state().before(mx, my, vertical, e as int);
                    self.state().at(px, py) == Some(p@)
                }),
                stated == self.state().strengths(mx, my, vertical, e as int),
                forall|j: int| 0 <= j < i ==> (#[trigger] bs@[j]) == stated[j] && bs@[j] <= 4,
        {
            let (p_blk, q_blk) = if vertical {
                (4 * i + last, 4 * i + e)
            } else {
                (4 * last + i, 4 * e + i)
            };
            bs[i as usize] = boundary_strength(
                e == 0,
                p,
                p_blk as usize,
                q,
                q_blk as usize,
                self.ref_list0_poc,
                self.ref_list1_poc,
            );
        }
        assert(bs@ =~= stated);
        bs
    }

    fn filter_one_luma_edge(
        &self,
        luma: &mut [u8],
        here: &MbSummary,
        mx: u32,
        my: u32,
        vertical: bool,
        e: u32,
    )
        requires
            self.wf(),
            picture_fits(self.mbs_wide as int, self.grid.mbs_high as int),
            self.state().row_connected(my as int),
            e < 4,
            mx < self.mbs_wide,
            my < self.grid.mbs_high,
            self.state().at(mx as int, my as int) == Some(here@),
        ensures
            final(luma)@ == self.state().luma_edge(
                old(luma)@,
                mx as int,
                my as int,
                vertical,
                e as int,
            ),
    {
        let ghost d = self.state();
        if e == 0 && (if vertical {
            mx == 0
        } else {
            my == 0
        }) {
            return ;
        }
        if !filters_luma_edge(here, 4 * e) {
            return ;
        }
        let (px, py) = if e != 0 {
            (mx, my)
        } else if vertical {
            (mx - 1, my)
        } else {
            (mx, my - 1)
        };
        proof {
            assert(d.connected(mx as int, my as int));
            lemma_cells_fit(d.wide, d.high);
        }
        let t: EdgeThresholds = EdgeThresholds::derive(
            self.grid.qpy(px, py),
            self.grid.qpy(mx, my),
            self.filter_offset_a,
            self.filter_offset_b,
        );
        match self.grid.at(px, py) {
            Some(p) => {
                let bs: [u8; 4] = self.edge_strengths(
                    p,
                    here,
                    vertical,
                    e,
                    Ghost(mx as int),
                    Ghost(my as int),
                );
                let (x, y) = if vertical {
                    (mx * 16 + 4 * e, my * 16)
                } else {
                    (mx * 16, my * 16 + 4 * e)
                };
                filter_luma_edge(
                    luma,
                    self.mbs_wide * 16,
                    vertical,
                    x,
                    y,
                    bs,
                    t,
                    Ghost(16 * d.high),
                );
            },
            None => {},
        }
    }

    fn chroma_qp_at(&self, mx: u32, my: u32, chroma_qp_offset: i32) -> (r: u8)
        requires
            self.wf(),
            self.state().qpy(mx as int, my as int) + chroma_qp_offset <= i32::MAX,
        ensures
            r == self.state().qpc(mx as int, my as int, chroma_qp_offset as int),
    {
        reveal(Deblock::qpc);
        chroma_qp(self.grid.qpy(mx, my) as i32, chroma_qp_offset) as u8
    }

    fn filter_one_chroma_edge(
        &self,
        chroma: &mut [u8],
        chroma_qp_offset: i32,
        here: &MbSummary,
        mx: u32,
        my: u32,
        vertical: bool,
        e: u32,
    )
        requires
            self.wf(),
            chroma_fits(self.mbs_wide as int, self.grid.mbs_high as int),
            self.state().row_connected(my as int),
            e == 0 || e == 2,
            mx < self.mbs_wide,
            my < self.grid.mbs_high,
            self.state().at(mx as int, my as int) == Some(here@),
            self.state().row_offset_fits(chroma_qp_offset as int, my as int),
        ensures
            final(chroma)@ == self.state().chroma_edge(
                old(chroma)@,
                chroma_qp_offset as int,
                mx as int,
                my as int,
                vertical,
                e as int,
            ),
    {
        let ghost d = self.state();
        if e == 0 && (if vertical {
            mx == 0
        } else {
            my == 0
        }) {
            return ;
        }
        let (px, py) = if e != 0 {
            (mx, my)
        } else if vertical {
            (mx - 1, my)
        } else {
            (mx, my - 1)
        };
        proof {
            assert(d.connected(mx as int, my as int));
            lemma_cells_fit(d.wide, d.high);
        }
        let t: EdgeThresholds = EdgeThresholds::derive(
            self.chroma_qp_at(px, py, chroma_qp_offset),
            self.chroma_qp_at(mx, my, chroma_qp_offset),
            self.filter_offset_a,
            self.filter_offset_b,
        );
        match self.grid.at(px, py) {
            Some(p) => {
                let bs: [u8; 4] = self.edge_strengths(
                    p,
                    here,
                    vertical,
                    e,
                    Ghost(mx as int),
                    Ghost(my as int),
                );
                let (x, y) = if vertical {
                    (mx * 8 + 2 * e, my * 8)
                } else {
                    (mx * 8, my * 8 + 2 * e)
                };
                filter_chroma_edge(
                    chroma,
                    self.mbs_wide * 8,
                    vertical,
                    x,
                    y,
                    bs,
                    t,
                    Ghost(8 * d.high),
                );
            },
            None => {},
        }
    }

    /// Filters a row of luma macroblocks, from left to right.
    pub fn luma_mb_row(&self, luma: &mut [u8], my: u32)
        requires
            self.wf(),
            picture_fits(self.mbs_wide as int, self.grid.mbs_high as int),
            self.state().row_connected(my as int),
        ensures
            final(luma)@ == self.state().luma_row_from(old(luma)@, my as int, 0),
            final(luma)@.len() == old(luma)@.len(),
    {
        proof {
            law_luma_row_keeps_the_length(self.state(), luma@, my as int, 0);
        }
        for mx in 0..self.mbs_wide
            invariant
                self.wf(),
                picture_fits(self.mbs_wide as int, self.grid.mbs_high as int),
                self.state().row_connected(my as int),
                self.state().luma_row_from(old(luma)@, my as int, 0) == self.state().luma_row_from(
                    luma@,
                    my as int,
                    mx as int,
                ),
        {
            if let Some(here) = self.grid.at(mx, my) {
                let ghost start = luma@;
                for j in 0..8u32
                    invariant
                        self.wf(),
                        picture_fits(self.mbs_wide as int, self.grid.mbs_high as int),
                        self.state().row_connected(my as int),
                        mx < self.mbs_wide,
                        my < self.grid.mbs_high,
                        self.state().at(mx as int, my as int) == Some(here@),
                        self.state().luma_edges_from(start, mx as int, my as int, 0)
                            == self.state().luma_edges_from(luma@, mx as int, my as int, j as int),
                {
                    self.filter_one_luma_edge(luma, here, mx, my, j < 4, j % 4);
                }
            }
        }
    }

    /// Filters a row of chroma macroblocks, from left to right.
    pub fn chroma_mb_row(&self, chroma: &mut [u8], chroma_qp_offset: i32, my: u32)
        requires
            self.wf(),
            chroma_fits(self.mbs_wide as int, self.grid.mbs_high as int),
            self.state().row_connected(my as int),
            self.state().row_offset_fits(chroma_qp_offset as int, my as int),
        ensures
            final(chroma)@ == self.state().chroma_row_from(
                old(chroma)@,
                chroma_qp_offset as int,
                my as int,
                0,
            ),
            final(chroma)@.len() == old(chroma)@.len(),
    {
        proof {
            law_chroma_row_keeps_the_length(
                self.state(),
                chroma@,
                chroma_qp_offset as int,
                my as int,
                0,
            );
        }
        for mx in 0..self.mbs_wide
            invariant
                self.wf(),
                chroma_fits(self.mbs_wide as int, self.grid.mbs_high as int),
                self.state().row_connected(my as int),
                self.state().row_offset_fits(chroma_qp_offset as int, my as int),
                self.state().chroma_row_from(old(chroma)@, chroma_qp_offset as int, my as int, 0)
                    == self.state().chroma_row_from(
                    chroma@,
                    chroma_qp_offset as int,
                    my as int,
                    mx as int,
                ),
        {
            if let Some(here) = self.grid.at(mx, my) {
                let ghost start = chroma@;
                for j in 0..4u32
                    invariant
                        self.wf(),
                        chroma_fits(self.mbs_wide as int, self.grid.mbs_high as int),
                        self.state().row_connected(my as int),
                        self.state().row_offset_fits(chroma_qp_offset as int, my as int),
                        mx < self.mbs_wide,
                        my < self.grid.mbs_high,
                        self.state().at(mx as int, my as int) == Some(here@),
                        self.state().chroma_edges_from(
                            start,
                            chroma_qp_offset as int,
                            mx as int,
                            my as int,
                            0,
                        ) == self.state().chroma_edges_from(
                            chroma@,
                            chroma_qp_offset as int,
                            mx as int,
                            my as int,
                            j as int,
                        ),
                {
                    self.filter_one_chroma_edge(
                        chroma,
                        chroma_qp_offset,
                        here,
                        mx,
                        my,
                        j < 2,
                        2 * (j % 2),
                    );
                }
            }
        }
    }
}

/// Deblocks a whole luma plane, row by row, unless the slice turned the filter
/// off.
pub fn deblock_picture_luma(
    luma: &mut [u8],
    macroblocks: &[MbSummary],
    mbs_wide: u32,
    mbs_high: u32,
    disable_deblocking_filter_idc: u32,
    slice_alpha_c0_offset_div2: i32,
    slice_beta_offset_div2: i32,
    ref_list0_poc: &[i32],
    ref_list1_poc: &[i32],
) -> (r: Result<(), Error>)
    requires
        disable_deblocking_filter_idc != 1 ==> picture_fits(mbs_wide as int, mbs_high as int),
        disable_deblocking_filter_idc != 1 ==> forall|my: int|
            0 <= my < mbs_high ==> #[trigger] deblock_of(
                summaries(macroblocks@),
                mbs_wide as int,
                mbs_high as int,
                slice_alpha_c0_offset_div2 as int,
                slice_beta_offset_div2 as int,
                ref_list0_poc@,
                ref_list1_poc@,
            ).row_connected(my),
    ensures
        r is Ok,
        final(luma)@ == (if disable_deblocking_filter_idc == 1 {
            old(luma)@
        } else {
            deblock_of(
                summaries(macroblocks@),
                mbs_wide as int,
                mbs_high as int,
                slice_alpha_c0_offset_div2 as int,
                slice_beta_offset_div2 as int,
                ref_list0_poc@,
                ref_list1_poc@,
            ).luma_rows_from(old(luma)@, 0)
        }),
        final(luma)@.len() == old(luma)@.len(),
{
    if disable_deblocking_filter_idc == 1 {
        return Ok(());
    }
    proof {
        lemma_cells_fit(mbs_wide as int, mbs_high as int);
    }
    let ctx: DeblockCtx = DeblockCtx::new(
        macroblocks,
        mbs_wide,
        mbs_high,
        slice_alpha_c0_offset_div2,
        slice_beta_offset_div2,
        ref_list0_poc,
        ref_list1_poc,
    );
    for my in 0..mbs_high
        invariant
            ctx.wf(),
            ctx.state().high == mbs_high,
            picture_fits(ctx.mbs_wide as int, ctx.grid.mbs_high as int),
            forall|r: int| 0 <= r < mbs_high ==> #[trigger] ctx.state().row_connected(r),
            luma@.len() == old(luma)@.len(),
            ctx.state().luma_rows_from(old(luma)@, 0) == ctx.state().luma_rows_from(
                luma@,
                my as int,
            ),
    {
        ctx.luma_mb_row(luma, my);
    }
    Ok(())
}

/// Deblocks a whole chroma plane, row by row, unless the slice turned the
/// filter off.
pub fn deblock_picture_chroma(
    chroma: &mut [u8],
    macroblocks: &[MbSummary],
    mbs_wide: u32,
    mbs_high: u32,
    chroma_qp_offset: i32,
    disable_deblocking_filter_idc: u32,
    slice_alpha_c0_offset_div2: i32,
    slice_beta_offset_div2: i32,
    ref_list0_poc: &[i32],
    ref_list1_poc: &[i32],
)
    requires
        disable_deblocking_filter_idc != 1 ==> chroma_fits(mbs_wide as int, mbs_high as int),
        disable_deblocking_filter_idc != 1 ==> {
            let d = deblock_of(
                summaries(macroblocks@),
                mbs_wide as int,
                mbs_high as int,
                slice_alpha_c0_offset_div2 as int,
                slice_beta_offset_div2 as int,
                ref_list0_poc@,
                ref_list1_poc@,
            );
            forall|my: int|
                0 <= my < mbs_high ==> #[trigger] d.row_connected(my) && d.row_offset_fits(
                    chroma_qp_offset as int,
                    my,
                )
        },
    ensures
        final(chroma)@ == (if disable_deblocking_filter_idc == 1 {
            old(chroma)@
        } else {
            deblock_of(
                summaries(macroblocks@),
                mbs_wide as int,
                mbs_high as int,
                slice_alpha_c0_offset_div2 as int,
                slice_beta_offset_div2 as int,
                ref_list0_poc@,
                ref_list1_poc@,
            ).chroma_rows_from(old(chroma)@, chroma_qp_offset as int, 0)
        }),
        final(chroma)@.len() == old(chroma)@.len(),
{
    if disable_deblocking_filter_idc == 1 {
        return ;
    }
    proof {
        lemma_cells_fit(mbs_wide as int, mbs_high as int);
    }
    let ctx: DeblockCtx = DeblockCtx::new(
        macroblocks,
        mbs_wide,
        mbs_high,
        slice_alpha_c0_offset_div2,
        slice_beta_offset_div2,
        ref_list0_poc,
        ref_list1_poc,
    );
    for my in 0..mbs_high
        invariant
            ctx.wf(),
            ctx.state().high == mbs_high,
            chroma_fits(ctx.mbs_wide as int, ctx.grid.mbs_high as int),
            forall|r: int|
                0 <= r < mbs_high ==> #[trigger] ctx.state().row_connected(r)
                    && ctx.state().row_offset_fits(chroma_qp_offset as int, r),
            chroma@.len() == old(chroma)@.len(),
            ctx.state().chroma_rows_from(old(chroma)@, chroma_qp_offset as int, 0)
                == ctx.state().chroma_rows_from(chroma@, chroma_qp_offset as int, my as int),
    {
        assert(ctx.state().row_connected(my as int));
        ctx.chroma_mb_row(chroma, chroma_qp_offset, my);
    }
}

// ---------------------------------------------------------------------- length
proof fn lemma_luma_lines_len(
    plane: Seq<u8>,
    w: int,
    vertical: bool,
    x: int,
    y: int,
    bs: Seq<u8>,
    t: EdgeThresholds,
    k: int,
)
    ensures
        luma_lines_from(plane, w, vertical, x, y, bs, t, k).len() == plane.len(),
    decreases 16 - k,
{
    if k < 16 {
        let l = luma_line(line_at(plane, w, vertical, x, y, k), bs[k / 4] as int, t);
        lemma_luma_lines_len(
            with_line(plane, w, vertical, x, y, k, l),
            w,
            vertical,
            x,
            y,
            bs,
            t,
            k + 1,
        );
    }
}

proof fn lemma_chroma_lines_len(
    plane: Seq<u8>,
    w: int,
    vertical: bool,
    x: int,
    y: int,
    bs: Seq<u8>,
    t: EdgeThresholds,
    k: int,
)
    ensures
        chroma_lines_from(plane, w, vertical, x, y, bs, t, k).len() == plane.len(),
    decreases 8 - k,
{
    if k < 8 {
        let (p0, q0) = chroma_line(
            across(plane, w, vertical, x, y, k, -1),
            across(plane, w, vertical, x, y, k, -2),
            across(plane, w, vertical, x, y, k, 0),
            across(plane, w, vertical, x, y, k, 1),
            bs[k / 2] as int,
            t,
        );
        let a = with_across(plane, w, vertical, x, y, k, -1, p0);
        lemma_chroma_lines_len(
            with_across(a, w, vertical, x, y, k, 0, q0),
            w,
            vertical,
            x,
            y,
            bs,
            t,
            k + 1,
        );
    }
}

proof fn lemma_luma_edges_len(d: Deblock, plane: Seq<u8>, mx: int, my: int, j: int)
    ensures
        d.luma_edges_from(plane, mx, my, j).len() == plane.len(),
    decreases 8 - j,
{
    if j < 8 {
        let (vertical, e) = (j < 4, j % 4);
        let (px, py) = d.before(mx, my, vertical, e);
        lemma_luma_lines_len(
            plane,
            16 * d.wide,
            vertical,
            if vertical {
                16 * mx + 4 * e
            } else {
                16 * mx
            },
            if vertical {
                16 * my
            } else {
                16 * my + 4 * e
            },
            d.strengths(mx, my, vertical, e),
            thresholds(d.qpy(px, py), d.qpy(mx, my), d.offset_a, d.offset_b),
            0,
        );
        lemma_luma_edges_len(d, d.luma_edge(plane, mx, my, vertical, e), mx, my, j + 1);
    }
}

proof fn lemma_chroma_edges_len(
    d: Deblock,
    plane: Seq<u8>,
    qp_offset: int,
    mx: int,
    my: int,
    j: int,
)
    ensures
        d.chroma_edges_from(plane, qp_offset, mx, my, j).len() == plane.len(),
    decreases 4 - j,
{
    if j < 4 {
        let (vertical, e) = (j < 2, 2 * (j % 2));
        let (px, py) = d.before(mx, my, vertical, e);
        lemma_chroma_lines_len(
            plane,
            8 * d.wide,
            vertical,
            if vertical {
                8 * mx + 2 * e
            } else {
                8 * mx
            },
            if vertical {
                8 * my
            } else {
                8 * my + 2 * e
            },
            d.strengths(mx, my, vertical, e),
            thresholds(
                d.qpc(px, py, qp_offset),
                d.qpc(mx, my, qp_offset),
                d.offset_a,
                d.offset_b,
            ),
            0,
        );
        lemma_chroma_edges_len(
            d,
            d.chroma_edge(plane, qp_offset, mx, my, vertical, e),
            qp_offset,
            mx,
            my,
            j + 1,
        );
    }
}

/// Filtering a row of luma macroblocks keeps the plane's length.
pub proof fn law_luma_row_keeps_the_length(d: Deblock, plane: Seq<u8>, my: int, mx: int)
    ensures
        d.luma_row_from(plane, my, mx).len() == plane.len(),
    decreases d.wide - mx,
{
    if mx < d.wide {
        lemma_luma_edges_len(d, plane, mx, my, 0);
        law_luma_row_keeps_the_length(d, plane, my, mx + 1);
        law_luma_row_keeps_the_length(d, d.luma_edges_from(plane, mx, my, 0), my, mx + 1);
    }
}

/// Filtering a row of chroma macroblocks keeps the plane's length.
pub proof fn law_chroma_row_keeps_the_length(
    d: Deblock,
    plane: Seq<u8>,
    qp_offset: int,
    my: int,
    mx: int,
)
    ensures
        d.chroma_row_from(plane, qp_offset, my, mx).len() == plane.len(),
    decreases d.wide - mx,
{
    if mx < d.wide {
        lemma_chroma_edges_len(d, plane, qp_offset, mx, my, 0);
        law_chroma_row_keeps_the_length(d, plane, qp_offset, my, mx + 1);
        law_chroma_row_keeps_the_length(
            d,
            d.chroma_edges_from(plane, qp_offset, mx, my, 0),
            qp_offset,
            my,
            mx + 1,
        );
    }
}

// ----------------------------------------------------------------------- reach
/// Whether a sample of a plane lies in a row outside `lo..=hi`.
pub open spec fn outside_rows(w: int, i: int, lo: int, hi: int) -> bool {
    i / w < lo || i / w > hi
}

proof fn lemma_other_row(plane: Seq<u8>, w: int, x: int, y: int, v: u8, i: int)
    requires
        0 <= x < w,
        0 <= i < plane.len(),
        i / w != y,
    ensures
        with_sample(plane, w, x, y, v).len() == plane.len(),
        with_sample(plane, w, x, y, v)[i] == plane[i],
{
    if i == y * w + x {
        vstd::arithmetic::div_mod::lemma_fundamental_div_mod_converse(i, w, y, x);
    }
}

/// An edge that only touches rows `lo..=hi` and stays inside the width.
pub open spec fn edge_within(
    w: int,
    vertical: bool,
    x: int,
    y: int,
    lines: int,
    reach: int,
    lo: int,
    hi: int,
) -> bool {
    if vertical {
        reach <= x && x + reach <= w && lo <= y && y + lines - 1 <= hi
    } else {
        0 <= x && x + lines <= w && lo <= y - reach && y + reach - 1 <= hi
    }
}

proof fn lemma_luma_lines_reach(
    plane: Seq<u8>,
    w: int,
    vertical: bool,
    x: int,
    y: int,
    bs: Seq<u8>,
    t: EdgeThresholds,
    k: int,
    lo: int,
    hi: int,
    i: int,
)
    requires
        0 <= k,
        edge_within(w, vertical, x, y, 16, 3, lo, hi),
        0 <= i < plane.len(),
        outside_rows(w, i, lo, hi),
    ensures
        luma_lines_from(plane, w, vertical, x, y, bs, t, k).len() == plane.len(),
        luma_lines_from(plane, w, vertical, x, y, bs, t, k)[i] == plane[i],
    decreases 16 - k,
{
    if k < 16 {
        let l = luma_line(line_at(plane, w, vertical, x, y, k), bs[k / 4] as int, t);
        let a = with_across(plane, w, vertical, x, y, k, -1, l.p0);
        let b = with_across(a, w, vertical, x, y, k, -2, l.p1);
        let c = with_across(b, w, vertical, x, y, k, -3, l.p2);
        let d = with_across(c, w, vertical, x, y, k, 0, l.q0);
        let e = with_across(d, w, vertical, x, y, k, 1, l.q1);
        let f = with_across(e, w, vertical, x, y, k, 2, l.q2);
        lemma_other_row(plane, w, line_x(vertical, x, k, -1), line_y(vertical, y, k, -1), l.p0, i);
        lemma_other_row(a, w, line_x(vertical, x, k, -2), line_y(vertical, y, k, -2), l.p1, i);
        lemma_other_row(b, w, line_x(vertical, x, k, -3), line_y(vertical, y, k, -3), l.p2, i);
        lemma_other_row(c, w, line_x(vertical, x, k, 0), line_y(vertical, y, k, 0), l.q0, i);
        lemma_other_row(d, w, line_x(vertical, x, k, 1), line_y(vertical, y, k, 1), l.q1, i);
        lemma_other_row(e, w, line_x(vertical, x, k, 2), line_y(vertical, y, k, 2), l.q2, i);
        lemma_luma_lines_reach(f, w, vertical, x, y, bs, t, k + 1, lo, hi, i);
    }
}

proof fn lemma_chroma_lines_reach(
    plane: Seq<u8>,
    w: int,
    vertical: bool,
    x: int,
    y: int,
    bs: Seq<u8>,
    t: EdgeThresholds,
    k: int,
    lo: int,
    hi: int,
    i: int,
)
    requires
        0 <= k,
        edge_within(w, vertical, x, y, 8, 1, lo, hi),
        0 <= i < plane.len(),
        outside_rows(w, i, lo, hi),
    ensures
        chroma_lines_from(plane, w, vertical, x, y, bs, t, k).len() == plane.len(),
        chroma_lines_from(plane, w, vertical, x, y, bs, t, k)[i] == plane[i],
    decreases 8 - k,
{
    if k < 8 {
        let (p0, q0) = chroma_line(
            across(plane, w, vertical, x, y, k, -1),
            across(plane, w, vertical, x, y, k, -2),
            across(plane, w, vertical, x, y, k, 0),
            across(plane, w, vertical, x, y, k, 1),
            bs[k / 2] as int,
            t,
        );
        let a = with_across(plane, w, vertical, x, y, k, -1, p0);
        let b = with_across(a, w, vertical, x, y, k, 0, q0);
        lemma_other_row(plane, w, line_x(vertical, x, k, -1), line_y(vertical, y, k, -1), p0, i);
        lemma_other_row(a, w, line_x(vertical, x, k, 0), line_y(vertical, y, k, 0), q0, i);
        lemma_chroma_lines_reach(b, w, vertical, x, y, bs, t, k + 1, lo, hi, i);
    }
}

proof fn lemma_luma_edges_reach(d: Deblock, plane: Seq<u8>, mx: int, my: int, j: int, i: int)
    requires
        0 <= mx < d.wide,
        0 <= my,
        0 <= j,
        0 <= i < plane.len(),
        outside_rows(16 * d.wide, i, 16 * my - 3, 16 * my + 15),
    ensures
        d.luma_edges_from(plane, mx, my, j).len() == plane.len(),
        d.luma_edges_from(plane, mx, my, j)[i] == plane[i],
    decreases 8 - j,
{
    if j < 8 {
        let (vertical, e) = (j < 4, j % 4);
        let next = d.luma_edge(plane, mx, my, vertical, e);
        let (px, py) = d.before(mx, my, vertical, e);
        if d.has_before(mx, my, vertical, e) && luma_edge_filtered(d.at(mx, my)->0, 4 * e) {
            lemma_luma_lines_reach(
                plane,
                16 * d.wide,
                vertical,
                if vertical {
                    16 * mx + 4 * e
                } else {
                    16 * mx
                },
                if vertical {
                    16 * my
                } else {
                    16 * my + 4 * e
                },
                d.strengths(mx, my, vertical, e),
                thresholds(d.qpy(px, py), d.qpy(mx, my), d.offset_a, d.offset_b),
                0,
                16 * my - 3,
                16 * my + 15,
                i,
            );
        }
        lemma_luma_edges_reach(d, next, mx, my, j + 1, i);
    }
}

proof fn lemma_chroma_edges_reach(
    d: Deblock,
    plane: Seq<u8>,
    qp_offset: int,
    mx: int,
    my: int,
    j: int,
    i: int,
)
    requires
        0 <= mx < d.wide,
        0 <= my,
        0 <= j,
        0 <= i < plane.len(),
        outside_rows(8 * d.wide, i, 8 * my - 1, 8 * my + 7),
    ensures
        d.chroma_edges_from(plane, qp_offset, mx, my, j).len() == plane.len(),
        d.chroma_edges_from(plane, qp_offset, mx, my, j)[i] == plane[i],
    decreases 4 - j,
{
    if j < 4 {
        let (vertical, e) = (j < 2, 2 * (j % 2));
        let next = d.chroma_edge(plane, qp_offset, mx, my, vertical, e);
        let (px, py) = d.before(mx, my, vertical, e);
        if d.has_before(mx, my, vertical, e) {
            lemma_chroma_lines_reach(
                plane,
                8 * d.wide,
                vertical,
                if vertical {
                    8 * mx + 2 * e
                } else {
                    8 * mx
                },
                if vertical {
                    8 * my
                } else {
                    8 * my + 2 * e
                },
                d.strengths(mx, my, vertical, e),
                thresholds(
                    d.qpc(px, py, qp_offset),
                    d.qpc(mx, my, qp_offset),
                    d.offset_a,
                    d.offset_b,
                ),
                0,
                8 * my - 1,
                8 * my + 7,
                i,
            );
        }
        lemma_chroma_edges_reach(d, next, qp_offset, mx, my, j + 1, i);
    }
}

/// Filtering a row of luma macroblocks reaches three rows of samples above it
/// and none below: a row of macroblocks is final, but for its last three rows
/// of samples, as soon as it has been filtered.
pub proof fn law_luma_row_reaches_three_rows_up(
    d: Deblock,
    plane: Seq<u8>,
    my: int,
    mx: int,
    i: int,
)
    requires
        0 <= mx,
        0 <= my,
        0 <= i < plane.len(),
        outside_rows(16 * d.wide, i, 16 * my - 3, 16 * my + 15),
    ensures
        d.luma_row_from(plane, my, mx).len() == plane.len(),
        d.luma_row_from(plane, my, mx)[i] == plane[i],
    decreases d.wide - mx,
{
    if mx < d.wide {
        if d.at(mx, my) is None {
            law_luma_row_reaches_three_rows_up(d, plane, my, mx + 1, i);
        } else {
            lemma_luma_edges_reach(d, plane, mx, my, 0, i);
            law_luma_row_reaches_three_rows_up(
                d,
                d.luma_edges_from(plane, mx, my, 0),
                my,
                mx + 1,
                i,
            );
        }
    }
}

/// Filtering a row of chroma macroblocks reaches one row of samples above it
/// and none below.
pub proof fn law_chroma_row_reaches_one_row_up(
    d: Deblock,
    plane: Seq<u8>,
    qp_offset: int,
    my: int,
    mx: int,
    i: int,
)
    requires
        0 <= mx,
        0 <= my,
        0 <= i < plane.len(),
        outside_rows(8 * d.wide, i, 8 * my - 1, 8 * my + 7),
    ensures
        d.chroma_row_from(plane, qp_offset, my, mx).len() == plane.len(),
        d.chroma_row_from(plane, qp_offset, my, mx)[i] == plane[i],
    decreases d.wide - mx,
{
    if mx < d.wide {
        if d.at(mx, my) is None {
            law_chroma_row_reaches_one_row_up(d, plane, qp_offset, my, mx + 1, i);
        } else {
            lemma_chroma_edges_reach(d, plane, qp_offset, mx, my, 0, i);
            law_chroma_row_reaches_one_row_up(
                d,
                d.chroma_edges_from(plane, qp_offset, mx, my, 0),
                qp_offset,
                my,
                mx + 1,
                i,
            );
        }
    }
}

/// Filtering one row of macroblocks after the other, each on what the one
/// before left, gives what filtering the whole luma plane gives.
pub proof fn law_luma_rows_make_the_sweep(d: Deblock, planes: Seq<Seq<u8>>, my: int)
    requires
        planes.len() == d.high + 1,
        forall|k: int|
            0 <= k < d.high ==> #[trigger] planes[k + 1] == d.luma_row_from(planes[k], k, 0),
        0 <= my <= d.high,
    ensures
        d.luma_rows_from(planes[my], my) == planes.last(),
    decreases d.high - my,
{
    if my < d.high {
        assert(planes[my + 1] == d.luma_row_from(planes[my], my, 0));
        law_luma_rows_make_the_sweep(d, planes, my + 1);
    }
}

/// Filtering one row of macroblocks after the other, each on what the one
/// before left, gives what filtering a whole chroma plane gives.
pub proof fn law_chroma_rows_make_the_sweep(
    d: Deblock,
    planes: Seq<Seq<u8>>,
    qp_offset: int,
    my: int,
)
    requires
        planes.len() == d.high + 1,
        forall|k: int|
            0 <= k < d.high ==> #[trigger] planes[k + 1] == d.chroma_row_from(
                planes[k],
                qp_offset,
                k,
                0,
            ),
        0 <= my <= d.high,
    ensures
        d.chroma_rows_from(planes[my], qp_offset, my) == planes.last(),
    decreases d.high - my,
{
    if my < d.high {
        assert(planes[my + 1] == d.chroma_row_from(planes[my], qp_offset, my, 0));
        law_chroma_rows_make_the_sweep(d, planes, qp_offset, my + 1);
    }
}

} // verus!
