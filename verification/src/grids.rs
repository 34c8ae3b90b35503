//! Per-slice neighbour state, addressed by absolute position: coefficient
//! counts for the variable-length coder, and macroblock facts, coded-block
//! flags, motion and intra modes for everything else.
//!
//! A position outside the picture, and one not written in this slice, reads as
//! unavailable. Each slice starts from a fresh grid, so nothing of another
//! slice is ever visible.
use vstd::prelude::*;
use crate::budget::{charged_from, Budget};
use crate::error::Error;
use crate::mb_type::PartPred;
use crate::motion::Neighbour;

verus! {

// ---------------------------------------------------------------- addressing
/// The row-major index of a position, if it lies inside.
pub open spec fn cell_index(x: int, y: int, width: int, height: int) -> Option<int> {
    if 0 <= x < width && 0 <= y < height {
        Some(y * width + x)
    } else {
        None
    }
}

/// The cell at a position, or `default` outside.
pub open spec fn cell<T>(s: Seq<T>, x: int, y: int, width: int, height: int, default: T) -> T {
    match cell_index(x, y, width, height) {
        Some(i) => if i < s.len() {
            s[i]
        } else {
            default
        },
        None => default,
    }
}

/// The cells after writing one position; a write outside changes nothing.
pub open spec fn with_cell<T>(s: Seq<T>, x: int, y: int, width: int, height: int, v: T) -> Seq<T> {
    match cell_index(x, y, width, height) {
        Some(i) => if i < s.len() {
            s.update(i, v)
        } else {
            s
        },
        None => s,
    }
}

pub proof fn lemma_cell_bound(x: int, y: int, width: int, height: int)
    requires
        0 <= x < width,
        0 <= y < height,
    ensures
        0 <= y * width + x < width * height,
        0 <= y * width <= width * height,
{
    assert(0 <= y * width && y * width + width <= width * height) by (nonlinear_arith)
        requires
            0 <= y < height,
            0 < width,
    ;
}

pub proof fn lemma_cell_injective(x1: int, y1: int, x2: int, y2: int, width: int)
    requires
        0 <= x1 < width,
        0 <= x2 < width,
        y1 * width + x1 == y2 * width + x2,
    ensures
        x1 == x2 && y1 == y2,
{
    if y1 < y2 {
        assert(y1 * width + width <= y2 * width) by (nonlinear_arith)
            requires
                y1 < y2,
                0 < width,
        ;
    } else if y2 < y1 {
        assert(y2 * width + width <= y1 * width) by (nonlinear_arith)
            requires
                y2 < y1,
                0 < width,
        ;
    }
}

/// A read gives back what the last write to that position wrote, and a write
/// to any other position does not disturb it.
pub proof fn law_read_after_write<T>(
    s: Seq<T>,
    x: int,
    y: int,
    rx: int,
    ry: int,
    width: int,
    height: int,
    v: T,
    default: T,
)
    requires
        s.len() == width * height,
    ensures
        with_cell(s, x, y, width, height, v).len() == s.len(),
        cell(with_cell(s, x, y, width, height, v), rx, ry, width, height, default) == (if rx == x
            && ry == y && 0 <= x < width && 0 <= y < height {
            v
        } else {
            cell(s, rx, ry, width, height, default)
        }),
{
    if 0 <= x < width && 0 <= y < height {
        lemma_cell_bound(x, y, width, height);
        if 0 <= rx < width && 0 <= ry < height {
            lemma_cell_bound(rx, ry, width, height);
            if ry * width + rx == y * width + x {
                lemma_cell_injective(rx, ry, x, y, width);
            }
        }
    }
}

/// Whether a position lies outside, or the first cell of its row has an index
/// of 32 bits. In a picture with at most that many cells every position does.
pub open spec fn row_indexed(x: int, y: int, width: int, height: int) -> bool {
    width * height <= u32::MAX || (0 <= x < width && 0 <= y < height ==> y * width <= u32::MAX)
}

/// The row-major index of a position, if it lies inside and 32 bits can hold it.
pub fn idx_2d(x: u32, y: u32, width: u32, height: u32) -> (r: Option<usize>)
    requires
        row_indexed(x as int, y as int, width as int, height as int),
    ensures
        match cell_index(x as int, y as int, width as int, height as int) {
            Some(i) => if i <= u32::MAX {
                r == Some(i as usize) && i <= usize::MAX
            } else {
                r is None && width * height > u32::MAX
            },
            None => r is None,
        },
{
    if x >= width || y >= height {
        return None;
    }
    proof {
        if width * height <= u32::MAX {
            lemma_cell_bound(x as int, y as int, width as int, height as int);
        }
        assert(0 <= y * width) by (nonlinear_arith)
            requires
                0 <= y,
                0 <= width,
        ;
    }
    match (y * width).checked_add(x) {
        Some(i) => Some(i as usize),
        None => None,
    }
}

fn read_cell<T: Copy>(s: &Vec<T>, i: Option<usize>, default: T) -> (r: T)
    ensures
        r == (match i {
            Some(k) => if k < s@.len() {
                s@[k as int]
            } else {
                default
            },
            None => default,
        }),
{
    match i {
        Some(k) => if k < s.len() {
            s[k]
        } else {
            default
        },
        None => default,
    }
}

fn write_cell<T>(s: &mut Vec<T>, i: Option<usize>, v: T)
    ensures
        final(s)@ == (match i {
            Some(k) => if k < old(s)@.len() {
                old(s)@.update(k as int, v)
            } else {
                old(s)@
            },
            None => old(s)@,
        }),
{
    if let Some(k) = i {
        if k < s.len() {
            s[k] = v;
        }
    }
}

/// Column and row of a four-by-four block in its macroblock: two bits select
/// the quadrant and two the block inside it.
pub open spec fn blk_pos(blk: int) -> (int, int) {
    (2 * ((blk / 4) % 2) + blk % 2, 2 * (blk / 8) + (blk / 2) % 2)
}

pub fn blk_xy(blk_idx: u32) -> (r: (u32, u32))
    ensures
        r.0 == blk_pos(blk_idx as int).0,
        r.1 == blk_pos(blk_idx as int).1,
        blk_idx < 16 ==> r.0 < 4 && r.1 < 4,
{
    let quadrant: u32 = blk_idx / 4;
    let within: u32 = blk_idx % 4;
    ((quadrant % 2) * 2 + within % 2, (quadrant / 2) * 2 + within / 2)
}

/// Column and row of a macroblock address in raster order.
pub fn mb_addr_xy(addr: u32, mbs_wide: u32) -> (r: (u32, u32))
    requires
        mbs_wide > 0,
    ensures
        r.0 == addr as int % mbs_wide as int,
        r.1 == addr as int / mbs_wide as int,
        r.0 < mbs_wide,
{
    (addr % mbs_wide, addr / mbs_wide)
}

/// The sixteen blocks of a macroblock lie at sixteen different positions.
pub proof fn law_block_positions_are_distinct(a: int, b: int)
    requires
        0 <= a < 16,
        0 <= b < 16,
    ensures
        0 <= blk_pos(a).0 < 4,
        0 <= blk_pos(a).1 < 4,
        blk_pos(a) == blk_pos(b) ==> a == b,
{
}

/// A macroblock address is its row times the width plus its column.
pub proof fn law_macroblock_address_round_trip(addr: int, mbs_wide: int)
    requires
        addr >= 0,
        mbs_wide > 0,
    ensures
        (addr / mbs_wide) * mbs_wide + addr % mbs_wide == addr,
        0 <= addr % mbs_wide < mbs_wide,
{
    vstd::arithmetic::div_mod::lemma_fundamental_div_mod(addr, mbs_wide);
    assert((addr / mbs_wide) * mbs_wide == mbs_wide * (addr / mbs_wide)) by (nonlinear_arith);
    vstd::arithmetic::div_mod::lemma_mod_bound(addr, mbs_wide);
}

// ------------------------------------------------------- coefficient counts
/// The predicted coefficient count of a block: the rounded-up average of its
/// two neighbours, the one that is available, or 0.
pub open spec fn nc_spec(left: Option<u8>, above: Option<u8>) -> int {
    match (left, above) {
        (Some(a), Some(b)) => (a + b + 1) / 2,
        (Some(a), None) => a as int,
        (None, Some(b)) => b as int,
        (None, None) => 0,
    }
}

pub fn nc_from_neighbours(left: Option<u8>, above: Option<u8>) -> (r: i32)
    ensures
        r == nc_spec(left, above),
        0 <= r <= 255,
{
    match (left, above) {
        (Some(a), Some(b)) => (a as i32 + b as i32 + 1) / 2,
        (Some(a), None) => a as i32,
        (None, Some(b)) => b as i32,
        (None, None) => 0,
    }
}

/// Coefficient counts of every four-by-four luma and chroma block.
pub struct NeighbourGrid {
    pub mbs_wide: u32,
    pub mbs_high: u32,
    pub luma: Vec<Option<u8>>,
    pub cb: Vec<Option<u8>>,
    pub cr: Vec<Option<u8>>,
}

/// The mathematical content of a [`NeighbourGrid`].
#[verifier::ext_equal]
pub struct Counts {
    pub wide: int,
    pub high: int,
    pub luma: Seq<Option<u8>>,
    pub cb: Seq<Option<u8>>,
    pub cr: Seq<Option<u8>>,
}

impl Counts {
    /// Every list has a cell for each block of the picture.
    pub open spec fn sized(self) -> bool {
        let n = self.wide * self.high;
        &&& self.luma.len() == 16 * n
        &&& self.cb.len() == 4 * n
        &&& self.cr.len() == 4 * n
    }

    pub open spec fn luma_at(self, x: int, y: int) -> Option<u8> {
        cell(self.luma, x, y, 4 * self.wide, 4 * self.high, None)
    }

    pub open spec fn chroma_at(self, comp: int, x: int, y: int) -> Option<u8> {
        if comp == 0 {
            cell(self.cb, x, y, 2 * self.wide, 2 * self.high, None)
        } else if comp == 1 {
            cell(self.cr, x, y, 2 * self.wide, 2 * self.high, None)
        } else {
            None
        }
    }

    pub open spec fn nc_luma(self, x: int, y: int) -> int {
        nc_spec(self.luma_at(x - 1, y), self.luma_at(x, y - 1))
    }

    pub open spec fn nc_chroma(self, comp: int, x: int, y: int) -> int {
        nc_spec(self.chroma_at(comp, x - 1, y), self.chroma_at(comp, x, y - 1))
    }

    pub open spec fn with_luma(self, x: int, y: int, n: u8) -> Counts {
        Counts { luma: with_cell(self.luma, x, y, 4 * self.wide, 4 * self.high, Some(n)), ..self }
    }

    pub open spec fn with_chroma(self, comp: int, x: int, y: int, n: u8) -> Counts {
        if comp == 0 {
            Counts { cb: with_cell(self.cb, x, y, 2 * self.wide, 2 * self.high, Some(n)), ..self }
        } else if comp == 1 {
            Counts { cr: with_cell(self.cr, x, y, 2 * self.wide, 2 * self.high, Some(n)), ..self }
        } else {
            self
        }
    }

    /// Luma blocks `from..16` of a macroblock set to no coefficients.
    pub open spec fn with_zero_luma(self, mb_x: int, mb_y: int, from: int) -> Counts
        decreases 16 - from,
    {
        if from >= 16 {
            self
        } else {
            self.with_luma(4 * mb_x + blk_pos(from).0, 4 * mb_y + blk_pos(from).1, 0).with_zero_luma(
                mb_x,
                mb_y,
                from + 1,
            )
        }
    }

    /// Chroma blocks `from..8` of a macroblock (four of each component) set to
    /// no coefficients.
    pub open spec fn with_zero_chroma(self, mb_x: int, mb_y: int, from: int) -> Counts
        decreases 8 - from,
    {
        if from >= 8 {
            self
        } else {
            self.with_chroma(
                from / 4,
                2 * mb_x + blk_pos(from % 4).0 % 2,
                2 * mb_y + blk_pos(from % 4).1 % 2,
                0,
            ).with_zero_chroma(mb_x, mb_y, from + 1)
        }
    }

    /// A macroblock without any coefficient.
    pub open spec fn with_zero_mb(self, mb_x: int, mb_y: int) -> Counts {
        self.with_zero_luma(mb_x, mb_y, 0).with_zero_chroma(mb_x, mb_y, 0)
    }
}

impl View for NeighbourGrid {
    type V = Counts;

    open spec fn view(&self) -> Counts {
        Counts {
            wide: self.mbs_wide as int,
            high: self.mbs_high as int,
            luma: self.luma@,
            cb: self.cb@,
            cr: self.cr@,
        }
    }
}

/// A picture whose four-by-four blocks can be counted in 32 bits.
pub open spec fn countable(mbs_wide: int, mbs_high: int) -> bool {
    &&& 0 <= mbs_wide && 4 * mbs_wide <= u32::MAX
    &&& 0 <= mbs_high && 4 * mbs_high <= u32::MAX
    &&& 16 * (mbs_wide * mbs_high) <= u32::MAX
}

pub proof fn lemma_countable(mbs_wide: int, mbs_high: int)
    requires
        countable(mbs_wide, mbs_high),
    ensures
        4 * mbs_wide <= u32::MAX,
        4 * mbs_high <= u32::MAX,
        mbs_wide * mbs_high <= u32::MAX,
        (4 * mbs_wide) * (4 * mbs_high) == 16 * (mbs_wide * mbs_high),
        (2 * mbs_wide) * (2 * mbs_high) == 4 * (mbs_wide * mbs_high),
{
    assert(0 <= mbs_wide * mbs_high) by (nonlinear_arith)
        requires
            0 <= mbs_wide,
            0 <= mbs_high,
    ;
    assert((4 * mbs_wide) * (4 * mbs_high) == 16 * (mbs_wide * mbs_high)) by (nonlinear_arith);
    assert((2 * mbs_wide) * (2 * mbs_high) == 4 * (mbs_wide * mbs_high)) by (nonlinear_arith);
}

fn filled<T: Copy>(n: usize, v: T) -> (s: Vec<T>)
    ensures
        s@ == Seq::new(n as nat, |i: int| v),
{
    let mut s: Vec<T> = Vec::new();
    for i in 0..n
        invariant
            s@ == Seq::new(i as nat, |k: int| v),
    {
        s.push(v);
        assert(s@ =~= Seq::new((i + 1) as nat, |k: int| v));
    }
    s
}

/// Whether a block, `per` of them along each side of a macroblock, lies outside
/// the picture or has a number of 32 bits.
pub open spec fn numbered_block(x: int, y: int, mbs_wide: int, mbs_high: int, per: int) -> bool {
    ||| countable(mbs_wide, mbs_high)
    ||| !(0 <= x < per * mbs_wide && 0 <= y < per * mbs_high)
    ||| y * (per * mbs_wide) + x <= u32::MAX
}

proof fn lemma_numbered_block(x: int, y: int, mbs_wide: int, mbs_high: int, per: int)
    requires
        numbered_block(x, y, mbs_wide, mbs_high, per),
        per == 4 || per == 2,
        0 <= mbs_wide,
        0 <= mbs_high,
    ensures
        row_indexed(x, y, per * mbs_wide, per * mbs_high),
        cell_index(x, y, per * mbs_wide, per * mbs_high) matches Some(i) ==> i <= u32::MAX,
{
    let (w, h) = (per * mbs_wide, per * mbs_high);
    if countable(mbs_wide, mbs_high) {
        lemma_countable(mbs_wide, mbs_high);
        if 0 <= x < w && 0 <= y < h {
            lemma_cell_bound(x, y, w, h);
        }
    }
}

impl NeighbourGrid {
    /// A grid with a cell for each block.
    pub open spec fn shaped(&self) -> bool {
        &&& 4 * self.mbs_wide <= u32::MAX
        &&& 4 * self.mbs_high <= u32::MAX
        &&& self@.sized()
    }

    /// A grid whose blocks can all be numbered.
    pub open spec fn wf(&self) -> bool {
        &&& countable(self.mbs_wide as int, self.mbs_high as int)
        &&& self@.sized()
    }

    /// Whether a luma block lies outside or can be numbered.
    pub open spec fn reaches_luma(&self, x: int, y: int) -> bool {
        numbered_block(x, y, self.mbs_wide as int, self.mbs_high as int, 4)
    }

    /// Whether a chroma block lies outside or can be numbered.
    pub open spec fn reaches_chroma(&self, x: int, y: int) -> bool {
        numbered_block(x, y, self.mbs_wide as int, self.mbs_high as int, 2)
    }

    /// A grid with nothing written.
    pub fn new(mbs_wide: u32, mbs_high: u32) -> (g: Self)
        requires
            4 * mbs_wide <= u32::MAX,
            4 * mbs_high <= u32::MAX,
            16 * (mbs_wide * mbs_high) <= usize::MAX,
        ensures
            g.shaped(),
            countable(mbs_wide as int, mbs_high as int) ==> g.wf(),
            g@ == fresh_counts(mbs_wide as int, mbs_high as int),
    {
        proof {
            assert(0 <= mbs_wide * mbs_high) by (nonlinear_arith)
                requires
                    0 <= mbs_wide,
                    0 <= mbs_high,
            ;
        }
        let cells: usize = mbs_wide as usize * mbs_high as usize;
        NeighbourGrid {
            mbs_wide,
            mbs_high,
            luma: filled(16 * cells, None),
            cb: filled(4 * cells, None),
            cr: filled(4 * cells, None),
        }
    }

    pub fn luma_idx(&self, x: u32, y: u32) -> (r: Option<usize>)
        requires
            self.shaped(),
            self.reaches_luma(x as int, y as int),
        ensures
            match cell_index(x as int, y as int, 4 * self@.wide, 4 * self@.high) {
                Some(i) => r == Some(i as usize) && i <= usize::MAX,
                None => r is None,
            },
    {
        proof {
            lemma_numbered_block(
                x as int,
                y as int,
                self.mbs_wide as int,
                self.mbs_high as int,
                4,
            );
        }
        idx_2d(x, y, self.mbs_wide * 4, self.mbs_high * 4)
    }

    pub fn chroma_idx(&self, x: u32, y: u32) -> (r: Option<usize>)
        requires
            self.shaped(),
            self.reaches_chroma(x as int, y as int),
        ensures
            match cell_index(x as int, y as int, 2 * self@.wide, 2 * self@.high) {
                Some(i) => r == Some(i as usize) && i <= usize::MAX,
                None => r is None,
            },
    {
        proof {
            lemma_numbered_block(
                x as int,
                y as int,
                self.mbs_wide as int,
                self.mbs_high as int,
                2,
            );
        }
        idx_2d(x, y, self.mbs_wide * 2, self.mbs_high * 2)
    }

    /// The predicted coefficient count of a luma block.
    pub fn nc_luma(&self, x: u32, y: u32) -> (r: i32)
        requires
            self.shaped(),
            self.reaches_luma(x - 1, y as int),
            self.reaches_luma(x as int, y - 1),
        ensures
            r == self@.nc_luma(x as int, y as int),
            0 <= r <= 255,
    {
        let left: Option<u8> = if x > 0 {
            read_cell(&self.luma, self.luma_idx(x - 1, y), None)
        } else {
            None
        };
        let above: Option<u8> = if y > 0 {
            read_cell(&self.luma, self.luma_idx(x, y - 1), None)
        } else {
            None
        };
        nc_from_neighbours(left, above)
    }

    fn chroma_count(&self, comp: usize, i: Option<usize>) -> (r: Option<u8>)
        ensures
            comp == 0 ==> r == (match i {
                Some(k) => if k < self.cb@.len() {
                    self.cb@[k as int]
                } else {
                    None
                },
                None => None,
            }),
            comp == 1 ==> r == (match i {
                Some(k) => if k < self.cr@.len() {
                    self.cr@[k as int]
                } else {
                    None
                },
                None => None,
            }),
            comp > 1 ==> r is None,
    {
        if comp == 0 {
            read_cell(&self.cb, i, None)
        } else if comp == 1 {
            read_cell(&self.cr, i, None)
        } else {
            None
        }
    }

    /// The predicted coefficient count of a chroma block.
    pub fn nc_chroma(&self, comp: usize, x: u32, y: u32) -> (r: i32)
        requires
            self.shaped(),
            self.reaches_chroma(x - 1, y as int),
            self.reaches_chroma(x as int, y - 1),
        ensures
            r == self@.nc_chroma(comp as int, x as int, y as int),
            0 <= r <= 255,
    {
        let left: Option<u8> = if x > 0 {
            self.chroma_count(comp, self.chroma_idx(x - 1, y))
        } else {
            None
        };
        let above: Option<u8> = if y > 0 {
            self.chroma_count(comp, self.chroma_idx(x, y - 1))
        } else {
            None
        };
        nc_from_neighbours(left, above)
    }

    pub fn set_luma(&mut self, x: u32, y: u32, total_coeff: u8)
        requires
            old(self).shaped(),
            old(self).reaches_luma(x as int, y as int),
        ensures
            final(self).shaped(),
            old(self).wf() ==> final(self).wf(),
            final(self)@ == old(self)@.with_luma(x as int, y as int, total_coeff),
    {
        let i: Option<usize> = self.luma_idx(x, y);
        write_cell(&mut self.luma, i, Some(total_coeff));
    }

    pub fn set_chroma(&mut self, comp: usize, x: u32, y: u32, total_coeff: u8)
        requires
            old(self).shaped(),
            old(self).reaches_chroma(x as int, y as int),
        ensures
            final(self).shaped(),
            old(self).wf() ==> final(self).wf(),
            final(self)@ == old(self)@.with_chroma(comp as int, x as int, y as int, total_coeff),
    {
        let i: Option<usize> = self.chroma_idx(x, y);
        if comp == 0 {
            write_cell(&mut self.cb, i, Some(total_coeff));
        } else if comp == 1 {
            write_cell(&mut self.cr, i, Some(total_coeff));
        }
    }
}

/// A grid with nothing written.
pub open spec fn fresh_counts(mbs_wide: int, mbs_high: int) -> Counts {
    let n = (mbs_wide * mbs_high) as nat;
    Counts {
        wide: mbs_wide,
        high: mbs_high,
        luma: Seq::new(16 * n, |i: int| None),
        cb: Seq::new(4 * n, |i: int| None),
        cr: Seq::new(4 * n, |i: int| None),
    }
}

/// A macroblock position inside the picture.
pub open spec fn mb_inside(mb_x: int, mb_y: int, wide: int, high: int) -> bool {
    0 <= mb_x < wide && 0 <= mb_y < high
}

/// A macroblock position whose blocks have 32-bit coordinates.
pub open spec fn addressable(mb_x: int, mb_y: int) -> bool {
    0 <= mb_x && 0 <= mb_y && 4 * mb_x + 4 <= u32::MAX && 4 * mb_y + 4 <= u32::MAX
}

/// Records a macroblock without coefficients, skipped or not. Outside the
/// picture there is nothing to record.
pub fn zero_out_mb_neighbours(grid: &mut NeighbourGrid, mb_x: u32, mb_y: u32)
    requires
        old(grid).wf(),
        addressable(mb_x as int, mb_y as int),
    ensures
        final(grid).wf(),
        final(grid)@ == old(grid)@.with_zero_mb(mb_x as int, mb_y as int),
{
    let ghost start = grid@;
    for blk in 0..16u32
        invariant
            grid.wf(),
            addressable(mb_x as int, mb_y as int),
            start.with_zero_luma(mb_x as int, mb_y as int, 0) == grid@.with_zero_luma(
                mb_x as int,
                mb_y as int,
                blk as int,
            ),
    {
        let (bx, by) = blk_xy(blk);
        grid.set_luma(mb_x * 4 + bx, mb_y * 4 + by, 0);
    }
    let ghost middle = grid@;
    for k in 0..8u32
        invariant
            grid.wf(),
            addressable(mb_x as int, mb_y as int),
            middle.with_zero_chroma(mb_x as int, mb_y as int, 0) == grid@.with_zero_chroma(
                mb_x as int,
                mb_y as int,
                k as int,
            ),
    {
        let (bx, by) = blk_xy(k % 4);
        grid.set_chroma((k / 4) as usize, mb_x * 2 + bx % 2, mb_y * 2 + by % 2, 0);
    }
}

// ------------------------------------------------------------------- motion
/// One value per reference list.
#[derive(Debug, Clone, Copy)]
pub struct Lists<T> {
    pub l0: T,
    pub l1: T,
}

impl<T> Lists<T> {
    pub open spec fn at(self, list: int) -> T {
        if list == 0 {
            self.l0
        } else {
            self.l1
        }
    }

    pub open spec fn with(self, list: int, v: T) -> Lists<T> {
        if list == 0 {
            Lists { l0: v, l1: self.l1 }
        } else {
            Lists { l0: self.l0, l1: v }
        }
    }
}

impl<T: Copy> Lists<T> {
    pub fn get(&self, list: usize) -> (v: T)
        requires
            list < 2,
        ensures
            v == self.at(list as int),
    {
        if list == 0 {
            self.l0
        } else {
            self.l1
        }
    }

    pub fn set(&mut self, list: usize, v: T)
        requires
            list < 2,
        ensures
            *final(self) == old(self).with(list as int, v),
    {
        if list == 0 {
            self.l0 = v;
        } else {
            self.l1 = v;
        }
    }
}

/// A motion vector or difference, in quarter samples.
pub type Mv = (i16, i16);

/// One four-by-four luma block's motion.
#[derive(Debug, Clone, Copy)]
pub struct MvInfo {
    /// The macroblock around the block has been decoded in this slice, whatever
    /// its kind.
    pub mb_available: bool,
    /// Which lists the block predicts from, if any.
    pub pred: Option<PartPred>,
    /// The reference indices as read: only those of a list that `pred` names
    /// mean anything.
    pub ref_idx: Lists<i8>,
    /// The vector differences as read.
    pub mvd: Lists<Mv>,
    /// The derived vectors.
    pub mv: Lists<Mv>,
    /// The block is skipped or direct: its motion was derived, not read.
    pub direct_or_skip: bool,
}

/// A block that nothing is known of.
pub open spec fn no_motion() -> MvInfo {
    MvInfo {
        mb_available: false,
        pred: None,
        ref_idx: Lists { l0: 0, l1: 0 },
        mvd: Lists { l0: (0, 0), l1: (0, 0) },
        mv: Lists { l0: (0, 0), l1: (0, 0) },
        direct_or_skip: false,
    }
}

impl Default for MvInfo {
    fn default() -> (r: Self)
        ensures
            r == no_motion(),
    {
        MvInfo {
            mb_available: false,
            pred: None,
            ref_idx: Lists { l0: 0, l1: 0 },
            mvd: Lists { l0: (0, 0), l1: (0, 0) },
            mv: Lists { l0: (0, 0), l1: (0, 0) },
            direct_or_skip: false,
        }
    }
}

impl MvInfo {
    /// Whether the block predicts from a list.
    pub open spec fn uses(self, list: int) -> bool {
        match self.pred {
            Some(p) => p.uses(list),
            None => false,
        }
    }

    /// What motion prediction sees of the block in one list.
    pub open spec fn neighbour(self, list: int) -> Neighbour {
        Neighbour {
            available: self.mb_available,
            ref_idx: if self.uses(list) {
                self.ref_idx.at(list)
            } else {
                -1i8
            },
            mv: if self.uses(list) {
                self.mv.at(list)
            } else {
                (0i16, 0i16)
            },
        }
    }

    /// The reference index in a list, -1 where the list is not used.
    pub open spec fn reference(self, list: int) -> i8 {
        if self.uses(list) {
            self.ref_idx.at(list)
        } else {
            -1i8
        }
    }

    pub fn is_inter(&self) -> (r: bool)
        ensures
            r == self.pred is Some,
    {
        self.pred.is_some()
    }

    pub fn reads_l0(&self) -> (r: bool)
        ensures
            r == self.uses(0),
    {
        match self.pred {
            Some(p) => p.reads_l0(),
            None => false,
        }
    }

    pub fn reads_l1(&self) -> (r: bool)
        ensures
            r == self.uses(1),
    {
        match self.pred {
            Some(p) => p.reads_l1(),
            None => false,
        }
    }

    pub fn ref_idx_l0(&self) -> (r: i8)
        ensures
            r == self.reference(0),
    {
        if self.reads_l0() {
            self.ref_idx.l0
        } else {
            -1
        }
    }

    pub fn ref_idx_l1(&self) -> (r: i8)
        ensures
            r == self.reference(1),
    {
        if self.reads_l1() {
            self.ref_idx.l1
        } else {
            -1
        }
    }

    pub fn mv_l0(&self) -> (r: Mv)
        ensures
            r == self.mv.l0,
    {
        self.mv.l0
    }

    pub fn mv_l1(&self) -> (r: Mv)
        ensures
            r == self.mv.l1,
    {
        self.mv.l1
    }

    pub fn as_motion_neighbour(self, list: usize) -> (r: Neighbour)
        ensures
            r == self.neighbour(list as int),
    {
        let reads: bool = match self.pred {
            Some(p) => p.reads(list),
            None => false,
        };
        if reads {
            Neighbour {
                available: self.mb_available,
                ref_idx: self.ref_idx.get(list),
                mv: self.mv.get(list),
            }
        } else {
            Neighbour { available: self.mb_available, ref_idx: -1, mv: (0, 0) }
        }
    }
}

// ------------------------------------------------------------------- grids
/// What later macroblocks need to know of one macroblock.
#[derive(Debug, Clone, Copy, PartialEq, Eq, Structural)]
pub struct CabacMbInfo {
    /// Decoded in this slice.
    pub available: bool,
    pub skipped: bool,
    pub is_intra4x4: bool,
    pub is_intra8x8: bool,
    pub is_intra: bool,
    pub is_intra16x16: bool,
    pub is_ipcm: bool,
    pub cbp_luma: u8,
    pub cbp_chroma: u8,
    pub intra_chroma_pred_mode: u8,
    pub intra16x16_pred_mode: u8,
    pub transform_8x8: bool,
    pub is_b_direct16x16: bool,
}

/// A macroblock that nothing is known of.
pub open spec fn no_mb_info() -> CabacMbInfo {
    CabacMbInfo {
        available: false,
        skipped: false,
        is_intra4x4: false,
        is_intra8x8: false,
        is_intra: false,
        is_intra16x16: false,
        is_ipcm: false,
        cbp_luma: 0,
        cbp_chroma: 0,
        intra_chroma_pred_mode: 0,
        intra16x16_pred_mode: 0,
        transform_8x8: false,
        is_b_direct16x16: false,
    }
}

impl Default for CabacMbInfo {
    fn default() -> (r: Self)
        ensures
            r == no_mb_info(),
    {
        CabacMbInfo {
            available: false,
            skipped: false,
            is_intra4x4: false,
            is_intra8x8: false,
            is_intra: false,
            is_intra16x16: false,
            is_ipcm: false,
            cbp_luma: 0,
            cbp_chroma: 0,
            intra_chroma_pred_mode: 0,
            intra16x16_pred_mode: 0,
            transform_8x8: false,
            is_b_direct16x16: false,
        }
    }
}

/// A count that stays at the largest 32-bit value.
pub open spec fn saturated32(v: int) -> int {
    if v > u32::MAX {
        u32::MAX as int
    } else {
        v
    }
}

/// How many macroblocks, luma blocks and chroma blocks of a component a picture
/// has, as far as 32 bits count.
pub open spec fn grid_cells(wide: int, high: int) -> (int, int, int) {
    (
        saturated32(wide * high),
        saturated32(saturated32(4 * wide) * saturated32(4 * high)),
        saturated32(saturated32(2 * wide) * saturated32(2 * high)),
    )
}

/// What the grids charge, in order: thirteen bytes of facts for each
/// macroblock, a flag for each luma block and for each chroma block of either
/// component, three flags for each macroblock, and for each luma block
/// twenty-two bytes of motion and two of mode.
pub open spec fn grid_charges(wide: int, high: int) -> Seq<int> {
    let (n, luma, chroma) = grid_cells(wide, high);
    seq![13 * n, luma, chroma, chroma, n, n, n, 22 * luma, 2 * luma]
}

/// What the grids charge altogether.
#[verifier::opaque]
pub open spec fn grids_charge(wide: int, high: int) -> int {
    let (n, luma, chroma) = grid_cells(wide, high);
    16 * n + 25 * luma + 2 * chroma
}

/// A picture whose blocks 32 bits can number, or one that the budget refuses.
pub open spec fn numbered_or_refused(wide: int, high: int, room: int) -> bool {
    countable(at_least_one(wide), at_least_one(high)) || grids_charge(wide, high) > room
}

/// The blocks of a picture that 32 bits can number are counted exactly: 424
/// bytes are charged for each macroblock.
pub proof fn law_grids_charge_by_the_macroblock(wide: int, high: int)
    requires
        0 <= wide,
        0 <= high,
        countable(at_least_one(wide), at_least_one(high)),
    ensures
        0 <= wide * high,
        grid_cells(wide, high) == (wide * high, 16 * (wide * high), 4 * (wide * high)),
        grids_charge(wide, high) == 424 * (wide * high),
{
    reveal(grids_charge);
    if wide == 0 || high == 0 {
        assert(wide * high == 0) by (nonlinear_arith)
            requires
                wide == 0 || high == 0,
        ;
        assert(saturated32(4 * wide) * saturated32(4 * high) == 0) by (nonlinear_arith)
            requires
                saturated32(4 * wide) == 0 || saturated32(4 * high) == 0,
        ;
        assert(saturated32(2 * wide) * saturated32(2 * high) == 0) by (nonlinear_arith)
            requires
                saturated32(2 * wide) == 0 || saturated32(2 * high) == 0,
        ;
    } else {
        lemma_countable(wide, high);
    }
}

/// The product of two counts, at most the largest 32-bit value.
fn product32(a: u32, b: u32) -> (r: u32)
    ensures
        r == saturated32(a * b),
{
    proof {
        assert(0 <= a * b <= 0xffff_ffff * 0xffff_ffff) by (nonlinear_arith)
            requires
                0 <= a <= 0xffff_ffff,
                0 <= b <= 0xffff_ffff,
        ;
    }
    let p: u64 = a as u64 * b as u64;
    if p > 0xffff_ffff {
        u32::MAX
    } else {
        p as u32
    }
}

/// The neighbour state of one slice.
pub struct CabacGrids {
    pub mbs_wide: u32,
    pub mbs_high: u32,
    /// What [`CabacGrids::new`] charged.
    pub charged_bytes: u64,
    pub mb_info: Vec<CabacMbInfo>,
    pub cbf_luma: Vec<Option<bool>>,
    pub cbf_cb: Vec<Option<bool>>,
    pub cbf_cr: Vec<Option<bool>>,
    pub cbf_cb_dc: Vec<Option<bool>>,
    pub cbf_cr_dc: Vec<Option<bool>>,
    pub cbf_luma_dc: Vec<Option<bool>>,
    pub mv: Vec<MvInfo>,
    pub intra4x4_pred_mode: Vec<Option<u8>>,
    /// The macroblock whose own facts are not known yet.
    pub currently_decoding: Option<(u32, u32)>,
}

/// The mathematical content of [`CabacGrids`].
#[verifier::ext_equal]
pub struct Grids {
    pub wide: int,
    pub high: int,
    pub mb_info: Seq<CabacMbInfo>,
    pub cbf_luma: Seq<Option<bool>>,
    pub cbf_cb: Seq<Option<bool>>,
    pub cbf_cr: Seq<Option<bool>>,
    pub cbf_cb_dc: Seq<Option<bool>>,
    pub cbf_cr_dc: Seq<Option<bool>>,
    pub cbf_luma_dc: Seq<Option<bool>>,
    pub mv: Seq<MvInfo>,
    pub modes: Seq<Option<u8>>,
    pub current: Option<(u32, u32)>,
}

impl View for CabacGrids {
    type V = Grids;

    open spec fn view(&self) -> Grids {
        Grids {
            wide: self.mbs_wide as int,
            high: self.mbs_high as int,
            mb_info: self.mb_info@,
            cbf_luma: self.cbf_luma@,
            cbf_cb: self.cbf_cb@,
            cbf_cr: self.cbf_cr@,
            cbf_cb_dc: self.cbf_cb_dc@,
            cbf_cr_dc: self.cbf_cr_dc@,
            cbf_luma_dc: self.cbf_luma_dc@,
            mv: self.mv@,
            modes: self.intra4x4_pred_mode@,
            current: self.currently_decoding,
        }
    }
}

/// Grids with nothing written, over `n` macroblocks.
pub open spec fn fresh_grids(wide: int, high: int, n: nat) -> Grids {
    Grids {
        wide,
        high,
        mb_info: Seq::new(n, |i: int| no_mb_info()),
        cbf_luma: Seq::new(16 * n, |i: int| None),
        cbf_cb: Seq::new(4 * n, |i: int| None),
        cbf_cr: Seq::new(4 * n, |i: int| None),
        cbf_cb_dc: Seq::new(n, |i: int| None),
        cbf_cr_dc: Seq::new(n, |i: int| None),
        cbf_luma_dc: Seq::new(n, |i: int| None),
        mv: Seq::new(16 * n, |i: int| no_motion()),
        modes: Seq::new(16 * n, |i: int| None),
        current: None,
    }
}

/// At least one in each direction.
pub open spec fn at_least_one(n: int) -> int {
    if n < 1 {
        1
    } else {
        n
    }
}

impl Grids {
    /// Every list has a cell for each macroblock or block of the picture, or
    /// none has any: those of a picture without width or height.
    #[verifier::opaque]
    pub open spec fn sized(self) -> bool {
        let n = self.mb_info.len();
        &&& n == self.wide * self.high || n == 0
        &&& self.cbf_luma.len() == 16 * n
        &&& self.cbf_cb.len() == 4 * n
        &&& self.cbf_cr.len() == 4 * n
        &&& self.cbf_cb_dc.len() == n
        &&& self.cbf_cr_dc.len() == n
        &&& self.cbf_luma_dc.len() == n
        &&& self.mv.len() == 16 * n
        &&& self.modes.len() == 16 * n
    }

    /// The lists have their cells: the picture has width and height.
    pub open spec fn whole(self) -> bool {
        self.sized() && self.mb_info.len() == self.wide * self.high
    }

    pub open spec fn mb_at(self, x: int, y: int) -> Option<CabacMbInfo> {
        let info = cell(self.mb_info, x, y, self.wide, self.high, no_mb_info());
        if info.available {
            Some(info)
        } else {
            None
        }
    }

    pub open spec fn left_of(self, x: int, y: int) -> Option<CabacMbInfo> {
        self.mb_at(x - 1, y)
    }

    pub open spec fn above(self, x: int, y: int) -> Option<CabacMbInfo> {
        self.mb_at(x, y - 1)
    }

    pub open spec fn with_mb(self, x: u32, y: u32, info: CabacMbInfo) -> Grids {
        Grids {
            mb_info: with_cell(self.mb_info, x as int, y as int, self.wide, self.high, info),
            current: if self.current == Some((x, y)) {
                None
            } else {
                self.current
            },
            ..self
        }
    }

    pub open spec fn mv_at(self, x: int, y: int) -> MvInfo {
        cell(self.mv, x, y, 4 * self.wide, 4 * self.high, no_motion())
    }

    pub open spec fn with_mv(self, x: int, y: int, v: MvInfo) -> Grids {
        Grids { mv: with_cell(self.mv, x, y, 4 * self.wide, 4 * self.high, v), ..self }
    }

    pub open spec fn mode_at(self, x: int, y: int) -> Option<u8> {
        cell(self.modes, x, y, 4 * self.wide, 4 * self.high, None)
    }

    pub open spec fn with_mode(self, x: int, y: int, v: u8) -> Grids {
        Grids { modes: with_cell(self.modes, x, y, 4 * self.wide, 4 * self.high, Some(v)), ..self }
    }

    pub open spec fn luma_flag(self, x: int, y: int) -> Option<bool> {
        cell(self.cbf_luma, x, y, 4 * self.wide, 4 * self.high, None)
    }

    pub open spec fn with_luma_flag(self, x: int, y: int, v: bool) -> Grids {
        Grids {
            cbf_luma: with_cell(self.cbf_luma, x, y, 4 * self.wide, 4 * self.high, Some(v)),
            ..self
        }
    }

    pub open spec fn luma_dc_flag(self, x: int, y: int) -> Option<bool> {
        cell(self.cbf_luma_dc, x, y, self.wide, self.high, None)
    }

    pub open spec fn with_luma_dc_flag(self, x: int, y: int, v: bool) -> Grids {
        Grids {
            cbf_luma_dc: with_cell(self.cbf_luma_dc, x, y, self.wide, self.high, Some(v)),
            ..self
        }
    }

    pub open spec fn chroma_flag(self, comp: int, x: int, y: int) -> Option<bool> {
        if comp == 0 {
            cell(self.cbf_cb, x, y, 2 * self.wide, 2 * self.high, None)
        } else if comp == 1 {
            cell(self.cbf_cr, x, y, 2 * self.wide, 2 * self.high, None)
        } else {
            None
        }
    }

    pub open spec fn with_chroma_flag(self, comp: int, x: int, y: int, v: bool) -> Grids {
        if comp == 0 {
            Grids {
                cbf_cb: with_cell(self.cbf_cb, x, y, 2 * self.wide, 2 * self.high, Some(v)),
                ..self
            }
        } else if comp == 1 {
            Grids {
                cbf_cr: with_cell(self.cbf_cr, x, y, 2 * self.wide, 2 * self.high, Some(v)),
                ..self
            }
        } else {
            self
        }
    }

    pub open spec fn chroma_dc_flag(self, comp: int, x: int, y: int) -> Option<bool> {
        if comp == 0 {
            cell(self.cbf_cb_dc, x, y, self.wide, self.high, None)
        } else if comp == 1 {
            cell(self.cbf_cr_dc, x, y, self.wide, self.high, None)
        } else {
            None
        }
    }

    pub open spec fn with_chroma_dc_flag(self, comp: int, x: int, y: int, v: bool) -> Grids {
        if comp == 0 {
            Grids {
                cbf_cb_dc: with_cell(self.cbf_cb_dc, x, y, self.wide, self.high, Some(v)),
                ..self
            }
        } else if comp == 1 {
            Grids {
                cbf_cr_dc: with_cell(self.cbf_cr_dc, x, y, self.wide, self.high, Some(v)),
                ..self
            }
        } else {
            self
        }
    }

    /// Whether the macroblock around a block position is known, the one being
    /// decoded included.
    pub open spec fn owner_available(self, gx: int, gy: int, cur_x: int, cur_y: int) -> bool {
        &&& gx >= 0
        &&& gy >= 0
        &&& gx / 4 < self.wide
        &&& gy / 4 < self.high
        &&& (gx / 4 == cur_x && gy / 4 == cur_y) || self.mb_at(gx / 4, gy / 4) is Some
    }
}

impl CabacGrids {
    pub open spec fn wf(&self) -> bool {
        &&& countable(self.mbs_wide as int, self.mbs_high as int)
        &&& self@.sized()
    }

    /// Fresh grids for a picture, charged to the budget list by list. Where one
    /// does not fit, those before it stay charged.
    pub fn new(mbs_wide: u32, mbs_high: u32, budget: &mut Budget) -> (r: Result<Self, Error>)
        requires
            numbered_or_refused(mbs_wide as int, mbs_high as int, old(budget).room()),
        ensures
            final(budget).limit == old(budget).limit,
            final(budget).committed >= old(budget).committed,
            match fresh_grids_for(mbs_wide as int, mbs_high as int, old(budget).room()) {
                Ok((g, charge)) => r matches Ok(x) && x@ == g && x.wf() && x.charged_bytes == charge
                    && final(budget).committed == old(budget).committed + charge,
                Err(e) => r matches Err(f) && e == f && final(budget).committed == old(
                    budget).committed + charged_from(
                    grid_charges(mbs_wide as int, mbs_high as int),
                    old(budget).room(),
                    0,
                ),
            },
    {
        proof {
            reveal(grids_charge);
            reveal_with_fuel(charged_from, 10);
        }
        let n: u32 = product32(mbs_wide, mbs_high);
        let luma: u32 = product32(product32(mbs_wide, 4), product32(mbs_high, 4));
        let chroma: u32 = product32(product32(mbs_wide, 2), product32(mbs_high, 2));
        assert((n as int, luma as int, chroma as int) == grid_cells(
            mbs_wide as int,
            mbs_high as int,
        ));
        budget.charge(13 * n as u64)?;
        budget.charge(luma as u64)?;
        budget.charge(chroma as u64)?;
        budget.charge(chroma as u64)?;
        budget.charge(n as u64)?;
        budget.charge(n as u64)?;
        budget.charge(n as u64)?;
        budget.charge(22 * luma as u64)?;
        budget.charge(2 * luma as u64)?;
        proof {
            law_grids_charge_by_the_macroblock(mbs_wide as int, mbs_high as int);
            reveal(Grids::sized);
        }
        let (n, luma, chroma) = (n as usize, luma as usize, chroma as usize);
        let grids = CabacGrids {
            mbs_wide: if mbs_wide < 1 {
                1
            } else {
                mbs_wide
            },
            mbs_high: if mbs_high < 1 {
                1
            } else {
                mbs_high
            },
            charged_bytes: 16 * n as u64 + 25 * luma as u64 + 2 * chroma as u64,
            mb_info: filled(n, CabacMbInfo::default()),
            cbf_luma: filled(luma, None),
            cbf_cb: filled(chroma, None),
            cbf_cr: filled(chroma, None),
            cbf_cb_dc: filled(n, None),
            cbf_cr_dc: filled(n, None),
            cbf_luma_dc: filled(n, None),
            mv: filled(luma, MvInfo::default()),
            intra4x4_pred_mode: filled(luma, None),
            currently_decoding: None,
        };
        assert(grids@ =~= fresh_grids(
            at_least_one(mbs_wide as int),
            at_least_one(mbs_high as int),
            (mbs_wide * mbs_high) as nat,
        ));
        assert(mbs_wide < 1 || mbs_high < 1 ==> mbs_wide * mbs_high == 0) by (nonlinear_arith);
        Ok(grids)
    }

    /// Gives back what [`CabacGrids::new`] charged.
    pub fn release(&self, budget: &mut Budget)
        ensures
            final(budget).limit == old(budget).limit,
            final(budget).committed == (if self.charged_bytes <= old(budget).committed {
                old(budget).committed - self.charged_bytes
            } else {
                0
            }),
    {
        budget.release(self.charged_bytes);
    }

    /// Marks the macroblock now being decoded.
    pub fn begin_macroblock(&mut self, mb_x: u32, mb_y: u32)
        requires
            old(self).wf(),
        ensures
            final(self).wf(),
            final(self).charged_bytes == old(self).charged_bytes,
            final(self)@ == (Grids { current: Some((mb_x, mb_y)), ..old(self)@ }),
    {
        proof {
            reveal(Grids::sized);
        }
        self.currently_decoding = Some((mb_x, mb_y));
    }

    /// What a block sees of its own macroblock: available, and never raw
    /// samples.
    pub fn current_macroblock_info() -> (r: CabacMbInfo)
        ensures
            r == own_mb_info(),
    {
        CabacMbInfo {
            available: true,
            skipped: false,
            is_intra4x4: false,
            is_intra8x8: false,
            is_intra: false,
            is_intra16x16: false,
            is_ipcm: false,
            cbp_luma: 0,
            cbp_chroma: 0,
            intra_chroma_pred_mode: 0,
            intra16x16_pred_mode: 0,
            transform_8x8: false,
            is_b_direct16x16: false,
        }
    }

    pub fn mb_info_idx(&self, mb_x: u32, mb_y: u32) -> (r: Option<usize>)
        requires
            self.wf(),
        ensures
            match cell_index(mb_x as int, mb_y as int, self@.wide, self@.high) {
                Some(i) => r == Some(i as usize) && i <= usize::MAX,
                None => r is None,
            },
    {
        proof {
            lemma_countable(self.mbs_wide as int, self.mbs_high as int);
        }
        idx_2d(mb_x, mb_y, self.mbs_wide, self.mbs_high)
    }

    pub fn cbf_chroma_dc_at(&self, comp: usize, mb_x: u32, mb_y: u32) -> (r: Option<bool>)
        requires
            self.wf(),
        ensures
            r == self@.chroma_dc_flag(comp as int, mb_x as int, mb_y as int),
    {
        let i: Option<usize> = self.mb_info_idx(mb_x, mb_y);
        if comp == 0 {
            read_cell(&self.cbf_cb_dc, i, None)
        } else if comp == 1 {
            read_cell(&self.cbf_cr_dc, i, None)
        } else {
            None
        }
    }

    pub fn set_cbf_chroma_dc(&mut self, comp: usize, mb_x: u32, mb_y: u32, v: bool)
        requires
            old(self).wf(),
        ensures
            final(self).wf(),
            final(self).charged_bytes == old(self).charged_bytes,
            final(self)@ == old(self)@.with_chroma_dc_flag(
                comp as int,
                mb_x as int,
                mb_y as int,
                v,
            ),
    {
        proof {
            reveal(Grids::sized);
        }
        let i: Option<usize> = self.mb_info_idx(mb_x, mb_y);
        if comp == 0 {
            write_cell(&mut self.cbf_cb_dc, i, Some(v));
        } else if comp == 1 {
            write_cell(&mut self.cbf_cr_dc, i, Some(v));
        }
    }

    pub fn cbf_luma_dc_at(&self, mb_x: u32, mb_y: u32) -> (r: Option<bool>)
        requires
            self.wf(),
        ensures
            r == self@.luma_dc_flag(mb_x as int, mb_y as int),
    {
        read_cell(&self.cbf_luma_dc, self.mb_info_idx(mb_x, mb_y), None)
    }

    pub fn set_cbf_luma_dc(&mut self, mb_x: u32, mb_y: u32, v: bool)
        requires
            old(self).wf(),
        ensures
            final(self).wf(),
            final(self).charged_bytes == old(self).charged_bytes,
            final(self)@ == old(self)@.with_luma_dc_flag(mb_x as int, mb_y as int, v),
    {
        proof {
            reveal(Grids::sized);
        }
        let i: Option<usize> = self.mb_info_idx(mb_x, mb_y);
        write_cell(&mut self.cbf_luma_dc, i, Some(v));
    }

    /// The facts of a macroblock, if it has been decoded. The macroblock being
    /// decoded has none yet and must not be asked for.
    pub fn mb_info_at(&self, mb_x: u32, mb_y: u32) -> (r: Option<CabacMbInfo>)
        requires
            self.wf(),
            self@.current != Some((mb_x, mb_y)),
        ensures
            r == self@.mb_at(mb_x as int, mb_y as int),
    {
        let info: CabacMbInfo = read_cell(
            &self.mb_info,
            self.mb_info_idx(mb_x, mb_y),
            CabacMbInfo::default(),
        );
        if info.available {
            Some(info)
        } else {
            None
        }
    }

    pub fn mb_left(&self, mb_x: u32, mb_y: u32) -> (r: Option<CabacMbInfo>)
        requires
            self.wf(),
            mb_x > 0 ==> self@.current != Some(((mb_x - 1) as u32, mb_y)),
        ensures
            r == self@.left_of(mb_x as int, mb_y as int),
    {
        if mb_x > 0 {
            self.mb_info_at(mb_x - 1, mb_y)
        } else {
            None
        }
    }

    pub fn mb_above(&self, mb_x: u32, mb_y: u32) -> (r: Option<CabacMbInfo>)
        requires
            self.wf(),
            mb_y > 0 ==> self@.current != Some((mb_x, (mb_y - 1) as u32)),
        ensures
            r == self@.above(mb_x as int, mb_y as int),
    {
        if mb_y > 0 {
            self.mb_info_at(mb_x, mb_y - 1)
        } else {
            None
        }
    }

    /// Makes a macroblock's facts known, and ends its decoding.
    pub fn set_mb_info(&mut self, mb_x: u32, mb_y: u32, info: CabacMbInfo)
        requires
            old(self).wf(),
        ensures
            final(self).wf(),
            final(self).charged_bytes == old(self).charged_bytes,
            final(self)@ == old(self)@.with_mb(mb_x, mb_y, info),
    {
        proof {
            reveal(Grids::sized);
        }
        let ends: bool = match self.currently_decoding {
            Some((x, y)) => x == mb_x && y == mb_y,
            None => false,
        };
        if ends {
            self.currently_decoding = None;
        }
        let i: Option<usize> = self.mb_info_idx(mb_x, mb_y);
        write_cell(&mut self.mb_info, i, info);
    }

    pub fn luma4_idx(&self, x: u32, y: u32) -> (r: Option<usize>)
        requires
            self.wf(),
        ensures
            match cell_index(x as int, y as int, 4 * self@.wide, 4 * self@.high) {
                Some(i) => r == Some(i as usize) && i <= usize::MAX,
                None => r is None,
            },
    {
        proof {
            lemma_countable(self.mbs_wide as int, self.mbs_high as int);
        }
        idx_2d(x, y, self.mbs_wide * 4, self.mbs_high * 4)
    }

    pub fn chroma4_idx(&self, x: u32, y: u32) -> (r: Option<usize>)
        requires
            self.wf(),
        ensures
            match cell_index(x as int, y as int, 2 * self@.wide, 2 * self@.high) {
                Some(i) => r == Some(i as usize) && i <= usize::MAX,
                None => r is None,
            },
    {
        proof {
            lemma_countable(self.mbs_wide as int, self.mbs_high as int);
        }
        idx_2d(x, y, self.mbs_wide * 2, self.mbs_high * 2)
    }

    pub fn cbf_luma_at(&self, x: u32, y: u32) -> (r: Option<bool>)
        requires
            self.wf(),
        ensures
            r == self@.luma_flag(x as int, y as int),
    {
        read_cell(&self.cbf_luma, self.luma4_idx(x, y), None)
    }

    pub fn set_cbf_luma(&mut self, x: u32, y: u32, v: bool)
        requires
            old(self).wf(),
        ensures
            final(self).wf(),
            final(self).charged_bytes == old(self).charged_bytes,
            final(self)@ == old(self)@.with_luma_flag(x as int, y as int, v),
    {
        proof {
            reveal(Grids::sized);
        }
        let i: Option<usize> = self.luma4_idx(x, y);
        write_cell(&mut self.cbf_luma, i, Some(v));
    }

    pub fn cbf_chroma_at(&self, comp: usize, x: u32, y: u32) -> (r: Option<bool>)
        requires
            self.wf(),
        ensures
            r == self@.chroma_flag(comp as int, x as int, y as int),
    {
        let i: Option<usize> = self.chroma4_idx(x, y);
        if comp == 0 {
            read_cell(&self.cbf_cb, i, None)
        } else if comp == 1 {
            read_cell(&self.cbf_cr, i, None)
        } else {
            None
        }
    }

    pub fn set_cbf_chroma(&mut self, comp: usize, x: u32, y: u32, v: bool)
        requires
            old(self).wf(),
        ensures
            final(self).wf(),
            final(self).charged_bytes == old(self).charged_bytes,
            final(self)@ == old(self)@.with_chroma_flag(comp as int, x as int, y as int, v),
    {
        proof {
            reveal(Grids::sized);
        }
        let i: Option<usize> = self.chroma4_idx(x, y);
        if comp == 0 {
            write_cell(&mut self.cbf_cb, i, Some(v));
        } else if comp == 1 {
            write_cell(&mut self.cbf_cr, i, Some(v));
        }
    }

    pub fn mv_at(&self, x: u32, y: u32) -> (r: MvInfo)
        requires
            self.wf(),
        ensures
            r == self@.mv_at(x as int, y as int),
    {
        read_cell(&self.mv, self.luma4_idx(x, y), MvInfo::default())
    }

    pub fn set_mv(&mut self, x: u32, y: u32, v: MvInfo)
        requires
            old(self).wf(),
        ensures
            final(self).wf(),
            final(self).charged_bytes == old(self).charged_bytes,
            final(self)@ == old(self)@.with_mv(x as int, y as int, v),
    {
        proof {
            reveal(Grids::sized);
        }
        let i: Option<usize> = self.luma4_idx(x, y);
        write_cell(&mut self.mv, i, v);
    }

    pub fn intra4x4_pred_mode_at(&self, x: u32, y: u32) -> (r: Option<u8>)
        requires
            self.wf(),
        ensures
            r == self@.mode_at(x as int, y as int),
    {
        read_cell(&self.intra4x4_pred_mode, self.luma4_idx(x, y), None)
    }

    pub fn set_intra4x4_pred_mode(&mut self, x: u32, y: u32, mode: u8)
        requires
            old(self).wf(),
        ensures
            final(self).wf(),
            final(self).charged_bytes == old(self).charged_bytes,
            final(self)@ == old(self)@.with_mode(x as int, y as int, mode),
    {
        proof {
            reveal(Grids::sized);
        }
        let i: Option<usize> = self.luma4_idx(x, y);
        write_cell(&mut self.intra4x4_pred_mode, i, Some(mode));
    }

    /// Whether the macroblock around a block position is known. Positions may
    /// lie outside the picture; the macroblock being decoded counts as known.
    pub fn mb4x4_available(&self, gx: i32, gy: i32, cur_mb_x: u32, cur_mb_y: u32) -> (r: bool)
        requires
            self.wf(),
            self@.current is None || self@.current == Some((cur_mb_x, cur_mb_y)),
        ensures
            r == self@.owner_available(gx as int, gy as int, cur_mb_x as int, cur_mb_y as int),
    {
        if gx < 0 || gy < 0 {
            return false;
        }
        let (mb_x, mb_y) = (gx as u32 / 4, gy as u32 / 4);
        if mb_x >= self.mbs_wide || mb_y >= self.mbs_high {
            return false;
        }
        if mb_x == cur_mb_x && mb_y == cur_mb_y {
            return true;
        }
        self.mb_info_at(mb_x, mb_y).is_some()
    }
}

/// What a block sees of its own macroblock.
pub open spec fn own_mb_info() -> CabacMbInfo {
    CabacMbInfo { available: true, ..no_mb_info() }
}

/// What the budget still allows where it does not cover fresh grids: the lists
/// in front of the first that does not fit stay charged.
pub open spec fn room_without_grids(mbs_wide: int, mbs_high: int, room: int) -> int {
    room - charged_from(grid_charges(mbs_wide, mbs_high), room, 0)
}

/// Fresh grids and what they charge.
pub open spec fn fresh_grids_for(mbs_wide: int, mbs_high: int, room: int) -> Result<
    (Grids, int),
    Error,
> {
    let charge = grids_charge(mbs_wide, mbs_high);
    if charge > room {
        Err(Error::LimitExceeded)
    } else {
        let (wide, high) = (at_least_one(mbs_wide), at_least_one(mbs_high));
        Ok((fresh_grids(wide, high, (mbs_wide * mbs_high) as nat), charge))
    }
}

/// A block coordinate of a macroblock, as a signed position.
pub open spec fn signed_position(v: int) -> int {
    if v > i32::MAX {
        i32::MAX as int
    } else {
        v
    }
}

/// The modes of the blocks left of and above a block. Unless both of their
/// macroblocks are known, both count as averaging; so does a block of a
/// macroblock that is predicted otherwise.
pub open spec fn neighbour_modes(g: Grids, cur_x: int, cur_y: int, blk: int) -> (u8, u8) {
    let gx = signed_position(4 * cur_x + blk_pos(blk).0);
    let gy = signed_position(4 * cur_y + blk_pos(blk).1);
    if g.owner_available(gx - 1, gy, cur_x, cur_y) && g.owner_available(gx, gy - 1, cur_x, cur_y) {
        (mode_or_dc(g.mode_at(gx - 1, gy)), mode_or_dc(g.mode_at(gx, gy - 1)))
    } else {
        (2, 2)
    }
}

pub open spec fn mode_or_dc(m: Option<u8>) -> u8 {
    match m {
        Some(v) => v,
        None => 2,
    }
}

fn mode_or_average(m: Option<u8>) -> (r: u8)
    ensures
        r == mode_or_dc(m),
{
    match m {
        Some(v) => v,
        None => 2,
    }
}

pub fn infer_intra4x4_neighbour_modes(
    grids: &CabacGrids,
    cur_mb_x: u32,
    cur_mb_y: u32,
    blk: u32,
) -> (r: (u8, u8))
    requires
        grids.wf(),
        4 * cur_mb_x + blk_pos(blk as int).0 <= u32::MAX,
        4 * cur_mb_y + blk_pos(blk as int).1 <= u32::MAX,
        grids@.current is None || grids@.current == Some((cur_mb_x, cur_mb_y)),
    ensures
        r == neighbour_modes(grids@, cur_mb_x as int, cur_mb_y as int, blk as int),
{
    let (bx, by) = blk_xy(blk);
    let gx: u32 = cur_mb_x * 4 + bx;
    let gy: u32 = cur_mb_y * 4 + by;
    let gx: i32 = if gx > 0x7fff_ffff {
        i32::MAX
    } else {
        gx as i32
    };
    let gy: i32 = if gy > 0x7fff_ffff {
        i32::MAX
    } else {
        gy as i32
    };
    let known_a: bool = grids.mb4x4_available(gx - 1, gy, cur_mb_x, cur_mb_y);
    let known_b: bool = grids.mb4x4_available(gx, gy - 1, cur_mb_x, cur_mb_y);
    if known_a && known_b {
        (
            mode_or_average(grids.intra4x4_pred_mode_at((gx - 1) as u32, gy as u32)),
            mode_or_average(grids.intra4x4_pred_mode_at(gx as u32, (gy - 1) as u32)),
        )
    } else {
        (2, 2)
    }
}

/// The sixteen motion blocks of a macroblock, in raster order.
pub open spec fn mb_motion(g: Grids, mb_x: int, mb_y: int) -> Seq<MvInfo> {
    Seq::new(16, |i: int| g.mv_at(4 * mb_x + i % 4, 4 * mb_y + i / 4))
}

pub fn collect_mv_blocks(grids: &CabacGrids, mb_x: u32, mb_y: u32) -> (r: [MvInfo; 16])
    requires
        grids.wf(),
        4 * mb_x + 3 <= u32::MAX,
        4 * mb_y + 3 <= u32::MAX,
    ensures
        r@ == mb_motion(grids@, mb_x as int, mb_y as int),
{
    let mut out = [MvInfo::default(); 16];
    for i in 0..16usize
        invariant
            grids.wf(),
            4 * mb_x + 3 <= u32::MAX,
            4 * mb_y + 3 <= u32::MAX,
            forall|k: int|
                0 <= k < i ==> #[trigger] out[k] == grids@.mv_at(4 * mb_x + k % 4, 4 * mb_y + k / 4),
    {
        out[i] = grids.mv_at(mb_x * 4 + (i % 4) as u32, mb_y * 4 + (i / 4) as u32);
    }
    out
}

/// The block above and to the right of a partition, or the one above and to
/// the left where that is not known.
pub open spec fn corner_neighbour(g: Grids, left_x: int, right_x: int, top_y: int) -> MvInfo {
    let c = g.mv_at(right_x + 1, top_y - 1);
    if c.mb_available {
        c
    } else {
        g.mv_at(left_x - 1, top_y - 1)
    }
}

pub fn resolve_c(grids: &CabacGrids, left_x: u32, right_x: u32, top_y: u32) -> (r: MvInfo)
    requires
        grids.wf(),
        right_x < u32::MAX,
    ensures
        r == corner_neighbour(grids@, left_x as int, right_x as int, top_y as int),
{
    if top_y == 0 {
        return MvInfo::default();
    }
    let above_y: u32 = top_y - 1;
    let c: MvInfo = grids.mv_at(right_x + 1, above_y);
    if c.mb_available {
        return c;
    }
    left_of(grids, left_x, above_y)
}

/// The block left of a position.
pub fn left_of(grids: &CabacGrids, x: u32, y: u32) -> (r: MvInfo)
    requires
        grids.wf(),
    ensures
        r == grids@.mv_at(x - 1, y as int),
{
    if x > 0 {
        grids.mv_at(x - 1, y)
    } else {
        MvInfo::default()
    }
}

/// The block above a position.
pub fn above_of(grids: &CabacGrids, x: u32, y: u32) -> (r: MvInfo)
    requires
        grids.wf(),
    ensures
        r == grids@.mv_at(x as int, y - 1),
{
    if y > 0 {
        grids.mv_at(x, y - 1)
    } else {
        MvInfo::default()
    }
}

/// A macroblock's facts become visible exactly when they are set, to itself
/// and to every other macroblock, and setting them ends its decoding.
pub proof fn law_set_info_is_visible(g: Grids, x: u32, y: u32, info: CabacMbInfo, rx: int, ry: int)
    requires
        g.whole(),
        mb_inside(x as int, y as int, g.wide, g.high),
        info.available,
    ensures
        g.with_mb(x, y, info).mb_at(x as int, y as int) == Some(info),
        (rx != x || ry != y) ==> g.with_mb(x, y, info).mb_at(rx, ry) == g.mb_at(rx, ry),
        g.current == Some((x, y)) ==> g.with_mb(x, y, info).current is None,
{
    law_read_after_write(
        g.mb_info,
        x as int,
        y as int,
        x as int,
        y as int,
        g.wide,
        g.high,
        info,
        no_mb_info(),
    );
    law_read_after_write(
        g.mb_info,
        x as int,
        y as int,
        rx,
        ry,
        g.wide,
        g.high,
        info,
        no_mb_info(),
    );
}

/// A block's motion can be read back, and writing it disturbs no other block.
pub proof fn law_motion_read_after_write(g: Grids, x: int, y: int, v: MvInfo, rx: int, ry: int)
    requires
        g.whole(),
        0 <= x < 4 * g.wide,
        0 <= y < 4 * g.high,
    ensures
        g.with_mv(x, y, v).mv_at(x, y) == v,
        (rx != x || ry != y) ==> g.with_mv(x, y, v).mv_at(rx, ry) == g.mv_at(rx, ry),
{
    reveal(Grids::sized);
    assert((4 * g.wide) * (4 * g.high) == 16 * (g.wide * g.high)) by (nonlinear_arith);
    law_read_after_write(g.mv, x, y, x, y, 4 * g.wide, 4 * g.high, v, no_motion());
    law_read_after_write(g.mv, x, y, rx, ry, 4 * g.wide, 4 * g.high, v, no_motion());
}

/// A write of a coded-block flag other than a luma DC flag.
pub enum FlagWrite {
    Luma { x: int, y: int, v: bool },
    Chroma { comp: int, x: int, y: int, v: bool },
    ChromaDc { comp: int, x: int, y: int, v: bool },
}

/// The grids after one such write.
pub open spec fn with_write(g: Grids, w: FlagWrite) -> Grids {
    match w {
        FlagWrite::Luma { x, y, v } => g.with_luma_flag(x, y, v),
        FlagWrite::Chroma { comp, x, y, v } => g.with_chroma_flag(comp, x, y, v),
        FlagWrite::ChromaDc { comp, x, y, v } => g.with_chroma_dc_flag(comp, x, y, v),
    }
}

/// The grids after some such writes.
pub open spec fn with_writes(g: Grids, writes: Seq<FlagWrite>) -> Grids
    decreases writes.len(),
{
    if writes.len() == 0 {
        g
    } else {
        with_write(with_writes(g, writes.drop_last()), writes.last())
    }
}

proof fn lemma_writes_keep_dc(g: Grids, writes: Seq<FlagWrite>)
    ensures
        with_writes(g, writes).cbf_luma_dc == g.cbf_luma_dc,
        with_writes(g, writes).wide == g.wide,
        with_writes(g, writes).high == g.high,
    decreases writes.len(),
{
    if writes.len() > 0 {
        lemma_writes_keep_dc(g, writes.drop_last());
    }
}

/// A macroblock's luma DC flag is kept apart from every other flag, that of its
/// first luma block included: however many of those are written after it, it
/// reads back as it was set, and without being set it stays unknown.
pub proof fn law_luma_dc_flag_stands_apart(
    g: Grids,
    writes: Seq<FlagWrite>,
    mb_x: int,
    mb_y: int,
    v: bool,
)
    requires
        g.whole(),
        mb_inside(mb_x, mb_y, g.wide, g.high),
    ensures
        with_writes(g.with_luma_dc_flag(mb_x, mb_y, v), writes).luma_dc_flag(mb_x, mb_y) == Some(v),
        with_writes(g, writes).luma_dc_flag(mb_x, mb_y) == g.luma_dc_flag(mb_x, mb_y),
        with_writes(fresh_grids(g.wide, g.high, g.mb_info.len()), writes).luma_dc_flag(
            mb_x,
            mb_y,
        ) is None,
{
    reveal(Grids::sized);
    lemma_writes_keep_dc(g.with_luma_dc_flag(mb_x, mb_y, v), writes);
    lemma_writes_keep_dc(g, writes);
    lemma_writes_keep_dc(fresh_grids(g.wide, g.high, g.mb_info.len()), writes);
    law_read_after_write(
        g.cbf_luma_dc,
        mb_x,
        mb_y,
        mb_x,
        mb_y,
        g.wide,
        g.high,
        Some(v),
        None,
    );
    lemma_cell_bound(mb_x, mb_y, g.wide, g.high);
}

} // verus!
