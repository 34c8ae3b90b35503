//! Inter prediction syntax: how reference indices and vector differences are
//! read and turned into the motion of each block, whichever entropy coder
//! carries them.
use vstd::prelude::*;
use vstd::arithmetic::power2::lemma2_to64;
use crate::bins::{BinSource, CtxTable, Source};
use crate::bits::{lemma_bits_value_fits, read_bits, BitReader};
use crate::cabac_syntax::{
    bit, decode_bit, decode_mvd_component, decode_ref_idx, decode_sub_mb_type_b_tree, decode_sub_mb_type_p,
    mvd_abs_term, mvd_component, mvd_table, mvd_term, ref_idx_cond_term, ref_idx_from, ref_idx_term,
    sub_mb_type_b, sub_mb_type_p,
};
use crate::coder::{ArithmeticDecoder, Coder};
use crate::error::Error;
use crate::golomb::{se, te, ue};
use crate::grids::{
    above_of, addressable, corner_neighbour, law_motion_read_after_write, left_of, resolve_c,
    CabacGrids, Grids, Lists, Mv, MvInfo,
};
use crate::mb_type::{PartPred, Rect};
use crate::motion::{predict_mv, predicted_mv, PartitionShape};

verus! {

// ------------------------------------------------------------------- reading
/// What is left to read: bits from a position on, or bins.
pub enum Syntax {
    Bits(Seq<u8>, int),
    Bins(Source),
}

/// An index as a stored reference index.
pub open spec fn narrow8(v: int) -> i8 {
    if -128 <= v <= 127 {
        v as i8
    } else {
        127
    }
}

/// A component as a stored vector component.
pub open spec fn narrow16(v: int) -> i16 {
    if -0x8000 <= v <= 0x7fff {
        v as i16
    } else {
        0x7fff
    }
}

fn to_i8(v: u32) -> (r: i8)
    ensures
        r == narrow8(v as int),
{
    if v <= 127 {
        v as i8
    } else {
        127
    }
}

fn to_i16(v: i32) -> (r: i16)
    ensures
        r == narrow16(v as int),
{
    if -0x8000 <= v && v <= 0x7fff {
        v as i16
    } else {
        0x7fff
    }
}

impl Syntax {
    /// A reference index of a list with `n + 1` entries.
    pub open spec fn ref_idx(self, left: MvInfo, above: MvInfo, list: int, n: int) -> Result<
        (i8, Syntax),
        Error,
    > {
        match self {
            Syntax::Bits(data, pos) => match te(data, pos, n) {
                Ok((v, end)) => Ok((narrow8(v), Syntax::Bits(data, end))),
                Err(e) => Err(e),
            },
            Syntax::Bins(s) => {
                let inc = ref_idx_term(left, list) + 2 * ref_idx_term(above, list);
                let (v, s1) = ref_idx_from(s, 0, inc);
                Ok((narrow8(v), Syntax::Bins(s1)))
            },
        }
    }

    /// A vector difference, horizontal component first.
    pub open spec fn mvd(self, left: MvInfo, above: MvInfo, list: int) -> Result<
        (Mv, Syntax),
        Error,
    > {
        match self {
            Syntax::Bits(data, pos) => match se(data, pos, -8192, 8191) {
                Ok((x, mid)) => match se(data, mid, -8192, 8191) {
                    Ok((y, end)) => Ok(((narrow16(x), narrow16(y)), Syntax::Bits(data, end))),
                    Err(e) => Err(e),
                },
                Err(e) => Err(e),
            },
            Syntax::Bins(s) => {
                let (x, s1) = mvd_component(
                    s,
                    mvd_table(0),
                    mvd_term(left, list, 0) + mvd_term(above, list, 0),
                );
                let (y, s2) = mvd_component(
                    s1,
                    mvd_table(1),
                    mvd_term(left, list, 1) + mvd_term(above, list, 1),
                );
                Ok(((narrow16(x), narrow16(y)), Syntax::Bins(s2)))
            },
        }
    }

    /// A sub-macroblock type code.
    pub open spec fn sub_mb_type(self, is_b: bool) -> Result<(int, Syntax), Error> {
        match self {
            Syntax::Bits(data, pos) => match ue(data, pos, 12) {
                Ok((v, end)) => Ok((v, Syntax::Bits(data, end))),
                Err(e) => Err(e),
            },
            Syntax::Bins(s) => {
                let (v, s1) = if is_b {
                    sub_mb_type_b(s)
                } else {
                    sub_mb_type_p(s)
                };
                Ok((v, Syntax::Bins(s1)))
            },
        }
    }

    /// What is read of an intra prediction mode: whether it is the predicted
    /// one, and otherwise which of the remaining ones. Bits come highest
    /// first, bins lowest first.
    pub open spec fn pred_mode(self) -> Result<((bool, u8), Syntax), Error> {
        match self {
            Syntax::Bits(data, pos) => match read_bits(data, pos, 1) {
                Err(e) => Err(e),
                Ok((f, mid)) => if f == 1 {
                    Ok(((true, 0), Syntax::Bits(data, mid)))
                } else {
                    match read_bits(data, mid, 3) {
                        Err(e) => Err(e),
                        Ok((v, end)) => Ok(((false, v as u8), Syntax::Bits(data, end))),
                    }
                },
            },
            Syntax::Bins(s) => {
                let (f, s0) = bit(s, CtxTable::PrevIntra4x4, 0);
                let (b0, s1) = bit(s0, CtxTable::RemIntra4x4, 0);
                let (b1, s2) = bit(s1, CtxTable::RemIntra4x4, 0);
                let (b2, s3) = bit(s2, CtxTable::RemIntra4x4, 0);
                if f == 1 {
                    Ok(((true, 0), Syntax::Bins(s0)))
                } else {
                    Ok(((false, (4 * b2 + 2 * b1 + b0) as u8), Syntax::Bins(s3)))
                }
            },
        }
    }
}

/// A result that agrees with a statement of it: the same value and rest, or
/// the same error.
pub open spec fn reads<T>(
    r: Result<T, Error>,
    rest: Syntax,
    stated: Result<(T, Syntax), Error>,
) -> bool {
    match stated {
        Ok((v, t)) => r == Ok::<T, Error>(v) && rest == t,
        Err(e) => r == Err::<T, Error>(e),
    }
}

/// Whatever prediction syntax can be read from.
pub trait SyntaxReader {
    /// What is left to read.
    spec fn syntax(&self) -> Syntax;

    /// Whether the representation is sound.
    spec fn sound(&self) -> bool;

    /// The bytes that bits are read from, which no read changes.
    spec fn input(&self) -> Seq<u8>;

    fn read_ref_idx(&mut self, left: MvInfo, above: MvInfo, list: usize, n: u32) -> (r: Result<
        i8,
        Error,
    >)
        requires
            old(self).sound(),
            list < 2,
        ensures
            final(self).sound(),
            final(self).input() == old(self).input(),
            reads(
                r,
                final(self).syntax(),
                old(self).syntax().ref_idx(left, above, list as int, n as int),
            ),
    ;

    fn read_mvd(&mut self, left: MvInfo, above: MvInfo, list: usize) -> (r: Result<Mv, Error>)
        requires
            old(self).sound(),
            list < 2,
        ensures
            final(self).sound(),
            final(self).input() == old(self).input(),
            reads(r, final(self).syntax(), old(self).syntax().mvd(left, above, list as int)),
    ;

    fn read_sub_mb_type(&mut self, is_b: bool) -> (r: Result<u32, Error>)
        requires
            old(self).sound(),
        ensures
            final(self).sound(),
            final(self).input() == old(self).input(),
            match old(self).syntax().sub_mb_type(is_b) {
                Ok((v, t)) => r matches Ok(x) && x == v && final(self).syntax() == t,
                Err(e) => r == Err::<u32, Error>(e),
            },
    ;

    fn read_pred_mode(&mut self) -> (r: Result<(bool, u8), Error>)
        requires
            old(self).sound(),
        ensures
            final(self).sound(),
            final(self).input() == old(self).input(),
            reads(r, final(self).syntax(), old(self).syntax().pred_mode()),
            r matches Ok(m) ==> m.1 < 8,
    ;
}

impl<'a> SyntaxReader for BitReader<'a> {
    open spec fn syntax(&self) -> Syntax {
        Syntax::Bits(self.data@, self.pos as int)
    }

    open spec fn sound(&self) -> bool {
        self.wf()
    }

    open spec fn input(&self) -> Seq<u8> {
        self.data@
    }

    fn read_ref_idx(&mut self, left: MvInfo, above: MvInfo, list: usize, n: u32) -> (r: Result<
        i8,
        Error,
    >) {
        let v: u32 = self.te_v(n)?;
        Ok(to_i8(v))
    }

    fn read_mvd(&mut self, left: MvInfo, above: MvInfo, list: usize) -> (r: Result<Mv, Error>) {
        let x: i32 = self.se_v(-8192, 8191)?;
        let y: i32 = self.se_v(-8192, 8191)?;
        Ok((to_i16(x), to_i16(y)))
    }

    fn read_sub_mb_type(&mut self, is_b: bool) -> (r: Result<u32, Error>) {
        self.ue_v(12)
    }

    fn read_pred_mode(&mut self) -> (r: Result<(bool, u8), Error>) {
        proof {
            lemma_bits_value_fits(self.data@, self.pos as int, 1);
            lemma_bits_value_fits(self.data@, self.pos + 1, 3);
            lemma2_to64();
        }
        let f: u32 = self.try_get(1)?;
        if f == 1 {
            return Ok((true, 0));
        }
        let v: u32 = self.try_get(3)?;
        Ok((false, v as u8))
    }
}

impl<E: ArithmeticDecoder> SyntaxReader for Coder<E> {
    open spec fn syntax(&self) -> Syntax {
        Syntax::Bins(self.source())
    }

    open spec fn sound(&self) -> bool {
        self.wf()
    }

    open spec fn input(&self) -> Seq<u8> {
        Seq::empty()
    }

    fn read_ref_idx(&mut self, left: MvInfo, above: MvInfo, list: usize, n: u32) -> (r: Result<
        i8,
        Error,
    >) {
        let inc: u32 = ref_idx_cond_term(left, list) + 2 * ref_idx_cond_term(above, list);
        let v: u32 = decode_ref_idx(self, inc);
        Ok(to_i8(v))
    }

    fn read_mvd(&mut self, left: MvInfo, above: MvInfo, list: usize) -> (r: Result<Mv, Error>) {
        let sum_x: u32 = mvd_abs_term(left, list, 0) + mvd_abs_term(above, list, 0);
        let x: i32 = decode_mvd_component(self, 0, sum_x);
        let sum_y: u32 = mvd_abs_term(left, list, 1) + mvd_abs_term(above, list, 1);
        let y: i32 = decode_mvd_component(self, 1, sum_y);
        Ok((to_i16(x), to_i16(y)))
    }

    fn read_sub_mb_type(&mut self, is_b: bool) -> (r: Result<u32, Error>) {
        if is_b {
            Ok(decode_sub_mb_type_b_tree(self))
        } else {
            Ok(decode_sub_mb_type_p(self))
        }
    }

    fn read_pred_mode(&mut self) -> (r: Result<(bool, u8), Error>) {
        if decode_bit(self, CtxTable::PrevIntra4x4, 0) == 1 {
            return Ok((true, 0));
        }
        let b0: u32 = decode_bit(self, CtxTable::RemIntra4x4, 0);
        let b1: u32 = decode_bit(self, CtxTable::RemIntra4x4, 0);
        let b2: u32 = decode_bit(self, CtxTable::RemIntra4x4, 0);
        Ok((false, (4 * b2 + 2 * b1 + b0) as u8))
    }
}

// ------------------------------------------------------------------ rectangles
/// The shape of a partition, given its rectangle of blocks: only the halves of
/// a macroblock have preferred neighbours.
pub open spec fn shape_of(r: Rect) -> PartitionShape {
    let w = r.2 - r.0 + 1;
    let h = r.3 - r.1 + 1;
    if w == 4 && h == 2 {
        if r.1 == 0 {
            PartitionShape::Top16x8
        } else {
            PartitionShape::Bottom16x8
        }
    } else if w == 2 && h == 4 {
        if r.0 == 0 {
            PartitionShape::Left8x16
        } else {
            PartitionShape::Right8x16
        }
    } else {
        PartitionShape::Whole
    }
}

pub fn partition_shape(x0: u32, y0: u32, x1: u32, y1: u32) -> (s: PartitionShape)
    requires
        x0 <= x1 < u32::MAX,
        y0 <= y1 < u32::MAX,
    ensures
        s == shape_of((x0, y0, x1, y1)),
{
    let (w, h) = (x1 - x0 + 1, y1 - y0 + 1);
    if w == 4 && h == 2 {
        if y0 == 0 {
            PartitionShape::Top16x8
        } else {
            PartitionShape::Bottom16x8
        }
    } else if w == 2 && h == 4 {
        if x0 == 0 {
            PartitionShape::Left8x16
        } else {
            PartitionShape::Right8x16
        }
    } else {
        PartitionShape::Whole
    }
}

/// A rectangle inside a macroblock.
pub open spec fn rect_fits(r: Rect) -> bool {
    r.0 <= r.2 < 4 && r.1 <= r.3 < 4
}

/// The grids with every block from `(x, y)` on written, in raster order, of
/// the columns `x0..=x1` and the rows up to `y1`.
pub open spec fn filled(g: Grids, x0: int, x1: int, y1: int, x: int, y: int, v: MvInfo) -> Grids
    decreases y1 - y + 1, x1 - x + 1,
{
    if y > y1 {
        g
    } else if x > x1 {
        filled(g, x0, x1, y1, x0, y + 1, v)
    } else {
        filled(g.with_mv(x, y, v), x0, x1, y1, x + 1, y, v)
    }
}

/// The grids with a partition's rectangle written.
pub open spec fn with_rect(g: Grids, mb_x: int, mb_y: int, r: Rect, v: MvInfo) -> Grids {
    filled(
        g,
        4 * mb_x + r.0,
        4 * mb_x + r.2,
        4 * mb_y + r.3,
        4 * mb_x + r.0,
        4 * mb_y + r.1,
        v,
    )
}

/// Writes a partition's rectangle.
pub fn fill_rect(grids: &mut CabacGrids, mb_x: u32, mb_y: u32, r: Rect, v: MvInfo)
    requires
        old(grids).wf(),
        addressable(mb_x as int, mb_y as int),
        rect_fits(r),
    ensures
        final(grids).wf(),
        final(grids).charged_bytes == old(grids).charged_bytes,
        final(grids)@.current == old(grids)@.current,
        final(grids)@ == with_rect(old(grids)@, mb_x as int, mb_y as int, r, v),
{
    let ghost start = old(grids)@;
    let (x0, x1) = (mb_x * 4 + r.0, mb_x * 4 + r.2);
    let (y0, y1) = (mb_y * 4 + r.1, mb_y * 4 + r.3);
    let mut y: u32 = y0;
    while y <= y1
        invariant
            grids.wf(),
            grids.charged_bytes == old(grids).charged_bytes,
            grids@.current == old(grids)@.current,
            x0 <= x1 < u32::MAX,
            y0 <= y <= y1 + 1,
            y1 < u32::MAX,
            filled(start, x0 as int, x1 as int, y1 as int, x0 as int, y0 as int, v) == filled(
                grids@,
                x0 as int,
                x1 as int,
                y1 as int,
                x0 as int,
                y as int,
                v,
            ),
        decreases y1 + 1 - y,
    {
        let mut x: u32 = x0;
        while x <= x1
            invariant
                grids.wf(),
                grids.charged_bytes == old(grids).charged_bytes,
                grids@.current == old(grids)@.current,
                x0 <= x <= x1 + 1,
                x1 < u32::MAX,
                y <= y1 < u32::MAX,
                filled(start, x0 as int, x1 as int, y1 as int, x0 as int, y0 as int, v) == filled(
                    grids@,
                    x0 as int,
                    x1 as int,
                    y1 as int,
                    x as int,
                    y as int,
                    v,
                ),
            decreases x1 + 1 - x,
        {
            grids.set_mv(x, y, v);
            x = x + 1;
        }
        y = y + 1;
    }
}

proof fn lemma_filled(
    g: Grids,
    x0: int,
    x1: int,
    y1: int,
    x: int,
    y: int,
    v: MvInfo,
    rx: int,
    ry: int,
)
    requires
        g.whole(),
        0 <= x0 <= x1 < 4 * g.wide,
        y1 < 4 * g.high,
        x0 <= x,
        0 <= y,
    ensures
        filled(g, x0, x1, y1, x, y, v).mv_at(rx, ry) == (if x0 <= rx <= x1 && y <= ry <= y1 && (ry
            > y || rx >= x) {
            v
        } else {
            g.mv_at(rx, ry)
        }),
    decreases y1 - y + 1, x1 - x + 1,
{
    if y <= y1 {
        if x > x1 {
            lemma_filled(g, x0, x1, y1, x0, y + 1, v, rx, ry);
        } else {
            law_motion_read_after_write(g, x, y, v, rx, ry);
            reveal(Grids::sized);
            lemma_filled(g.with_mv(x, y, v), x0, x1, y1, x + 1, y, v, rx, ry);
        }
    }
}

/// A partition's motion is that of every block of its rectangle, and of no
/// other block.
pub proof fn law_partition_covers_its_rectangle(
    g: Grids,
    mb_x: int,
    mb_y: int,
    r: Rect,
    v: MvInfo,
    x: int,
    y: int,
)
    requires
        g.whole(),
        0 <= mb_x < g.wide,
        0 <= mb_y < g.high,
        rect_fits(r),
    ensures
        with_rect(g, mb_x, mb_y, r, v).mv_at(x, y) == (if r.0 <= x - 4 * mb_x <= r.2 && r.1 <= y - 4
            * mb_y <= r.3 {
            v
        } else {
            g.mv_at(x, y)
        }),
{
    lemma_filled(
        g,
        4 * mb_x + r.0,
        4 * mb_x + r.2,
        4 * mb_y + r.3,
        4 * mb_x + r.0,
        4 * mb_y + r.1,
        v,
        x,
        y,
    );
}

// --------------------------------------------------------------------- vectors
/// A sum of components, kept in range.
pub open spec fn saturate16(v: int) -> i16 {
    if v < -0x8000 {
        -0x8000i16
    } else if v > 0x7fff {
        0x7fff
    } else {
        v as i16
    }
}

fn add16(a: i16, b: i16) -> (r: i16)
    ensures
        r == saturate16(a + b),
{
    let v: i32 = a as i32 + b as i32;
    if v < -0x8000 {
        -0x8000
    } else if v > 0x7fff {
        0x7fff
    } else {
        v as i16
    }
}

/// The vector of a block of blocks: its prediction from the blocks left,
/// above and at its upper corner, and the difference that was read.
pub open spec fn vector(
    g: Grids,
    shape: PartitionShape,
    x: int,
    right_x: int,
    y: int,
    list: int,
    ref_idx: i8,
    mvd: Mv,
) -> Mv {
    let p = predicted_mv(
        shape,
        g.mv_at(x - 1, y).neighbour(list),
        g.mv_at(x, y - 1).neighbour(list),
        corner_neighbour(g, x, right_x, y).neighbour(list),
        ref_idx,
    );
    (saturate16(p.0 + mvd.0), saturate16(p.1 + mvd.1))
}

pub fn derive_vector(
    grids: &CabacGrids,
    shape: PartitionShape,
    x: u32,
    right_x: u32,
    y: u32,
    list: usize,
    ref_idx: i8,
    mvd: Mv,
) -> (mv: Mv)
    requires
        grids.wf(),
        right_x < u32::MAX,
        list < 2,
    ensures
        mv == vector(
            grids@,
            shape,
            x as int,
            right_x as int,
            y as int,
            list as int,
            ref_idx,
            mvd,
        ),
{
    let left: MvInfo = left_of(grids, x, y);
    let above: MvInfo = above_of(grids, x, y);
    let corner: MvInfo = resolve_c(grids, x, right_x, y);
    let p: Mv = predict_mv(
        shape,
        left.as_motion_neighbour(list),
        above.as_motion_neighbour(list),
        corner.as_motion_neighbour(list),
        ref_idx,
    );
    (add16(p.0, mvd.0), add16(p.1, mvd.1))
}

/// The motion of a partition in both lists.
#[derive(Debug, Clone, Copy)]
pub struct PartMotion {
    pub ref_idx: Lists<i8>,
    pub mvd: Lists<Mv>,
    pub mv: Lists<Mv>,
}

/// Motion before anything has been read of it.
pub open spec fn unread() -> PartMotion {
    PartMotion {
        ref_idx: Lists { l0: 0, l1: 0 },
        mvd: Lists { l0: (0, 0), l1: (0, 0) },
        mv: Lists { l0: (0, 0), l1: (0, 0) },
    }
}

fn unread_motion() -> (m: PartMotion)
    ensures
        m == unread(),
{
    PartMotion {
        ref_idx: Lists { l0: 0, l1: 0 },
        mvd: Lists { l0: (0, 0), l1: (0, 0) },
        mv: Lists { l0: (0, 0), l1: (0, 0) },
    }
}

impl PartMotion {
    /// The motion as each block of a partition stores it.
    pub open spec fn stored(self, pred: PartPred) -> MvInfo {
        MvInfo {
            mb_available: true,
            pred: Some(pred),
            ref_idx: self.ref_idx,
            mvd: self.mvd,
            mv: self.mv,
            direct_or_skip: false,
        }
    }

    fn store(&self, pred: PartPred) -> (info: MvInfo)
        ensures
            info == self.stored(pred),
    {
        MvInfo {
            mb_available: true,
            pred: Some(pred),
            ref_idx: self.ref_idx,
            mvd: self.mvd,
            mv: self.mv,
            direct_or_skip: false,
        }
    }
}

// --------------------------------------------------------------- one partition
/// A reference index where the partition uses the list and the list has more
/// than one entry, 0 otherwise.
pub open spec fn optional_ref_idx(
    t: Syntax,
    left: MvInfo,
    above: MvInfo,
    list: int,
    used: bool,
    n: int,
) -> Result<(i8, Syntax), Error> {
    if used && n > 0 {
        t.ref_idx(left, above, list, n)
    } else {
        Ok((0, t))
    }
}

/// A vector difference where the partition uses the list, none otherwise.
pub open spec fn optional_mvd(
    t: Syntax,
    left: MvInfo,
    above: MvInfo,
    list: int,
    used: bool,
) -> Result<(Mv, Syntax), Error> {
    if used {
        t.mvd(left, above, list)
    } else {
        Ok(((0, 0), t))
    }
}

/// The vector where the partition uses the list, (0, 0) otherwise.
pub open spec fn optional_vector(
    g: Grids,
    mb_x: int,
    mb_y: int,
    r: Rect,
    list: int,
    used: bool,
    ref_idx: i8,
    mvd: Mv,
) -> Mv {
    if used {
        vector(
            g,
            shape_of(r),
            4 * mb_x + r.0,
            4 * mb_x + r.2,
            4 * mb_y + r.1,
            list,
            ref_idx,
            mvd,
        )
    } else {
        (0, 0)
    }
}

pub fn read_optional_ref_idx<R: SyntaxReader>(
    r: &mut R,
    left: MvInfo,
    above: MvInfo,
    list: usize,
    used: bool,
    n: u32,
) -> (v: Result<i8, Error>)
    requires
        old(r).sound(),
        list < 2,
    ensures
        final(r).sound(),
        final(r).input() == old(r).input(),
        reads(
            v,
            final(r).syntax(),
            optional_ref_idx(old(r).syntax(), left, above, list as int, used, n as int),
        ),
{
    if used && n > 0 {
        r.read_ref_idx(left, above, list, n)
    } else {
        Ok(0)
    }
}

fn read_optional_mvd<R: SyntaxReader>(
    r: &mut R,
    left: MvInfo,
    above: MvInfo,
    list: usize,
    used: bool,
) -> (v: Result<Mv, Error>)
    requires
        old(r).sound(),
        list < 2,
    ensures
        final(r).sound(),
        final(r).input() == old(r).input(),
        reads(
            v,
            final(r).syntax(),
            optional_mvd(old(r).syntax(), left, above, list as int, used),
        ),
{
    if used {
        r.read_mvd(left, above, list)
    } else {
        Ok((0, 0))
    }
}

/// A macroblock of one partition: both reference indices, then both vector
/// differences, each list's only where the partition uses it.
pub open spec fn one_partition(
    t: Syntax,
    g: Grids,
    n: Lists<u32>,
    mb_x: int,
    mb_y: int,
    pred: PartPred,
    r: Rect,
) -> Result<(Grids, Syntax), Error> {
    let left = g.mv_at(4 * mb_x + r.0 - 1, 4 * mb_y + r.1);
    let above = g.mv_at(4 * mb_x + r.0, 4 * mb_y + r.1 - 1);
    match optional_ref_idx(t, left, above, 0, pred.uses(0), n.l0 as int) {
        Err(e) => Err(e),
        Ok((r0, t1)) => match optional_ref_idx(t1, left, above, 1, pred.uses(1), n.l1 as int) {
            Err(e) => Err(e),
            Ok((r1, t2)) => match optional_mvd(t2, left, above, 0, pred.uses(0)) {
                Err(e) => Err(e),
                Ok((d0, t3)) => match optional_mvd(t3, left, above, 1, pred.uses(1)) {
                    Err(e) => Err(e),
                    Ok((d1, t4)) => {
                        let m = PartMotion {
                            ref_idx: Lists { l0: r0, l1: r1 },
                            mvd: Lists { l0: d0, l1: d1 },
                            mv: Lists {
                                l0: optional_vector(g, mb_x, mb_y, r, 0, pred.uses(0), r0, d0),
                                l1: optional_vector(g, mb_x, mb_y, r, 1, pred.uses(1), r1, d1),
                            },
                        };
                        Ok((with_rect(g, mb_x, mb_y, r, m.stored(pred)), t4))
                    },
                },
            },
        },
    }
}

/// A step that changes grids and reads syntax agrees with a statement of it.
pub open spec fn steps(
    r: Result<(), Error>,
    g: Grids,
    rest: Syntax,
    stated: Result<(Grids, Syntax), Error>,
) -> bool {
    match stated {
        Ok((h, t)) => r is Ok && g == h && rest == t,
        Err(e) => r == Err::<(), Error>(e),
    }
}

/// Reads and applies the motion of a macroblock of one partition.
pub fn decode_one_partition<R: SyntaxReader>(
    reader: &mut R,
    grids: &mut CabacGrids,
    n: Lists<u32>,
    mb_x: u32,
    mb_y: u32,
    pred: PartPred,
    rect: Rect,
) -> (r: Result<(), Error>)
    requires
        old(reader).sound(),
        old(grids).wf(),
        addressable(mb_x as int, mb_y as int),
        rect_fits(rect),
    ensures
        final(reader).sound(),
        final(reader).input() == old(reader).input(),
        final(grids).wf(),
        final(grids).charged_bytes == old(grids).charged_bytes,
        final(grids)@.current == old(grids)@.current,
        steps(
            r,
            final(grids)@,
            final(reader).syntax(),
            one_partition(
                old(reader).syntax(),
                old(grids)@,
                n,
                mb_x as int,
                mb_y as int,
                pred,
                rect,
            ),
        ),
{
    let (x, y) = (mb_x * 4 + rect.0, mb_y * 4 + rect.1);
    let left: MvInfo = left_of(grids, x, y);
    let above: MvInfo = above_of(grids, x, y);
    let (use0, use1) = (pred.reads_l0(), pred.reads_l1());
    let r0: i8 = read_optional_ref_idx(reader, left, above, 0, use0, n.l0)?;
    let r1: i8 = read_optional_ref_idx(reader, left, above, 1, use1, n.l1)?;
    let d0: Mv = read_optional_mvd(reader, left, above, 0, use0)?;
    let d1: Mv = read_optional_mvd(reader, left, above, 1, use1)?;
    let shape: PartitionShape = partition_shape(rect.0, rect.1, rect.2, rect.3);
    let right_x: u32 = mb_x * 4 + rect.2;
    let mv0: Mv = if use0 {
        derive_vector(grids, shape, x, right_x, y, 0, r0, d0)
    } else {
        (0, 0)
    };
    let mv1: Mv = if use1 {
        derive_vector(grids, shape, x, right_x, y, 1, r1, d1)
    } else {
        (0, 0)
    };
    let m = PartMotion {
        ref_idx: Lists { l0: r0, l1: r1 },
        mvd: Lists { l0: d0, l1: d1 },
        mv: Lists { l0: mv0, l1: mv1 },
    };
    fill_rect(grids, mb_x, mb_y, rect, m.store(pred));
    Ok(())
}

// -------------------------------------------------------------- two partitions
/// A macroblock's two partitions: which lists each uses, and where it lies.
#[derive(Debug, Clone, Copy)]
pub struct TwoParts {
    pub preds: Lists<PartPred>,
    pub rects: Lists<Rect>,
}

impl TwoParts {
    /// Both lie inside the macroblock.
    pub open spec fn fits(self) -> bool {
        rect_fits(self.rects.l0) && rect_fits(self.rects.l1)
    }
}

/// The reference indices from the `k`th on: those of list 0 for both
/// partitions, then those of list 1. Each is known to the next as soon as it
/// is read.
pub open spec fn two_ref_idx_from(
    t: Syntax,
    g: Grids,
    parts: Lists<PartMotion>,
    n: Lists<u32>,
    mb_x: int,
    mb_y: int,
    two: TwoParts,
    k: int,
) -> Result<(Grids, Lists<PartMotion>, Syntax), Error>
    decreases 4 - k,
{
    if k >= 4 {
        Ok((g, parts, t))
    } else {
        let (list, p) = (k / 2, k % 2);
        let (pred, r) = (two.preds.at(p), two.rects.at(p));
        let left = g.mv_at(4 * mb_x + r.0 - 1, 4 * mb_y + r.1);
        let above = g.mv_at(4 * mb_x + r.0, 4 * mb_y + r.1 - 1);
        match optional_ref_idx(t, left, above, list, pred.uses(list), n.at(list) as int) {
            Err(e) => Err(e),
            Ok((v, t1)) => {
                let m = PartMotion {
                    ref_idx: parts.at(p).ref_idx.with(list, v),
                    ..parts.at(p)
                };
                let g1 = with_rect(g, mb_x, mb_y, r, m.stored(pred));
                two_ref_idx_from(t1, g1, parts.with(p, m), n, mb_x, mb_y, two, k + 1)
            },
        }
    }
}

/// The vector differences from the `k`th on, in the same order, each turned
/// into a vector and stored before the next is read.
pub open spec fn two_mvd_from(
    t: Syntax,
    g: Grids,
    parts: Lists<PartMotion>,
    mb_x: int,
    mb_y: int,
    two: TwoParts,
    k: int,
) -> Result<(Grids, Syntax), Error>
    decreases 4 - k,
{
    if k >= 4 {
        Ok((g, t))
    } else {
        let (list, p) = (k / 2, k % 2);
        let (pred, r) = (two.preds.at(p), two.rects.at(p));
        if !pred.uses(list) {
            two_mvd_from(t, g, parts, mb_x, mb_y, two, k + 1)
        } else {
            let left = g.mv_at(4 * mb_x + r.0 - 1, 4 * mb_y + r.1);
            let above = g.mv_at(4 * mb_x + r.0, 4 * mb_y + r.1 - 1);
            match t.mvd(left, above, list) {
                Err(e) => Err(e),
                Ok((d, t1)) => {
                    let before = parts.at(p);
                    let v = optional_vector(
                        g,
                        mb_x,
                        mb_y,
                        r,
                        list,
                        true,
                        before.ref_idx.at(list),
                        d,
                    );
                    let m = PartMotion {
                        ref_idx: before.ref_idx,
                        mvd: before.mvd.with(list, d),
                        mv: before.mv.with(list, v),
                    };
                    let g1 = with_rect(g, mb_x, mb_y, r, m.stored(pred));
                    two_mvd_from(t1, g1, parts.with(p, m), mb_x, mb_y, two, k + 1)
                },
            }
        }
    }
}

/// A macroblock of two partitions.
pub open spec fn two_partitions(
    t: Syntax,
    g: Grids,
    n: Lists<u32>,
    mb_x: int,
    mb_y: int,
    two: TwoParts,
) -> Result<(Grids, Syntax), Error> {
    let start = Lists { l0: unread(), l1: unread() };
    match two_ref_idx_from(t, g, start, n, mb_x, mb_y, two, 0) {
        Err(e) => Err(e),
        Ok((g1, parts, t1)) => two_mvd_from(t1, g1, parts, mb_x, mb_y, two, 0),
    }
}

#[verifier::loop_isolation(false)]
fn read_two_ref_idx<R: SyntaxReader>(
    reader: &mut R,
    grids: &mut CabacGrids,
    n: Lists<u32>,
    mb_x: u32,
    mb_y: u32,
    two: TwoParts,
) -> (r: Result<Lists<PartMotion>, Error>)
    requires
        old(reader).sound(),
        old(grids).wf(),
        addressable(mb_x as int, mb_y as int),
        two.fits(),
    ensures
        final(reader).sound(),
        final(reader).input() == old(reader).input(),
        final(grids).wf(),
        final(grids).charged_bytes == old(grids).charged_bytes,
        final(grids)@.current == old(grids)@.current,
        match two_ref_idx_from(
            old(reader).syntax(),
            old(grids)@,
            Lists { l0: unread(), l1: unread() },
            n,
            mb_x as int,
            mb_y as int,
            two,
            0,
        ) {
            Ok((g, parts, t)) => r == Ok::<Lists<PartMotion>, Error>(parts) && final(grids)@ == g
                && final(reader).syntax() == t,
            Err(e) => r == Err::<Lists<PartMotion>, Error>(e),
        },
{
    let mut parts: Lists<PartMotion> = Lists { l0: unread_motion(), l1: unread_motion() };
    for k in 0..4usize
        invariant
            reader.sound(),
            reader.input() == old(reader).input(),
            grids.wf(),
            grids.charged_bytes == old(grids).charged_bytes,
            grids@.current == old(grids)@.current,
            two_ref_idx_from(
                old(reader).syntax(),
                old(grids)@,
                Lists { l0: unread(), l1: unread() },
                n,
                mb_x as int,
                mb_y as int,
                two,
                0,
            ) == two_ref_idx_from(
                reader.syntax(),
                grids@,
                parts,
                n,
                mb_x as int,
                mb_y as int,
                two,
                k as int,
            ),
    {
        let (list, p) = (k / 2, k % 2);
        let pred: PartPred = two.preds.get(p);
        let rect: Rect = two.rects.get(p);
        let (x, y) = (mb_x * 4 + rect.0, mb_y * 4 + rect.1);
        let left: MvInfo = left_of(grids, x, y);
        let above: MvInfo = above_of(grids, x, y);
        let v: i8 = read_optional_ref_idx(
            reader,
            left,
            above,
            list,
            pred.reads(list),
            n.get(list),
        )?;
        let mut m: PartMotion = parts.get(p);
        m.ref_idx.set(list, v);
        fill_rect(grids, mb_x, mb_y, rect, m.store(pred));
        parts.set(p, m);
    }
    Ok(parts)
}

/// Reads and applies the motion of a macroblock of two partitions.
#[verifier::loop_isolation(false)]
pub fn decode_two_partitions<R: SyntaxReader>(
    reader: &mut R,
    grids: &mut CabacGrids,
    n: Lists<u32>,
    mb_x: u32,
    mb_y: u32,
    two: TwoParts,
) -> (r: Result<(), Error>)
    requires
        old(reader).sound(),
        old(grids).wf(),
        addressable(mb_x as int, mb_y as int),
        two.fits(),
    ensures
        final(reader).sound(),
        final(reader).input() == old(reader).input(),
        final(grids).wf(),
        final(grids).charged_bytes == old(grids).charged_bytes,
        final(grids)@.current == old(grids)@.current,
        steps(
            r,
            final(grids)@,
            final(reader).syntax(),
            two_partitions(
                old(reader).syntax(),
                old(grids)@,
                n,
                mb_x as int,
                mb_y as int,
                two,
            ),
        ),
{
    let mut parts: Lists<PartMotion> = read_two_ref_idx(reader, grids, n, mb_x, mb_y, two)?;
    for k in 0..4usize
        invariant
            reader.sound(),
            reader.input() == old(reader).input(),
            grids.wf(),
            grids.charged_bytes == old(grids).charged_bytes,
            grids@.current == old(grids)@.current,
            two_partitions(
                old(reader).syntax(),
                old(grids)@,
                n,
                mb_x as int,
                mb_y as int,
                two,
            ) == two_mvd_from(
                reader.syntax(),
                grids@,
                parts,
                mb_x as int,
                mb_y as int,
                two,
                k as int,
            ),
    {
        let (list, p) = (k / 2, k % 2);
        let pred: PartPred = two.preds.get(p);
        if pred.reads(list) {
            let rect: Rect = two.rects.get(p);
            let (x, y) = (mb_x * 4 + rect.0, mb_y * 4 + rect.1);
            let left: MvInfo = left_of(grids, x, y);
            let above: MvInfo = above_of(grids, x, y);
            let d: Mv = reader.read_mvd(left, above, list)?;
            let mut m: PartMotion = parts.get(p);
            let shape: PartitionShape = partition_shape(rect.0, rect.1, rect.2, rect.3);
            let v: Mv = derive_vector(
                grids,
                shape,
                x,
                mb_x * 4 + rect.2,
                y,
                list,
                m.ref_idx.get(list),
                d,
            );
            m.mvd.set(list, d);
            m.mv.set(list, v);
            fill_rect(grids, mb_x, mb_y, rect, m.store(pred));
            parts.set(p, m);
        }
    }
    Ok(())
}

} // verus!
