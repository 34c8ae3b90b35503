//! The sizes of pictures, and the visible part of a coded one.
use vstd::prelude::*;
use crate::error::{Error, Reason};

verus! {

// ---------------------------------------------------------------------- sizes
/// A value, no larger than 64 bits can hold.
pub open spec fn within_u64(v: int) -> int {
    if v > u64::MAX {
        u64::MAX as int
    } else {
        v
    }
}

/// A value, no larger than 32 bits can hold.
pub open spec fn within_u32(v: int) -> int {
    if v > u32::MAX {
        u32::MAX as int
    } else {
        v
    }
}

/// The bytes of the three planes of a coded picture: its luma samples, and half
/// as many of chroma.
pub open spec fn picture_bytes(mbs_wide: int, mbs_high: int) -> int {
    let luma = within_u64(256 * (mbs_wide * mbs_high));
    within_u64(luma + luma / 2)
}

pub fn coded_picture_bytes(mbs_wide: u32, mbs_high: u32) -> (n: u64)
    ensures
        n == picture_bytes(mbs_wide as int, mbs_high as int),
{
    proof {
        assert(0 <= mbs_wide * mbs_high <= 0xffff_ffff * 0xffff_ffff) by (nonlinear_arith)
            requires
                0 <= mbs_wide <= 0xffff_ffff,
                0 <= mbs_high <= 0xffff_ffff,
        ;
    }
    let mbs: u64 = mbs_wide as u64 * mbs_high as u64;
    let luma: u64 = if mbs > 0x00ff_ffff_ffff_ffff {
        u64::MAX
    } else {
        mbs * 256
    };
    luma.saturating_add(luma / 2)
}

/// The bytes of an output picture: those of its layout, or `fallback` where
/// there is no layout to tell.
pub fn output_frame_bytes(layout: Option<u64>, fallback: u64) -> (n: u64)
    ensures
        n == (match layout {
            Some(total) => total,
            None => fallback,
        }),
{
    match layout {
        Some(total) => total,
        None => fallback,
    }
}

/// The rows of one band of a stored picture that becomes public row by row.
pub const ROW_BAND_HEIGHT: u32 = 32;

/// The rows in front of each band that repeat the end of the previous one. The
/// six-tap filter reads nine rows for a block of four, so that every block that
/// starts in front of a band is whole in this one or the next.
pub const ROW_BAND_GUARD: u32 = 8;

/// The size of a plane.
#[derive(Debug, Clone, Copy, PartialEq, Eq, Structural)]
pub struct PlaneSpec {
    pub width: u32,
    pub height: u32,
}

/// How a stored picture is laid out: its planes, and the height and the guard
/// rows of its bands where it has more than one.
#[derive(Debug, Clone, Copy, PartialEq, Eq, Structural)]
pub struct PictureSpec {
    pub luma: PlaneSpec,
    pub cb: PlaneSpec,
    pub cr: PlaneSpec,
    pub band_height: Option<u32>,
    pub guard: u32,
}

fn times(n: u32, by: u32) -> (r: u32)
    ensures
        r == within_u32(n * by),
{
    proof {
        assert(0 <= n * by <= 0xffff_ffff * 0xffff_ffff) by (nonlinear_arith)
            requires
                0 <= n <= 0xffff_ffff,
                0 <= by <= 0xffff_ffff,
        ;
    }
    let v: u64 = n as u64 * by as u64;
    if v > 0xffff_ffff {
        0xffff_ffff
    } else {
        v as u32
    }
}

/// The layout of a stored picture; one that is read while it is written is
/// cut into bands.
pub fn dpb_picture_spec(mbs_wide: u32, mbs_high: u32, banded: bool) -> (s: PictureSpec)
    ensures
        s.luma.width == within_u32(16 * mbs_wide),
        s.luma.height == within_u32(16 * mbs_high),
        s.cb.width == within_u32(8 * mbs_wide),
        s.cb.height == within_u32(8 * mbs_high),
        s.cr == s.cb,
        banded ==> s.band_height == Some(ROW_BAND_HEIGHT) && s.guard == ROW_BAND_GUARD,
        !banded ==> s.band_height is None && s.guard == 0,
{
    let luma: PlaneSpec = PlaneSpec { width: times(mbs_wide, 16), height: times(mbs_high, 16) };
    let chroma: PlaneSpec = PlaneSpec { width: times(mbs_wide, 8), height: times(mbs_high, 8) };
    let (band_height, guard) = if banded {
        (Some(ROW_BAND_HEIGHT), ROW_BAND_GUARD)
    } else {
        (None, 0)
    };
    PictureSpec { luma, cb: chroma, cr: chroma, band_height, guard }
}

// ------------------------------------------------------------------- cropping
/// A plane of an output picture.
#[derive(Debug, Clone)]
pub struct FramePlane {
    pub width: usize,
    pub height: usize,
    pub samples: Vec<u8>,
}

impl FramePlane {
    /// A plane that has room for its samples.
    pub open spec fn wf(&self) -> bool {
        self.samples@.len() == self.width * self.height
    }

    /// The sample at a position inside.
    pub open spec fn at(&self, x: int, y: int) -> u8 {
        self.samples@[y * self.width + x]
    }

    /// A plane of zeros.
    pub fn new(width: usize, height: usize) -> (p: Self)
        requires
            width * height <= usize::MAX,
        ensures
            p.wf(),
            p.width == width,
            p.height == height,
            forall|i: int| 0 <= i < p.samples@.len() ==> (#[trigger] p.samples@[i]) == 0,
    {
        let n: usize = width * height;
        let mut samples: Vec<u8> = Vec::new();
        for i in 0..n
            invariant
                samples@.len() == i,
                forall|j: int| 0 <= j < i ==> (#[trigger] samples@[j]) == 0,
        {
            samples.push(0);
        }
        FramePlane { width, height, samples }
    }
}

/// The sample that lies `x` to the right in a region's row `y`; a row that is
/// not whole inside the source is all zeros.
pub open spec fn cropped(
    src: Seq<u8>,
    src_stride: int,
    x0: int,
    y0: int,
    width: int,
    x: int,
    y: int,
) -> u8 {
    let start = (y0 + y) * src_stride + x0;
    if start + width <= src.len() {
        src[start + x]
    } else {
        0
    }
}

proof fn lemma_plane_index(width: int, height: int, x: int, y: int, x1: int, y1: int)
    requires
        0 <= x < width,
        0 <= y < height,
        0 <= x1 < width,
        0 <= y1 < height,
    ensures
        0 <= y * width + x < width * height,
        (y * width + x == y1 * width + x1) == (x == x1 && y == y1),
{
    crate::grids::lemma_cell_bound(x, y, width, height);
    if y * width + x == y1 * width + x1 {
        crate::grids::lemma_cell_injective(x, y, x1, y1, width);
    }
}

fn blit_row(dst: &mut FramePlane, src: &[u8], start: Option<usize>, y: usize, width: usize)
    requires
        old(dst).wf(),
        y < old(dst).height,
        width <= old(dst).width,
        start matches Some(s) ==> s + width <= src@.len(),
    ensures
        final(dst).wf(),
        final(dst).width == old(dst).width,
        final(dst).height == old(dst).height,
        forall|i: int, j: int|
            0 <= i < old(dst).width && 0 <= j < old(dst).height ==> #[trigger] final(dst).at(i, j)
                == (if j == y && i < width {
                match start {
                    Some(s) => src@[s + i],
                    None => 0,
                }
            } else {
                old(dst).at(i, j)
            }),
{
    let (size, len) = (dst.samples.len(), src.len());
    for x in 0..width
        invariant
            dst.wf(),
            dst.width == old(dst).width,
            dst.height == old(dst).height,
            dst.samples@.len() == size,
            src@.len() == len,
            y < dst.height,
            width <= dst.width,
            start matches Some(s) ==> s + width <= src@.len(),
            forall|i: int, j: int|
                0 <= i < dst.width && 0 <= j < dst.height ==> #[trigger] dst.at(i, j) == (if j == y
                    && i < x {
                    match start {
                        Some(s) => src@[s + i],
                        None => 0,
                    }
                } else {
                    old(dst).at(i, j)
                }),
    {
        let v: u8 = match start {
            Some(s) => src[s + x],
            None => 0,
        };
        let ghost before = *dst;
        proof {
            lemma_plane_index(
                dst.width as int,
                dst.height as int,
                x as int,
                y as int,
                x as int,
                y as int,
            );
            assert(0 <= y * dst.width) by (nonlinear_arith);
        }
        let i: usize = y * dst.width + x;
        dst.samples[i] = v;
        assert forall|a: int, b: int| 0 <= a < dst.width && 0 <= b < dst.height implies #[trigger] dst.at(
            a,
            b,
        ) == (if b == y && a == x {
            v
        } else {
            before.at(a, b)
        }) by {
            lemma_plane_index(dst.width as int, dst.height as int, a, b, x as int, y as int);
        }
    }
}

/// Copies a region of a coded plane into the corner of an output plane, as far
/// as that reaches.
pub fn blit_plane(
    src: &[u8],
    src_stride: usize,
    x0: usize,
    y0: usize,
    dst: &mut FramePlane,
    width: usize,
    height: usize,
)
    requires
        old(dst).wf(),
        y0 + height <= usize::MAX,
    ensures
        final(dst).wf(),
        final(dst).width == old(dst).width,
        final(dst).height == old(dst).height,
        forall|x: int, y: int|
            0 <= x < old(dst).width && 0 <= y < old(dst).height ==> #[trigger] final(dst).at(x, y)
                == (if x < width && y < height {
                cropped(
                    src@,
                    src_stride as int,
                    x0 as int,
                    y0 as int,
                    width as int,
                    x,
                    y,
                )
            } else {
                old(dst).at(x, y)
            }),
{
    let rows: usize = if height < dst.height {
        height
    } else {
        dst.height
    };
    let shown: usize = if width < dst.width {
        width
    } else {
        dst.width
    };
    for y in 0..rows
        invariant
            dst.wf(),
            dst.width == old(dst).width,
            dst.height == old(dst).height,
            rows <= height,
            rows <= dst.height,
            shown <= width,
            shown <= dst.width,
            shown == width || shown == dst.width,
            y0 + height <= usize::MAX,
            forall|a: int, b: int|
                0 <= a < dst.width && 0 <= b < dst.height ==> #[trigger] dst.at(a, b) == (if a
                    < width && b < y {
                    cropped(
                        src@,
                        src_stride as int,
                        x0 as int,
                        y0 as int,
                        width as int,
                        a,
                        b,
                    )
                } else {
                    old(dst).at(a, b)
                }),
    {
        proof {
            assert(0 <= (y0 + y) * src_stride <= 0xffff_ffff_ffff_ffff * 0xffff_ffff_ffff_ffff)
                by (nonlinear_arith)
                requires
                    0 <= y0 + y <= 0xffff_ffff_ffff_ffff,
                    0 <= src_stride <= 0xffff_ffff_ffff_ffff,
            ;
        }
        let first: u128 = (y0 + y) as u128 * src_stride as u128;
        let start: Option<usize> = if first <= src.len() as u128 && first + x0 as u128
            + width as u128 <= src.len() as u128 {
            Some((first + x0 as u128) as usize)
        } else {
            None
        };
        blit_row(dst, src, start, y, shown);
    }
}

/// How many samples are cropped off the left and the top, in crop units, and
/// how many luma samples a unit has in each direction.
#[derive(Debug, Clone, Copy, PartialEq, Eq, Structural)]
pub struct Crop {
    pub left: u32,
    pub top: u32,
    pub unit_x: u32,
    pub unit_y: u32,
}

/// An output picture.
#[derive(Debug, Clone)]
pub struct VisibleFrame {
    pub luma: FramePlane,
    pub cb: FramePlane,
    pub cr: FramePlane,
    /// Whether decoding can start with it.
    pub key: bool,
}

/// Half of an extent, rounded up.
pub open spec fn half_up(n: int) -> int {
    (n + 1) / 2
}

/// Whether a plane shows a region of a coded plane.
pub open spec fn shows(
    p: FramePlane,
    width: int,
    height: int,
    src: Seq<u8>,
    stride: int,
    x0: int,
    y0: int,
) -> bool {
    &&& p.wf()
    &&& p.width == width
    &&& p.height == height
    &&& forall|x: int, y: int|
        0 <= x < width && 0 <= y < height ==> #[trigger] p.at(x, y) == cropped(
            src,
            stride,
            x0,
            y0,
            width,
            x,
            y,
        )
}

fn crop_plane(src: &[u8], stride: usize, x0: usize, y0: usize, width: usize, height: usize) -> (p:
    FramePlane)
    requires
        width * height <= usize::MAX,
        y0 + height <= usize::MAX,
    ensures
        shows(p, width as int, height as int, src@, stride as int, x0 as int, y0 as int),
{
    let mut p: FramePlane = FramePlane::new(width, height);
    blit_plane(src, stride, x0, y0, &mut p, width, height);
    p
}

/// Cuts the visible part out of a coded picture of 4:2:0 samples. In chroma a
/// crop unit is one sample.
pub fn build_frame(
    mbs_wide: u32,
    luma: &[u8],
    cb: &[u8],
    cr: &[u8],
    dimensions: Option<(u32, u32)>,
    crop: Crop,
    is_idr: bool,
) -> (r: Result<VisibleFrame, Error>)
    requires
        16 * mbs_wide <= u32::MAX,
        dimensions matches Some(d) ==> d.0 * d.1 <= usize::MAX && d.1 + within_u32(
            crop.top * crop.unit_y,
        ) <= usize::MAX && d.1 + crop.top <= usize::MAX,
    ensures
        match dimensions {
            None => r matches Err(e) && e == Error::InvalidData(Reason::NothingVisible),
            Some((w, h)) => {
                &&& r matches Ok(f)
                &&& f.key == is_idr
                &&& shows(
                    f.luma,
                    w as int,
                    h as int,
                    luma@,
                    16 * mbs_wide,
                    within_u32(crop.left * crop.unit_x),
                    within_u32(crop.top * crop.unit_y),
                )
                &&& shows(
                    f.cb,
                    half_up(w as int),
                    half_up(h as int),
                    cb@,
                    8 * mbs_wide,
                    crop.left as int,
                    crop.top as int,
                )
                &&& shows(
                    f.cr,
                    half_up(w as int),
                    half_up(h as int),
                    cr@,
                    8 * mbs_wide,
                    crop.left as int,
                    crop.top as int,
                )
            },
        },
{
    let (width, height) = match dimensions {
        None => {
            return Err(Error::InvalidData(Reason::NothingVisible));
        },
        Some(d) => d,
    };
    let (w, h) = (width as usize, height as usize);
    let (cw, ch) = (w / 2 + w % 2, h / 2 + h % 2);
    proof {
        assert(0 <= cw * ch <= w * h) by (nonlinear_arith)
            requires
                0 <= cw <= w,
                0 <= ch <= h,
        ;
    }
    let (x0, y0) = (times(crop.left, crop.unit_x) as usize, times(crop.top, crop.unit_y) as usize);
    let (cx0, cy0) = (crop.left as usize, crop.top as usize);
    let (stride, chroma_stride) = ((mbs_wide * 16) as usize, (mbs_wide * 8) as usize);
    let f = VisibleFrame {
        luma: crop_plane(luma, stride, x0, y0, w, h),
        cb: crop_plane(cb, chroma_stride, cx0, cy0, cw, ch),
        cr: crop_plane(cr, chroma_stride, cx0, cy0, cw, ch),
        key: is_idr,
    };
    Ok(f)
}

/// Nothing is lost where nothing is cropped: a region that is the whole plane
/// shows every sample at its place.
pub proof fn law_whole_region_is_identity(src: Seq<u8>, width: int, height: int, x: int, y: int)
    requires
        src.len() == width * height,
        0 <= x < width,
        0 <= y < height,
    ensures
        cropped(src, width, 0, 0, width, x, y) == src[y * width + x],
{
    assert(y * width + width <= width * height) by (nonlinear_arith)
        requires
            0 <= y < height,
            0 < width,
    ;
}

} // verus!
