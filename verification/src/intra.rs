//! Intra prediction: the sixteen-by-sixteen, chroma and four-by-four sample
//! generators, and the inference of a four-by-four block's mode.
//!
//! Neighbour samples and their availability arrive already resolved. With no
//! neighbour available, every mode that has a defined behaviour for that case
//! predicts a flat 128.
use vstd::prelude::*;
use crate::arith::{clip3, lemma_shift_i32};

verus! {

/// The neighbours of a sixteen-by-sixteen luma block.
#[derive(Debug, Clone, Copy)]
pub struct Neighbours16 {
    pub top_available: bool,
    pub top: [u8; 16],
    pub left_available: bool,
    pub left: [u8; 16],
    /// The sample diagonally above and to the left. Only the plane mode reads
    /// it.
    pub corner: u8,
}

/// The neighbours of an eight-by-eight chroma block.
#[derive(Debug, Clone, Copy)]
pub struct NeighboursChroma {
    pub top_available: bool,
    pub top: [u8; 8],
    pub left_available: bool,
    pub left: [u8; 8],
    /// The sample diagonally above and to the left. Only the plane mode reads
    /// it.
    pub corner: u8,
}

/// The thirteen neighbours of a four-by-four luma block.
#[derive(Debug, Clone, Copy)]
pub struct Neighbours4 {
    pub top_available: bool,
    pub top: [u8; 4],
    /// The four samples right of `top`, substituted by the last of `top` where
    /// they are not available themselves.
    pub top_right: [u8; 4],
    pub left_available: bool,
    pub left: [u8; 4],
    pub corner: u8,
}

/// An edge with the corner sample in front of it.
pub open spec fn edge_at(edge: Seq<u8>, corner: u8, i: int) -> int {
    if i < 0 {
        corner as int
    } else {
        edge[i] as int
    }
}

/// The weighted sum of differences across an edge of `2 * half` samples, over
/// the first `k` pairs out from its centre.
pub open spec fn edge_gradient(edge: Seq<u8>, corner: u8, half: int, k: nat) -> int
    decreases k,
{
    if k == 0 {
        0
    } else {
        edge_gradient(edge, corner, half, (k - 1) as nat) + k * (edge_at(edge, corner, half + k - 1)
            - edge_at(edge, corner, half - 1 - k))
    }
}

/// The sum of the first `k` samples of an edge.
pub open spec fn edge_sum(edge: Seq<u8>, k: nat) -> int
    decreases k,
{
    if k == 0 {
        0
    } else {
        edge_sum(edge, (k - 1) as nat) + edge[k - 1]
    }
}

/// The rounded average of `total` over `count` samples.
pub open spec fn rounded_mean(total: int, count: int) -> int {
    (total + count / 2) / count
}

/// The average of whichever of two `count`-sample edges is available, 128 with
/// neither.
pub open spec fn dc_of(
    top: Seq<u8>,
    top_available: bool,
    left: Seq<u8>,
    left_available: bool,
    count: nat,
) -> int {
    if top_available && left_available {
        rounded_mean(edge_sum(top, count) + edge_sum(left, count), 2 * count as int)
    } else if top_available {
        rounded_mean(edge_sum(top, count), count as int)
    } else if left_available {
        rounded_mean(edge_sum(left, count), count as int)
    } else {
        128
    }
}

/// The average of the preferred edge if it is available, else of the other,
/// 128 with neither.
pub open spec fn dc_preferring(
    first: Seq<u8>,
    first_available: bool,
    second: Seq<u8>,
    second_available: bool,
    count: nat,
) -> int {
    if first_available {
        rounded_mean(edge_sum(first, count), count as int)
    } else if second_available {
        rounded_mean(edge_sum(second, count), count as int)
    } else {
        128
    }
}

/// The sample at column `x`, row `y` of a plane fitted through two edges of
/// `2 * half` samples, given its per-sample slopes.
pub open spec fn plane_sample(
    top: Seq<u8>,
    left: Seq<u8>,
    half: int,
    slope_x: int,
    slope_y: int,
    x: int,
    y: int,
) -> int {
    let a = 16 * (left[2 * half - 1] + top[2 * half - 1]);
    clip3(0, 255, (a + slope_x * (x - (half - 1)) + slope_y * (y - (half - 1)) + 16) / 32)
}

/// The sixteen-by-sixteen prediction: mode 0 vertical, 1 horizontal, 3 plane,
/// and the average for 2 and anything else.
pub open spec fn pred16(mode: u8, n: Neighbours16, x: int, y: int) -> int {
    if mode == 0 {
        n.top[x] as int
    } else if mode == 1 {
        n.left[y] as int
    } else if mode == 3 {
        plane_sample(
            n.top@,
            n.left@,
            8,
            (5 * edge_gradient(n.top@, n.corner, 8, 8) + 32) / 64,
            (5 * edge_gradient(n.left@, n.corner, 8, 8) + 32) / 64,
            x,
            y,
        )
    } else {
        dc_of(n.top@, n.top_available, n.left@, n.left_available, 16)
    }
}

/// The chroma prediction: mode 1 horizontal, 2 vertical, 3 plane, and the
/// per-quadrant average for 0 and anything else. The top-left and bottom-right
/// quadrants average both edges; the other two prefer the edge they touch.
pub open spec fn pred_chroma(mode: u8, n: NeighboursChroma, x: int, y: int) -> int {
    if mode == 1 {
        n.left[y] as int
    } else if mode == 2 {
        n.top[x] as int
    } else if mode == 3 {
        plane_sample(
            n.top@,
            n.left@,
            4,
            (17 * edge_gradient(n.top@, n.corner, 4, 4) + 16) / 32,
            (17 * edge_gradient(n.left@, n.corner, 4, 4) + 16) / 32,
            x,
            y,
        )
    } else {
        let top0 = n.top@.subrange(0, 4);
        let top1 = n.top@.subrange(4, 8);
        let left0 = n.left@.subrange(0, 4);
        let left1 = n.left@.subrange(4, 8);
        if x < 4 && y < 4 {
            dc_of(top0, n.top_available, left0, n.left_available, 4)
        } else if y < 4 {
            dc_preferring(top1, n.top_available, left0, n.left_available, 4)
        } else if x < 4 {
            dc_preferring(left1, n.left_available, top0, n.top_available, 4)
        } else {
            dc_of(top1, n.top_available, left1, n.left_available, 4)
        }
    }
}

proof fn lemma_edge_sum_bounds(edge: Seq<u8>, k: nat)
    requires
        k <= edge.len(),
    ensures
        0 <= edge_sum(edge, k) <= 255 * k,
    decreases k,
{
    if k > 0 {
        lemma_edge_sum_bounds(edge, (k - 1) as nat);
    }
}

proof fn lemma_edge_gradient_bounds(edge: Seq<u8>, corner: u8, half: int, k: nat)
    requires
        k <= half,
        edge.len() == 2 * half,
    ensures
        2 * edge_gradient(edge, corner, half, k) <= 255 * (k * (k + 1)),
        2 * edge_gradient(edge, corner, half, k) >= -255 * (k * (k + 1)),
    decreases k,
{
    if k > 0 {
        lemma_edge_gradient_bounds(edge, corner, half, (k - 1) as nat);
        let d = edge_at(edge, corner, half + k - 1) - edge_at(edge, corner, half - 1 - k);
        assert(-255 <= d <= 255);
        assert(k * d <= 255 * k && k * d >= -255 * k) by (nonlinear_arith)
            requires
                -255 <= d <= 255,
                k > 0,
        ;
        assert((k - 1) * k + 2 * k == k * (k + 1)) by (nonlinear_arith);
    }
}

fn sum_edge(edge: &[u8]) -> (r: u32)
    requires
        edge.len() <= 16,
    ensures
        r == edge_sum(edge@, edge@.len()),
        r <= 255 * edge@.len(),
{
    let mut total: u32 = 0;
    for i in 0..edge.len()
        invariant
            edge.len() <= 16,
            total == edge_sum(edge@, i as nat),
            total <= 255 * i,
    {
        total = total + edge[i] as u32;
    }
    total
}

fn gradient(edge: &[u8], corner: u8, half: usize) -> (r: i32)
    requires
        edge.len() == 2 * half,
        half == 4 || half == 8,
    ensures
        r == edge_gradient(edge@, corner, half as int, half as nat),
        -9180 <= r <= 9180,
        half == 4 ==> -2550 <= r <= 2550,
{
    let mut total: i32 = 0;
    for i in 0..half
        invariant
            edge.len() == 2 * half,
            half == 4 || half == 8,
            total == edge_gradient(edge@, corner, half as int, i as nat),
            -2550 * i <= total <= 2550 * i,
    {
        let far: i32 = edge[half + i] as i32;
        let near: i32 = if i + 1 < half {
            edge[half - 2 - i] as i32
        } else {
            corner as i32
        };
        proof {
            assert(-2040 <= (i + 1) * (far - near) <= 2040) by (nonlinear_arith)
                requires
                    0 <= i < 8,
                    -255 <= far - near <= 255,
            ;
        }
        total = total + (i as i32 + 1) * (far - near);
        proof {
            assert(near == edge_at(edge@, corner, half - 1 - (i + 1)));
        }
    }
    proof {
        lemma_edge_gradient_bounds(edge@, corner, half as int, half as nat);
    }
    total
}

fn plane_pixel(a: i32, slope_x: i32, slope_y: i32, dx: i32, dy: i32) -> (r: u8)
    requires
        0 <= a <= 8160,
        -1400 <= slope_x <= 1400,
        -1400 <= slope_y <= 1400,
        -7 <= dx <= 8,
        -7 <= dy <= 8,
    ensures
        r == clip3(0, 255, (a + slope_x * dx + slope_y * dy + 16) / 32),
{
    proof {
        assert(-11200 <= slope_x * dx <= 11200) by (nonlinear_arith)
            requires
                -1400 <= slope_x <= 1400,
                -7 <= dx <= 8,
        ;
        assert(-11200 <= slope_y * dy <= 11200) by (nonlinear_arith)
            requires
                -1400 <= slope_y <= 1400,
                -7 <= dy <= 8,
        ;
    }
    let sum: i32 = a + slope_x * dx + slope_y * dy + 16;
    proof {
        lemma_shift_i32(sum);
    }
    let v: i32 = sum >> 5;
    if v < 0 {
        0
    } else if v > 255 {
        255
    } else {
        v as u8
    }
}

fn average_both(top: &[u8], left: &[u8]) -> (r: u8)
    requires
        0 < top.len() <= 16,
        left.len() == top.len(),
    ensures
        r == rounded_mean(
            edge_sum(top@, top@.len()) + edge_sum(left@, left@.len()),
            2 * top@.len() as int,
        ),
{
    let count: u32 = top.len() as u32;
    let total: u32 = sum_edge(top) + sum_edge(left);
    proof {
        let bound = 255 * (2 * count) + count;
        assert((total + count) / (2 * count as int) <= 255) by (nonlinear_arith)
            requires
                0 <= total <= 255 * (2 * count),
                0 < count <= 16,
        ;
        assert((2 * count) as int / 2 == count);
    }
    ((total + count) / (2 * count)) as u8
}

fn average_one(edge: &[u8]) -> (r: u8)
    requires
        0 < edge.len() <= 16,
    ensures
        r == rounded_mean(edge_sum(edge@, edge@.len()), edge@.len() as int),
{
    let count: u32 = edge.len() as u32;
    let total: u32 = sum_edge(edge);
    proof {
        assert((total + count / 2) / (count as int) <= 255) by (nonlinear_arith)
            requires
                0 <= total <= 255 * count,
                0 < count <= 16,
        ;
    }
    ((total + count / 2) / count) as u8
}

fn dc(top: &[u8], top_available: bool, left: &[u8], left_available: bool) -> (r: u8)
    requires
        0 < top.len() <= 16,
        left.len() == top.len(),
    ensures
        r == dc_of(top@, top_available, left@, left_available, top@.len()),
{
    if top_available && left_available {
        average_both(top, left)
    } else if top_available {
        average_one(top)
    } else if left_available {
        average_one(left)
    } else {
        128
    }
}

fn dc_first(first: &[u8], first_available: bool, second: &[u8], second_available: bool) -> (r: u8)
    requires
        0 < first.len() <= 16,
        second.len() == first.len(),
    ensures
        r == dc_preferring(first@, first_available, second@, second_available, first@.len()),
{
    if first_available {
        average_one(first)
    } else if second_available {
        average_one(second)
    } else {
        128
    }
}

/// Predicts a sixteen-by-sixteen luma block.
pub fn predict_intra16x16(mode: u8, n: Neighbours16) -> (out: [[u8; 16]; 16])
    ensures
        forall|y: int, x: int|
            0 <= y < 16 && 0 <= x < 16 ==> #[trigger] out[y][x] == pred16(mode, n, x, y),
{
    let mut out = [[0u8; 16]; 16];
    let mut average: u8 = 0;
    let (mut a, mut b, mut c): (i32, i32, i32) = (0, 0, 0);
    if mode == 3 {
        let h: i32 = gradient(n.top.as_slice(), n.corner, 8);
        let v: i32 = gradient(n.left.as_slice(), n.corner, 8);
        a = 16 * (n.left[15] as i32 + n.top[15] as i32);
        proof {
            lemma_shift_i32((5 * h + 32) as i32);
            lemma_shift_i32((5 * v + 32) as i32);
        }
        b = (5 * h + 32) >> 6;
        c = (5 * v + 32) >> 6;
    } else if mode > 1 {
        average = dc(n.top.as_slice(), n.top_available, n.left.as_slice(), n.left_available);
    }
    for y in 0..16usize
        invariant
            mode > 1 && mode != 3 ==> average == dc_of(
                n.top@,
                n.top_available,
                n.left@,
                n.left_available,
                16,
            ),
            mode == 3 ==> {
                &&& a == 16 * (n.left[15] + n.top[15])
                &&& b == (5 * edge_gradient(n.top@, n.corner, 8, 8) + 32) / 64
                &&& c == (5 * edge_gradient(n.left@, n.corner, 8, 8) + 32) / 64
                &&& -1400 <= b <= 1400
                &&& -1400 <= c <= 1400
            },
            forall|yy: int, x: int|
                0 <= yy < y && 0 <= x < 16 ==> #[trigger] out[yy][x] == pred16(mode, n, x, yy),
    {
        for x in 0..16usize
            invariant
                y < 16,
                mode > 1 && mode != 3 ==> average == dc_of(
                    n.top@,
                    n.top_available,
                    n.left@,
                    n.left_available,
                    16,
                ),
                mode == 3 ==> {
                    &&& a == 16 * (n.left[15] + n.top[15])
                    &&& b == (5 * edge_gradient(n.top@, n.corner, 8, 8) + 32) / 64
                    &&& c == (5 * edge_gradient(n.left@, n.corner, 8, 8) + 32) / 64
                    &&& -1400 <= b <= 1400
                    &&& -1400 <= c <= 1400
                },
                forall|yy: int, xx: int|
                    0 <= yy < y && 0 <= xx < 16 ==> #[trigger] out[yy][xx] == pred16(
                        mode,
                        n,
                        xx,
                        yy,
                    ),
                forall|xx: int|
                    0 <= xx < x ==> #[trigger] out[y as int][xx] == pred16(mode, n, xx, y as int),
        {
            let v: u8 = if mode == 0 {
                n.top[x]
            } else if mode == 1 {
                n.left[y]
            } else if mode == 3 {
                plane_pixel(a, b, c, x as i32 - 7, y as i32 - 7)
            } else {
                average
            };
            out[y][x] = v;
        }
    }
    out
}

/// Predicts an eight-by-eight chroma block.
pub fn predict_intra_chroma(mode: u8, n: NeighboursChroma) -> (out: [[u8; 8]; 8])
    ensures
        forall|y: int, x: int|
            0 <= y < 8 && 0 <= x < 8 ==> #[trigger] out[y][x] == pred_chroma(mode, n, x, y),
{
    let mut out = [[0u8; 8]; 8];
    let mut quadrants = [0u8; 4];
    let (mut a, mut b, mut c): (i32, i32, i32) = (0, 0, 0);
    if mode == 3 {
        let h: i32 = gradient(n.top.as_slice(), n.corner, 4);
        let v: i32 = gradient(n.left.as_slice(), n.corner, 4);
        a = 16 * (n.left[7] as i32 + n.top[7] as i32);
        proof {
            lemma_shift_i32((17 * h + 16) as i32);
            lemma_shift_i32((17 * v + 16) as i32);
        }
        b = (17 * h + 16) >> 5;
        c = (17 * v + 16) >> 5;
    } else if mode != 1 && mode != 2 {
        let top0 = [n.top[0], n.top[1], n.top[2], n.top[3]];
        let top1 = [n.top[4], n.top[5], n.top[6], n.top[7]];
        let left0 = [n.left[0], n.left[1], n.left[2], n.left[3]];
        let left1 = [n.left[4], n.left[5], n.left[6], n.left[7]];
        proof {
            assert(top0@ =~= n.top@.subrange(0, 4));
            assert(top1@ =~= n.top@.subrange(4, 8));
            assert(left0@ =~= n.left@.subrange(0, 4));
            assert(left1@ =~= n.left@.subrange(4, 8));
        }
        quadrants[0] = dc(top0.as_slice(), n.top_available, left0.as_slice(), n.left_available);
        quadrants[1] = dc_first(
            top1.as_slice(),
            n.top_available,
            left0.as_slice(),
            n.left_available,
        );
        quadrants[2] = dc_first(
            left1.as_slice(),
            n.left_available,
            top0.as_slice(),
            n.top_available,
        );
        quadrants[3] = dc(top1.as_slice(), n.top_available, left1.as_slice(), n.left_available);
    }
    for y in 0..8usize
        invariant
            mode != 1 && mode != 2 && mode != 3 ==> {
                &&& quadrants[0] == pred_chroma(mode, n, 0, 0)
                &&& quadrants[1] == pred_chroma(mode, n, 4, 0)
                &&& quadrants[2] == pred_chroma(mode, n, 0, 4)
                &&& quadrants[3] == pred_chroma(mode, n, 4, 4)
            },
            mode == 3 ==> {
                &&& a == 16 * (n.left[7] + n.top[7])
                &&& b == (17 * edge_gradient(n.top@, n.corner, 4, 4) + 16) / 32
                &&& c == (17 * edge_gradient(n.left@, n.corner, 4, 4) + 16) / 32
                &&& -1400 <= b <= 1400
                &&& -1400 <= c <= 1400
            },
            forall|yy: int, x: int|
                0 <= yy < y && 0 <= x < 8 ==> #[trigger] out[yy][x] == pred_chroma(mode, n, x, yy),
    {
        for x in 0..8usize
            invariant
                y < 8,
                mode != 1 && mode != 2 && mode != 3 ==> {
                    &&& quadrants[0] == pred_chroma(mode, n, 0, 0)
                    &&& quadrants[1] == pred_chroma(mode, n, 4, 0)
                    &&& quadrants[2] == pred_chroma(mode, n, 0, 4)
                    &&& quadrants[3] == pred_chroma(mode, n, 4, 4)
                },
                mode == 3 ==> {
                    &&& a == 16 * (n.left[7] + n.top[7])
                    &&& b == (17 * edge_gradient(n.top@, n.corner, 4, 4) + 16) / 32
                    &&& c == (17 * edge_gradient(n.left@, n.corner, 4, 4) + 16) / 32
                    &&& -1400 <= b <= 1400
                    &&& -1400 <= c <= 1400
                },
                forall|yy: int, xx: int|
                    0 <= yy < y && 0 <= xx < 8 ==> #[trigger] out[yy][xx] == pred_chroma(
                        mode,
                        n,
                        xx,
                        yy,
                    ),
                forall|xx: int|
                    0 <= xx < x ==> #[trigger] out[y as int][xx] == pred_chroma(
                        mode,
                        n,
                        xx,
                        y as int,
                    ),
        {
            let v: u8 = if mode == 1 {
                n.left[y]
            } else if mode == 2 {
                n.top[x]
            } else if mode == 3 {
                plane_pixel(a, b, c, x as i32 - 3, y as i32 - 3)
            } else if y < 4 {
                if x < 4 {
                    quadrants[0]
                } else {
                    quadrants[1]
                }
            } else {
                if x < 4 {
                    quadrants[2]
                } else {
                    quadrants[3]
                }
            };
            out[y][x] = v;
        }
    }
    out
}

/// The neighbours of a four-by-four block in one coordinate space: the corner
/// at `(-1, -1)`, the eight samples above at row `-1`, the four to the left in
/// any other row. Positions outside hold 0.
pub open spec fn p4_spec(n: Neighbours4, x: int, y: int) -> int {
    if x == -1 && y == -1 {
        n.corner as int
    } else if y == -1 {
        if 0 <= x < 4 {
            n.top[x] as int
        } else if 4 <= x < 8 {
            n.top_right[x - 4] as int
        } else {
            0
        }
    } else {
        if 0 <= y < 4 {
            n.left[y] as int
        } else {
            0
        }
    }
}

pub fn p4(n: &Neighbours4, x: i32, y: i32) -> (r: i32)
    ensures
        r == p4_spec(*n, x as int, y as int),
        0 <= r <= 255,
{
    if x == -1 && y == -1 {
        return n.corner as i32;
    }
    if y == -1 {
        if 0 <= x && x < 4 {
            return n.top[x as usize] as i32;
        }
        if 4 <= x && x < 8 {
            return n.top_right[(x - 4) as usize] as i32;
        }
        return 0;
    }
    if 0 <= y && y < 4 {
        n.left[y as usize] as i32
    } else {
        0
    }
}

/// The smaller of two neighbouring blocks' modes.
pub open spec fn predicted_mode(mode_a: u8, mode_b: u8) -> u8 {
    if mode_a < mode_b {
        mode_a
    } else {
        mode_b
    }
}

/// The mode that a remaining-mode syntax element names.
pub open spec fn remaining_mode(mode_a: u8, mode_b: u8, rem: u8) -> int {
    if rem < predicted_mode(mode_a, mode_b) {
        rem as int
    } else {
        rem + 1
    }
}

/// A four-by-four block's prediction mode from its two neighbours' modes and
/// the two syntax elements read for it. A remaining mode at or above the
/// predicted one skips it.
pub fn infer_intra4x4_pred_mode(mode_a: u8, mode_b: u8, prev_flag: bool, rem: u8) -> (r: u8)
    requires
        prev_flag || rem < 255 || rem < predicted_mode(mode_a, mode_b),
    ensures
        r == (if prev_flag {
            predicted_mode(mode_a, mode_b) as int
        } else {
            remaining_mode(mode_a, mode_b, rem)
        }),
{
    let pred: u8 = if mode_a < mode_b {
        mode_a
    } else {
        mode_b
    };
    if prev_flag {
        pred
    } else if rem < pred {
        rem
    } else {
        rem + 1
    }
}

/// Widens a block coordinate to the signed space of [`p4`].
pub fn block4_index_to_i32(v: usize) -> (r: i32)
    ensures
        v <= i32::MAX ==> r == v,
        v > i32::MAX ==> r == i32::MAX,
{
    if v <= 0x7fff_ffff {
        v as i32
    } else {
        i32::MAX
    }
}

/// The rounded `1 2 1` average of three samples.
pub open spec fn smooth3(a: int, b: int, c: int) -> int {
    (a + 2 * b + c + 2) / 4
}

/// The rounded average of two samples.
pub open spec fn smooth2(a: int, b: int) -> int {
    (a + b + 1) / 2
}

/// The nine four-by-four modes. Out-of-range modes predict the average, as
/// mode 2 does.
pub open spec fn pred4(mode: u8, n: Neighbours4, x: int, y: int) -> int {
    let p = |a: int, b: int| p4_spec(n, a, b);
    if mode == 0 {
        p(x, -1)
    } else if mode == 1 {
        p(-1, y)
    } else if mode == 3 {
        if x == 3 && y == 3 {
            (p(6, -1) + 3 * p(7, -1) + 2) / 4
        } else {
            smooth3(p(x + y, -1), p(x + y + 1, -1), p(x + y + 2, -1))
        }
    } else if mode == 4 {
        if x > y {
            smooth3(p(x - y - 2, -1), p(x - y - 1, -1), p(x - y, -1))
        } else if x < y {
            smooth3(p(-1, y - x - 2), p(-1, y - x - 1), p(-1, y - x))
        } else {
            smooth3(p(0, -1), p(-1, -1), p(-1, 0))
        }
    } else if mode == 5 {
        let z = 2 * x - y;
        let i = x - y / 2;
        if z >= 0 && z % 2 == 0 {
            smooth2(p(i - 1, -1), p(i, -1))
        } else if z >= 0 {
            smooth3(p(i - 2, -1), p(i - 1, -1), p(i, -1))
        } else if z == -1 {
            smooth3(p(-1, 0), p(-1, -1), p(0, -1))
        } else {
            smooth3(p(-1, y - 1), p(-1, y - 2), p(-1, y - 3))
        }
    } else if mode == 6 {
        let z = 2 * y - x;
        let i = y - x / 2;
        if z >= 0 && z % 2 == 0 {
            smooth2(p(-1, i - 1), p(-1, i))
        } else if z >= 0 {
            smooth3(p(-1, i - 2), p(-1, i - 1), p(-1, i))
        } else if z == -1 {
            smooth3(p(-1, 0), p(-1, -1), p(0, -1))
        } else {
            smooth3(p(x - 1, -1), p(x - 2, -1), p(x - 3, -1))
        }
    } else if mode == 7 {
        let i = x + y / 2;
        if y % 2 == 0 {
            smooth2(p(i, -1), p(i + 1, -1))
        } else {
            smooth3(p(i, -1), p(i + 1, -1), p(i + 2, -1))
        }
    } else if mode == 8 {
        let z = x + 2 * y;
        let i = y + x / 2;
        if z > 5 {
            p(-1, 3)
        } else if z == 5 {
            (p(-1, 2) + 3 * p(-1, 3) + 2) / 4
        } else if z % 2 == 0 {
            smooth2(p(-1, i), p(-1, i + 1))
        } else {
            smooth3(p(-1, i), p(-1, i + 1), p(-1, i + 2))
        }
    } else {
        dc_of(n.top@, n.top_available, n.left@, n.left_available, 4)
    }
}

fn smooth_three(a: i32, b: i32, c: i32) -> (r: u8)
    requires
        0 <= a <= 255,
        0 <= b <= 255,
        0 <= c <= 255,
    ensures
        r == smooth3(a as int, b as int, c as int),
{
    proof {
        lemma_shift_i32((a + 2 * b + c + 2) as i32);
    }
    ((a + 2 * b + c + 2) >> 2) as u8
}

fn smooth_two(a: i32, b: i32) -> (r: u8)
    requires
        0 <= a <= 255,
        0 <= b <= 255,
    ensures
        r == smooth2(a as int, b as int),
{
    proof {
        lemma_shift_i32((a + b + 1) as i32);
    }
    ((a + b + 1) >> 1) as u8
}

fn directional4(mode: u8, n: &Neighbours4, x: i32, y: i32) -> (r: u8)
    requires
        0 <= x < 4,
        0 <= y < 4,
        mode == 0 || mode == 1 || 3 <= mode <= 8,
    ensures
        r == pred4(mode, *n, x as int, y as int),
{
    proof {
        lemma_shift_i32(x);
        lemma_shift_i32(y);
    }
    if mode == 0 {
        p4(n, x, -1) as u8
    } else if mode == 1 {
        p4(n, -1, y) as u8
    } else if mode == 3 {
        if x == 3 && y == 3 {
            let last: i32 = p4(n, 7, -1);
            smooth_three(p4(n, 6, -1), last, last)
        } else {
            smooth_three(p4(n, x + y, -1), p4(n, x + y + 1, -1), p4(n, x + y + 2, -1))
        }
    } else if mode == 4 {
        if x > y {
            smooth_three(p4(n, x - y - 2, -1), p4(n, x - y - 1, -1), p4(n, x - y, -1))
        } else if x < y {
            smooth_three(p4(n, -1, y - x - 2), p4(n, -1, y - x - 1), p4(n, -1, y - x))
        } else {
            smooth_three(p4(n, 0, -1), p4(n, -1, -1), p4(n, -1, 0))
        }
    } else if mode == 5 {
        let z: i32 = 2 * x - y;
        let i: i32 = x - (y >> 1);
        if z >= 0 && z % 2 == 0 {
            smooth_two(p4(n, i - 1, -1), p4(n, i, -1))
        } else if z == 1 || z == 3 || z == 5 {
            smooth_three(p4(n, i - 2, -1), p4(n, i - 1, -1), p4(n, i, -1))
        } else if z == -1 {
            smooth_three(p4(n, -1, 0), p4(n, -1, -1), p4(n, 0, -1))
        } else {
            smooth_three(p4(n, -1, y - 1), p4(n, -1, y - 2), p4(n, -1, y - 3))
        }
    } else if mode == 6 {
        let z: i32 = 2 * y - x;
        let i: i32 = y - (x >> 1);
        if z >= 0 && z % 2 == 0 {
            smooth_two(p4(n, -1, i - 1), p4(n, -1, i))
        } else if z == 1 || z == 3 || z == 5 {
            smooth_three(p4(n, -1, i - 2), p4(n, -1, i - 1), p4(n, -1, i))
        } else if z == -1 {
            smooth_three(p4(n, -1, 0), p4(n, -1, -1), p4(n, 0, -1))
        } else {
            smooth_three(p4(n, x - 1, -1), p4(n, x - 2, -1), p4(n, x - 3, -1))
        }
    } else if mode == 7 {
        let i: i32 = x + (y >> 1);
        if y == 0 || y == 2 {
            smooth_two(p4(n, i, -1), p4(n, i + 1, -1))
        } else {
            smooth_three(p4(n, i, -1), p4(n, i + 1, -1), p4(n, i + 2, -1))
        }
    } else {
        let z: i32 = x + 2 * y;
        let i: i32 = y + (x >> 1);
        if z == 0 || z == 2 || z == 4 {
            smooth_two(p4(n, -1, i), p4(n, -1, i + 1))
        } else if z == 1 || z == 3 {
            smooth_three(p4(n, -1, i), p4(n, -1, i + 1), p4(n, -1, i + 2))
        } else if z == 5 {
            let last: i32 = p4(n, -1, 3);
            smooth_three(p4(n, -1, 2), last, last)
        } else {
            p4(n, -1, 3) as u8
        }
    }
}

/// Predicts a four-by-four luma block.
pub fn predict_intra4x4(mode: u8, n: Neighbours4) -> (out: [[u8; 4]; 4])
    ensures
        forall|y: int, x: int|
            0 <= y < 4 && 0 <= x < 4 ==> #[trigger] out[y][x] == pred4(mode, n, x, y),
{
    let mut out = [[0u8; 4]; 4];
    let averaged: bool = mode == 2 || mode > 8;
    let average: u8 = dc(
        n.top.as_slice(),
        n.top_available,
        n.left.as_slice(),
        n.left_available,
    );
    for y in 0..4usize
        invariant
            averaged == (mode == 2 || mode > 8),
            average == dc_of(n.top@, n.top_available, n.left@, n.left_available, 4),
            forall|yy: int, x: int|
                0 <= yy < y && 0 <= x < 4 ==> #[trigger] out[yy][x] == pred4(mode, n, x, yy),
    {
        for x in 0..4usize
            invariant
                y < 4,
                averaged == (mode == 2 || mode > 8),
                average == dc_of(n.top@, n.top_available, n.left@, n.left_available, 4),
                forall|yy: int, xx: int|
                    0 <= yy < y && 0 <= xx < 4 ==> #[trigger] out[yy][xx] == pred4(mode, n, xx, yy),
                forall|xx: int|
                    0 <= xx < x ==> #[trigger] out[y as int][xx] == pred4(mode, n, xx, y as int),
        {
            let v: u8 = if averaged {
                average
            } else {
                directional4(mode, &n, block4_index_to_i32(x), block4_index_to_i32(y))
            };
            out[y][x] = v;
        }
    }
    out
}

/// With neither edge available, the averaging modes predict a flat 128.
pub proof fn law_dc_without_neighbours_is_128(
    n16: Neighbours16,
    nc: NeighboursChroma,
    n4: Neighbours4,
    x: int,
    y: int,
)
    requires
        !n16.top_available && !n16.left_available,
        !nc.top_available && !nc.left_available,
        !n4.top_available && !n4.left_available,
    ensures
        pred16(2, n16, x, y) == 128,
        pred_chroma(0, nc, x, y) == 128,
        pred4(2, n4, x, y) == 128,
{
}

/// Mode inference is symmetric in the two neighbours, reproduces the predicted
/// mode when told to, and otherwise never lands on it: the remaining modes
/// name exactly the other ones, each once.
pub proof fn law_remaining_modes_skip_the_predicted(mode_a: u8, mode_b: u8, r1: u8, r2: u8)
    ensures
        predicted_mode(mode_a, mode_b) == predicted_mode(mode_b, mode_a),
        remaining_mode(mode_a, mode_b, r1) != predicted_mode(mode_a, mode_b),
        r1 != r2 ==> remaining_mode(mode_a, mode_b, r1) != remaining_mode(mode_a, mode_b, r2),
{
}

/// Edges that are flat and available reproduce their value in every mode.
pub proof fn law_flat_neighbours_predict_flat(mode: u8, n: Neighbours4, v: u8, x: int, y: int)
    requires
        n.top_available && n.left_available,
        n.corner == v,
        forall|i: int| 0 <= i < 4 ==> #[trigger] n.top[i] == v,
        forall|i: int| 0 <= i < 4 ==> #[trigger] n.top_right[i] == v,
        forall|i: int| 0 <= i < 4 ==> #[trigger] n.left[i] == v,
        0 <= x < 4,
        0 <= y < 4,
    ensures
        pred4(mode, n, x, y) == v,
{
    reveal_with_fuel(edge_sum, 5);
    assert forall|a: int, b: int|
        (-1 <= a < 8 && b == -1) || (a == -1 && -1 <= b < 4) implies #[trigger] p4_spec(n, a, b)
        == v by {}
}

} // verus!
