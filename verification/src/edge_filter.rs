//! The deblocking filter across one line of samples, after clause 8.7.2 of the
//! H.264 standard.
use vstd::prelude::*;
use crate::arith::{clip3, floor_div};

verus! {

/// How large a step may be and still count as a blocking artefact.
pub const ALPHA: [u8; 52] = [
    0, 0, 0, 0, 0, 0, 0, 0, 0, 0, 0, 0, 0, 0, 0, 0, 4, 4, 5, 6, 7, 8, 9, 10, 12, 13, 15, 17, 20, 22,
    25, 28, 32, 36, 40, 45, 50, 56, 63, 71, 80, 90, 101, 113, 127, 144, 162, 182, 203, 226, 255, 255,
];

/// How much the samples on one side may differ.
pub const BETA: [u8; 52] = [
    0, 0, 0, 0, 0, 0, 0, 0, 0, 0, 0, 0, 0, 0, 0, 0, 2, 2, 2, 3, 3, 3, 3, 4, 4, 4, 6, 6, 7, 7, 8, 8, 9,
    9, 10, 10, 11, 11, 12, 12, 13, 13, 14, 14, 15, 15, 16, 16, 17, 17, 18, 18,
];

/// How far a sample may move at strengths 1, 2 and 3.
pub const TC0: [[u8; 3]; 52] = [
    [0, 0, 0], [0, 0, 0], [0, 0, 0], [0, 0, 0], [0, 0, 0], [0, 0, 0], [0, 0, 0], [0, 0, 0],
    [0, 0, 0], [0, 0, 0], [0, 0, 0], [0, 0, 0], [0, 0, 0], [0, 0, 0], [0, 0, 0], [0, 0, 0],
    [0, 0, 0], [0, 0, 1], [0, 0, 1], [0, 0, 1], [0, 0, 1], [0, 1, 1], [0, 1, 1], [1, 1, 1],
    [1, 1, 1], [1, 1, 1], [1, 1, 1], [1, 1, 2], [1, 1, 2], [1, 1, 2], [1, 1, 2], [1, 2, 3],
    [1, 2, 3], [2, 2, 3], [2, 2, 4], [2, 3, 4], [2, 3, 4], [3, 3, 5], [3, 4, 6], [3, 4, 6],
    [4, 5, 7], [4, 5, 8], [4, 6, 9], [5, 7, 10], [6, 8, 11], [6, 8, 13], [7, 10, 14], [8, 11, 16],
    [9, 12, 18], [10, 13, 20], [11, 15, 23], [13, 17, 25],
];

/// The thresholds of an edge: positions in the tables.
#[derive(Debug, Clone, Copy, PartialEq, Eq, Structural)]
pub struct EdgeThresholds {
    pub index_a: u8,
    pub index_b: u8,
}

impl EdgeThresholds {
    pub open spec fn wf(self) -> bool {
        self.index_a <= 51 && self.index_b <= 51
    }

    pub open spec fn alpha(self) -> int {
        ALPHA[self.index_a as int] as int
    }

    pub open spec fn beta(self) -> int {
        BETA[self.index_b as int] as int
    }

    pub open spec fn tc0(self, bs: int) -> int {
        TC0[self.index_a as int][bs - 1] as int
    }
}

/// The thresholds between two quantisers: at their average, shifted by the
/// slice's offsets.
pub open spec fn thresholds(qp_p: int, qp_q: int, offset_a: int, offset_b: int) -> EdgeThresholds {
    let average = (qp_p + qp_q + 1) / 2;
    EdgeThresholds {
        index_a: clip3(0, 51, average + offset_a) as u8,
        index_b: clip3(0, 51, average + offset_b) as u8,
    }
}

fn clamp_index(v: i64) -> (r: u8)
    ensures
        r == clip3(0, 51, v as int),
        r <= 51,
{
    if v < 0 {
        0
    } else if v > 51 {
        51
    } else {
        v as u8
    }
}

impl EdgeThresholds {
    /// The thresholds of an edge between two quantisers.
    pub fn derive(qp_p: u8, qp_q: u8, offset_a: i32, offset_b: i32) -> (r: Self)
        ensures
            r == thresholds(qp_p as int, qp_q as int, offset_a as int, offset_b as int),
            r.wf(),
    {
        let average: i64 = (qp_p as i64 + qp_q as i64 + 1) / 2;
        EdgeThresholds {
            index_a: clamp_index(average + offset_a as i64),
            index_b: clamp_index(average + offset_b as i64),
        }
    }
}

/// The samples across an edge, four on either side, nearest first.
#[derive(Debug, Clone, Copy, PartialEq, Eq, Structural)]
pub struct Line {
    pub p0: u8,
    pub p1: u8,
    pub p2: u8,
    pub p3: u8,
    pub q0: u8,
    pub q1: u8,
    pub q2: u8,
    pub q3: u8,
}

/// The distance of two samples.
pub open spec fn distance(a: u8, b: u8) -> int {
    if a > b {
        a - b
    } else {
        b - a
    }
}

fn dist(a: u8, b: u8) -> (d: i32)
    ensures
        d == distance(a, b),
        0 <= d <= 255,
{
    if a > b {
        a as i32 - b as i32
    } else {
        b as i32 - a as i32
    }
}

/// Whether a line is filtered: its edge has a strength, and it shows a step
/// small enough to be an artefact between two smooth sides.
pub open spec fn filtered(p0: u8, p1: u8, q0: u8, q1: u8, bs: int, t: EdgeThresholds) -> bool {
    bs != 0 && distance(p0, q0) < t.alpha() && distance(p1, p0) < t.beta() && distance(q1, q0)
        < t.beta()
}

/// The correction of the samples at the edge.
pub open spec fn edge_delta(p0: u8, p1: u8, q0: u8, q1: u8, tc: int) -> int {
    clip3(-tc, tc, (4 * (q0 - p0) + (p1 - q1) + 4) / 8)
}

/// A sample kept in range.
pub open spec fn clip1(v: int) -> u8 {
    clip3(0, 255, v) as u8
}

fn clamp_sample(v: i32) -> (r: u8)
    ensures
        r == clip1(v as int),
{
    if v < 0 {
        0
    } else if v > 255 {
        255
    } else {
        v as u8
    }
}

fn clamp(lo: i32, hi: i32, v: i32) -> (r: i32)
    ensures
        r == clip3(lo as int, hi as int, v as int),
{
    if v < lo {
        lo
    } else if v > hi {
        hi
    } else {
        v
    }
}

/// The second sample of a smooth side, moved by at most `tc0`.
pub open spec fn inner_sample(p0: u8, p1: u8, p2: u8, q0: u8, tc0: int) -> u8 {
    (p1 + clip3(-tc0, tc0, (p2 + (p0 + q0 + 1) / 2 - 2 * p1) / 2)) as u8
}

/// A luma line at strengths 1 to 3.
pub open spec fn normal_luma(l: Line, bs: int, t: EdgeThresholds) -> Line {
    let tc0 = t.tc0(bs);
    let smooth_p = distance(l.p2, l.p0) < t.beta();
    let smooth_q = distance(l.q2, l.q0) < t.beta();
    let tc = tc0 + (if smooth_p {
        1int
    } else {
        0
    }) + (if smooth_q {
        1int
    } else {
        0
    });
    let delta = edge_delta(l.p0, l.p1, l.q0, l.q1, tc);
    Line {
        p0: clip1(l.p0 + delta),
        q0: clip1(l.q0 - delta),
        p1: if smooth_p {
            inner_sample(l.p0, l.p1, l.p2, l.q0, tc0)
        } else {
            l.p1
        },
        q1: if smooth_q {
            inner_sample(l.q0, l.q1, l.q2, l.p0, tc0)
        } else {
            l.q1
        },
        ..l
    }
}

/// One side of a luma line at strength 4: three samples where the side is
/// smooth and the step small, one elsewhere.
pub open spec fn strong_side(
    p0: u8,
    p1: u8,
    p2: u8,
    p3: u8,
    q0: u8,
    q1: u8,
    t: EdgeThresholds,
) -> (u8, u8, u8) {
    if distance(p2, p0) < t.beta() && distance(p0, q0) < t.alpha() / 4 + 2 {
        (
            ((p2 + 2 * p1 + 2 * p0 + 2 * q0 + q1 + 4) / 8) as u8,
            ((p2 + p1 + p0 + q0 + 2) / 4) as u8,
            ((2 * p3 + 3 * p2 + p1 + p0 + q0 + 4) / 8) as u8,
        )
    } else {
        (((2 * p1 + p0 + q1 + 2) / 4) as u8, p1, p2)
    }
}

/// A luma line at strength 4.
pub open spec fn strong_luma(l: Line, t: EdgeThresholds) -> Line {
    let p = strong_side(l.p0, l.p1, l.p2, l.p3, l.q0, l.q1, t);
    let q = strong_side(l.q0, l.q1, l.q2, l.q3, l.p0, l.p1, t);
    Line { p0: p.0, p1: p.1, p2: p.2, p3: l.p3, q0: q.0, q1: q.1, q2: q.2, q3: l.q3 }
}

/// A luma line across an edge of strength `bs`.
#[verifier::opaque]
pub open spec fn luma_line(l: Line, bs: int, t: EdgeThresholds) -> Line {
    if !filtered(l.p0, l.p1, l.q0, l.q1, bs, t) {
        l
    } else if bs < 4 {
        normal_luma(l, bs, t)
    } else {
        strong_luma(l, t)
    }
}

/// The two samples at the edge of a chroma line, whose outer samples `p1` and
/// `q1` never change.
#[verifier::opaque]
pub open spec fn chroma_line(
    p0: u8,
    p1: u8,
    q0: u8,
    q1: u8,
    bs: int,
    t: EdgeThresholds,
) -> (u8, u8) {
    if !filtered(p0, p1, q0, q1, bs, t) {
        (p0, q0)
    } else if bs < 4 {
        let delta = edge_delta(p0, p1, q0, q1, t.tc0(bs) + 1);
        (clip1(p0 + delta), clip1(q0 - delta))
    } else {
        (((2 * p1 + p0 + q1 + 2) / 4) as u8, ((2 * q1 + q0 + p1 + 2) / 4) as u8)
    }
}

fn is_filtered(p0: u8, p1: u8, q0: u8, q1: u8, bs: u8, t: EdgeThresholds) -> (r: bool)
    requires
        t.wf(),
    ensures
        r == filtered(p0, p1, q0, q1, bs as int, t),
{
    let alpha: i32 = ALPHA[t.index_a as usize] as i32;
    let beta: i32 = BETA[t.index_b as usize] as i32;
    bs != 0 && dist(p0, q0) < alpha && dist(p1, p0) < beta && dist(q1, q0) < beta
}

fn delta_of(p0: u8, p1: u8, q0: u8, q1: u8, tc: i32) -> (d: i32)
    requires
        0 <= tc <= 300,
    ensures
        d == edge_delta(p0, p1, q0, q1, tc as int),
        -300 <= d <= 300,
{
    let raw: i32 = 4 * (q0 as i32 - p0 as i32) + (p1 as i32 - q1 as i32) + 4;
    clamp(-tc, tc, floor_div(raw, 8))
}

fn inner_of(p0: u8, p1: u8, p2: u8, q0: u8, tc0: i32) -> (r: u8)
    requires
        0 <= tc0 <= 255,
    ensures
        r == inner_sample(p0, p1, p2, q0, tc0 as int),
{
    let average: i32 = (p0 as i32 + q0 as i32 + 1) / 2;
    let raw: i32 = floor_div(p2 as i32 + average - 2 * p1 as i32, 2);
    let d: i32 = clamp(-tc0, tc0, raw);
    assert(0 <= p1 + d <= 255);
    (p1 as i32 + d) as u8
}

fn filter_normal_luma(l: Line, bs: u8, t: EdgeThresholds) -> (r: Line)
    requires
        t.wf(),
        1 <= bs <= 3,
    ensures
        r == normal_luma(l, bs as int, t),
{
    let tc0: i32 = TC0[t.index_a as usize][(bs - 1) as usize] as i32;
    let beta: i32 = BETA[t.index_b as usize] as i32;
    let smooth_p: bool = dist(l.p2, l.p0) < beta;
    let smooth_q: bool = dist(l.q2, l.q0) < beta;
    let mut tc: i32 = tc0;
    if smooth_p {
        tc = tc + 1;
    }
    if smooth_q {
        tc = tc + 1;
    }
    let delta: i32 = delta_of(l.p0, l.p1, l.q0, l.q1, tc);
    let p1: u8 = if smooth_p {
        inner_of(l.p0, l.p1, l.p2, l.q0, tc0)
    } else {
        l.p1
    };
    let q1: u8 = if smooth_q {
        inner_of(l.q0, l.q1, l.q2, l.p0, tc0)
    } else {
        l.q1
    };
    Line {
        p0: clamp_sample(l.p0 as i32 + delta),
        p1,
        p2: l.p2,
        p3: l.p3,
        q0: clamp_sample(l.q0 as i32 - delta),
        q1,
        q2: l.q2,
        q3: l.q3,
    }
}

fn filter_strong_side(p0: u8, p1: u8, p2: u8, p3: u8, q0: u8, q1: u8, t: EdgeThresholds) -> (r: (
    u8,
    u8,
    u8,
))
    requires
        t.wf(),
    ensures
        r == strong_side(p0, p1, p2, p3, q0, q1, t),
{
    let alpha: i32 = ALPHA[t.index_a as usize] as i32;
    let beta: i32 = BETA[t.index_b as usize] as i32;
    let (a0, a1, a2, a3) = (p0 as u32, p1 as u32, p2 as u32, p3 as u32);
    let (b0, b1) = (q0 as u32, q1 as u32);
    if dist(p2, p0) < beta && dist(p0, q0) < alpha / 4 + 2 {
        (
            ((a2 + 2 * a1 + 2 * a0 + 2 * b0 + b1 + 4) / 8) as u8,
            ((a2 + a1 + a0 + b0 + 2) / 4) as u8,
            ((2 * a3 + 3 * a2 + a1 + a0 + b0 + 4) / 8) as u8,
        )
    } else {
        (((2 * a1 + a0 + b1 + 2) / 4) as u8, p1, p2)
    }
}

/// Filters a luma line across an edge.
pub fn filter_luma_line(l: Line, bs: u8, t: EdgeThresholds) -> (r: Line)
    requires
        t.wf(),
        bs <= 4,
    ensures
        r == luma_line(l, bs as int, t),
{
    reveal(luma_line);
    if !is_filtered(l.p0, l.p1, l.q0, l.q1, bs, t) {
        l
    } else if bs < 4 {
        filter_normal_luma(l, bs, t)
    } else {
        let p: (u8, u8, u8) = filter_strong_side(l.p0, l.p1, l.p2, l.p3, l.q0, l.q1, t);
        let q: (u8, u8, u8) = filter_strong_side(l.q0, l.q1, l.q2, l.q3, l.p0, l.p1, t);
        Line { p0: p.0, p1: p.1, p2: p.2, p3: l.p3, q0: q.0, q1: q.1, q2: q.2, q3: l.q3 }
    }
}

/// Filters a chroma line across an edge.
pub fn filter_chroma_line(p0: u8, p1: u8, q0: u8, q1: u8, bs: u8, t: EdgeThresholds) -> (r: (
    u8,
    u8,
))
    requires
        t.wf(),
        bs <= 4,
    ensures
        r == chroma_line(p0, p1, q0, q1, bs as int, t),
{
    reveal(chroma_line);
    if !is_filtered(p0, p1, q0, q1, bs, t) {
        (p0, q0)
    } else if bs < 4 {
        let tc0: i32 = TC0[t.index_a as usize][(bs - 1) as usize] as i32;
        let delta: i32 = delta_of(p0, p1, q0, q1, tc0 + 1);
        (clamp_sample(p0 as i32 + delta), clamp_sample(q0 as i32 - delta))
    } else {
        let (a0, a1, b0, b1) = (p0 as u32, p1 as u32, q0 as u32, q1 as u32);
        (((2 * a1 + a0 + b1 + 2) / 4) as u8, ((2 * b1 + b0 + a1 + 2) / 4) as u8)
    }
}

/// A line without a step is left alone, and so is every line of an edge
/// without strength.
pub proof fn law_flat_lines_are_fixed(l: Line, bs: int, t: EdgeThresholds)
    requires
        t.wf(),
        0 <= bs <= 4,
    ensures
        luma_line(l, 0, t) == l,
        chroma_line(l.p0, l.p1, l.q0, l.q1, 0, t) == (l.p0, l.q0),
        l.p0 == l.p1 == l.p2 == l.p3 == l.q0 == l.q1 == l.q2 == l.q3 ==> luma_line(l, bs, t) == l
            && chroma_line(l.p0, l.p1, l.q0, l.q1, bs, t) == (l.p0, l.q0),
{
    reveal(luma_line);
    reveal(chroma_line);
}

/// Filtering treats both sides alike at strength 4.
pub proof fn law_strong_filter_is_symmetric(l: Line, t: EdgeThresholds)
    requires
        t.wf(),
    ensures
        mirrored(luma_line(l, 4, t)) == luma_line(mirrored(l), 4, t),
{
    reveal(luma_line);
}

/// A line seen from the other side.
pub open spec fn mirrored(l: Line) -> Line {
    Line { p0: l.q0, p1: l.q1, p2: l.q2, p3: l.q3, q0: l.p0, q1: l.p1, q2: l.p2, q3: l.p3 }
}

} // verus!
