//! What the deblocking filter does to a line of samples.
use vstd::prelude::*;
use crate::edge_filter::{
    chroma_line, distance, edge_delta, luma_line, thresholds, EdgeThresholds, Line, ALPHA, BETA,
    TC0,
};

verus! {

// ----------------------------------------------------------------- thresholds
/// An edge between two quantisers is judged by the greater of the two numbers in
/// their middle, shifted by the offsets and kept from 0 to 51; which side is which
/// makes no difference.
pub proof fn law_thresholds_lie_between_the_quantisers(
    qp_p: int,
    qp_q: int,
    offset_a: int,
    offset_b: int,
)
    requires
        0 <= qp_p <= 51,
        0 <= qp_q <= 51,
    ensures
        ({
            let t = thresholds(qp_p, qp_q, offset_a, offset_b);
            let sum = qp_p + qp_q;
            &&& t == thresholds(qp_q, qp_p, offset_a, offset_b)
            &&& t.wf()
            &&& 0 < t.index_a < 51 ==> sum <= 2 * (t.index_a - offset_a) <= sum + 1
            &&& 0 < t.index_b < 51 ==> sum <= 2 * (t.index_b - offset_b) <= sum + 1
            &&& t.index_a == 0 ==> sum + 2 * offset_a <= 0
            &&& t.index_b == 0 ==> sum + 2 * offset_b <= 0
            &&& t.index_a == 51 ==> sum + 2 * offset_a >= 101
            &&& t.index_b == 51 ==> sum + 2 * offset_b >= 101
        }),
{
}

/// The tolerance for steps is nothing below position 16, and from there doubles
/// every six positions until it is all there is.
pub proof fn law_step_tolerance_doubles(i: int)
    requires
        0 <= i < 52,
    ensures
        i < 16 ==> ALPHA[i] == 0 && BETA[i] == 0,
        i >= 16 ==> ALPHA[i] >= 4 && BETA[i] >= 2,
        i >= 17 ==> ALPHA[i - 1] <= ALPHA[i] && BETA[i - 1] <= BETA[i] <= BETA[i - 1] + 2,
        i >= 22 && i != 51 ==> 2 * ALPHA[i - 6] - 1 <= ALPHA[i] <= 2 * ALPHA[i - 6] + 2,
        i >= 50 ==> ALPHA[i] == 255,
{
}

/// By how much the tolerance for steps grows at each position from 16 on.
pub open spec fn step_growth() -> Seq<int> {
    seq![
        4, 0, 1, 1, 1, 1, 1, 1, 2, 1, 2, 2, 3, 2, 3, 3, 4, 4, 4, 5, 5, 6, 7, 8, 9, 10, 11, 12, 14, 17,
        18, 20, 21, 23, 29, 0,
    ]
}

/// The tolerance for steps grows by these amounts.
pub proof fn law_step_tolerance_grows(i: int)
    requires
        16 <= i < 52,
    ensures
        ALPHA[i] - ALPHA[i - 1] == step_growth()[i - 16],
{
}

/// The first position at which a side may differ by `n`.
pub open spec fn side_reaches(n: int) -> int {
    if n <= 0 {
        0
    } else if n <= 2 {
        16
    } else if n == 3 {
        19
    } else if n == 4 {
        23
    } else if n <= 6 {
        26
    } else if n <= 18 {
        2 * n + 14
    } else {
        52
    }
}

/// The first position at which a sample may move by `n`, for each strength.
pub open spec fn move_reaches(bs: int, n: int) -> int {
    let firsts = if bs == 1 {
        seq![23int, 33, 37, 40, 43, 44, 46, 47, 48, 49, 50, 51, 51]
    } else if bs == 2 {
        seq![21int, 31, 35, 38, 40, 42, 43, 44, 46, 46, 47, 48, 49, 50, 50, 51, 51]
    } else {
        seq![
            17int, 27, 31, 34, 37, 38, 40, 41, 42, 43, 44, 45, 45, 46, 47, 47, 48, 48, 49, 49, 50, 50,
            50, 51, 51,
        ]
    };
    if n <= 0 {
        0
    } else if n <= firsts.len() {
        firsts[n - 1]
    } else {
        52
    }
}

/// Each tolerance is reached at its position, and kept from there on.
#[verifier::rlimit(60)]
pub proof fn law_limits_are_reached_at_their_positions(i: int, bs: int, n: int)
    requires
        0 <= i < 52,
        1 <= bs <= 3,
    ensures
        BETA[i] >= n <==> i >= side_reaches(n),
        TC0[i][bs - 1] >= n <==> i >= move_reaches(bs, n),
{
}

// ---------------------------------------------------------------------- lines
/// A line seen from the other side.
pub open spec fn seen_from_q(l: Line) -> Line {
    Line { p0: l.q0, p1: l.q1, p2: l.q2, p3: l.q3, q0: l.p0, q1: l.p1, q2: l.p2, q3: l.p3 }
}

/// A step across the edge that counts as an artefact: smaller than the one
/// tolerance, between sides whose own first step is smaller than the other.
pub open spec fn artefact(l: Line, t: EdgeThresholds) -> bool {
    let (alpha, beta) = (ALPHA[t.index_a as int] as int, BETA[t.index_b as int] as int);
    &&& -alpha < l.p0 - l.q0 < alpha
    &&& -beta < l.p0 - l.p1 < beta
    &&& -beta < l.q0 - l.q1 < beta
}

/// A side whose third sample is close to its first.
pub open spec fn flat(first: u8, third: u8, t: EdgeThresholds) -> bool {
    -(BETA[t.index_b as int] as int) < third - first < BETA[t.index_b as int]
}

/// Real edges, and edges without strength, are left alone.
pub proof fn law_real_edges_are_kept(l: Line, bs: int, t: EdgeThresholds)
    requires
        t.wf(),
        bs == 0 || !artefact(l, t),
    ensures
        luma_line(l, bs, t) == l,
        chroma_line(l.p0, l.p1, l.q0, l.q1, bs, t) == (l.p0, l.q0),
{
    reveal(luma_line);
    reveal(chroma_line);
}

/// How far the samples at the edge move: `p0` by the eighth part of four times the
/// step and the outer difference, rounded, and no further than `limit`; `q0` as
/// far the other way. Both stay in range.
pub open spec fn meets(l: Line, p0: u8, q0: u8, limit: int) -> bool {
    exists|d: int|
        {
            let pull = 4 * (l.q0 - l.p0) + (l.p1 - l.q1);
            &&& -limit <= d <= limit
            &&& d < limit ==> pull + 4 < 8 * (d + 1)
            &&& d > -limit ==> 8 * d <= pull + 4
            &&& #[trigger] arrives(l.p0, d, p0)
            &&& arrives(l.q0, -d, q0)
        }
}

/// A sample moved by `d`, stopped at black and white.
pub open spec fn arrives(from: u8, d: int, to: u8) -> bool {
    to == from + d || (to == 0 && from + d < 0) || (to == 255 && from + d > 255)
}

/// The second sample of a flat side moves to the middle between the third and the
/// rounded mean of the two at the edge, but no further than `limit`.
pub open spec fn follows(p0: u8, p1: u8, p2: u8, q0: u8, new: u8, limit: int) -> bool {
    let twice = p2 + (p0 + q0 + 1) / 2;
    &&& -limit <= new - p1 <= limit
    &&& new - p1 < limit ==> twice < 2 * (new + 1)
    &&& new - p1 > -limit ==> 2 * new <= twice
}

/// Strengths 1 to 3: the samples at the edge meet, by at most the table's limit and
/// one more for each flat side; the second sample of a flat side follows, by at
/// most the table's limit; the others stay.
pub proof fn law_weak_edges(l: Line, bs: int, t: EdgeThresholds)
    requires
        t.wf(),
        1 <= bs <= 3,
        artefact(l, t),
    ensures
        ({
            let r = luma_line(l, bs, t);
            let table = TC0[t.index_a as int][bs - 1] as int;
            let (fp, fq) = (flat(l.p0, l.p2, t), flat(l.q0, l.q2, t));
            let limit = table + (if fp && fq {
                2int
            } else if fp || fq {
                1
            } else {
                0
            });
            &&& meets(l, r.p0, r.q0, limit)
            &&& fp ==> follows(l.p0, l.p1, l.p2, l.q0, r.p1, table)
            &&& fq ==> follows(l.q0, l.q1, l.q2, l.p0, r.q1, table)
            &&& !fp ==> r.p1 == l.p1
            &&& !fq ==> r.q1 == l.q1
            &&& r.p2 == l.p2 && r.q2 == l.q2
            &&& r.p3 == l.p3 && r.q3 == l.q3
        }),
{
    reveal(luma_line);
    let r = luma_line(l, bs, t);
    let table = TC0[t.index_a as int][bs - 1] as int;
    let limit = table + (if distance(l.p2, l.p0) < t.beta() {
        1int
    } else {
        0
    }) + (if distance(l.q2, l.q0) < t.beta() {
        1int
    } else {
        0
    });
    let d = edge_delta(l.p0, l.p1, l.q0, l.q1, limit);
    assert(arrives(l.p0, d, r.p0));
    assert(arrives(l.q0, -d, r.q0));
}

/// A sum divided by its weight, rounded to the nearest, halves upwards.
pub open spec fn rounds(mean: u8, sum: int, weight: int) -> bool {
    -weight <= 2 * (sum - weight * mean) < weight
}

/// Strength 4: a flat side next to a step below a quarter of the tolerance, plus
/// two, is smoothed over three samples, by weights that fall off with the distance;
/// otherwise only its first sample moves. The fourth never does.
pub proof fn law_strong_edges(l: Line, t: EdgeThresholds)
    requires
        t.wf(),
        artefact(l, t),
    ensures
        ({
            let r = luma_line(l, 4, t);
            let quarter = ALPHA[t.index_a as int] / 4 + 2;
            let near = -quarter < l.p0 - l.q0 < quarter;
            &&& flat(l.p0, l.p2, t) && near ==> {
                &&& rounds(r.p0, l.p2 + 2 * l.p1 + 2 * l.p0 + 2 * l.q0 + l.q1, 8)
                &&& rounds(r.p1, l.p2 + l.p1 + l.p0 + l.q0, 4)
                &&& rounds(r.p2, 2 * l.p3 + 3 * l.p2 + l.p1 + l.p0 + l.q0, 8)
            }
            &&& !(flat(l.p0, l.p2, t) && near) ==> {
                &&& rounds(r.p0, 2 * l.p1 + l.p0 + l.q1, 4)
                &&& r.p1 == l.p1 && r.p2 == l.p2
            }
            &&& r.p3 == l.p3
        }),
{
    reveal(luma_line);
}

/// The strong filter treats both sides alike.
pub proof fn law_strong_edges_are_symmetric(l: Line, t: EdgeThresholds)
    ensures
        luma_line(seen_from_q(l), 4, t) == seen_from_q(luma_line(l, 4, t)),
{
    reveal(luma_line);
}

/// The samples of a chroma line move as those of a luma line of which just one side
/// is flat (at strength 4: none).
pub proof fn law_chroma_moves_as_luma(l: Line, bs: int, t: EdgeThresholds)
    requires
        t.wf(),
        1 <= bs <= 4,
        flat(l.p0, l.p2, t) == (bs < 4),
        !flat(l.q0, l.q2, t),
    ensures
        ({
            let r = luma_line(l, bs, t);
            chroma_line(l.p0, l.p1, l.q0, l.q1, bs, t) == (r.p0, r.q0)
        }),
{
    reveal(luma_line);
    reveal(chroma_line);
}

/// The samples of a chroma line: at strengths 1 to 3 they meet by at most one more
/// than the table's limit, at strength 4 each becomes a mean with its neighbour and
/// the second sample of the other side.
pub proof fn law_chroma_edges(l: Line, bs: int, t: EdgeThresholds)
    requires
        t.wf(),
        1 <= bs <= 4,
        artefact(l, t),
    ensures
        ({
            let (p0, q0) = chroma_line(l.p0, l.p1, l.q0, l.q1, bs, t);
            &&& bs < 4 ==> meets(l, p0, q0, TC0[t.index_a as int][bs - 1] + 1)
            &&& bs == 4 ==> rounds(p0, 2 * l.p1 + l.p0 + l.q1, 4) && rounds(
                q0,
                2 * l.q1 + l.q0 + l.p1,
                4,
            )
        }),
{
    reveal(chroma_line);
    if bs < 4 {
        let (p0, q0) = chroma_line(l.p0, l.p1, l.q0, l.q1, bs, t);
        let limit = TC0[t.index_a as int][bs - 1] + 1;
        let d = edge_delta(l.p0, l.p1, l.q0, l.q1, limit);
        assert(arrives(l.p0, d, p0));
        assert(arrives(l.q0, -d, q0));
    }
}

} // verus!
