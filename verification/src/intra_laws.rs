//! What intra prediction draws: the direction of each mode, and planes.
use vstd::prelude::*;
use crate::intra::{
    edge_gradient, edge_sum, pred16, pred4, pred_chroma, predicted_mode, remaining_mode,
    Neighbours16, Neighbours4, NeighboursChroma,
};

verus! {

// ------------------------------------------------------------- four by four
/// Two neighbourhoods, one of which is the other with rows and columns exchanged.
pub open spec fn turned4(n: Neighbours4, t: Neighbours4) -> bool {
    &&& n.top == t.left && n.left == t.top && n.corner == t.corner
    &&& n.top_available == t.left_available && n.left_available == t.top_available
}

/// Exchanging rows and columns of the neighbourhood exchanges those of the
/// prediction: vertical becomes horizontal, the two steep diagonals become each
/// other, the middle diagonal and the average stay what they are.
pub proof fn law_modes_transpose(n: Neighbours4, t: Neighbours4, x: int, y: int)
    requires
        turned4(n, t),
        0 <= x < 4,
        0 <= y < 4,
    ensures
        pred4(1, n, x, y) == pred4(0, t, y, x),
        pred4(4, n, x, y) == pred4(4, t, y, x),
        pred4(6, n, x, y) == pred4(5, t, y, x),
        pred4(2, n, x, y) == pred4(2, t, y, x),
{
}

/// Every mode paints along its direction: straight down, straight across, down to
/// the left, down to the right, two rows down for one column right or left, two
/// columns right for one row down or up.
pub proof fn law_modes_follow_their_direction(n: Neighbours4, x: int, y: int)
    requires
        0 <= x < 4,
        0 <= y < 4,
    ensures
        y < 3 ==> pred4(0, n, x, y + 1) == pred4(0, n, x, y),
        x < 3 ==> pred4(1, n, x + 1, y) == pred4(1, n, x, y),
        x < 3 && y < 3 ==> pred4(3, n, x, y + 1) == pred4(3, n, x + 1, y),
        x < 3 && y < 3 ==> pred4(4, n, x + 1, y + 1) == pred4(4, n, x, y),
        x < 3 && y < 2 ==> pred4(5, n, x + 1, y + 2) == pred4(5, n, x, y),
        x < 2 && y < 3 ==> pred4(6, n, x + 2, y + 1) == pred4(6, n, x, y),
        x < 3 && y < 2 ==> pred4(7, n, x, y + 2) == pred4(7, n, x + 1, y),
        x < 2 && y < 3 ==> pred4(8, n, x + 2, y) == pred4(8, n, x, y + 1),
{
}

/// Two samples to the nearest, halves up.
pub open spec fn mean2(a: u8, b: u8) -> int {
    (a + b + 1) / 2
}

/// Three samples, the middle one counted twice, to the nearest.
pub open spec fn mean3(a: u8, b: u8, c: u8) -> int {
    (a + 2 * b + c + 2) / 4
}

/// Where the modes start from: the samples next to the edges, which are averages
/// of the edge samples that their direction passes between. Direction carries
/// them to all others.
pub proof fn law_modes_start_at_the_edges(n: Neighbours4)
    ensures
        ({
            let (t, r, l, c) = (n.top, n.top_right, n.left, n.corner);
            &&& forall|x: int| 0 <= x < 4 ==> #[trigger] pred4(0, n, x, 0) == t[x]
            &&& forall|y: int| 0 <= y < 4 ==> #[trigger] pred4(1, n, 0, y) == l[y]
            &&& pred4(3, n, 0, 0) == mean3(t[0], t[1], t[2])
            &&& pred4(3, n, 1, 0) == mean3(t[1], t[2], t[3])
            &&& pred4(3, n, 2, 0) == mean3(t[2], t[3], r[0])
            &&& pred4(3, n, 3, 0) == mean3(t[3], r[0], r[1])
            &&& pred4(3, n, 3, 1) == mean3(r[0], r[1], r[2])
            &&& pred4(3, n, 3, 2) == mean3(r[1], r[2], r[3])
            &&& pred4(3, n, 3, 3) == mean3(r[2], r[3], r[3])
            &&& pred4(4, n, 0, 0) == mean3(l[0], c, t[0])
            &&& pred4(4, n, 1, 0) == mean3(c, t[0], t[1])
            &&& pred4(4, n, 2, 0) == mean3(t[0], t[1], t[2])
            &&& pred4(4, n, 3, 0) == mean3(t[1], t[2], t[3])
            &&& pred4(5, n, 0, 0) == mean2(c, t[0])
            &&& pred4(5, n, 1, 0) == mean2(t[0], t[1])
            &&& pred4(5, n, 2, 0) == mean2(t[1], t[2])
            &&& pred4(5, n, 3, 0) == mean2(t[2], t[3])
            &&& pred4(5, n, 0, 1) == mean3(l[0], c, t[0])
            &&& pred4(5, n, 1, 1) == mean3(c, t[0], t[1])
            &&& pred4(5, n, 2, 1) == mean3(t[0], t[1], t[2])
            &&& pred4(5, n, 3, 1) == mean3(t[1], t[2], t[3])
            &&& pred4(5, n, 0, 2) == mean3(c, l[0], l[1])
            &&& pred4(5, n, 0, 3) == mean3(l[0], l[1], l[2])
            &&& pred4(7, n, 0, 0) == mean2(t[0], t[1])
            &&& pred4(7, n, 1, 0) == mean2(t[1], t[2])
            &&& pred4(7, n, 2, 0) == mean2(t[2], t[3])
            &&& pred4(7, n, 3, 0) == mean2(t[3], r[0])
            &&& pred4(7, n, 3, 2) == mean2(r[0], r[1])
            &&& pred4(7, n, 0, 1) == mean3(t[0], t[1], t[2])
            &&& pred4(7, n, 1, 1) == mean3(t[1], t[2], t[3])
            &&& pred4(7, n, 2, 1) == mean3(t[2], t[3], r[0])
            &&& pred4(7, n, 3, 1) == mean3(t[3], r[0], r[1])
            &&& pred4(7, n, 3, 3) == mean3(r[0], r[1], r[2])
            &&& pred4(8, n, 0, 0) == mean2(l[0], l[1])
            &&& pred4(8, n, 0, 1) == mean2(l[1], l[2])
            &&& pred4(8, n, 0, 2) == mean2(l[2], l[3])
            &&& pred4(8, n, 0, 3) == l[3]
            &&& pred4(8, n, 1, 0) == mean3(l[0], l[1], l[2])
            &&& pred4(8, n, 1, 1) == mean3(l[1], l[2], l[3])
            &&& pred4(8, n, 1, 2) == mean3(l[2], l[3], l[3])
            &&& pred4(8, n, 1, 3) == l[3]
            &&& pred4(8, n, 2, 3) == l[3]
            &&& pred4(8, n, 3, 3) == l[3]
        }),
{
}

// ---------------------------------------------------------------------- means
/// The sum of the first `n` samples of an edge.
pub open spec fn added(edge: Seq<u8>, n: int) -> int
    decreases n,
{
    if n <= 0 {
        0
    } else {
        edge[n - 1] + added(edge, n - 1)
    }
}

/// `v` is the mean of `count` samples that add up to `total`, halves up.
pub open spec fn is_mean(v: int, total: int, count: int) -> bool {
    count * v <= total + count / 2 < count * v + count
}

proof fn lemma_added(edge: Seq<u8>, n: nat)
    ensures
        added(edge, n as int) == edge_sum(edge, n),
    decreases n,
{
    if n > 0 {
        lemma_added(edge, (n - 1) as nat);
    }
}

proof fn lemma_mean(total: int, count: int)
    requires
        count > 0,
    ensures
        is_mean(crate::intra::rounded_mean(total, count), total, count),
{
    vstd::arithmetic::div_mod::lemma_fundamental_div_mod(total + count / 2, count);
}

/// The averaging modes predict the mean of the edges that are known.
pub proof fn law_averages_are_means(n: Neighbours16, m: Neighbours4, x: int, y: int)
    ensures
        ({
            let (a, b) = (added(n.top@, 16), added(n.left@, 16));
            let v = pred16(2, n, x, y);
            &&& n.top_available && n.left_available ==> is_mean(v, a + b, 32)
            &&& n.top_available && !n.left_available ==> is_mean(v, a, 16)
            &&& !n.top_available && n.left_available ==> is_mean(v, b, 16)
        }),
        ({
            let (a, b) = (added(m.top@, 4), added(m.left@, 4));
            let v = pred4(2, m, x, y);
            &&& m.top_available && m.left_available ==> is_mean(v, a + b, 8)
            &&& m.top_available && !m.left_available ==> is_mean(v, a, 4)
            &&& !m.top_available && m.left_available ==> is_mean(v, b, 4)
        }),
{
    lemma_added(n.top@, 16);
    lemma_added(n.left@, 16);
    lemma_added(m.top@, 4);
    lemma_added(m.left@, 4);
    lemma_mean(edge_sum(n.top@, 16) + edge_sum(n.left@, 16), 32);
    lemma_mean(edge_sum(n.top@, 16), 16);
    lemma_mean(edge_sum(n.left@, 16), 16);
    lemma_mean(edge_sum(m.top@, 4) + edge_sum(m.left@, 4), 8);
    lemma_mean(edge_sum(m.top@, 4), 4);
    lemma_mean(edge_sum(m.left@, 4), 4);
}

/// Each quadrant of a chroma block predicts the mean of the edges that it touches,
/// as far as they are known. Of the other two, the upper right one keeps to the
/// top and the lower left one to the left, and only takes the other edge, beside
/// itself, where its own is missing.
pub proof fn law_chroma_averages_are_means(n: NeighboursChroma, x: int, y: int)
    requires
        0 <= x < 8,
        0 <= y < 8,
    ensures
        ({
            let t = if x < 4 {
                added(n.top@.subrange(0, 4), 4)
            } else {
                added(n.top@.subrange(4, 8), 4)
            };
            let l = if y < 4 {
                added(n.left@.subrange(0, 4), 4)
            } else {
                added(n.left@.subrange(4, 8), 4)
            };
            let v = pred_chroma(0, n, x, y);
            &&& n.top_available && n.left_available && (x < 4) == (y < 4) ==> is_mean(v, t + l, 8)
            &&& n.top_available && n.left_available && x >= 4 && y < 4 ==> is_mean(v, t, 4)
            &&& n.top_available && n.left_available && x < 4 && y >= 4 ==> is_mean(v, l, 4)
            &&& n.top_available && !n.left_available ==> is_mean(v, t, 4)
            &&& !n.top_available && n.left_available ==> is_mean(v, l, 4)
        }),
{
    let (t0, t1) = (n.top@.subrange(0, 4), n.top@.subrange(4, 8));
    let (l0, l1) = (n.left@.subrange(0, 4), n.left@.subrange(4, 8));
    lemma_added(t0, 4);
    lemma_added(t1, 4);
    lemma_added(l0, 4);
    lemma_added(l1, 4);
    lemma_mean(edge_sum(t0, 4) + edge_sum(l0, 4), 8);
    lemma_mean(edge_sum(t1, 4) + edge_sum(l1, 4), 8);
    lemma_mean(edge_sum(t0, 4), 4);
    lemma_mean(edge_sum(t1, 4), 4);
    lemma_mean(edge_sum(l0, 4), 4);
    lemma_mean(edge_sum(l1, 4), 4);
}

/// The vertical and horizontal modes copy the edge, whatever the size of the
/// block; luma numbers vertical first, chroma horizontal.
pub proof fn law_straight_modes_copy_the_edge(n: Neighbours16, m: NeighboursChroma, x: int, y: int)
    ensures
        pred16(0, n, x, y) == n.top[x],
        pred16(1, n, x, y) == n.left[y],
        pred_chroma(1, m, x, y) == m.left[y],
        pred_chroma(2, m, x, y) == m.top[x],
{
}

// --------------------------------------------------------------------- planes
/// An edge that rises by the same amount from sample to sample.
pub open spec fn ramp(edge: Seq<u8>, n: int, corner: u8, slope: int) -> bool {
    edge.len() == n && forall|i: int| 0 <= i < n ==> #[trigger] edge[i] == corner + slope * (i + 1)
}

proof fn lemma_ramp_gradient16(edge: Seq<u8>, corner: u8, s: int)
    requires
        ramp(edge, 16, corner, s),
    ensures
        edge_gradient(edge, corner, 8, 8) == 408 * s,
{
    reveal_with_fuel(edge_gradient, 9);
    assert forall|i: int| 0 <= i < 16 implies #[trigger] edge[i] == corner + s * (i + 1) by {}
    lemma_products(s);
    assert(edge[0] == corner + s * 1 && edge[1] == corner + s * 2 && edge[2] == corner + s * 3
        && edge[3] == corner + s * 4 && edge[4] == corner + s * 5 && edge[5] == corner + s * 6
        && edge[6] == corner + s * 7 && edge[7] == corner + s * 8);
    assert(edge[8] == corner + s * 9 && edge[9] == corner + s * 10 && edge[10] == corner + s * 11
        && edge[11] == corner + s * 12 && edge[12] == corner + s * 13 && edge[13] == corner + s * 14
        && edge[14] == corner + s * 15 && edge[15] == corner + s * 16);
}

proof fn lemma_ramp_gradient8(edge: Seq<u8>, corner: u8, s: int)
    requires
        ramp(edge, 8, corner, s),
    ensures
        edge_gradient(edge, corner, 4, 4) == 60 * s,
{
    reveal_with_fuel(edge_gradient, 5);
    lemma_products(s);
    assert(edge[0] == corner + s * 1 && edge[1] == corner + s * 2 && edge[2] == corner + s * 3
        && edge[3] == corner + s * 4 && edge[4] == corner + s * 5 && edge[5] == corner + s * 6
        && edge[6] == corner + s * 7 && edge[7] == corner + s * 8);
}

proof fn lemma_products(s: int)
    ensures
        s * 1 == s,
        s * 2 == 2 * s,
        s * 16 == 16 * s,
{
}

/// The plane mode continues a plane: edges that rise evenly, by at most three from
/// sample to sample, predict the plane through them.
pub proof fn law_plane_mode_continues_planes(n: Neighbours16, s: int, r: int, x: int, y: int)
    requires
        ramp(n.top@, 16, n.corner, s),
        ramp(n.left@, 16, n.corner, r),
        -3 <= s <= 3,
        -3 <= r <= 3,
        0 <= x < 16,
        0 <= y < 16,
        0 <= n.corner + s * (x + 1) + r * (y + 1) <= 255,
    ensures
        pred16(3, n, x, y) == n.corner + s * (x + 1) + r * (y + 1),
{
    lemma_ramp_gradient16(n.top@, n.corner, s);
    lemma_ramp_gradient16(n.left@, n.corner, r);
    assert(n.top@[15] == n.corner + s * 16);
    assert(n.left@[15] == n.corner + r * 16);
    assert((5 * (408 * s) + 32) / 64 == 32 * s);
    assert((5 * (408 * r) + 32) / 64 == 32 * r);
    lemma_on_plane(n.corner as int, s, r, x, y, 8);
}

/// Likewise for chroma.
pub proof fn law_chroma_plane_mode_continues_planes(
    n: NeighboursChroma,
    s: int,
    r: int,
    x: int,
    y: int,
)
    requires
        ramp(n.top@, 8, n.corner, s),
        ramp(n.left@, 8, n.corner, r),
        -3 <= s <= 3,
        -3 <= r <= 3,
        0 <= x < 8,
        0 <= y < 8,
        0 <= n.corner + s * (x + 1) + r * (y + 1) <= 255,
    ensures
        pred_chroma(3, n, x, y) == n.corner + s * (x + 1) + r * (y + 1),
{
    lemma_ramp_gradient8(n.top@, n.corner, s);
    lemma_ramp_gradient8(n.left@, n.corner, r);
    assert(n.top@[7] == n.corner + s * 8);
    assert(n.left@[7] == n.corner + r * 8);
    assert((17 * (60 * s) + 16) / 32 == 32 * s);
    assert((17 * (60 * r) + 16) / 32 == 32 * r);
    lemma_on_plane(n.corner as int, s, r, x, y, 4);
}

proof fn lemma_on_plane(c: int, s: int, r: int, x: int, y: int, half: int)
    ensures
        (16 * ((c + r * (2 * half)) + (c + s * (2 * half))) + (32 * s) * (x - (half - 1)) + (32 * r) * (
        y - (half - 1)) + 16) / 32 == c + s * (x + 1) + r * (y + 1),
{
    assert(16 * ((c + r * (2 * half)) + (c + s * (2 * half))) + (32 * s) * (x - (half - 1)) + (32 * r)
        * (y - (half - 1)) == 32 * (c + s * (x + 1) + r * (y + 1))) by (nonlinear_arith);
}

/// Exchanging rows and columns of the neighbourhood exchanges those of the plane
/// and of the averages.
pub proof fn law_planes_transpose(
    n: Neighbours16,
    t: Neighbours16,
    m: NeighboursChroma,
    u: NeighboursChroma,
    x: int,
    y: int,
)
    requires
        n.top == t.left && n.left == t.top && n.corner == t.corner,
        n.top_available == t.left_available && n.left_available == t.top_available,
        m.top == u.left && m.left == u.top && m.corner == u.corner,
        m.top_available == u.left_available && m.left_available == u.top_available,
        0 <= x < 8,
        0 <= y < 8,
    ensures
        pred16(3, n, x, y) == pred16(3, t, y, x),
        pred16(2, n, x, y) == pred16(2, t, y, x),
        pred_chroma(3, m, x, y) == pred_chroma(3, u, y, x),
        pred_chroma(0, m, x, y) == pred_chroma(0, u, y, x),
{
}

// ---------------------------------------------------------------------- modes
/// The predicted mode is the lower of the neighbours' two, and the remaining modes
/// name all others in order.
pub proof fn law_modes_are_numbered_around_the_predicted(a: u8, b: u8, mode: u8)
    requires
        a <= 8,
        b <= 8,
        mode <= 8,
    ensures
        predicted_mode(a, b) <= a && predicted_mode(a, b) <= b,
        predicted_mode(a, b) == a || predicted_mode(a, b) == b,
        mode < predicted_mode(a, b) ==> remaining_mode(a, b, mode) == mode,
        mode > predicted_mode(a, b) ==> remaining_mode(a, b, (mode - 1) as u8) == mode,
{
}

} // verus!
