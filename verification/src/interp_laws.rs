//! What interpolation does to a plane: symmetry, and the values of the positions
//! that symmetry leaves open.
use vstd::prelude::*;
use crate::interp::{chroma_mc, half_h, half_hv, half_v, qpel, raw_h, raw_hv, raw_v};

verus! {

/// A plane seen in a mirror left of column 0: column `x` becomes column `-x`.
pub open spec fn mirrored(p: spec_fn(int, int) -> u8) -> spec_fn(int, int) -> u8 {
    |x: int, y: int| p(-x, y)
}

/// A plane upside down: row `y` becomes row `-y`.
pub open spec fn flipped(p: spec_fn(int, int) -> u8) -> spec_fn(int, int) -> u8 {
    |x: int, y: int| p(x, -y)
}

/// A plane with rows and columns exchanged.
pub open spec fn transposed(p: spec_fn(int, int) -> u8) -> spec_fn(int, int) -> u8 {
    |x: int, y: int| p(y, x)
}

/// Interpolation does not know left from right: a sample between two columns of
/// a plane is the sample between the same columns of the mirrored plane.
pub proof fn law_luma_mirrors(p: spec_fn(int, int) -> u8, x: int, y: int, fx: int, fy: int)
    requires
        0 <= fx < 4,
        0 <= fy < 4,
    ensures
        fx == 0 ==> qpel(mirrored(p), x, y, 0, fy) == qpel(p, -x, y, 0, fy),
        fx > 0 ==> qpel(mirrored(p), x, y, fx, fy) == qpel(p, -x - 1, y, 4 - fx, fy),
{
    reveal(half_h);
    reveal(half_v);
    reveal(half_hv);
    let m = mirrored(p);
    assert(forall|a: int, b: int| #[trigger] m(a, b) == p(-a, b));
    assert forall|a: int, b: int| #[trigger] raw_h(m, a, b) == raw_h(p, -a - 1, b) by {
        assert(-(a - 2) == (-a - 1) + 3 && -(a - 1) == (-a - 1) + 2 && -a == (-a - 1) + 1);
        assert(-(a + 1) == -a - 1 && -(a + 2) == (-a - 1) - 1 && -(a + 3) == (-a - 1) - 2);
    }
    assert forall|a: int, b: int| #[trigger] raw_v(m, a, b) == raw_v(p, -a, b) by {}
    assert(raw_hv(m, x, y) == raw_hv(p, -x - 1, y));
    assert(-(x + 1) == -x - 1);
}

/// Interpolation does not know up from down.
pub proof fn law_luma_flips(p: spec_fn(int, int) -> u8, x: int, y: int, fx: int, fy: int)
    requires
        0 <= fx < 4,
        0 <= fy < 4,
    ensures
        fy == 0 ==> qpel(flipped(p), x, y, fx, 0) == qpel(p, x, -y, fx, 0),
        fy > 0 ==> qpel(flipped(p), x, y, fx, fy) == qpel(p, x, -y - 1, fx, 4 - fy),
{
    reveal(half_h);
    reveal(half_v);
    reveal(half_hv);
    let m = flipped(p);
    assert(forall|a: int, b: int| #[trigger] m(a, b) == p(a, -b));
    assert forall|a: int, b: int| #[trigger] raw_v(m, a, b) == raw_v(p, a, -b - 1) by {
        assert(-(b - 2) == (-b - 1) + 3 && -(b - 1) == (-b - 1) + 2 && -b == (-b - 1) + 1);
        assert(-(b + 1) == -b - 1 && -(b + 2) == (-b - 1) - 1 && -(b + 3) == (-b - 1) - 2);
    }
    assert forall|a: int, b: int| #[trigger] raw_h(m, a, b) == raw_h(p, a, -b) by {}
    assert(raw_hv(m, x, y) == raw_hv(p, x, -y - 1)) by {
        assert(-(y - 2) == (-y - 1) + 3 && -(y - 1) == (-y - 1) + 2 && -y == (-y - 1) + 1);
        assert(-(y + 1) == -y - 1 && -(y + 2) == (-y - 1) - 1 && -(y + 3) == (-y - 1) - 2);
        assert(raw_h(m, x, y - 2) == raw_h(p, x, (-y - 1) + 3));
        assert(raw_h(m, x, y - 1) == raw_h(p, x, (-y - 1) + 2));
        assert(raw_h(m, x, y) == raw_h(p, x, (-y - 1) + 1));
        assert(raw_h(m, x, y + 1) == raw_h(p, x, -y - 1));
        assert(raw_h(m, x, y + 2) == raw_h(p, x, (-y - 1) - 1));
        assert(raw_h(m, x, y + 3) == raw_h(p, x, (-y - 1) - 2));
    }
    assert(-(y + 1) == -y - 1);
}

/// Interpolation treats rows and columns alike, down to the rounding of the
/// sample in the middle of four.
pub proof fn law_luma_transposes(p: spec_fn(int, int) -> u8, x: int, y: int, fx: int, fy: int)
    requires
        0 <= fx < 4,
        0 <= fy < 4,
    ensures
        qpel(transposed(p), x, y, fx, fy) == qpel(p, y, x, fy, fx),
{
    reveal(half_h);
    reveal(half_v);
    reveal(half_hv);
    let m = transposed(p);
    assert(forall|a: int, b: int| #[trigger] m(a, b) == p(b, a));
    assert forall|a: int, b: int| #[trigger] raw_h(m, a, b) == raw_v(p, b, a) by {}
    assert forall|a: int, b: int| #[trigger] raw_v(m, a, b) == raw_h(p, b, a) by {}
    assert(raw_hv(m, x, y) == raw_hv(p, y, x));
}

/// Six samples in a row weighted 1, -5, 20, 20, -5, 1.
pub open spec fn six(a: int, b: int, c: int, d: int, e: int, f: int) -> int {
    a - 5 * b + 20 * c + 20 * d - 5 * e + f
}

/// A value kept between 0 and 255.
pub open spec fn byte(v: int) -> int {
    if v < 0 {
        0
    } else if v > 255 {
        255
    } else {
        v
    }
}

/// The values that symmetry leaves open. Between two samples of a row stands
/// their six-tap sum, halved to the nearest; in the middle of four samples the
/// six-tap sum of such sums; at a quarter the average of the two displayed
/// samples nearest to it, rounded up: a full and a half sample on a row, two half
/// samples across a diagonal, and beside the middle the half sample above it.
pub proof fn law_luma_positions(p: spec_fn(int, int) -> u8, x: int, y: int)
    ensures
        ({
            let row = |b: int|
                six(
                    p(x - 2, y + b) as int,
                    p(x - 1, y + b) as int,
                    p(x, y + b) as int,
                    p(x + 1, y + b) as int,
                    p(x + 2, y + b) as int,
                    p(x + 3, y + b) as int,
                );
            let column = six(
                p(x, y - 2) as int,
                p(x, y - 1) as int,
                p(x, y) as int,
                p(x, y + 1) as int,
                p(x, y + 2) as int,
                p(x, y + 3) as int,
            );
            let right = byte((row(0) + 16) / 32);
            let below = byte((column + 16) / 32);
            let middle = byte(
                (six(row(-2), row(-1), row(0), row(1), row(2), row(3)) + 512) / 1024,
            );
            &&& qpel(p, x, y, 0, 0) == p(x, y)
            &&& qpel(p, x, y, 2, 0) == right
            &&& qpel(p, x, y, 2, 2) == middle
            &&& qpel(p, x, y, 1, 0) == (p(x, y) + right + 1) / 2
            &&& qpel(p, x, y, 1, 1) == (below + right + 1) / 2
            &&& qpel(p, x, y, 2, 1) == (middle + right + 1) / 2
        }),
{
    reveal(half_h);
    reveal(half_v);
    reveal(half_hv);
}

/// Chroma interpolation does not know left from right, nor up from down, and
/// treats rows and columns alike.
pub proof fn law_chroma_is_symmetric(
    p: spec_fn(int, int) -> u8,
    x: int,
    y: int,
    mv_x: int,
    mv_y: int,
)
    ensures
        chroma_mc(transposed(p), x, y, mv_x, mv_y) == chroma_mc(p, y, x, mv_y, mv_x),
        chroma_mc(mirrored(p), x, y, mv_x, mv_y) == chroma_mc(p, -x, y, -mv_x, mv_y),
        chroma_mc(flipped(p), x, y, mv_x, mv_y) == chroma_mc(p, x, -y, mv_x, -mv_y),
{
    lemma_mirrored_steps(mv_x);
    lemma_mirrored_steps(mv_y);
    let (ix, iy) = (x + mv_x / 8, y + mv_y / 8);
    let (fx, fy) = (mv_x % 8, mv_y % 8);
    assert(-(ix + 1) == -ix - 1 && -(iy + 1) == -iy - 1);
    lemma_weights(fx, fy);
    lemma_weights(8 - fx, fy);
    lemma_weights(fx, 8 - fy);
    lemma_weights(fy, fx);
    assert(8 - (8 - fx) == fx && 8 - (8 - fy) == fy);
    if fx == 0 {
        assert(-x + (-mv_x) / 8 == -ix);
    } else {
        assert(-x + (-mv_x) / 8 == -ix - 1);
        assert((-ix - 1) + 1 == -ix);
    }
    if fy == 0 {
        assert(-y + (-mv_y) / 8 == -iy);
    } else {
        assert(-y + (-mv_y) / 8 == -iy - 1);
        assert((-iy - 1) + 1 == -iy);
    }
}

proof fn lemma_mirrored_steps(v: int)
    ensures
        v % 8 == 0 ==> (-v) % 8 == 0 && (-v) / 8 == -(v / 8),
        v % 8 != 0 ==> (-v) % 8 == 8 - v % 8 && (-v) / 8 == -(v / 8) - 1,
{
}

proof fn lemma_weights(fx: int, fy: int)
    ensures
        (8 - fx) * (8 - fy) == (8 - fy) * (8 - fx),
        fx * (8 - fy) == (8 - fy) * fx,
        (8 - fx) * fy == fy * (8 - fx),
        fx * fy == fy * fx,
        fx == 0 ==> fx * (8 - fy) == 0 && fx * fy == 0,
        fy == 0 ==> (8 - fx) * fy == 0 && fx * fy == 0,
{
    assert((8 - fx) * (8 - fy) == (8 - fy) * (8 - fx)) by (nonlinear_arith);
    assert(fx * (8 - fy) == (8 - fy) * fx) by (nonlinear_arith);
    assert((8 - fx) * fy == fy * (8 - fx)) by (nonlinear_arith);
    assert(fx * fy == fy * fx) by (nonlinear_arith);
}

/// Eight equal parts of the way between two values, without division.
pub open spec fn between(a: int, b: int, eighths: int) -> int {
    (8 - eighths) * a + eighths * b
}

proof fn lemma_chroma_value(p: spec_fn(int, int) -> u8, x: int, y: int, mv_x: int, mv_y: int)
    ensures
        ({
            let (ix, iy) = (x + mv_x / 8, y + mv_y / 8);
            let (fx, fy) = (mv_x % 8, mv_y % 8);
            let (a, b) = (p(ix, iy) as int, p(ix + 1, iy) as int);
            let (c, d) = (p(ix, iy + 1) as int, p(ix + 1, iy + 1) as int);
            chroma_mc(p, x, y, mv_x, mv_y) == (between(
                between(a, b, fx),
                between(c, d, fx),
                fy,
            ) + 32) / 64
        }),
{
    let (ix, iy) = (x + mv_x / 8, y + mv_y / 8);
    let (fx, fy) = (mv_x % 8, mv_y % 8);
    let (a, b) = (p(ix, iy) as int, p(ix + 1, iy) as int);
    let (c, d) = (p(ix, iy + 1) as int, p(ix + 1, iy + 1) as int);
    let (u, v) = (8 - fx, 8 - fy);
    assert(v * (u * a + fx * b) == v * (u * a) + v * (fx * b)) by (nonlinear_arith);
    assert(fy * (u * c + fx * d) == fy * (u * c) + fy * (fx * d)) by (nonlinear_arith);
    assert(v * (u * a) == u * v * a) by (nonlinear_arith);
    assert(v * (fx * b) == fx * v * b) by (nonlinear_arith);
    assert(fy * (u * c) == u * fy * c) by (nonlinear_arith);
    assert(fy * (fx * d) == fx * fy * d) by (nonlinear_arith);
}

/// A chroma sample lies on straight lines between the four samples around it:
/// across, then down, in eighths of a sample, rounded once.
pub proof fn law_chroma_is_bilinear(
    p: spec_fn(int, int) -> u8,
    x: int,
    y: int,
    mv_x: int,
    mv_y: int,
)
    ensures
        ({
            let (ix, iy) = (x + mv_x / 8, y + mv_y / 8);
            chroma_mc(p, x, y, mv_x, mv_y) == (between(
                between(p(ix, iy) as int, p(ix + 1, iy) as int, mv_x % 8),
                between(p(ix, iy + 1) as int, p(ix + 1, iy + 1) as int, mv_x % 8),
                mv_y % 8,
            ) + 32) / 64
        }),
{
    lemma_chroma_value(p, x, y, mv_x, mv_y);
}

} // verus!
