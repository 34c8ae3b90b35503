//! Inter prediction sample interpolation: the six-tap half-sample filter and
//! the averaging that gives every quarter-sample luma position, and the
//! bilinear eighth-sample filter of chroma.
//!
//! A reference plane is read through a `fetch` closure, so that edge clamping
//! and buffer layout stay with the caller. Contracts speak of any mathematical
//! plane that the closure agrees with ([`fetches`]).
use vstd::prelude::*;
use crate::arith::{clip3, lemma_shift_i32};

verus! {

/// Clamps to the 8-bit sample range.
pub fn clip_u8(v: i32) -> (r: u8)
    ensures
        r == clip3(0, 255, v as int),
{
    if v < 0 {
        0
    } else if v > 255 {
        255
    } else {
        v as u8
    }
}

/// The six-tap sum `E - 5F + 20G + 20H - 5I + J`.
pub open spec fn tap6_sum(e: int, f: int, g: int, h: int, i: int, j: int) -> int {
    e - 5 * f + 20 * g + 20 * h - 5 * i + j
}

/// Every intermediate of the six-tap sum, taken left to right, fits an `i32`.
pub open spec fn tap6_fits(e: int, f: int, g: int, h: int, i: int, j: int) -> bool {
    &&& i32::MIN <= 5 * f <= i32::MAX
    &&& i32::MIN <= e - 5 * f <= i32::MAX
    &&& i32::MIN <= 20 * g <= i32::MAX
    &&& i32::MIN <= e - 5 * f + 20 * g <= i32::MAX
    &&& i32::MIN <= 20 * h <= i32::MAX
    &&& i32::MIN <= e - 5 * f + 20 * g + 20 * h <= i32::MAX
    &&& i32::MIN <= 5 * i <= i32::MAX
    &&& i32::MIN <= e - 5 * f + 20 * g + 20 * h - 5 * i <= i32::MAX
    &&& i32::MIN <= tap6_sum(e, f, g, h, i, j) <= i32::MAX
}

/// The six-tap filter of every half-sample position, neither rounded nor
/// shifted: the doubly-half position filters these raw sums a second time.
pub fn tap6(e: i32, f: i32, g: i32, h: i32, i: i32, j: i32) -> (r: i32)
    requires
        tap6_fits(e as int, f as int, g as int, h as int, i as int, j as int),
    ensures
        r == tap6_sum(e as int, f as int, g as int, h as int, i as int, j as int),
{
    e - 5 * f + 20 * g + 20 * h - 5 * i + j
}

/// Rounds a one-pass filter sum.
pub fn round_half(sum: i32) -> (r: i32)
    requires
        sum + 16 <= i32::MAX,
    ensures
        r == (sum + 16) / 32,
{
    proof {
        lemma_shift_i32((sum + 16) as i32);
    }
    (sum + 16) >> 5
}

/// Rounds a two-pass filter sum.
pub fn round_quarter_pass(sum: i32) -> (r: i32)
    requires
        sum + 512 <= i32::MAX,
    ensures
        r == (sum + 512) / 1024,
{
    proof {
        lemma_shift_i32((sum + 512) as i32);
    }
    (sum + 512) >> 10
}

/// The rounded-up average of two samples.
pub open spec fn avg_spec(a: int, b: int) -> int {
    (a + b + 1) / 2
}

pub fn avg(a: i32, b: i32) -> (r: i32)
    requires
        i32::MIN <= a + b <= i32::MAX,
        a + b + 1 <= i32::MAX,
    ensures
        r == avg_spec(a as int, b as int),
{
    proof {
        lemma_shift_i32((a + b + 1) as i32);
    }
    (a + b + 1) >> 1
}

/// `fetch` never returns anything but the sample of `plane` at the position it
/// is asked for.
pub open spec fn fetches<F: Fn(i32, i32) -> u8>(
    fetch: F,
    plane: spec_fn(int, int) -> u8,
) -> bool {
    forall|x: i32, y: i32, v: u8|
        #[trigger] call_ensures(fetch, (x, y), v) ==> v == plane(x as int, y as int)
}

/// `fetch` may be called on all of `x0..=x1` by `y0..=y1`, and those positions
/// are `i32` positions.
pub open spec fn readable<F: Fn(i32, i32) -> u8>(
    fetch: F,
    x0: int,
    x1: int,
    y0: int,
    y1: int,
) -> bool {
    &&& i32::MIN <= x0
    &&& x1 <= i32::MAX
    &&& i32::MIN <= y0
    &&& y1 <= i32::MAX
    &&& forall|x: i32, y: i32|
        x0 <= x <= x1 && y0 <= y <= y1 ==> #[trigger] call_requires(fetch, (x, y))
}

/// The raw horizontal six-tap sum centred between `(x, y)` and `(x + 1, y)`.
pub open spec fn raw_h(p: spec_fn(int, int) -> u8, x: int, y: int) -> int {
    tap6_sum(
        p(x - 2, y) as int,
        p(x - 1, y) as int,
        p(x, y) as int,
        p(x + 1, y) as int,
        p(x + 2, y) as int,
        p(x + 3, y) as int,
    )
}

/// The raw vertical six-tap sum centred between `(x, y)` and `(x, y + 1)`.
pub open spec fn raw_v(p: spec_fn(int, int) -> u8, x: int, y: int) -> int {
    tap6_sum(
        p(x, y - 2) as int,
        p(x, y - 1) as int,
        p(x, y) as int,
        p(x, y + 1) as int,
        p(x, y + 2) as int,
        p(x, y + 3) as int,
    )
}

/// The half-sample to the right of `(x, y)`, as it would be displayed.
#[verifier::opaque]
pub open spec fn half_h(p: spec_fn(int, int) -> u8, x: int, y: int) -> int {
    clip3(0, 255, (raw_h(p, x, y) + 16) / 32)
}

/// The half-sample below `(x, y)`, as it would be displayed.
#[verifier::opaque]
pub open spec fn half_v(p: spec_fn(int, int) -> u8, x: int, y: int) -> int {
    clip3(0, 255, (raw_v(p, x, y) + 16) / 32)
}

/// The second filter pass over six rows of raw horizontal sums.
pub open spec fn raw_hv(p: spec_fn(int, int) -> u8, x: int, y: int) -> int {
    tap6_sum(
        raw_h(p, x, y - 2),
        raw_h(p, x, y - 1),
        raw_h(p, x, y),
        raw_h(p, x, y + 1),
        raw_h(p, x, y + 2),
        raw_h(p, x, y + 3),
    )
}

/// The half-sample both right of and below `(x, y)`: two unrounded passes,
/// rounded and clipped once.
#[verifier::opaque]
pub open spec fn half_hv(p: spec_fn(int, int) -> u8, x: int, y: int) -> int {
    clip3(0, 255, (raw_hv(p, x, y) + 512) / 1024)
}

/// The predicted luma sample at `(x, y)` plus `(fx, fy)` quarter samples.
/// Quarter positions average two displayed (clipped) samples. A fraction
/// outside `0..=3` names no position and gives the full sample.
pub open spec fn qpel(p: spec_fn(int, int) -> u8, x: int, y: int, fx: int, fy: int) -> int {
    if fx == 2 && fy == 0 {
        half_h(p, x, y)
    } else if fx == 0 && fy == 2 {
        half_v(p, x, y)
    } else if fx == 2 && fy == 2 {
        half_hv(p, x, y)
    } else if fx == 1 && fy == 0 {
        avg_spec(p(x, y) as int, half_h(p, x, y))
    } else if fx == 3 && fy == 0 {
        avg_spec(half_h(p, x, y), p(x + 1, y) as int)
    } else if fx == 0 && fy == 1 {
        avg_spec(p(x, y) as int, half_v(p, x, y))
    } else if fx == 0 && fy == 3 {
        avg_spec(half_v(p, x, y), p(x, y + 1) as int)
    } else if fx == 1 && fy == 1 {
        avg_spec(half_h(p, x, y), half_v(p, x, y))
    } else if fx == 3 && fy == 1 {
        avg_spec(half_h(p, x, y), half_v(p, x + 1, y))
    } else if fx == 1 && fy == 3 {
        avg_spec(half_v(p, x, y), half_h(p, x, y + 1))
    } else if fx == 3 && fy == 3 {
        avg_spec(half_v(p, x + 1, y), half_h(p, x, y + 1))
    } else if fx == 2 && fy == 1 {
        avg_spec(half_h(p, x, y), half_hv(p, x, y))
    } else if fx == 2 && fy == 3 {
        avg_spec(half_hv(p, x, y), half_h(p, x, y + 1))
    } else if fx == 1 && fy == 2 {
        avg_spec(half_v(p, x, y), half_hv(p, x, y))
    } else if fx == 3 && fy == 2 {
        avg_spec(half_hv(p, x, y), half_v(p, x + 1, y))
    } else {
        p(x, y) as int
    }
}

fn sample<F: Fn(i32, i32) -> u8>(fetch: &F, x: i32, y: i32) -> (r: i32)
    requires
        call_requires(*fetch, (x, y)),
    ensures
        0 <= r <= 255,
        forall|p: spec_fn(int, int) -> u8| #[trigger]
            fetches(*fetch, p) ==> r == p(x as int, y as int),
{
    fetch(x, y) as i32
}

fn sample_raw_h<F: Fn(i32, i32) -> u8>(fetch: &F, x: i32, y: i32) -> (r: i32)
    requires
        readable(*fetch, x - 2, x + 3, y as int, y as int),
    ensures
        -2550 <= r <= 10710,
        forall|p: spec_fn(int, int) -> u8| #[trigger]
            fetches(*fetch, p) ==> r == raw_h(p, x as int, y as int),
{
    let e: i32 = sample(fetch, x - 2, y);
    let f: i32 = sample(fetch, x - 1, y);
    let g: i32 = sample(fetch, x, y);
    let h: i32 = sample(fetch, x + 1, y);
    let i: i32 = sample(fetch, x + 2, y);
    let j: i32 = sample(fetch, x + 3, y);
    tap6(e, f, g, h, i, j)
}

fn sample_half_h<F: Fn(i32, i32) -> u8>(fetch: &F, x: i32, y: i32) -> (r: i32)
    requires
        readable(*fetch, x - 2, x + 3, y as int, y as int),
    ensures
        0 <= r <= 255,
        forall|p: spec_fn(int, int) -> u8| #[trigger]
            fetches(*fetch, p) ==> r == half_h(p, x as int, y as int),
{
    reveal(half_h);
    clip_u8(round_half(sample_raw_h(fetch, x, y))) as i32
}

fn sample_half_v<F: Fn(i32, i32) -> u8>(fetch: &F, x: i32, y: i32) -> (r: i32)
    requires
        readable(*fetch, x as int, x as int, y - 2, y + 3),
    ensures
        0 <= r <= 255,
        forall|p: spec_fn(int, int) -> u8| #[trigger]
            fetches(*fetch, p) ==> r == half_v(p, x as int, y as int),
{
    reveal(half_v);
    let e: i32 = sample(fetch, x, y - 2);
    let f: i32 = sample(fetch, x, y - 1);
    let g: i32 = sample(fetch, x, y);
    let h: i32 = sample(fetch, x, y + 1);
    let i: i32 = sample(fetch, x, y + 2);
    let j: i32 = sample(fetch, x, y + 3);
    clip_u8(round_half(tap6(e, f, g, h, i, j))) as i32
}

fn sample_half_hv<F: Fn(i32, i32) -> u8>(fetch: &F, x: i32, y: i32) -> (r: i32)
    requires
        readable(*fetch, x - 2, x + 3, y - 2, y + 3),
    ensures
        0 <= r <= 255,
        forall|p: spec_fn(int, int) -> u8| #[trigger]
            fetches(*fetch, p) ==> r == half_hv(p, x as int, y as int),
{
    reveal(half_hv);
    let e: i32 = sample_raw_h(fetch, x, y - 2);
    let f: i32 = sample_raw_h(fetch, x, y - 1);
    let g: i32 = sample_raw_h(fetch, x, y);
    let h: i32 = sample_raw_h(fetch, x, y + 1);
    let i: i32 = sample_raw_h(fetch, x, y + 2);
    let j: i32 = sample_raw_h(fetch, x, y + 3);
    clip_u8(round_quarter_pass(tap6(e, f, g, h, i, j))) as i32
}

/// One predicted luma sample at full position `(x, y)` plus a quarter-sample
/// fraction. A full position is a pure fetch; any other reads the six-by-six
/// neighbourhood.
pub fn luma_qpel_sample<F: Fn(i32, i32) -> u8>(
    fetch: F,
    x: i32,
    y: i32,
    frac_x: u32,
    frac_y: u32,
) -> (r: u8)
    requires
        frac_x == 0 && frac_y == 0 ==> call_requires(fetch, (x, y)),
        frac_x != 0 || frac_y != 0 ==> readable(fetch, x - 2, x + 3, y - 2, y + 3),
    ensures
        forall|p: spec_fn(int, int) -> u8| #[trigger]
            fetches(fetch, p) ==> r == qpel(p, x as int, y as int, frac_x as int, frac_y as int),
{
    let fetch = &fetch;
    let v: i32 = match (frac_x, frac_y) {
        (2, 0) => sample_half_h(fetch, x, y),
        (0, 2) => sample_half_v(fetch, x, y),
        (2, 2) => sample_half_hv(fetch, x, y),
        (1, 0) => avg(sample(fetch, x, y), sample_half_h(fetch, x, y)),
        (3, 0) => avg(sample_half_h(fetch, x, y), sample(fetch, x + 1, y)),
        (0, 1) => avg(sample(fetch, x, y), sample_half_v(fetch, x, y)),
        (0, 3) => avg(sample_half_v(fetch, x, y), sample(fetch, x, y + 1)),
        (1, 1) => avg(sample_half_h(fetch, x, y), sample_half_v(fetch, x, y)),
        (3, 1) => avg(sample_half_h(fetch, x, y), sample_half_v(fetch, x + 1, y)),
        (1, 3) => avg(sample_half_v(fetch, x, y), sample_half_h(fetch, x, y + 1)),
        (3, 3) => avg(sample_half_v(fetch, x + 1, y), sample_half_h(fetch, x, y + 1)),
        (2, 1) => avg(sample_half_h(fetch, x, y), sample_half_hv(fetch, x, y)),
        (2, 3) => avg(sample_half_hv(fetch, x, y), sample_half_h(fetch, x, y + 1)),
        (1, 2) => avg(sample_half_v(fetch, x, y), sample_half_hv(fetch, x, y)),
        (3, 2) => avg(sample_half_hv(fetch, x, y), sample_half_v(fetch, x + 1, y)),
        _ => sample(fetch, x, y),
    };
    clip_u8(v)
}

/// The window of a partition seen as a plane: position `(0, 0)` is the
/// partition's own top-left sample.
pub open spec fn window_plane(window: [[u8; 21]; 21]) -> spec_fn(int, int) -> u8 {
    |a: int, b: int| window[b + 2][a + 2]
}

/// Rows `0..rows` of `window` hold `p` from two rows above and two columns
/// left of `(x, y)`, `cols` columns wide.
pub open spec fn window_holds(
    window: [[u8; 21]; 21],
    p: spec_fn(int, int) -> u8,
    x: int,
    y: int,
    cols: int,
    rows: int,
) -> bool {
    forall|r: int, c: int|
        0 <= r < rows && 0 <= c < cols ==> #[trigger] window[r][c] == p(x + c - 2, y + r - 2)
}

/// Reads samples through a function, and keeps account of where.
pub struct SampleReader<F> {
    fetch: F,
    log: Ghost<Seq<(int, int)>>,
}

impl<F: Fn(i32, i32) -> u8> SampleReader<F> {
    /// The function that the samples come from.
    pub closed spec fn source(&self) -> F {
        self.fetch
    }

    /// The positions that the function was called on, in the order of the calls.
    pub closed spec fn reads(&self) -> Seq<(int, int)> {
        self.log@
    }

    /// A reader that has read nothing.
    pub fn new(fetch: F) -> (r: Self)
        ensures
            r.source() == fetch,
            r.reads() == Seq::<(int, int)>::empty(),
    {
        SampleReader { fetch, log: Ghost(Seq::empty()) }
    }

    /// Calls the function once.
    pub fn read(&mut self, x: i32, y: i32) -> (v: u8)
        requires
            call_requires(old(self).source(), (x, y)),
        ensures
            final(self).source() == old(self).source(),
            final(self).reads() == old(self).reads().push((x as int, y as int)),
            call_ensures(old(self).source(), (x, y), v),
    {
        let v: u8 = (self.fetch)(x, y);
        self.log = Ghost(self.log@.push((x as int, y as int)));
        v
    }
}

/// The positions of a partition's window, row by row: two samples in front of
/// the partition and three behind in each direction. A partition without
/// samples has no window.
pub open spec fn window_positions(x: int, y: int, w: int, h: int) -> Seq<(int, int)> {
    if w <= 0 || h <= 0 {
        Seq::empty()
    } else {
        Seq::new(
            ((w + 5) * (h + 5)) as nat,
            |k: int| (x - 2 + k % (w + 5), y - 2 + k / (w + 5)),
        )
    }
}

/// Every position of a partition's window stands in the list exactly once, and
/// no other position does.
pub proof fn law_window_positions_are_read_once(x: int, y: int, w: int, h: int, a: int, b: int)
    requires
        0 < w,
        0 < h,
    ensures
        window_positions(x, y, w, h).no_duplicates(),
        window_positions(x, y, w, h).contains((a, b)) <==> x - 2 <= a <= x + w + 2 && y - 2 <= b <= y
            + h + 2,
{
    let (m, n) = (w + 5, h + 5);
    let all = window_positions(x, y, w, h);
    assert(0 <= m * n) by (nonlinear_arith)
        requires
            0 < m,
            0 < n,
    ;
    assert forall|k: int| 0 <= k < m * n implies 0 <= #[trigger] (k / m) < n && 0 <= k % m < m && k
        == (k / m) * m + k % m by {
        vstd::arithmetic::div_mod::lemma_fundamental_div_mod(k, m);
        vstd::arithmetic::mul::lemma_mul_is_commutative(m, k / m);
        assert(0 <= k / m < n) by (nonlinear_arith)
            requires
                0 <= k < m * n,
                0 < m,
                k == (k / m) * m + k % m,
                0 <= k % m < m,
        ;
    }
    assert forall|i: int, j: int| 0 <= i < all.len() && 0 <= j < all.len() && i != j implies all[i]
        != all[j] by {
        assert(i == (i / m) * m + i % m);
        assert(j == (j / m) * m + j % m);
    }
    if x - 2 <= a <= x + w + 2 && y - 2 <= b <= y + h + 2 {
        let (r, c) = (b - y + 2, a - x + 2);
        let k = r * m + c;
        assert(0 <= k < m * n) by (nonlinear_arith)
            requires
                k == r * m + c,
                0 <= r < n,
                0 <= c < m,
        ;
        vstd::arithmetic::div_mod::lemma_fundamental_div_mod_converse(k, m, r, c);
        assert(all[k] == (a, b));
    }
    if all.contains((a, b)) {
        let k = choose|k: int| 0 <= k < all.len() && all[k] == (a, b);
        assert(0 <= k / m < n);
    }
}

fn gather_window<F: Fn(i32, i32) -> u8>(
    reader: &mut SampleReader<F>,
    x: i32,
    y: i32,
    w: usize,
    h: usize,
) -> (window: [[u8; 21]; 21])
    requires
        0 < w <= 16,
        0 < h <= 16,
        readable(old(reader).source(), x - 2, x + w + 2, y - 2, y + h + 2),
        x + w + 4 <= i32::MAX,
        y + h + 4 <= i32::MAX,
    ensures
        final(reader).source() == old(reader).source(),
        final(reader).reads() == old(reader).reads() + window_positions(
            x as int,
            y as int,
            w as int,
            h as int,
        ),
        forall|p: spec_fn(int, int) -> u8| #[trigger]
            fetches(old(reader).source(), p) ==> window_holds(
                window,
                p,
                x as int,
                y as int,
                w + 5,
                h + 5,
            ),
{
    let mut window = [[0u8; 21]; 21];
    let ghost fetch = reader.source();
    let ghost before = reader.reads();
    let ghost all = window_positions(x as int, y as int, w as int, h as int);
    proof {
        assert(0 * (w + 5) == 0) by (nonlinear_arith);
        assert(before + all.take(0) =~= before);
    }
    for r in 0..h + 5
        invariant
            0 < w <= 16,
            0 < h <= 16,
            reader.source() == fetch,
            reader.reads() == before + all.take(r * (w + 5)),
            all == window_positions(x as int, y as int, w as int, h as int),
            readable(fetch, x - 2, x + w + 2, y - 2, y + h + 2),
            x + w + 4 <= i32::MAX,
            y + h + 4 <= i32::MAX,
            forall|p: spec_fn(int, int) -> u8| #[trigger]
                fetches(fetch, p) ==> window_holds(
                    window,
                    p,
                    x as int,
                    y as int,
                    w + 5,
                    r as int,
                ),
    {
        let py: i32 = y + r as i32 - 2;
        for c in 0..w + 5
            invariant
                0 < w <= 16,
                0 < h <= 16,
                r < h + 5,
                py == y + r - 2,
                reader.source() == fetch,
                reader.reads() == before + all.take(r * (w + 5) + c),
                all == window_positions(x as int, y as int, w as int, h as int),
                readable(fetch, x - 2, x + w + 2, y - 2, y + h + 2),
                x + w + 4 <= i32::MAX,
                forall|p: spec_fn(int, int) -> u8| #[trigger]
                    fetches(fetch, p) ==> window_holds(
                        window,
                        p,
                        x as int,
                        y as int,
                        w + 5,
                        r as int,
                    ) && forall|cc: int|
                        0 <= cc < c ==> #[trigger] window[r as int][cc] == p(
                            x + cc - 2,
                            py as int,
                        ),
        {
            let v: u8 = reader.read(x + c as i32 - 2, py);
            window[r][c] = v;
            proof {
                lemma_next_position(x as int, y as int, w as int, h as int, r as int, c as int);
                assert(reader.reads() =~= before + all.take(r * (w + 5) + c + 1));
            }
        }
        assert((r + 1) * (w + 5) == r * (w + 5) + (w + 5)) by (nonlinear_arith);
    }
    assert((h + 5) * (w + 5) == (w + 5) * (h + 5)) by (nonlinear_arith);
    assert(reader.reads() =~= before + all);
    window
}

proof fn lemma_next_position(x: int, y: int, w: int, h: int, r: int, c: int)
    requires
        0 < w,
        0 < h,
        0 <= r < h + 5,
        0 <= c < w + 5,
    ensures
        0 <= r * (w + 5) + c < window_positions(x, y, w, h).len(),
        window_positions(x, y, w, h)[r * (w + 5) + c] == (x + c - 2, y + r - 2),
{
    assert(0 <= r * (w + 5) + c < (w + 5) * (h + 5)) by (nonlinear_arith)
        requires
            0 < w,
            0 < h,
            0 <= r < h + 5,
            0 <= c < w + 5,
    ;
    vstd::arithmetic::div_mod::lemma_fundamental_div_mod_converse(r * (w + 5) + c, w + 5, r, c);
}

/// The raw horizontal sums of every window row: row `r` belongs to the
/// partition row two above it.
fn fill_raw_h(window: &[[u8; 21]; 21], w: usize, h: usize, sums: &mut [[i32; 16]; 21])
    requires
        w <= 16,
        h <= 16,
    ensures
        forall|r: int, c: int|
            0 <= r < h + 5 && 0 <= c < w ==> #[trigger] final(sums)[r][c] == raw_h(
                window_plane(*window),
                c,
                r - 2,
            ),
{
    for r in 0..h + 5
        invariant
            w <= 16,
            h <= 16,
            forall|rr: int, c: int|
                0 <= rr < r && 0 <= c < w ==> #[trigger] sums[rr][c] == raw_h(
                    window_plane(*window),
                    c,
                    rr - 2,
                ),
    {
        for c in 0..w
            invariant
                w <= 16,
                h <= 16,
                r < h + 5,
                forall|rr: int, cc: int|
                    0 <= rr < r && 0 <= cc < w ==> #[trigger] sums[rr][cc] == raw_h(
                        window_plane(*window),
                        cc,
                        rr - 2,
                    ),
                forall|cc: int|
                    0 <= cc < c ==> #[trigger] sums[r as int][cc] == raw_h(
                        window_plane(*window),
                        cc,
                        r - 2,
                    ),
        {
            sums[r][c] = tap6(
                window[r][c] as i32,
                window[r][c + 1] as i32,
                window[r][c + 2] as i32,
                window[r][c + 3] as i32,
                window[r][c + 4] as i32,
                window[r][c + 5] as i32,
            );
        }
    }
}

/// The displayed horizontal half-samples of rows `0..=h`: the extra row serves
/// positions that average against the next row.
pub fn fill_h_plane(sums: &[[i32; 16]; 21], w: usize, h: usize, h_plane: &mut [[u8; 16]; 17])
    requires
        w <= 16,
        h <= 16,
        forall|r: int, c: int|
            0 <= r <= h && 0 <= c < w ==> (#[trigger] sums[r + 2][c]) + 16 <= i32::MAX,
    ensures
        forall|r: int, c: int|
            0 <= r < 17 && 0 <= c < 16 ==> #[trigger] final(h_plane)[r][c] == (if r <= h && c < w {
                clip3(0, 255, (sums[r + 2][c] + 16) / 32)
            } else {
                old(h_plane)[r][c] as int
            }),
{
    let ghost before = *h_plane;
    for r in 0..h + 1
        invariant
            w <= 16,
            h <= 16,
            forall|r: int, c: int|
                0 <= r <= h && 0 <= c < w ==> (#[trigger] sums[r + 2][c]) + 16 <= i32::MAX,
            forall|rr: int, c: int|
                0 <= rr < 17 && 0 <= c < 16 ==> #[trigger] h_plane[rr][c] == (if rr < r && c < w {
                    clip3(0, 255, (sums[rr + 2][c] + 16) / 32)
                } else {
                    before[rr][c] as int
                }),
    {
        for c in 0..w
            invariant
                w <= 16,
                h <= 16,
                r < h + 1,
                forall|r: int, c: int|
                    0 <= r <= h && 0 <= c < w ==> (#[trigger] sums[r + 2][c]) + 16 <= i32::MAX,
                forall|rr: int, cc: int|
                    0 <= rr < 17 && 0 <= cc < 16 ==> #[trigger] h_plane[rr][cc] == (if (rr < r
                        && cc < w) || (rr == r && cc < c) {
                        clip3(0, 255, (sums[rr + 2][cc] + 16) / 32)
                    } else {
                        before[rr][cc] as int
                    }),
        {
            assert(sums[r + 2][c as int] + 16 <= i32::MAX);
            h_plane[r][c] = clip_u8(round_half(sums[r + 2][c]));
        }
    }
}

/// The displayed vertical half-samples of columns `0..=w`.
pub fn fill_v_plane(window: &[[u8; 21]; 21], w: usize, h: usize, v_plane: &mut [[u8; 17]; 16])
    requires
        w <= 16,
        h <= 16,
    ensures
        forall|r: int, c: int|
            0 <= r < 16 && 0 <= c < 17 ==> #[trigger] final(v_plane)[r][c] == (if r < h && c <= w {
                half_v(window_plane(*window), c, r)
            } else {
                old(v_plane)[r][c] as int
            }),
{
    let ghost before = *v_plane;
    for r in 0..h
        invariant
            w <= 16,
            h <= 16,
            forall|rr: int, c: int|
                0 <= rr < 16 && 0 <= c < 17 ==> #[trigger] v_plane[rr][c] == (if rr < r && c <= w {
                    half_v(window_plane(*window), c, rr)
                } else {
                    before[rr][c] as int
                }),
    {
        for c in 0..w + 1
            invariant
                w <= 16,
                h <= 16,
                r < h,
                forall|rr: int, cc: int|
                    0 <= rr < 16 && 0 <= cc < 17 ==> #[trigger] v_plane[rr][cc] == (if (rr < r
                        && cc <= w) || (rr == r && cc < c) {
                        half_v(window_plane(*window), cc, rr)
                    } else {
                        before[rr][cc] as int
                    }),
        {
            reveal(half_v);
            v_plane[r][c] = clip_u8(
                round_half(
                    tap6(
                        window[r][c + 2] as i32,
                        window[r + 1][c + 2] as i32,
                        window[r + 2][c + 2] as i32,
                        window[r + 3][c + 2] as i32,
                        window[r + 4][c + 2] as i32,
                        window[r + 5][c + 2] as i32,
                    ),
                ),
            );
        }
    }
}

/// The six raw sums of column `c` that start at row `r` may be filtered and
/// rounded in `i32`.
pub open spec fn column_fits(sums: [[i32; 16]; 21], r: int, c: int) -> bool {
    &&& tap6_fits(
        sums[r][c] as int,
        sums[r + 1][c] as int,
        sums[r + 2][c] as int,
        sums[r + 3][c] as int,
        sums[r + 4][c] as int,
        sums[r + 5][c] as int,
    )
    &&& column_sum(sums, r, c) + 512 <= i32::MAX
}

/// The second six-tap pass down column `c` from row `r`.
pub open spec fn column_sum(sums: [[i32; 16]; 21], r: int, c: int) -> int {
    tap6_sum(
        sums[r][c] as int,
        sums[r + 1][c] as int,
        sums[r + 2][c] as int,
        sums[r + 3][c] as int,
        sums[r + 4][c] as int,
        sums[r + 5][c] as int,
    )
}

/// The displayed doubly-half samples: a second pass down the raw sums, rounded
/// and clipped once.
pub fn fill_j_plane(sums: &[[i32; 16]; 21], w: usize, h: usize, j_plane: &mut [[u8; 16]; 16])
    requires
        w <= 16,
        h <= 16,
        forall|r: int, c: int|
            0 <= r < h && 0 <= c < w ==> #[trigger] column_fits(*sums, r, c),
    ensures
        forall|r: int, c: int|
            0 <= r < 16 && 0 <= c < 16 ==> #[trigger] final(j_plane)[r][c] == (if r < h && c < w {
                clip3(0, 255, (column_sum(*sums, r, c) + 512) / 1024)
            } else {
                old(j_plane)[r][c] as int
            }),
{
    let ghost before = *j_plane;
    for r in 0..h
        invariant
            w <= 16,
            h <= 16,
            forall|r: int, c: int|
                0 <= r < h && 0 <= c < w ==> #[trigger] column_fits(*sums, r, c),
            forall|rr: int, c: int|
                0 <= rr < 16 && 0 <= c < 16 ==> #[trigger] j_plane[rr][c] == (if rr < r && c < w {
                    clip3(0, 255, (column_sum(*sums, rr, c) + 512) / 1024)
                } else {
                    before[rr][c] as int
                }),
    {
        for c in 0..w
            invariant
                w <= 16,
                h <= 16,
                r < h,
                forall|r: int, c: int|
                    0 <= r < h && 0 <= c < w ==> #[trigger] column_fits(*sums, r, c),
                forall|rr: int, cc: int|
                    0 <= rr < 16 && 0 <= cc < 16 ==> #[trigger] j_plane[rr][cc] == (if (rr < r
                        && cc < w) || (rr == r && cc < c) {
                        clip3(0, 255, (column_sum(*sums, rr, cc) + 512) / 1024)
                    } else {
                        before[rr][cc] as int
                    }),
        {
            assert(column_fits(*sums, r as int, c as int));
            j_plane[r][c] = clip_u8(
                round_quarter_pass(
                    tap6(
                        sums[r][c],
                        sums[r + 1][c],
                        sums[r + 2][c],
                        sums[r + 3][c],
                        sums[r + 4][c],
                        sums[r + 5][c],
                    ),
                ),
            );
        }
    }
}

/// The fraction a partition is predicted at: fractions above 3 select the
/// last position of their row or column of the quarter-sample grid.
pub open spec fn partition_fraction(fx: int, fy: int) -> (int, int) {
    if fx == 0 || fx == 2 || fy == 0 || fy == 2 {
        (if fx > 3 { 3int } else { fx }, if fy > 3 { 3int } else { fy })
    } else if (fx == 1 && fy == 1) || (fx == 3 && fy == 1) || (fx == 1 && fy == 3) {
        (fx, fy)
    } else {
        (3, 3)
    }
}

/// A sample depends on nothing but its own neighbourhood: two planes that
/// agree on it, up to a translation, predict the same sample.
pub proof fn lemma_qpel_is_local(
    p: spec_fn(int, int) -> u8,
    q: spec_fn(int, int) -> u8,
    px: int,
    py: int,
    qx: int,
    qy: int,
    fx: int,
    fy: int,
)
    requires
        forall|a: int, b: int|
            -2 <= a <= 3 && -2 <= b <= 3 ==> #[trigger] p(px + a, py + b) == q(qx + a, qy + b),
    ensures
        qpel(p, px, py, fx, fy) == qpel(q, qx, qy, fx, fy),
{
    reveal(half_h);
    reveal(half_v);
    reveal(half_hv);
    assert forall|a: int, b: int|
        -2 <= a <= 3 && -2 <= b <= 3 implies #[trigger] p(px + a, py + b) == q(qx + a, qy + b) by {}
    assert forall|b: int| -2 <= b <= 3 implies #[trigger] raw_h(p, px, py + b) == raw_h(
        q,
        qx,
        qy + b,
    ) by {
        assert(p(px + -2, py + b) == q(qx + -2, qy + b));
        assert(p(px + -1, py + b) == q(qx + -1, qy + b));
        assert(p(px + 0, py + b) == q(qx + 0, qy + b));
        assert(p(px + 1, py + b) == q(qx + 1, qy + b));
        assert(p(px + 2, py + b) == q(qx + 2, qy + b));
        assert(p(px + 3, py + b) == q(qx + 3, qy + b));
    }
    assert forall|a: int| -2 <= a <= 3 implies #[trigger] raw_v(p, px + a, py) == raw_v(
        q,
        qx + a,
        qy,
    ) by {
        assert(p(px + a, py + -2) == q(qx + a, qy + -2));
        assert(p(px + a, py + -1) == q(qx + a, qy + -1));
        assert(p(px + a, py + 0) == q(qx + a, qy + 0));
        assert(p(px + a, py + 1) == q(qx + a, qy + 1));
        assert(p(px + a, py + 2) == q(qx + a, qy + 2));
        assert(p(px + a, py + 3) == q(qx + a, qy + 3));
    }
    assert(raw_h(p, px, py + -2) == raw_h(q, qx, qy + -2));
    assert(raw_h(p, px, py + -1) == raw_h(q, qx, qy + -1));
    assert(raw_h(p, px, py + 0) == raw_h(q, qx, qy + 0));
    assert(raw_h(p, px, py + 1) == raw_h(q, qx, qy + 1));
    assert(raw_h(p, px, py + 2) == raw_h(q, qx, qy + 2));
    assert(raw_h(p, px, py + 3) == raw_h(q, qx, qy + 3));
    assert(raw_v(p, px + 0, py) == raw_v(q, qx + 0, qy));
    assert(raw_v(p, px + 1, py) == raw_v(q, qx + 1, qy));
    assert(p(px + 0, py + 0) == q(qx + 0, qy + 0));
    assert(p(px + 1, py + 0) == q(qx + 1, qy + 0));
    assert(p(px + 0, py + 1) == q(qx + 0, qy + 1));
}

fn blend_pixel(
    window: &[[u8; 21]; 21],
    h_plane: &[[u8; 16]; 17],
    v_plane: &[[u8; 17]; 16],
    j_plane: &[[u8; 16]; 16],
    r: usize,
    c: usize,
    frac_x: u32,
    frac_y: u32,
) -> (v: u8)
    requires
        r < 16,
        c < 16,
        frac_x != 0 && frac_y != 2 ==> h_plane[r as int][c as int] == half_h(
            window_plane(*window),
            c as int,
            r as int,
        ) && h_plane[r + 1][c as int] == half_h(window_plane(*window), c as int, r + 1),
        frac_y != 0 && frac_x != 2 ==> v_plane[r as int][c as int] == half_v(
            window_plane(*window),
            c as int,
            r as int,
        ) && v_plane[r as int][c + 1] == half_v(window_plane(*window), c + 1, r as int),
        (frac_x == 2 && frac_y != 0) || (frac_y == 2 && frac_x != 0)
            ==> j_plane[r as int][c as int] == half_hv(
            window_plane(*window),
            c as int,
            r as int,
        ),
    ensures
        v == qpel(
            window_plane(*window),
            c as int,
            r as int,
            partition_fraction(frac_x as int, frac_y as int).0,
            partition_fraction(frac_x as int, frac_y as int).1,
        ),
{
    let full: i32 = window[r + 2][c + 2] as i32;
    if frac_x == 0 && frac_y == 0 {
        clip_u8(full)
    } else if frac_y == 0 {
        let h0: i32 = h_plane[r][c] as i32;
        if frac_x == 2 {
            clip_u8(h0)
        } else if frac_x == 1 {
            clip_u8(avg(full, h0))
        } else {
            clip_u8(avg(h0, window[r + 2][c + 3] as i32))
        }
    } else if frac_x == 0 {
        let v0: i32 = v_plane[r][c] as i32;
        if frac_y == 2 {
            clip_u8(v0)
        } else if frac_y == 1 {
            clip_u8(avg(full, v0))
        } else {
            clip_u8(avg(v0, window[r + 3][c + 2] as i32))
        }
    } else if frac_x == 2 {
        let jj: i32 = j_plane[r][c] as i32;
        if frac_y == 2 {
            clip_u8(jj)
        } else if frac_y == 1 {
            clip_u8(avg(h_plane[r][c] as i32, jj))
        } else {
            clip_u8(avg(jj, h_plane[r + 1][c] as i32))
        }
    } else if frac_y == 2 {
        let jj: i32 = j_plane[r][c] as i32;
        if frac_x == 1 {
            clip_u8(avg(v_plane[r][c] as i32, jj))
        } else {
            clip_u8(avg(jj, v_plane[r][c + 1] as i32))
        }
    } else {
        let h0: i32 = h_plane[r][c] as i32;
        let h1: i32 = h_plane[r + 1][c] as i32;
        let v0: i32 = v_plane[r][c] as i32;
        let v1: i32 = v_plane[r][c + 1] as i32;
        if frac_x == 1 && frac_y == 1 {
            clip_u8(avg(h0, v0))
        } else if frac_x == 3 && frac_y == 1 {
            clip_u8(avg(h0, v1))
        } else if frac_x == 1 && frac_y == 3 {
            clip_u8(avg(v0, h1))
        } else {
            clip_u8(avg(v1, h1))
        }
    }
}

/// The number of rows or columns of a partition that are predicted: no
/// partition is larger than one macroblock.
pub open spec fn partition_extent(n: int) -> int {
    if n > 16 {
        16
    } else {
        n
    }
}

/// Predicts a whole partition from one gathered window: every sample of the
/// window is read once, and nothing else. Only the half-sample planes that the
/// fraction needs are filled. Cells of `out` beyond the partition are left as
/// they were.
pub fn luma_qpel_partition_with<F: Fn(i32, i32) -> u8>(
    reader: &mut SampleReader<F>,
    x: i32,
    y: i32,
    w: usize,
    h: usize,
    frac_x: u32,
    frac_y: u32,
    out: &mut [[u8; 16]; 16],
)
    requires
        w > 0 && h > 0 ==> {
            &&& readable(
                old(reader).source(),
                x - 2,
                x + partition_extent(w as int) + 2,
                y - 2,
                y + partition_extent(h as int) + 2,
            )
            &&& x + partition_extent(w as int) + 4 <= i32::MAX
            &&& y + partition_extent(h as int) + 4 <= i32::MAX
        },
    ensures
        final(reader).source() == old(reader).source(),
        final(reader).reads() == old(reader).reads() + window_positions(
            x as int,
            y as int,
            partition_extent(w as int),
            partition_extent(h as int),
        ),
        forall|p: spec_fn(int, int) -> u8, r: int, c: int|
            #![trigger fetches(old(reader).source(), p), final(out)[r][c]]
            fetches(old(reader).source(), p) && 0 <= r < h && 0 <= c < w && r < 16 && c < 16 ==> final(out)[r][c]
                == qpel(
                p,
                x + c,
                y + r,
                partition_fraction(frac_x as int, frac_y as int).0,
                partition_fraction(frac_x as int, frac_y as int).1,
            ),
        forall|r: int, c: int|
            0 <= r < 16 && 0 <= c < 16 && (r >= h || c >= w) ==> #[trigger] final(out)[r][c]
                == old(out)[r][c],
{
    let w: usize = if w > 16 {
        16
    } else {
        w
    };
    let h: usize = if h > 16 {
        16
    } else {
        h
    };
    if w == 0 || h == 0 {
        assert(reader.reads() =~= old(reader).reads() + window_positions(
            x as int,
            y as int,
            w as int,
            h as int,
        ));
        return ;
    }
    let window = gather_window(reader, x, y, w, h);
    let need_h: bool = frac_x != 0 && frac_y != 2;
    let need_v: bool = frac_y != 0 && frac_x != 2;
    let need_j: bool = (frac_x == 2 && frac_y != 0) || (frac_y == 2 && frac_x != 0);
    let mut sums = [[0i32; 16]; 21];
    let mut h_plane = [[0u8; 16]; 17];
    let mut v_plane = [[0u8; 17]; 16];
    let mut j_plane = [[0u8; 16]; 16];
    let ghost wp = window_plane(window);
    if need_h || need_j {
        fill_raw_h(&window, w, h, &mut sums);
        assert forall|r: int, c: int| 0 <= r < h + 5 && 0 <= c < w implies -2550
            <= #[trigger] sums[r][c] <= 10710 by {
            assert(sums[r][c] == raw_h(wp, c, r - 2));
        }
    }
    if need_h {
        fill_h_plane(&sums, w, h, &mut h_plane);
        assert forall|r: int, c: int| 0 <= r <= h && 0 <= c < w implies #[trigger] h_plane[r][c]
            == half_h(wp, c, r) by {
            reveal(half_h);
            assert(sums[r + 2][c] == raw_h(wp, c, r));
        }
    }
    if need_v {
        fill_v_plane(&window, w, h, &mut v_plane);
    }
    if need_j {
        fill_j_plane(&sums, w, h, &mut j_plane);
        assert forall|r: int, c: int| 0 <= r < h && 0 <= c < w implies #[trigger] j_plane[r][c]
            == half_hv(wp, c, r) by {
            reveal(half_hv);
            assert(sums[r][c] == raw_h(wp, c, r - 2));
            assert(sums[r + 1][c] == raw_h(wp, c, r - 1));
            assert(sums[r + 2][c] == raw_h(wp, c, r));
            assert(sums[r + 3][c] == raw_h(wp, c, r + 1));
            assert(sums[r + 4][c] == raw_h(wp, c, r + 2));
            assert(sums[r + 5][c] == raw_h(wp, c, r + 3));
        }
    }
    let ghost (nx, ny) = partition_fraction(frac_x as int, frac_y as int);
    let ghost before = *out;
    for r in 0..h
        invariant
            w <= 16,
            h <= 16,
            wp == window_plane(window),
            (nx, ny) == partition_fraction(frac_x as int, frac_y as int),
            frac_x != 0 && frac_y != 2 ==> forall|r: int, c: int|
                0 <= r <= h && 0 <= c < w ==> #[trigger] h_plane[r][c] == half_h(wp, c, r),
            frac_y != 0 && frac_x != 2 ==> forall|r: int, c: int|
                0 <= r < h && 0 <= c <= w ==> #[trigger] v_plane[r][c] == half_v(wp, c, r),
            (frac_x == 2 && frac_y != 0) || (frac_y == 2 && frac_x != 0) ==> forall|r: int, c: int|
                0 <= r < h && 0 <= c < w ==> #[trigger] j_plane[r][c] == half_hv(wp, c, r),
            forall|rr: int, c: int|
                0 <= rr < 16 && 0 <= c < 16 ==> #[trigger] out[rr][c] == (if rr < r && c < w {
                    qpel(wp, c, rr, nx, ny)
                } else {
                    before[rr][c] as int
                }),
    {
        for c in 0..w
            invariant
                w <= 16,
                h <= 16,
                r < h,
                wp == window_plane(window),
                (nx, ny) == partition_fraction(frac_x as int, frac_y as int),
                frac_x != 0 && frac_y != 2 ==> forall|r: int, c: int|
                    0 <= r <= h && 0 <= c < w ==> #[trigger] h_plane[r][c] == half_h(wp, c, r),
                frac_y != 0 && frac_x != 2 ==> forall|r: int, c: int|
                    0 <= r < h && 0 <= c <= w ==> #[trigger] v_plane[r][c] == half_v(wp, c, r),
                (frac_x == 2 && frac_y != 0) || (frac_y == 2 && frac_x != 0) ==> forall|
                    r: int,
                    c: int,
                |
                    0 <= r < h && 0 <= c < w ==> #[trigger] j_plane[r][c] == half_hv(wp, c, r),
                forall|rr: int, cc: int|
                    0 <= rr < 16 && 0 <= cc < 16 ==> #[trigger] out[rr][cc] == (if (rr < r && cc
                        < w) || (rr == r && cc < c) {
                        qpel(wp, cc, rr, nx, ny)
                    } else {
                        before[rr][cc] as int
                    }),
        {
            let v: u8 = blend_pixel(
                &window,
                &h_plane,
                &v_plane,
                &j_plane,
                r,
                c,
                frac_x,
                frac_y,
            );
            out[r][c] = v;
        }
    }
    proof {
        assert forall|p: spec_fn(int, int) -> u8, r: int, c: int|
            #![trigger fetches(old(reader).source(), p), out[r][c]]
            fetches(old(reader).source(), p) && 0 <= r < h && 0 <= c < w implies out[r][c] == qpel(
            p,
            x + c,
            y + r,
            nx,
            ny,
        ) by {
            assert(out[r][c] == qpel(wp, c, r, nx, ny));
            assert forall|a: int, b: int| -2 <= a <= 3 && -2 <= b <= 3 implies #[trigger] p(
                x + c + a,
                y + r + b,
            ) == wp(c + a, r + b) by {
                assert(window[r + b + 2][c + a + 2] == p(x + (c + a + 2) - 2, y + (r + b + 2) - 2));
            }
            lemma_qpel_is_local(p, wp, x + c, y + r, c, r, nx, ny);
        }
    }
}

/// Predicts a whole partition from the samples that a function gives.
pub fn luma_qpel_partition<F: Fn(i32, i32) -> u8>(
    fetch: F,
    x: i32,
    y: i32,
    w: usize,
    h: usize,
    frac_x: u32,
    frac_y: u32,
    out: &mut [[u8; 16]; 16],
)
    requires
        w > 0 && h > 0 ==> {
            &&& readable(
                fetch,
                x - 2,
                x + partition_extent(w as int) + 2,
                y - 2,
                y + partition_extent(h as int) + 2,
            )
            &&& x + partition_extent(w as int) + 4 <= i32::MAX
            &&& y + partition_extent(h as int) + 4 <= i32::MAX
        },
    ensures
        forall|p: spec_fn(int, int) -> u8, r: int, c: int|
            #![trigger fetches(fetch, p), final(out)[r][c]]
            fetches(fetch, p) && 0 <= r < h && 0 <= c < w && r < 16 && c < 16 ==> final(out)[r][c]
                == qpel(
                p,
                x + c,
                y + r,
                partition_fraction(frac_x as int, frac_y as int).0,
                partition_fraction(frac_x as int, frac_y as int).1,
            ),
        forall|r: int, c: int|
            0 <= r < 16 && 0 <= c < 16 && (r >= h || c >= w) ==> #[trigger] final(out)[r][c]
                == old(out)[r][c],
{
    let mut reader: SampleReader<F> = SampleReader::new(fetch);
    luma_qpel_partition_with(&mut reader, x, y, w, h, frac_x, frac_y, out);
}

/// The bilinear blend of four samples at eighth-sample weights.
pub open spec fn bilinear(a: int, b: int, c: int, d: int, fx: int, fy: int) -> int {
    ((8 - fx) * (8 - fy) * a + fx * (8 - fy) * b + (8 - fx) * fy * c + fx * fy * d + 32) / 64
}

/// The predicted chroma sample at `(x, y)` displaced by `(mv_x, mv_y)` eighth
/// samples.
pub open spec fn chroma_mc(p: spec_fn(int, int) -> u8, x: int, y: int, mv_x: int, mv_y: int) -> int {
    let ax = x + mv_x / 8;
    let ay = y + mv_y / 8;
    bilinear(
        p(ax, ay) as int,
        p(ax + 1, ay) as int,
        p(ax, ay + 1) as int,
        p(ax + 1, ay + 1) as int,
        mv_x % 8,
        mv_y % 8,
    )
}

fn blend_bilinear(a: u8, b: u8, c: u8, d: u8, fx: i32, fy: i32) -> (r: u8)
    requires
        0 <= fx < 8,
        0 <= fy < 8,
    ensures
        r == bilinear(a as int, b as int, c as int, d as int, fx as int, fy as int),
{
    let ghost (wa, wb, wc, wd) = (
        (8 - fx) * (8 - fy),
        fx * (8 - fy),
        (8 - fx) * fy,
        fx * fy,
    );
    assert(wa >= 0 && wb >= 0 && wc >= 0 && wd >= 0 && wa + wb + wc + wd == 64) by (nonlinear_arith)
        requires
            0 <= fx < 8,
            0 <= fy < 8,
            wa == (8 - fx) * (8 - fy),
            wb == fx * (8 - fy),
            wc == (8 - fx) * fy,
            wd == fx * fy,
    ;
    assert(0 <= wa * a <= wa * 255) by (nonlinear_arith)
        requires
            wa >= 0,
            0 <= a <= 255,
    ;
    assert(0 <= wb * b <= wb * 255) by (nonlinear_arith)
        requires
            wb >= 0,
            0 <= b <= 255,
    ;
    assert(0 <= wc * c <= wc * 255) by (nonlinear_arith)
        requires
            wc >= 0,
            0 <= c <= 255,
    ;
    assert(0 <= wd * d <= wd * 255) by (nonlinear_arith)
        requires
            wd >= 0,
            0 <= d <= 255,
    ;
    let sum: i32 = (8 - fx) * (8 - fy) * a as i32 + fx * (8 - fy) * b as i32 + (8 - fx) * fy
        * c as i32 + fx * fy * d as i32;
    proof {
        lemma_shift_i32((sum + 32) as i32);
    }
    clip_u8((sum + 32) >> 6)
}

/// One predicted chroma sample. The displacement floors towards negative
/// infinity, so its fraction is always `0..8`.
pub fn chroma_mc_sample<F: Fn(i32, i32) -> u8>(
    fetch: F,
    x: i32,
    y: i32,
    mv_x: i32,
    mv_y: i32,
) -> (r: u8)
    requires
        readable(
            fetch,
            x + mv_x as int / 8,
            x + mv_x as int / 8 + 1,
            y + mv_y as int / 8,
            y + mv_y as int / 8 + 1,
        ),
    ensures
        forall|p: spec_fn(int, int) -> u8| #[trigger]
            fetches(fetch, p) ==> r == chroma_mc(p, x as int, y as int, mv_x as int, mv_y as int),
{
    proof {
        lemma_shift_i32(mv_x);
        lemma_shift_i32(mv_y);
    }
    let int_x: i32 = mv_x >> 3;
    let frac_x: i32 = mv_x & 7;
    let int_y: i32 = mv_y >> 3;
    let frac_y: i32 = mv_y & 7;
    let ax: i32 = x + int_x;
    let ay: i32 = y + int_y;
    let a: u8 = fetch(ax, ay);
    let b: u8 = fetch(ax + 1, ay);
    let c: u8 = fetch(ax, ay + 1);
    let d: u8 = fetch(ax + 1, ay + 1);
    blend_bilinear(a, b, c, d, frac_x, frac_y)
}

/// One gathered two-by-two chroma request: the three-by-three source window
/// and the eighth-sample fraction shared by its four samples.
#[derive(Clone, Copy)]
pub struct ChromaJob {
    pub src: [[u8; 3]; 3],
    pub frac_x: u8,
    pub frac_y: u8,
}

/// Gathers a two-by-two chroma request, reading each source sample once.
pub fn chroma_mc_job<F: Fn(i32, i32) -> u8>(
    fetch: F,
    x: i32,
    y: i32,
    mv_x: i32,
    mv_y: i32,
) -> (job: ChromaJob)
    requires
        readable(
            fetch,
            x + mv_x as int / 8,
            x + mv_x as int / 8 + 2,
            y + mv_y as int / 8,
            y + mv_y as int / 8 + 2,
        ),
    ensures
        job.frac_x == mv_x as int % 8,
        job.frac_y == mv_y as int % 8,
        forall|p: spec_fn(int, int) -> u8, dy: int, dx: int|
            #![trigger fetches(fetch, p), job.src[dy][dx]]
            fetches(fetch, p) && 0 <= dy < 3 && 0 <= dx < 3 ==> job.src[dy][dx] == p(
                x + mv_x as int / 8 + dx,
                y + mv_y as int / 8 + dy,
            ),
{
    proof {
        lemma_shift_i32(mv_x);
        lemma_shift_i32(mv_y);
    }
    let ax: i32 = x + (mv_x >> 3);
    let ay: i32 = y + (mv_y >> 3);
    let src = [
        [fetch(ax, ay), fetch(ax + 1, ay), fetch(ax + 2, ay)],
        [fetch(ax, ay + 1), fetch(ax + 1, ay + 1), fetch(ax + 2, ay + 1)],
        [fetch(ax, ay + 2), fetch(ax + 1, ay + 2), fetch(ax + 2, ay + 2)],
    ];
    ChromaJob { src, frac_x: (mv_x & 7) as u8, frac_y: (mv_y & 7) as u8 }
}

/// The four chroma samples of a gathered request.
pub fn chroma_job_samples(job: &ChromaJob) -> (out: [[u8; 2]; 2])
    requires
        job.frac_x < 8,
        job.frac_y < 8,
    ensures
        forall|dy: int, dx: int|
            0 <= dy < 2 && 0 <= dx < 2 ==> #[trigger] out[dy][dx] == bilinear(
                job.src[dy][dx] as int,
                job.src[dy][dx + 1] as int,
                job.src[dy + 1][dx] as int,
                job.src[dy + 1][dx + 1] as int,
                job.frac_x as int,
                job.frac_y as int,
            ),
{
    let s = &job.src;
    let (fx, fy) = (job.frac_x as i32, job.frac_y as i32);
    [
        [
            blend_bilinear(s[0][0], s[0][1], s[1][0], s[1][1], fx, fy),
            blend_bilinear(s[0][1], s[0][2], s[1][1], s[1][2], fx, fy),
        ],
        [
            blend_bilinear(s[1][0], s[1][1], s[2][0], s[2][1], fx, fy),
            blend_bilinear(s[1][1], s[1][2], s[2][1], s[2][2], fx, fy),
        ],
    ]
}

/// The four chroma samples covered by one luma four-by-four block.
pub fn chroma_mc_2x2<F: Fn(i32, i32) -> u8>(
    fetch: F,
    x: i32,
    y: i32,
    mv_x: i32,
    mv_y: i32,
) -> (out: [[u8; 2]; 2])
    requires
        readable(
            fetch,
            x + mv_x as int / 8,
            x + mv_x as int / 8 + 2,
            y + mv_y as int / 8,
            y + mv_y as int / 8 + 2,
        ),
    ensures
        forall|p: spec_fn(int, int) -> u8, dy: int, dx: int|
            #![trigger fetches(fetch, p), out[dy][dx]]
            fetches(fetch, p) && 0 <= dy < 2 && 0 <= dx < 2 ==> out[dy][dx] == chroma_mc(
                p,
                x + dx,
                y + dy,
                mv_x as int,
                mv_y as int,
            ),
{
    let job = chroma_mc_job(&fetch, x, y, mv_x, mv_y);
    let out = chroma_job_samples(&job);
    proof {
        assert forall|p: spec_fn(int, int) -> u8, dy: int, dx: int|
            #![trigger fetches(fetch, p), out[dy][dx]]
            fetches(fetch, p) && 0 <= dy < 2 && 0 <= dx < 2 implies out[dy][dx] == chroma_mc(
            p,
            x + dx,
            y + dy,
            mv_x as int,
            mv_y as int,
        ) by {
            assert(fetches(&fetch, p));
            let (ax, ay) = (x + mv_x as int / 8, y + mv_y as int / 8);
            assert(job.src[dy][dx] == p(ax + dx, ay + dy));
            assert(job.src[dy][dx + 1] == p(ax + (dx + 1), ay + dy));
            assert(job.src[dy + 1][dx] == p(ax + dx, ay + (dy + 1)));
            assert(job.src[dy + 1][dx + 1] == p(ax + (dx + 1), ay + (dy + 1)));
        }
    }
    out
}

/// A flat plane interpolates to itself at every luma and chroma position.
pub proof fn law_flat_plane_is_fixed(
    p: spec_fn(int, int) -> u8,
    v: u8,
    x: int,
    y: int,
    fx: int,
    fy: int,
    mv_x: int,
    mv_y: int,
)
    requires
        forall|a: int, b: int| #[trigger] p(a, b) == v,
    ensures
        qpel(p, x, y, fx, fy) == v,
        chroma_mc(p, x, y, mv_x, mv_y) == v,
{
    reveal(half_h);
    reveal(half_v);
    reveal(half_hv);
    assert(raw_h(p, x, y) == 32 * v && raw_h(p, x, y + 1) == 32 * v);
    assert(raw_v(p, x, y) == 32 * v && raw_v(p, x + 1, y) == 32 * v);
    assert(raw_hv(p, x, y) == 1024 * v);
    let (cx, cy) = (mv_x % 8, mv_y % 8);
    assert((8 - cx) * (8 - cy) * v + cx * (8 - cy) * v + (8 - cx) * cy * v + cx * cy * v == 64 * v)
        by (nonlinear_arith);
}

/// A motion vector without a fractional part predicts by copying: luma at a
/// full position, chroma at a multiple of eight.
pub proof fn law_full_position_is_a_copy(
    p: spec_fn(int, int) -> u8,
    x: int,
    y: int,
    dx: int,
    dy: int,
)
    ensures
        qpel(p, x, y, 0, 0) == p(x, y),
        chroma_mc(p, x, y, 8 * dx, 8 * dy) == p(x + dx, y + dy),
{
    assert((8 * dx) / 8 == dx && (8 * dx) % 8 == 0 && (8 * dy) / 8 == dy && (8 * dy) % 8 == 0);
    let (a, b, c, d) = (
        p(x + dx, y + dy) as int,
        p(x + dx + 1, y + dy) as int,
        p(x + dx, y + dy + 1) as int,
        p(x + dx + 1, y + dy + 1) as int,
    );
    assert((8 - 0) * (8 - 0) * a + 0 * (8 - 0) * b + (8 - 0) * 0 * c + 0 * 0 * d == 64 * a)
        by (nonlinear_arith);
    assert(bilinear(a, b, c, d, 0, 0) == a);
}

/// Every interpolated value is an 8-bit sample.
pub proof fn law_interpolation_stays_in_range(
    p: spec_fn(int, int) -> u8,
    x: int,
    y: int,
    fx: int,
    fy: int,
    mv_x: int,
    mv_y: int,
)
    ensures
        0 <= qpel(p, x, y, fx, fy) <= 255,
        0 <= chroma_mc(p, x, y, mv_x, mv_y) <= 255,
{
    reveal(half_h);
    reveal(half_v);
    reveal(half_hv);
    let (cx, cy) = (mv_x % 8, mv_y % 8);
    let (wa, wb, wc, wd) = ((8 - cx) * (8 - cy), cx * (8 - cy), (8 - cx) * cy, cx * cy);
    let (ax, ay) = (x + mv_x / 8, y + mv_y / 8);
    let (a, b, c, d) = (
        p(ax, ay) as int,
        p(ax + 1, ay) as int,
        p(ax, ay + 1) as int,
        p(ax + 1, ay + 1) as int,
    );
    assert(0 <= wa * a + wb * b + wc * c + wd * d <= 64 * 255) by (nonlinear_arith)
        requires
            0 <= cx < 8,
            0 <= cy < 8,
            wa == (8 - cx) * (8 - cy),
            wb == cx * (8 - cy),
            wc == (8 - cx) * cy,
            wd == cx * cy,
            0 <= a <= 255,
            0 <= b <= 255,
            0 <= c <= 255,
            0 <= d <= 255,
    {
        assert(wa >= 0 && wb >= 0 && wc >= 0 && wd >= 0 && wa + wb + wc + wd == 64);
        assert(0 <= wa * a <= wa * 255);
        assert(0 <= wb * b <= wb * 255);
        assert(0 <= wc * c <= wc * 255);
        assert(0 <= wd * d <= wd * 255);
    }
}

/// A partition is predicted sample by sample from its window alone, two samples
/// in front of it and three behind in each direction: at a proper fraction its
/// samples are those at their own positions, and planes that agree on the window
/// predict the same partition.
pub proof fn law_partition_needs_only_its_window(
    p: spec_fn(int, int) -> u8,
    q: spec_fn(int, int) -> u8,
    x: int,
    y: int,
    w: int,
    h: int,
    fx: int,
    fy: int,
    ox: int,
    oy: int,
)
    requires
        forall|a: int, b: int|
            x - 2 <= a <= x + w + 2 && y - 2 <= b <= y + h + 2 ==> #[trigger] p(a, b) == q(a, b),
        0 <= fx < 4,
        0 <= fy < 4,
        0 <= ox < w,
        0 <= oy < h,
    ensures
        partition_fraction(fx, fy) == (fx, fy),
        qpel(p, x + ox, y + oy, fx, fy) == qpel(q, x + ox, y + oy, fx, fy),
{
    lemma_qpel_is_local(p, q, x + ox, y + oy, x + ox, y + oy, fx, fy);
}

} // verus!
