//! Where the deblocking filter works: which samples make up a line, and by whose
//! strength and thresholds each line is filtered.
use vstd::prelude::*;
use crate::deblock::{
    across, chroma_lines_from, edge_fits, line_at, line_x, line_y, luma_lines_from, sample,
    strength, with_across, with_line, with_sample, Deblock,
};
use crate::dequant::chroma_qp_spec;
use crate::edge_filter::{chroma_line, luma_line, thresholds, EdgeThresholds, Line};
use crate::grids::{lemma_cell_bound, lemma_cell_injective};
use crate::slice::Summary;

verus! {

/// The sample `i` behind position `(x, y)`, to the right across a vertical edge and
/// downwards across a horizontal one.
pub open spec fn behind(plane: Seq<u8>, w: int, vertical: bool, x: int, y: int, i: int) -> u8 {
    if vertical {
        plane[y * w + (x + i)]
    } else {
        plane[(y + i) * w + x]
    }
}

/// The samples across an edge, of which the first behind it is at `(x, y)`.
pub open spec fn line_through(plane: Seq<u8>, w: int, vertical: bool, x: int, y: int) -> Line {
    Line {
        p0: behind(plane, w, vertical, x, y, -1),
        p1: behind(plane, w, vertical, x, y, -2),
        p2: behind(plane, w, vertical, x, y, -3),
        p3: behind(plane, w, vertical, x, y, -4),
        q0: behind(plane, w, vertical, x, y, 0),
        q1: behind(plane, w, vertical, x, y, 1),
        q2: behind(plane, w, vertical, x, y, 2),
        q3: behind(plane, w, vertical, x, y, 3),
    }
}

/// The number, row by row, of the block of its macroblock that a luma sample
/// belongs to.
pub open spec fn block_of(x: int, y: int) -> int {
    4 * ((y % 16) / 4) + (x % 16) / 4
}

/// The macroblock that a luma sample belongs to.
pub open spec fn owner(d: Deblock, x: int, y: int) -> Summary {
    d.at(x / 16, y / 16)->0
}

/// The strength between the blocks of two luma samples, across an edge of a
/// macroblock where they belong to different ones.
pub open spec fn strength_between(d: Deblock, px: int, py: int, qx: int, qy: int) -> int {
    strength(
        (px / 16, py / 16) != (qx / 16, qy / 16),
        owner(d, px, py),
        block_of(px, py),
        owner(d, qx, qy),
        block_of(qx, qy),
        d.l0,
        d.l1,
    ) as int
}

proof fn lemma_write(plane: Seq<u8>, w: int, h: int, x: int, y: int, v: u8)
    requires
        plane.len() == w * h,
        0 <= x < w,
        0 <= y < h,
    ensures
        with_sample(plane, w, x, y, v).len() == plane.len(),
        forall|x2: int, y2: int|
            0 <= x2 < w && 0 <= y2 < h ==> #[trigger] sample(
                with_sample(plane, w, x, y, v),
                w,
                x2,
                y2,
            ) == (if x2 == x && y2 == y {
                v
            } else {
                sample(plane, w, x2, y2)
            }),
{
    lemma_cell_bound(x, y, w, h);
    assert forall|x2: int, y2: int| 0 <= x2 < w && 0 <= y2 < h implies #[trigger] sample(
        with_sample(plane, w, x, y, v),
        w,
        x2,
        y2,
    ) == (if x2 == x && y2 == y {
        v
    } else {
        sample(plane, w, x2, y2)
    }) by {
        lemma_cell_bound(x2, y2, w, h);
        if y2 * w + x2 == y * w + x {
            lemma_cell_injective(x2, y2, x, y, w);
        }
    }
}

spec fn nth(l: Line, i: int) -> u8 {
    if i == -1 {
        l.p0
    } else if i == -2 {
        l.p1
    } else if i == -3 {
        l.p2
    } else if i == -4 {
        l.p3
    } else if i == 0 {
        l.q0
    } else if i == 1 {
        l.q1
    } else if i == 2 {
        l.q2
    } else {
        l.q3
    }
}

proof fn lemma_with_line(
    plane: Seq<u8>,
    w: int,
    h: int,
    vertical: bool,
    x: int,
    y: int,
    k: int,
    l: Line,
)
    requires
        plane.len() == w * h,
        edge_fits(w, h, vertical, x, y, 16, 4, 4),
        0 <= k < 16,
        l.p3 == across(plane, w, vertical, x, y, k, -4),
        l.q3 == across(plane, w, vertical, x, y, k, 3),
    ensures
        with_line(plane, w, vertical, x, y, k, l).len() == plane.len(),
        forall|k2: int, i: int|
            0 <= k2 < 16 && -4 <= i < 4 ==> #[trigger] across(
                with_line(plane, w, vertical, x, y, k, l),
                w,
                vertical,
                x,
                y,
                k2,
                i,
            ) == (if k2 == k {
                nth(l, i)
            } else {
                across(plane, w, vertical, x, y, k2, i)
            }),
{
    let a = with_across(plane, w, vertical, x, y, k, -1, l.p0);
    lemma_write(plane, w, h, line_x(vertical, x, k, -1), line_y(vertical, y, k, -1), l.p0);
    let b = with_across(a, w, vertical, x, y, k, -2, l.p1);
    lemma_write(a, w, h, line_x(vertical, x, k, -2), line_y(vertical, y, k, -2), l.p1);
    let c = with_across(b, w, vertical, x, y, k, -3, l.p2);
    lemma_write(b, w, h, line_x(vertical, x, k, -3), line_y(vertical, y, k, -3), l.p2);
    let d = with_across(c, w, vertical, x, y, k, 0, l.q0);
    lemma_write(c, w, h, line_x(vertical, x, k, 0), line_y(vertical, y, k, 0), l.q0);
    let e = with_across(d, w, vertical, x, y, k, 1, l.q1);
    lemma_write(d, w, h, line_x(vertical, x, k, 1), line_y(vertical, y, k, 1), l.q1);
    lemma_write(e, w, h, line_x(vertical, x, k, 2), line_y(vertical, y, k, 2), l.q2);
}

proof fn lemma_luma_lines(
    plane: Seq<u8>,
    w: int,
    h: int,
    vertical: bool,
    x: int,
    y: int,
    bs: Seq<u8>,
    t: EdgeThresholds,
    from: int,
)
    requires
        plane.len() == w * h,
        edge_fits(w, h, vertical, x, y, 16, 4, 4),
        0 <= from <= 16,
    ensures
        luma_lines_from(plane, w, vertical, x, y, bs, t, from).len() == plane.len(),
        forall|k: int|
            0 <= k < 16 ==> #[trigger] line_at(
                luma_lines_from(plane, w, vertical, x, y, bs, t, from),
                w,
                vertical,
                x,
                y,
                k,
            ) == (if k < from {
                line_at(plane, w, vertical, x, y, k)
            } else {
                luma_line(line_at(plane, w, vertical, x, y, k), bs[k / 4] as int, t)
            }),
    decreases 16 - from,
{
    if from < 16 {
        let l0 = line_at(plane, w, vertical, x, y, from);
        let l = luma_line(l0, bs[from / 4] as int, t);
        assert(l.p3 == l0.p3 && l.q3 == l0.q3) by {
            reveal(luma_line);
        }
        let next = with_line(plane, w, vertical, x, y, from, l);
        lemma_with_line(plane, w, h, vertical, x, y, from, l);
        lemma_luma_lines(next, w, h, vertical, x, y, bs, t, from + 1);
        assert forall|k: int| 0 <= k < 16 implies #[trigger] line_at(
            next,
            w,
            vertical,
            x,
            y,
            k,
        ) == (if k == from {
            l
        } else {
            line_at(plane, w, vertical, x, y, k)
        }) by {
            assert(across(next, w, vertical, x, y, k, -1) == (if k == from {
                l.p0
            } else {
                across(plane, w, vertical, x, y, k, -1)
            }));
        }
    }
}

proof fn lemma_line_through(plane: Seq<u8>, w: int, h: int, vertical: bool, x: int, y: int, k: int)
    requires
        plane.len() == w * h,
        edge_fits(w, h, vertical, x, y, 16, 4, 4),
        0 <= k < 16,
    ensures
        line_at(plane, w, vertical, x, y, k) == line_through(
            plane,
            w,
            vertical,
            line_x(vertical, x, k, 0),
            line_y(vertical, y, k, 0),
        ),
{
    assert forall|i: int| -4 <= i < 4 implies #[trigger] across(plane, w, vertical, x, y, k, i)
        == behind(
        plane,
        w,
        vertical,
        line_x(vertical, x, k, 0),
        line_y(vertical, y, k, 0),
        i,
    ) by {
        lemma_cell_bound(line_x(vertical, x, k, i), line_y(vertical, y, k, i), w, h);
    }
}

/// The edges of a macroblock: `e` times four samples from its left or upper border.
pub open spec fn edge_exists(d: Deblock, mx: int, my: int, vertical: bool, e: int) -> bool {
    &&& 0 <= mx < d.wide
    &&& 0 <= my < d.high
    &&& 0 <= e < 4
    &&& (16 * d.wide) * (16 * d.high) <= u32::MAX
    &&& d.at(mx, my) is Some
    &&& vertical ==> 16 * mx + 4 * e > 0
    &&& !vertical ==> 16 * my + 4 * e > 0
}

/// Across an edge of a macroblock every line of luma samples is filtered by itself:
/// by the strength between the blocks of the two samples that meet at the edge, and
/// by the thresholds between the quantisers of their macroblocks. The edges in the
/// middle of 8x8 transforms are left alone.
#[verifier::rlimit(40)]
pub proof fn law_luma_lines_are_filtered_one_by_one(
    d: Deblock,
    plane: Seq<u8>,
    mx: int,
    my: int,
    vertical: bool,
    e: int,
    k: int,
)
    requires
        edge_exists(d, mx, my, vertical, e),
        plane.len() == (16 * d.wide) * (16 * d.high),
        0 <= k < 16,
    ensures
        ({
            let after = d.luma_edge(plane, mx, my, vertical, e);
            let (qx, qy) = if vertical {
                (16 * mx + 4 * e, 16 * my + k)
            } else {
                (16 * mx + k, 16 * my + 4 * e)
            };
            let (px, py) = if vertical {
                (qx - 1, qy)
            } else {
                (qx, qy - 1)
            };
            &&& after.len() == plane.len()
            &&& owner(d, qx, qy).transform_8x8 && e % 2 == 1 ==> after == plane
            &&& !(owner(d, qx, qy).transform_8x8 && e % 2 == 1) ==> line_through(
                after,
                16 * d.wide,
                vertical,
                qx,
                qy,
            ) == luma_line(
                line_through(plane, 16 * d.wide, vertical, qx, qy),
                strength_between(d, px, py, qx, qy),
                thresholds(
                    d.qpy(px / 16, py / 16),
                    d.qpy(qx / 16, qy / 16),
                    d.offset_a,
                    d.offset_b,
                ),
            )
        }),
{
    let (w, h) = (16 * d.wide, 16 * d.high);
    let (x, y) = if vertical {
        (16 * mx + 4 * e, 16 * my)
    } else {
        (16 * mx, 16 * my + 4 * e)
    };
    assert(edge_fits(w, h, vertical, x, y, 16, 4, 4));
    let (bx, by) = d.before(mx, my, vertical, e);
    let bs = d.strengths(mx, my, vertical, e);
    let t = thresholds(d.qpy(bx, by), d.qpy(mx, my), d.offset_a, d.offset_b);
    lemma_luma_lines(plane, w, h, vertical, x, y, bs, t, 0);
    let after = d.luma_edge(plane, mx, my, vertical, e);
    lemma_line_through(plane, w, h, vertical, x, y, k);
    let (qx, qy) = (line_x(vertical, x, k, 0), line_y(vertical, y, k, 0));
    let (px, py) = (line_x(vertical, x, k, -1), line_y(vertical, y, k, -1));
    assert(qx / 16 == mx && qy / 16 == my && px / 16 == bx && py / 16 == by);
    if !(owner(d, qx, qy).transform_8x8 && e % 2 == 1) {
        lemma_line_through(after, w, h, vertical, x, y, k);
        if vertical {
            assert(qx % 16 == 4 * e && qy % 16 == k && py % 16 == k);
            assert(px % 16 == (if e == 0 {
                15
            } else {
                4 * e - 1
            }));
        } else {
            assert(qy % 16 == 4 * e && qx % 16 == k && px % 16 == k);
            assert(py % 16 == (if e == 0 {
                15
            } else {
                4 * e - 1
            }));
        }
        assert(bs[k / 4] as int == strength_between(d, px, py, qx, qy));
    }
}

/// Nothing is filtered across the border of the picture.
pub proof fn law_picture_borders_are_kept(d: Deblock, plane: Seq<u8>, m: int, qp_offset: int)
    ensures
        d.luma_edge(plane, 0, m, true, 0) == plane,
        d.luma_edge(plane, m, 0, false, 0) == plane,
        d.chroma_edge(plane, qp_offset, 0, m, true, 0) == plane,
        d.chroma_edge(plane, qp_offset, m, 0, false, 0) == plane,
{
}

/// The edges of a macroblock are filtered in order: in luma the four vertical ones
/// from the left, then the four horizontal ones from the top; in chroma every
/// second of these.
pub proof fn law_edges_are_filtered_in_order(
    d: Deblock,
    plane: Seq<u8>,
    mx: int,
    my: int,
    qp_offset: int,
)
    ensures
        ({
            let a = d.luma_edge(plane, mx, my, true, 0);
            let b = d.luma_edge(a, mx, my, true, 1);
            let c = d.luma_edge(b, mx, my, true, 2);
            let f = d.luma_edge(c, mx, my, true, 3);
            let g = d.luma_edge(f, mx, my, false, 0);
            let h = d.luma_edge(g, mx, my, false, 1);
            let i = d.luma_edge(h, mx, my, false, 2);
            d.luma_edges_from(plane, mx, my, 0) == d.luma_edge(i, mx, my, false, 3)
        }),
        ({
            let a = d.chroma_edge(plane, qp_offset, mx, my, true, 0);
            let b = d.chroma_edge(a, qp_offset, mx, my, true, 2);
            let c = d.chroma_edge(b, qp_offset, mx, my, false, 0);
            d.chroma_edges_from(plane, qp_offset, mx, my, 0) == d.chroma_edge(
                c,
                qp_offset,
                mx,
                my,
                false,
                2,
            )
        }),
{
    reveal_with_fuel(Deblock::luma_edges_from, 9);
    reveal_with_fuel(Deblock::chroma_edges_from, 5);
}

/// The macroblocks of a row are filtered from the left, each completely before the
/// next, and those that were not decoded are left out; the rows from the top.
pub proof fn law_macroblocks_are_filtered_in_order(
    d: Deblock,
    plane: Seq<u8>,
    mx: int,
    my: int,
    qp_offset: int,
)
    requires
        0 <= mx < d.wide,
        0 <= my < d.high,
    ensures
        d.at(mx, my) is Some ==> d.luma_row_from(plane, my, mx) == d.luma_row_from(
            d.luma_edges_from(plane, mx, my, 0),
            my,
            mx + 1,
        ),
        d.at(mx, my) is None ==> d.luma_row_from(plane, my, mx) == d.luma_row_from(
            plane,
            my,
            mx + 1,
        ),
        d.luma_row_from(plane, my, d.wide) == plane,
        d.at(mx, my) is Some ==> d.chroma_row_from(plane, qp_offset, my, mx) == d.chroma_row_from(
            d.chroma_edges_from(plane, qp_offset, mx, my, 0),
            qp_offset,
            my,
            mx + 1,
        ),
        d.at(mx, my) is None ==> d.chroma_row_from(plane, qp_offset, my, mx) == d.chroma_row_from(
            plane,
            qp_offset,
            my,
            mx + 1,
        ),
        d.chroma_row_from(plane, qp_offset, my, d.wide) == plane,
        d.luma_rows_from(plane, my) == d.luma_rows_from(d.luma_row_from(plane, my, 0), my + 1),
        d.luma_rows_from(plane, d.high) == plane,
        d.chroma_rows_from(plane, qp_offset, my) == d.chroma_rows_from(
            d.chroma_row_from(plane, qp_offset, my, 0),
            qp_offset,
            my + 1,
        ),
        d.chroma_rows_from(plane, qp_offset, d.high) == plane,
{
}

// --------------------------------------------------------------------- chroma
proof fn lemma_chroma_lines(
    plane: Seq<u8>,
    w: int,
    h: int,
    vertical: bool,
    x: int,
    y: int,
    bs: Seq<u8>,
    t: EdgeThresholds,
    from: int,
)
    requires
        plane.len() == w * h,
        edge_fits(w, h, vertical, x, y, 8, 2, 2),
        0 <= from <= 8,
    ensures
        chroma_lines_from(plane, w, vertical, x, y, bs, t, from).len() == plane.len(),
        forall|k: int|
            #![trigger across(plane, w, vertical, x, y, k, -1)]
            0 <= k < 8 ==> {
                let after = chroma_lines_from(plane, w, vertical, x, y, bs, t, from);
                let (p0, q0) = chroma_line(
                    across(plane, w, vertical, x, y, k, -1),
                    across(plane, w, vertical, x, y, k, -2),
                    across(plane, w, vertical, x, y, k, 0),
                    across(plane, w, vertical, x, y, k, 1),
                    bs[k / 2] as int,
                    t,
                );
                &&& across(after, w, vertical, x, y, k, -1) == (if k < from {
                    across(plane, w, vertical, x, y, k, -1)
                } else {
                    p0
                })
                &&& across(after, w, vertical, x, y, k, 0) == (if k < from {
                    across(plane, w, vertical, x, y, k, 0)
                } else {
                    q0
                })
                &&& across(after, w, vertical, x, y, k, -2) == across(
                    plane,
                    w,
                    vertical,
                    x,
                    y,
                    k,
                    -2,
                )
                &&& across(after, w, vertical, x, y, k, 1) == across(plane, w, vertical, x, y, k, 1)
            },
    decreases 8 - from,
{
    if from < 8 {
        let (p0, q0) = chroma_line(
            across(plane, w, vertical, x, y, from, -1),
            across(plane, w, vertical, x, y, from, -2),
            across(plane, w, vertical, x, y, from, 0),
            across(plane, w, vertical, x, y, from, 1),
            bs[from / 2] as int,
            t,
        );
        let a = with_across(plane, w, vertical, x, y, from, -1, p0);
        lemma_write(plane, w, h, line_x(vertical, x, from, -1), line_y(vertical, y, from, -1), p0);
        let next = with_across(a, w, vertical, x, y, from, 0, q0);
        lemma_write(a, w, h, line_x(vertical, x, from, 0), line_y(vertical, y, from, 0), q0);
        lemma_chroma_lines(next, w, h, vertical, x, y, bs, t, from + 1);
        assert forall|k: int, i: int| 0 <= k < 8 && -2 <= i < 2 implies #[trigger] across(
            next,
            w,
            vertical,
            x,
            y,
            k,
            i,
        ) == (if k == from && i == -1 {
            p0
        } else if k == from && i == 0 {
            q0
        } else {
            across(plane, w, vertical, x, y, k, i)
        }) by {}
        assert forall|k: int| 0 <= k < 8 implies {
            &&& #[trigger] across(next, w, vertical, x, y, k, -1) == (if k == from {
                p0
            } else {
                across(plane, w, vertical, x, y, k, -1)
            })
            &&& across(next, w, vertical, x, y, k, 0) == (if k == from {
                q0
            } else {
                across(plane, w, vertical, x, y, k, 0)
            })
            &&& across(next, w, vertical, x, y, k, -2) == across(plane, w, vertical, x, y, k, -2)
            &&& across(next, w, vertical, x, y, k, 1) == across(plane, w, vertical, x, y, k, 1)
        } by {}
        let after = chroma_lines_from(plane, w, vertical, x, y, bs, t, from);
        assert(after == chroma_lines_from(next, w, vertical, x, y, bs, t, from + 1));
        assert forall|k: int|
            #![trigger across(plane, w, vertical, x, y, k, -1)]
            0 <= k < 8 implies {
            let (p, q) = chroma_line(
                across(plane, w, vertical, x, y, k, -1),
                across(plane, w, vertical, x, y, k, -2),
                across(plane, w, vertical, x, y, k, 0),
                across(plane, w, vertical, x, y, k, 1),
                bs[k / 2] as int,
                t,
            );
            &&& across(after, w, vertical, x, y, k, -1) == (if k < from {
                across(plane, w, vertical, x, y, k, -1)
            } else {
                p
            })
            &&& across(after, w, vertical, x, y, k, 0) == (if k < from {
                across(plane, w, vertical, x, y, k, 0)
            } else {
                q
            })
            &&& across(after, w, vertical, x, y, k, -2) == across(plane, w, vertical, x, y, k, -2)
            &&& across(after, w, vertical, x, y, k, 1) == across(plane, w, vertical, x, y, k, 1)
        } by {
            assert(across(next, w, vertical, x, y, k, -1) == (if k == from {
                p0
            } else {
                across(plane, w, vertical, x, y, k, -1)
            }));
        }
    }
}

/// Across an edge of a macroblock every line of chroma samples is filtered by
/// itself: by the strength between the blocks of the luma samples at twice the
/// coordinates, and by the thresholds between the chroma quantisers of their
/// macroblocks.
pub proof fn law_chroma_lines_are_filtered_one_by_one(
    d: Deblock,
    plane: Seq<u8>,
    qp_offset: int,
    mx: int,
    my: int,
    vertical: bool,
    e: int,
    k: int,
)
    requires
        edge_exists(d, mx, my, vertical, e),
        e % 2 == 0,
        plane.len() == (8 * d.wide) * (8 * d.high),
        0 <= k < 8,
    ensures
        ({
            let w = 8 * d.wide;
            let after = d.chroma_edge(plane, qp_offset, mx, my, vertical, e);
            let (qx, qy) = if vertical {
                (8 * mx + 2 * e, 8 * my + k)
            } else {
                (8 * mx + k, 8 * my + 2 * e)
            };
            let (px, py) = if vertical {
                (qx - 1, qy)
            } else {
                (qx, qy - 1)
            };
            &&& after.len() == plane.len()
            &&& (
                behind(after, w, vertical, qx, qy, -1),
                behind(after, w, vertical, qx, qy, 0),
            ) == chroma_line(
                behind(plane, w, vertical, qx, qy, -1),
                behind(plane, w, vertical, qx, qy, -2),
                behind(plane, w, vertical, qx, qy, 0),
                behind(plane, w, vertical, qx, qy, 1),
                strength_between(d, 2 * px, 2 * py, 2 * qx, 2 * qy),
                thresholds(
                    chroma_qp_spec(d.qpy(px / 8, py / 8), qp_offset),
                    chroma_qp_spec(d.qpy(qx / 8, qy / 8), qp_offset),
                    d.offset_a,
                    d.offset_b,
                ),
            )
            &&& behind(after, w, vertical, qx, qy, -2) == behind(plane, w, vertical, qx, qy, -2)
            &&& behind(after, w, vertical, qx, qy, 1) == behind(plane, w, vertical, qx, qy, 1)
        }),
{
    let (w, h) = (8 * d.wide, 8 * d.high);
    let (x, y) = if vertical {
        (8 * mx + 2 * e, 8 * my)
    } else {
        (8 * mx, 8 * my + 2 * e)
    };
    assert(w * h <= u32::MAX) by (nonlinear_arith)
        requires
            w == 8 * d.wide,
            h == 8 * d.high,
            (16 * d.wide) * (16 * d.high) <= u32::MAX,
            d.wide >= 0,
            d.high >= 0,
    ;
    assert(edge_fits(w, h, vertical, x, y, 8, 2, 2));
    let (bx, by) = d.before(mx, my, vertical, e);
    let bs = d.strengths(mx, my, vertical, e);
    let t = thresholds(
        d.qpc(bx, by, qp_offset),
        d.qpc(mx, my, qp_offset),
        d.offset_a,
        d.offset_b,
    );
    lemma_chroma_lines(plane, w, h, vertical, x, y, bs, t, 0);
    let after = d.chroma_edge(plane, qp_offset, mx, my, vertical, e);
    let (qx, qy) = (line_x(vertical, x, k, 0), line_y(vertical, y, k, 0));
    let (px, py) = (line_x(vertical, x, k, -1), line_y(vertical, y, k, -1));
    assert forall|i: int| -2 <= i < 2 implies #[trigger] across(plane, w, vertical, x, y, k, i)
        == behind(plane, w, vertical, qx, qy, i) && across(after, w, vertical, x, y, k, i)
        == behind(after, w, vertical, qx, qy, i) by {
        lemma_cell_bound(line_x(vertical, x, k, i), line_y(vertical, y, k, i), w, h);
    }
    assert(across(plane, w, vertical, x, y, k, -1) == behind(plane, w, vertical, qx, qy, -1));
    assert(across(plane, w, vertical, x, y, k, -2) == behind(plane, w, vertical, qx, qy, -2));
    assert(across(plane, w, vertical, x, y, k, 0) == behind(plane, w, vertical, qx, qy, 0));
    assert(across(plane, w, vertical, x, y, k, 1) == behind(plane, w, vertical, qx, qy, 1));
    assert(qx / 8 == mx && qy / 8 == my && px / 8 == bx && py / 8 == by);
    assert((2 * qx) / 16 == mx && (2 * qy) / 16 == my && (2 * px) / 16 == bx && (2 * py) / 16 == by);
    if vertical {
        assert((2 * qx) % 16 == 4 * e && (2 * qy) % 16 == 2 * k && (2 * py) % 16 == 2 * k);
        assert((2 * px) % 16 == (if e == 0 {
            14
        } else {
            4 * e - 2
        }));
    } else {
        assert((2 * qy) % 16 == 4 * e && (2 * qx) % 16 == 2 * k && (2 * px) % 16 == 2 * k);
        assert((2 * py) % 16 == (if e == 0 {
            14
        } else {
            4 * e - 2
        }));
    }
    assert((2 * k) / 4 == k / 2);
    assert(e == 0 || e == 2);
    assert(bs[k / 2] as int == strength_between(d, 2 * px, 2 * py, 2 * qx, 2 * qy));
    assert(t == thresholds(
        chroma_qp_spec(d.qpy(px / 8, py / 8), qp_offset),
        chroma_qp_spec(d.qpy(qx / 8, qy / 8), qp_offset),
        d.offset_a,
        d.offset_b,
    )) by {
        reveal(Deblock::qpc);
    }
}

} // verus!
