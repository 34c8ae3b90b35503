//! Turning a decoded slice into a picture, row by row: in which order rows of
//! macroblocks are reconstructed, filtered and made public, and how the
//! visible part is cut out at the end.
use vstd::prelude::*;
use crate::deblock::{
    address, by_address, deblock_of, law_chroma_row_reaches_one_row_up,
    law_luma_row_reaches_three_rows_up, outside_rows, Deblock,
};
use crate::error::{Error, Reason};
use crate::grids::{law_macroblock_address_round_trip, lemma_cell_bound};
use crate::marking::raster;
use crate::slice::{summaries, MbSummary, Summary};

verus! {

// ------------------------------------------------------------------- schedule
/// A product, no larger than 32 bits can hold.
pub open spec fn scaled(n: int, by: int) -> int {
    if n * by > u32::MAX {
        u32::MAX as int
    } else {
        n * by
    }
}

fn scale(n: u32, by: u8) -> (r: u32)
    ensures
        r == scaled(n as int, by as int),
{
    proof {
        assert(0 <= n * by <= 0xffff_ffff * 255) by (nonlinear_arith)
            requires
                0 <= n <= 0xffff_ffff,
                0 <= by <= 255,
        ;
    }
    let v: u64 = n as u64 * by as u64;
    if v > 0xffff_ffff {
        0xffff_ffff
    } else {
        v as u32
    }
}

/// How many rows of luma samples no later filtering touches, once the rows of
/// macroblocks up to `done` are filtered: all but the last three.
pub open spec fn final_luma_rows(done: int) -> int {
    scaled(done + 1, 16) - 3
}

/// The same of chroma samples: all but the last.
pub open spec fn final_chroma_rows(done: int) -> int {
    scaled(done + 1, 8) - 1
}

pub fn luma_rows_final(done: u32) -> (n: u32)
    requires
        done < u32::MAX,
    ensures
        n == final_luma_rows(done as int),
{
    scale(done + 1, 16) - 3
}

pub fn chroma_rows_final(done: u32) -> (n: u32)
    requires
        done < u32::MAX,
    ensures
        n == final_chroma_rows(done as int),
{
    scale(done + 1, 8) - 1
}

/// What is to be done next.
#[derive(Debug, Clone, Copy, PartialEq, Eq, Structural)]
pub enum Action {
    /// Reconstruct the whole picture.
    ReconstructAll,
    /// Reconstruct one row of macroblocks.
    Reconstruct(u32),
    /// Filter one row of macroblocks.
    Filter(u32),
    /// Make so many rows of luma and of chroma samples public.
    Publish(u32, u32),
}

/// Making the whole picture public.
pub open spec fn publish_all(high: int) -> Action {
    Action::Publish(scaled(high, 16) as u32, scaled(high, 8) as u32)
}

/// At most `cap`.
pub open spec fn capped(n: int, cap: int) -> int {
    if n > cap {
        cap
    } else {
        n
    }
}

/// Making public what is final once the rows up to `done` are filtered.
pub open spec fn publish_filtered(done: int, high: int) -> Action {
    Action::Publish(
        capped(final_luma_rows(done), scaled(high, 16)) as u32,
        capped(final_chroma_rows(done), scaled(high, 8)) as u32,
    )
}

/// Making public what is final once the rows up to `done` are reconstructed,
/// where nothing is filtered.
pub open spec fn publish_unfiltered(done: int, high: int) -> Action {
    Action::Publish(
        capped(scaled(done + 1, 16), scaled(high, 16)) as u32,
        capped(scaled(done + 1, 8), scaled(high, 8)) as u32,
    )
}

/// How many actions a picture takes.
pub open spec fn schedule_len(high: int, row_wise: bool, filtered: bool) -> int {
    if row_wise {
        if filtered && high > 0 {
            3 * high
        } else {
            2 * high + 1
        }
    } else if filtered {
        high + 2
    } else {
        2
    }
}

/// The `i`-th action. Row by row, each row is filtered once the next one is
/// reconstructed, and what is final then becomes public; the last row follows
/// at the end.
pub open spec fn action_at(high: int, row_wise: bool, filtered: bool, i: int) -> Action {
    if i == schedule_len(high, row_wise, filtered) - 1 {
        publish_all(high)
    } else if !row_wise {
        if i == 0 {
            Action::ReconstructAll
        } else {
            Action::Filter((i - 1) as u32)
        }
    } else if !filtered {
        if i % 2 == 0 {
            Action::Reconstruct((i / 2) as u32)
        } else {
            publish_unfiltered(i / 2, high)
        }
    } else if i == 0 {
        Action::Reconstruct(0)
    } else {
        let k = (i - 1) / 3;
        if (i - 1) % 3 == 1 {
            Action::Filter(k as u32)
        } else if (i - 1) % 3 == 2 {
            publish_filtered(k, high)
        } else if k == high - 1 {
            Action::Filter(k as u32)
        } else {
            Action::Reconstruct((k + 1) as u32)
        }
    }
}

/// Everything that turns a slice of `high` rows of macroblocks into a picture,
/// in order.
pub open spec fn schedule_of(high: int, row_wise: bool, filtered: bool) -> Seq<Action> {
    Seq::new(
        schedule_len(high, row_wise, filtered) as nat,
        |i: int| action_at(high, row_wise, filtered, i),
    )
}

fn lesser(a: u32, b: u32) -> (r: u32)
    ensures
        r == capped(a as int, b as int),
{
    if a > b {
        b
    } else {
        a
    }
}

/// Plans a picture of `mbs_high` rows of macroblocks.
pub fn schedule(mbs_high: u32, row_wise: bool, filtered: bool) -> (plan: Vec<Action>)
    requires
        3 * mbs_high <= usize::MAX,
    ensures
        plan@ == schedule_of(mbs_high as int, row_wise, filtered),
{
    let (luma, chroma) = (scale(mbs_high, 16), scale(mbs_high, 8));
    let mut plan: Vec<Action> = Vec::new();
    let ghost whole = schedule_of(mbs_high as int, row_wise, filtered);
    if row_wise {
        for my in 0..mbs_high
            invariant
                row_wise,
                luma == scaled(mbs_high as int, 16),
                chroma == scaled(mbs_high as int, 8),
                whole == schedule_of(mbs_high as int, row_wise, filtered),
                plan@ == whole.take(
                    if !filtered {
                        2 * my
                    } else if my == 0 {
                        0
                    } else {
                        3 * my - 2
                    },
                ),
        {
            plan.push(Action::Reconstruct(my));
            if filtered {
                if my > 0 {
                    let done: u32 = my - 1;
                    plan.push(Action::Filter(done));
                    plan.push(
                        Action::Publish(
                            lesser(luma_rows_final(done), luma),
                            lesser(chroma_rows_final(done), chroma),
                        ),
                    );
                    assert(plan@[3 * my - 2] == whole[3 * my - 2]);
                    assert(plan@[3 * my - 1] == whole[3 * my - 1]);
                    assert(plan@[3 * my] == whole[3 * my]);
                    assert(plan@ =~= whole.take(3 * my + 1));
                } else {
                    assert(plan@ =~= whole.take(1));
                }
            } else {
                plan.push(
                    Action::Publish(lesser(scale(my + 1, 16), luma), lesser(scale(my + 1, 8), chroma)),
                );
                assert(plan@[2 * my] == whole[2 * my]);
                assert(plan@[2 * my + 1] == whole[2 * my + 1]);
                assert(plan@ =~= whole.take(2 * my + 2));
            }
        }
        if filtered && mbs_high > 0 {
            plan.push(Action::Filter(mbs_high - 1));
            assert(plan@[3 * mbs_high - 2] == whole[3 * mbs_high - 2]);
        }
    } else {
        plan.push(Action::ReconstructAll);
        if filtered {
            assert(plan@ =~= whole.take(1));
            for my in 0..mbs_high
                invariant
                    !row_wise,
                    filtered,
                    whole == schedule_of(mbs_high as int, row_wise, filtered),
                    plan@ == whole.take(my + 1),
            {
                plan.push(Action::Filter(my));
                assert(plan@ =~= whole.take(my + 2));
            }
        }
    }
    plan.push(Action::Publish(luma, chroma));
    assert(plan@ =~= whole);
    plan
}

/// What has been made public is never touched again: every row that is
/// reconstructed or filtered later lies behind the public rows, by as far as
/// filtering reaches back.
pub proof fn law_public_rows_are_final(
    high: int,
    row_wise: bool,
    filtered: bool,
    i: int,
    j: int,
    luma: u32,
    chroma: u32,
)
    requires
        0 <= high,
        16 * high <= u32::MAX,
        0 <= i < j < schedule_len(high, row_wise, filtered),
        schedule_of(high, row_wise, filtered)[i] == Action::Publish(luma, chroma),
    ensures
        match schedule_of(high, row_wise, filtered)[j] {
            Action::ReconstructAll => false,
            Action::Reconstruct(my) => luma <= 16 * my && chroma <= 8 * my,
            Action::Filter(my) => luma <= 16 * my - 3 && chroma <= 8 * my - 1,
            Action::Publish(l, c) => luma <= l && chroma <= c,
        },
{
    assert(schedule_of(high, row_wise, filtered)[i] == action_at(high, row_wise, filtered, i));
    assert(schedule_of(high, row_wise, filtered)[j] == action_at(high, row_wise, filtered, j));
}

/// A row is filtered only when it and the row behind it are reconstructed:
/// whatever predicts from its samples has seen them unfiltered.
pub proof fn law_filtering_follows_reconstruction(high: int, row_wise: bool, my: int, i: int)
    requires
        0 <= my < high <= u32::MAX,
        0 <= i < schedule_len(high, row_wise, true),
        schedule_of(high, row_wise, true)[i] == Action::Filter(my as u32),
    ensures
        !row_wise ==> schedule_of(high, row_wise, true)[0] == Action::ReconstructAll && 0 < i,
        row_wise ==> exists|j: int|
            0 <= j < i && #[trigger] schedule_of(high, row_wise, true)[j] == Action::Reconstruct(
                (if my + 1 < high {
                    my + 1
                } else {
                    my
                }) as u32,
            ),
{
    let plan = schedule_of(high, row_wise, true);
    assert(plan[i] == action_at(high, row_wise, true, i));
    assert(plan[0] == action_at(high, row_wise, true, 0));
    if row_wise {
        let r = if my + 1 < high {
            my + 1
        } else {
            my
        };
        let j = if r == 0 {
            0
        } else {
            3 * r - 2
        };
        assert(plan[j] == action_at(high, row_wise, true, j));
        assert(plan[j] == Action::Reconstruct(r as u32));
        assert(j < i);
    }
}

/// Every row of macroblocks is reconstructed.
pub proof fn law_every_row_is_reconstructed(high: int, filtered: bool, my: int)
    requires
        0 <= my < high <= u32::MAX,
    ensures
        exists|j: int|
            0 <= j < schedule_len(high, true, filtered) && #[trigger] schedule_of(
                high,
                true,
                filtered,
            )[j] == Action::Reconstruct(my as u32),
        filtered ==> exists|j: int|
            0 <= j < schedule_len(high, true, filtered) && #[trigger] schedule_of(
                high,
                true,
                filtered,
            )[j] == Action::Filter(my as u32),
{
    let plan = schedule_of(high, true, filtered);
    if filtered {
        let j = if my == 0 {
            0
        } else {
            3 * my - 2
        };
        assert(plan[j] == action_at(high, true, filtered, j));
        assert(plan[j] == Action::Reconstruct(my as u32));
        let k = if my == high - 1 {
            3 * high - 2
        } else {
            3 * my + 2
        };
        assert(plan[k] == action_at(high, true, filtered, k));
        assert(plan[k] == Action::Filter(my as u32));
    } else {
        assert(plan[2 * my] == action_at(high, true, filtered, 2 * my));
        assert(plan[2 * my] == Action::Reconstruct(my as u32));
    }
}

proof fn lemma_before_rows(w: int, i: int, rows: int, lo: int, hi: int)
    requires
        0 < w,
        0 <= i < rows * w,
        rows <= lo,
    ensures
        outside_rows(w, i, lo, hi),
{
    assert(i / w < rows) by (nonlinear_arith)
        requires
            0 < w,
            0 <= i < rows * w,
    ;
}

/// Filtering the rows of macroblocks behind `done` leaves the final rows of
/// luma samples as they are.
pub proof fn law_final_luma_rows_stay(d: Deblock, plane: Seq<u8>, done: int, my: int, i: int)
    requires
        0 < d.wide,
        0 <= done < my,
        0 <= i < plane.len(),
        i < (16 * (done + 1) - 3) * (16 * d.wide),
    ensures
        d.luma_rows_from(plane, my).len() == plane.len(),
        d.luma_rows_from(plane, my)[i] == plane[i],
    decreases d.high - my,
{
    if my < d.high {
        lemma_before_rows(16 * d.wide, i, 16 * (done + 1) - 3, 16 * my - 3, 16 * my + 15);
        law_luma_row_reaches_three_rows_up(d, plane, my, 0, i);
        law_final_luma_rows_stay(d, d.luma_row_from(plane, my, 0), done, my + 1, i);
    }
}

/// Filtering the rows of macroblocks behind `done` leaves the final rows of
/// chroma samples as they are.
pub proof fn law_final_chroma_rows_stay(
    d: Deblock,
    plane: Seq<u8>,
    qp_offset: int,
    done: int,
    my: int,
    i: int,
)
    requires
        0 < d.wide,
        0 <= done < my,
        0 <= i < plane.len(),
        i < (8 * (done + 1) - 1) * (8 * d.wide),
    ensures
        d.chroma_rows_from(plane, qp_offset, my).len() == plane.len(),
        d.chroma_rows_from(plane, qp_offset, my)[i] == plane[i],
    decreases d.high - my,
{
    if my < d.high {
        lemma_before_rows(8 * d.wide, i, 8 * (done + 1) - 1, 8 * my - 1, 8 * my + 7);
        law_chroma_row_reaches_one_row_up(d, plane, qp_offset, my, 0, i);
        law_final_chroma_rows_stay(
            d,
            d.chroma_row_from(plane, qp_offset, my, 0),
            qp_offset,
            done,
            my + 1,
            i,
        );
    }
}

/// Whether the macroblocks are those of a whole picture in raster order, which
/// is what working row by row relies on.
pub fn macroblocks_in_raster_order(macroblocks: &Vec<MbSummary>, mbs_wide: u32, mbs_high: u32) -> (r:
    bool)
    ensures
        r == (mbs_wide > 0 && macroblocks@.len() == mbs_wide * mbs_high && raster(
            summaries(macroblocks@),
            mbs_wide as int,
        )),
{
    let n: usize = macroblocks.len();
    proof {
        assert(0 <= mbs_wide * mbs_high <= 0xffff_ffff * 0xffff_ffff) by (nonlinear_arith)
            requires
                0 <= mbs_wide <= 0xffff_ffff,
                0 <= mbs_high <= 0xffff_ffff,
        ;
    }
    if mbs_wide == 0 || n as u64 != mbs_wide as u64 * mbs_high as u64 {
        return false;
    }
    for i in 0..n
        invariant
            mbs_wide > 0,
            n == macroblocks@.len(),
            n == mbs_wide * mbs_high,
            forall|j: int|
                0 <= j < i ==> (#[trigger] summaries(macroblocks@)[j]).mb_x == j % mbs_wide as int
                    && summaries(macroblocks@)[j].mb_y == j / mbs_wide as int,
    {
        let m: &MbSummary = &macroblocks[i];
        assert(summaries(macroblocks@)[i as int] == m@);
        if m.mb_x as u64 != i as u64 % mbs_wide as u64 || m.mb_y as u64 != i as u64
            / mbs_wide as u64 {
            return false;
        }
    }
    true
}

proof fn lemma_cells_in_raster_order(ms: Seq<Summary>, wide: int, k: int, i: int)
    requires
        0 < wide,
        raster(ms, wide),
        0 <= k <= ms.len(),
        0 <= i < ms.len(),
    ensures
        by_address(ms, wide, ms.len(), k).len() == ms.len(),
        by_address(ms, wide, ms.len(), k)[i] == (if i < k {
            Some(ms[i])
        } else {
            None
        }),
    decreases k,
{
    if k > 0 {
        lemma_cells_in_raster_order(ms, wide, k - 1, i);
        law_macroblock_address_round_trip(k - 1, wide);
        assert(ms[k - 1].mb_x == (k - 1) % wide && ms[k - 1].mb_y == (k - 1) / wide);
        assert(address(ms[k - 1], wide) == k - 1);
    }
}

/// A picture whose macroblocks are complete and in raster order can be
/// filtered row by row: none of them lacks a neighbour.
pub proof fn law_complete_pictures_can_be_filtered(
    ms: Seq<Summary>,
    wide: int,
    high: int,
    alpha_div2: int,
    beta_div2: int,
    l0: Seq<i32>,
    l1: Seq<i32>,
    my: int,
)
    requires
        0 < wide,
        0 <= my < high,
        ms.len() == wide * high,
        raster(ms, wide),
    ensures
        deblock_of(ms, wide, high, alpha_div2, beta_div2, l0, l1).row_connected(my),
        forall|mx: int|
            0 <= mx < wide ==> #[trigger] deblock_of(
                ms,
                wide,
                high,
                alpha_div2,
                beta_div2,
                l0,
                l1,
            ).at(mx, my) == Some(ms[my * wide + mx]),
{
    let d = deblock_of(ms, wide, high, alpha_div2, beta_div2, l0, l1);
    assert forall|mx: int| 0 <= mx < wide implies #[trigger] d.at(mx, my) == Some(
        ms[my * wide + mx],
    ) by {
        lemma_cell_bound(mx, my, wide, high);
        lemma_cells_in_raster_order(ms, wide, ms.len() as int, my * wide + mx);
    }
    assert forall|mx: int| 0 <= mx < wide implies #[trigger] d.connected(mx, my) by {
        if mx > 0 {
            assert(d.at(mx - 1, my) == Some(ms[my * wide + (mx - 1)]));
        }
        if my > 0 {
            lemma_cell_bound(mx, my - 1, wide, high);
            lemma_cells_in_raster_order(ms, wide, ms.len() as int, (my - 1) * wide + mx);
        }
    }
}

/// How deep the prediction of a row of macroblocks reads into each reference
/// of a list; nothing for a reference that it does not read.
#[derive(Debug, Clone)]
pub struct RowReach {
    pub luma: Vec<Option<u32>>,
    pub chroma: Vec<Option<u32>>,
}

/// What is needed of one plane of one reference before a row of macroblocks
/// can be predicted.
#[derive(Debug, Clone, Copy, PartialEq, Eq, Structural)]
pub struct PlaneWait {
    /// The place of the reference in its list.
    pub reference: usize,
    pub plane: usize,
    /// The deepest row to wait for; a plane that is not read is not waited for.
    pub row: Option<u32>,
}

/// The entry of a list, nothing behind its end.
pub open spec fn entry(list: Seq<Option<u32>>, i: int) -> Option<u32> {
    if 0 <= i < list.len() {
        list[i]
    } else {
        None
    }
}

/// What is needed of the planes of `refs` references, one after the other. The
/// two chroma planes are read equally deep.
pub open spec fn waits_of(reach: RowReach, refs: int) -> Seq<PlaneWait> {
    Seq::new(
        (3 * refs) as nat,
        |k: int|
            PlaneWait {
                reference: (k / 3) as usize,
                plane: (k % 3) as usize,
                row: entry(
                    if k % 3 == 0 {
                        reach.luma@
                    } else {
                        reach.chroma@
                    },
                    k / 3,
                ),
            },
    )
}

fn read_entry(list: &Vec<Option<u32>>, i: usize) -> (r: Option<u32>)
    ensures
        r == entry(list@, i as int),
{
    if i < list.len() {
        list[i]
    } else {
        None
    }
}

/// Lists what is needed of a list's references before a row of macroblocks can
/// be predicted.
pub fn wait_row_planes(reach: &RowReach, refs: usize) -> (waits: Vec<PlaneWait>)
    requires
        3 * refs <= usize::MAX,
    ensures
        waits@ == waits_of(*reach, refs as int),
{
    let mut waits: Vec<PlaneWait> = Vec::new();
    for i in 0..refs
        invariant
            waits@ == waits_of(*reach, refs as int).take(3 * i),
    {
        let (luma, chroma) = (read_entry(&reach.luma, i), read_entry(&reach.chroma, i));
        waits.push(PlaneWait { reference: i, plane: 0, row: luma });
        waits.push(PlaneWait { reference: i, plane: 1, row: chroma });
        waits.push(PlaneWait { reference: i, plane: 2, row: chroma });
        proof {
            let all = waits_of(*reach, refs as int);
            assert(all[3 * i] == waits@[3 * i]);
            assert(all[3 * i + 1] == waits@[3 * i + 1]);
            assert(all[3 * i + 2] == waits@[3 * i + 2]);
            assert(waits@ =~= all.take(3 * (i + 1)));
        }
    }
    assert(waits@ =~= waits_of(*reach, refs as int));
    waits
}

// ---------------------------------------------------------------- publication
/// A band of rows of a stored plane, which becomes public as a whole.
#[derive(Debug, Clone)]
pub struct Band {
    pub first_row: u32,
    pub rows: u32,
    pub width: usize,
    pub samples: Vec<u8>,
}

/// The mathematical content of a [`Band`].
#[verifier::ext_equal]
pub struct Strip {
    pub first_row: int,
    pub rows: int,
    pub width: int,
    pub samples: Seq<u8>,
}

impl View for Band {
    type V = Strip;

    open spec fn view(&self) -> Strip {
        Strip {
            first_row: self.first_row as int,
            rows: self.rows as int,
            width: self.width as int,
            samples: self.samples@,
        }
    }
}

/// The contents of some bands.
pub open spec fn strips(bands: Seq<Band>) -> Seq<Strip> {
    Seq::new(bands.len(), |i: int| bands[i]@)
}

impl Strip {
    /// A band that has room for its rows, which 32 bits can number.
    pub open spec fn wf(self) -> bool {
        &&& 0 <= self.first_row
        &&& 0 <= self.rows
        &&& self.first_row + self.rows <= u32::MAX
        &&& self.samples.len() == self.rows * self.width
    }

    /// Whether all its rows are among the first `rows` of the plane.
    pub open spec fn ready(self, rows: int) -> bool {
        self.first_row + self.rows <= rows
    }

    /// Whether the `r`-th of its rows lies inside the working plane.
    pub open spec fn row_fits(self, len: int, stride: int, r: int) -> bool {
        (self.first_row + r) * stride + self.width <= len
    }

    /// Whether all its rows lie inside the working plane.
    pub open spec fn fits(self, len: int, stride: int) -> bool {
        forall|r: int| 0 <= r < self.rows ==> #[trigger] self.row_fits(len, stride, r)
    }

    /// With the first `n` of its rows copied from the working plane.
    pub open spec fn copied(self, src: Seq<u8>, stride: int, n: int) -> Strip {
        Strip {
            samples: Seq::new(
                self.samples.len(),
                |i: int|
                    if i / self.width < n {
                        src[(self.first_row + i / self.width) * stride + i % self.width]
                    } else {
                        self.samples[i]
                    },
            ),
            ..self
        }
    }

    /// The first of its rows from `r` on that does not lie inside the working
    /// plane, the end of the band where there is none.
    pub open spec fn misfit(self, len: int, stride: int, r: int) -> int
        decreases self.rows - r,
    {
        if r >= self.rows || !self.row_fits(len, stride, r) {
            r
        } else {
            self.misfit(len, stride, r + 1)
        }
    }

    /// With all its rows copied from the working plane.
    pub open spec fn filled(self, src: Seq<u8>, stride: int) -> Strip {
        self.copied(src, stride, self.rows)
    }
}

proof fn lemma_row_bounds(rows: int, width: int, r: int)
    requires
        0 <= r < rows,
        0 <= width,
    ensures
        0 <= r * width,
        r * width + width == (r + 1) * width,
        (r + 1) * width <= rows * width,
{
    assert(0 <= r * width && r * width + width == (r + 1) * width && (r + 1) * width <= rows
        * width) by (nonlinear_arith)
        requires
            0 <= r < rows,
            0 <= width,
    ;
}

fn copy_row(
    band: &mut Band,
    src: &[u8],
    start: usize,
    r: u32,
    Ghost(b): Ghost<Strip>,
    Ghost(stride): Ghost<int>,
)
    requires
        b.wf(),
        0 <= r < b.rows,
        start == (b.first_row + r) * stride,
        start + b.width <= src@.len(),
        old(band)@ == b.copied(src@, stride, r as int),
    ensures
        final(band)@ == b.copied(src@, stride, r + 1),
{
    let w: usize = band.width;
    let (size, len) = (band.samples.len(), src.len());
    proof {
        lemma_row_bounds(b.rows, b.width, r as int);
        assert(r * w + w <= size);
        assert(start + w <= len);
    }
    let at: usize = r as usize * w;
    for x in 0..w
        invariant
            b.wf(),
            0 <= r < b.rows,
            w == b.width,
            band@.first_row == b.first_row,
            band@.rows == b.rows,
            band@.width == b.width,
            band@.samples.len() == b.samples.len(),
            at == r * w,
            at + w == (r + 1) * w,
            at + w <= b.samples.len() <= usize::MAX,
            start == (b.first_row + r) * stride,
            start + w <= src@.len() <= usize::MAX,
            forall|i: int|
                0 <= i < b.samples.len() && !(at <= i < at + x) ==> (#[trigger] band.samples@[i])
                    == b.copied(src@, stride, r as int).samples[i],
            forall|i: int|
                at <= i < at + x ==> (#[trigger] band.samples@[i]) == src@[start + (i - at)],
    {
        band.samples[at + x] = src[start + x];
    }
    proof {
        let out = b.copied(src@, stride, r + 1);
        assert forall|i: int| 0 <= i < b.samples.len() implies (#[trigger] band.samples@[i])
            == out.samples[i] by {
            let wi = w as int;
            if at <= i < at + w {
                vstd::arithmetic::div_mod::lemma_fundamental_div_mod_converse(
                    i,
                    wi,
                    r as int,
                    i - at,
                );
            } else if i < at {
                assert(i / wi < r) by (nonlinear_arith)
                    requires
                        0 <= i < r * wi,
                        0 < wi,
                ;
            } else {
                assert(0 < wi) by (nonlinear_arith)
                    requires
                        0 <= i < b.rows * wi,
                        0 <= wi,
                ;
                assert(i / wi >= r + 1) by (nonlinear_arith)
                    requires
                        i >= (r + 1) * wi,
                        0 < wi,
                ;
            }
        }
        assert(band@ =~= out);
    }
}

/// Copies a band's rows from the working plane; one that does not lie inside
/// the plane stops the copying.
#[verifier::loop_isolation(false)]
fn fill_band(band: &mut Band, src: &[u8], stride: usize) -> (r: Result<(), Error>)
    requires
        old(band)@.wf(),
    ensures
        final(band)@.wf(),
        final(band)@.first_row == old(band)@.first_row,
        final(band)@.rows == old(band)@.rows,
        final(band)@.width == old(band)@.width,
        old(band)@.fits(src@.len() as int, stride as int) ==> r is Ok && final(band)@ == old(
            band)@.filled(src@, stride as int),
        !old(band)@.fits(src@.len() as int, stride as int) ==> r == Err::<(), Error>(
            Error::InvalidData(Reason::BandGeometry),
        ) && final(band)@ == old(band)@.copied(
            src@,
            stride as int,
            old(band)@.misfit(src@.len() as int, stride as int, 0),
        ),
{
    let ghost b = band@;
    let (first, rows, width) = (band.first_row, band.rows, band.width);
    proof {
        let none = b.copied(src@, stride as int, 0);
        assert forall|i: int| 0 <= i < b.samples.len() implies (#[trigger] none.samples[i])
            == b.samples[i] by {
            assert(0 < b.width) by (nonlinear_arith)
                requires
                    0 <= i < b.rows * b.width,
                    0 <= b.width,
                    0 <= b.rows,
            ;
            vstd::arithmetic::div_mod::lemma_div_pos_is_pos(i, b.width);
        }
        assert(band@ =~= none);
    }
    for r in 0..rows
        invariant
            band@ == b.copied(src@, stride as int, r as int),
            forall|k: int|
                0 <= k < r ==> #[trigger] b.row_fits(src@.len() as int, stride as int, k),
            b.misfit(src@.len() as int, stride as int, 0) == b.misfit(
                src@.len() as int,
                stride as int,
                r as int,
            ),
    {
        proof {
            assert(0 <= (first + r) * stride <= 0xffff_ffff * usize::MAX) by (nonlinear_arith)
                requires
                    0 <= first + r <= 0xffff_ffff,
                    0 <= stride <= usize::MAX,
            ;
        }
        let start: u128 = (first + r) as u128 * stride as u128;
        if start + width as u128 > src.len() as u128 {
            assert(!b.row_fits(src@.len() as int, stride as int, r as int));
            return Err(Error::InvalidData(Reason::BandGeometry));
        }
        assert(b.row_fits(src@.len() as int, stride as int, r as int));
        copy_row(band, src, start as usize, r, Ghost(b), Ghost(stride as int));
    }
    Ok(())
}

/// The bands of a stored picture's three planes.
#[derive(Debug, Clone)]
pub struct StoredPlanes {
    pub luma: Vec<Band>,
    pub cb: Vec<Band>,
    pub cr: Vec<Band>,
}

/// Whether all bands have room for their rows.
pub open spec fn sound(bands: Seq<Strip>) -> bool {
    forall|i: int| 0 <= i < bands.len() ==> (#[trigger] bands[i]).wf()
}

/// Whether making a plane public went from band `from` to band `to`: the bands
/// between hold their rows of the working plane, all others what they held.
pub open spec fn advanced(
    before: Seq<Strip>,
    after: Seq<Strip>,
    from: int,
    to: int,
    src: Seq<u8>,
    stride: int,
) -> bool {
    &&& after.len() == before.len()
    &&& forall|i: int|
        0 <= i < before.len() && !(from <= i <= to) ==> (#[trigger] after[i]) == before[i]
    &&& forall|i: int|
        from <= i < to && 0 <= i < before.len() ==> (#[trigger] after[i]) == before[i].filled(
            src,
            stride,
        )
}

/// Whether each band between two could be made public, and its rows copied.
pub open spec fn publishable(
    bands: Seq<Strip>,
    from: int,
    to: int,
    final_rows: int,
    len: int,
    stride: int,
) -> bool {
    forall|i: int|
        from <= i < to && 0 <= i < bands.len() ==> (#[trigger] bands[i]).ready(final_rows)
            && bands[i].fits(len, stride)
}

/// What making a plane public does to it, from band `from` to band `to`: every
/// band between is copied, and `to` is the first that is not ready, which stays
/// as it was, or that is refused, which takes the rows in front of its misfit.
pub open spec fn stepped(
    before: Seq<Strip>,
    after: Seq<Strip>,
    from: int,
    to: int,
    src: Seq<u8>,
    stride: int,
    final_rows: int,
) -> bool {
    &&& from <= to
    &&& to <= from || to <= before.len()
    &&& publishable(before, from, to, final_rows, src.len() as int, stride)
    &&& advanced(before, after, from, to, src, stride)
    &&& to < before.len() ==> after[to] == (if before[to].ready(final_rows) {
        before[to].copied(src, stride, before[to].misfit(src.len() as int, stride, 0))
    } else {
        before[to]
    })
    &&& to < before.len() && before[to].ready(final_rows) ==> !before[to].fits(
        src.len() as int,
        stride,
    )
}

/// Makes finished rows of a working picture public, a band at a time.
#[derive(Debug, Clone)]
pub struct RowPublisher {
    /// The next band of each plane.
    pub next: [usize; 3],
}

impl RowPublisher {
    /// Nothing is public yet.
    pub fn new() -> (p: Self)
        ensures
            p.next@ == seq![0usize, 0usize, 0usize],
    {
        let p = RowPublisher { next: [0, 0, 0] };
        assert(p.next@ =~= seq![0usize, 0usize, 0usize]);
        p
    }

    /// Copies and makes public every band of a plane whose rows are all among
    /// the first `final_rows`, up to the first band that is not ready. A band
    /// that does not lie inside the working plane is refused. There are three
    /// planes; of any other nothing is public.
    pub fn advance(
        &mut self,
        plane: usize,
        bands: &mut Vec<Band>,
        src: &[u8],
        stride: usize,
        final_rows: u32,
    ) -> (r: Result<(), Error>)
        requires
            sound(strips(old(bands)@)),
        ensures
            sound(strips(final(bands)@)),
            plane >= 3 ==> {
                &&& r is Ok
                &&& final(self).next@ == old(self).next@
                &&& strips(final(bands)@) == strips(old(bands)@)
            },
            plane < 3 ==> {
                let before = strips(old(bands)@);
                let after = strips(final(bands)@);
                let from = old(self).next@[plane as int] as int;
                let to = final(self).next@[plane as int] as int;
                &&& final(self).next@ == old(self).next@.update(plane as int, to as usize)
                &&& stepped(before, after, from, to, src@, stride as int, final_rows as int)
                &&& r is Err == refused(
                    before,
                    from,
                    final_rows as int,
                    src@.len() as int,
                    stride as int,
                )
                &&& r matches Err(e) ==> e == Error::InvalidData(Reason::BandGeometry)
                &&& r is Err == (to < before.len() && before[to].ready(final_rows as int))
            },
    {
        if plane >= 3 {
            return Ok(());
        }
        let ghost before = strips(bands@);
        let ghost from = self.next@[plane as int] as int;
        let count: usize = bands.len();
        while self.next[plane] < count
            invariant
                plane < 3,
                count == bands@.len(),
                count == before.len(),
                before == strips(old(bands)@),
                from == old(self).next@[plane as int],
                sound(before),
                sound(strips(bands@)),
                from <= self.next@[plane as int],
                self.next@[plane as int] <= from || self.next@[plane as int] <= count,
                self.next@ == old(self).next@.update(plane as int, self.next@[plane as int]),
                publishable(
                    before,
                    from,
                    self.next@[plane as int] as int,
                    final_rows as int,
                    src@.len() as int,
                    stride as int,
                ),
                advanced(
                    before,
                    strips(bands@),
                    from,
                    self.next@[plane as int] as int,
                    src@,
                    stride as int,
                ),
                self.next@[plane as int] < count ==> strips(bands@)[self.next@[plane as int] as int]
                    == before[self.next@[plane as int] as int],
            decreases count - self.next@[plane as int],
        {
            let k: usize = self.next[plane];
            let ghost held = bands@;
            let (first, rows) = (bands[k].first_row, bands[k].rows);
            assert(strips(bands@)[k as int] == bands@[k as int]@);
            assert(strips(bands@)[k as int].wf());
            if first + rows > final_rows {
                return Ok(());
            }
            let done = fill_band(&mut bands[k], src, stride);
            assert(bands@ =~= held.update(k as int, bands@[k as int]));
            assert(strips(bands@) =~= strips(held).update(k as int, bands@[k as int]@));
            if done.is_err() {
                assert(refused(
                    before,
                    from,
                    final_rows as int,
                    src@.len() as int,
                    stride as int,
                )) by {
                    assert(!before[k as int].fits(src@.len() as int, stride as int));
                }
                return done;
            }
            self.next[plane] = k + 1;
        }
        Ok(())
    }

    /// Makes public what is final of all three planes, if they are stored at
    /// all. The first plane that is refused keeps what was made public of it
    /// before, and those behind it stay as they are.
    pub fn publish(
        &mut self,
        store: &mut Option<StoredPlanes>,
        luma: &[u8],
        cb: &[u8],
        cr: &[u8],
        strides: (usize, usize),
        rows: (u32, u32),
    ) -> (r: Result<(), Error>)
        requires
            *old(store) matches Some(s) ==> s.wf(),
        ensures
            *final(store) matches Some(s) ==> s.wf(),
            *final(store) is Some == *old(store) is Some,
            *old(store) is None ==> r is Ok && final(self).next@ == old(self).next@,
            *old(store) matches Some(s) ==> {
                let t = (*final(store))->Some_0;
                let (a, b) = (old(self).next@, final(self).next@);
                let (w0, w1) = (strides.0 as int, strides.1 as int);
                let (n0, n1) = (rows.0 as int, rows.1 as int);
                let bad0 = refused(strips(s.luma@), a[0] as int, n0, luma@.len() as int, w0);
                let bad1 = refused(strips(s.cb@), a[1] as int, n1, cb@.len() as int, w1);
                let bad2 = refused(strips(s.cr@), a[2] as int, n1, cr@.len() as int, w1);
                &&& r is Err == (bad0 || bad1 || bad2)
                &&& stepped(
                    strips(s.luma@),
                    strips(t.luma@),
                    a[0] as int,
                    b[0] as int,
                    luma@,
                    w0,
                    n0,
                )
                &&& if bad0 {
                    strips(t.cb@) == strips(s.cb@) && b[1] == a[1]
                } else {
                    stepped(strips(s.cb@), strips(t.cb@), a[1] as int, b[1] as int, cb@, w1, n1)
                }
                &&& if bad0 || bad1 {
                    strips(t.cr@) == strips(s.cr@) && b[2] == a[2]
                } else {
                    stepped(strips(s.cr@), strips(t.cr@), a[2] as int, b[2] as int, cr@, w1, n1)
                }
            },
            r matches Err(e) ==> e == Error::InvalidData(Reason::BandGeometry),
    {
        match store {
            None => Ok(()),
            Some(s) => {
                self.advance(0, &mut s.luma, luma, strides.0, rows.0)?;
                self.advance(1, &mut s.cb, cb, strides.1, rows.1)?;
                self.advance(2, &mut s.cr, cr, strides.1, rows.1)
            },
        }
    }
}

impl StoredPlanes {
    /// All bands have room for their rows.
    pub open spec fn wf(&self) -> bool {
        sound(strips(self.luma@)) && sound(strips(self.cb@)) && sound(strips(self.cr@))
    }
}

/// Whether, from band `from` on, a band that is reached does not lie inside
/// the working plane.
pub open spec fn refused(bands: Seq<Strip>, from: int, final_rows: int, len: int, stride: int) -> bool {
    exists|k: int|
        from <= k < bands.len() && !(#[trigger] bands[k]).fits(len, stride) && (forall|i: int|
            from <= i <= k ==> (#[trigger] bands[i]).ready(final_rows))
}

} // verus!
