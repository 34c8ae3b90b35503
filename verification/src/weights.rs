//! How the two predictions of a bipredicted block are mixed.
use vstd::prelude::*;
use crate::arith::{clip3, floor_div};

verus! {

/// Where the weights of bipredicted blocks come from.
#[derive(Debug, Clone, Copy, PartialEq, Eq, Structural)]
pub enum BiPredMode {
    /// Both predictions count the same.
    Default,
    /// The slice header gives them.
    Explicit,
    /// The distances of the references give them.
    Implicit,
}

/// Where a slice's weights come from.
pub fn bipred_mode(is_b_slice: bool, weighted_bipred_idc: u32) -> (m: BiPredMode)
    ensures
        m == (if is_b_slice && weighted_bipred_idc == 1 {
            BiPredMode::Explicit
        } else if is_b_slice && weighted_bipred_idc == 2 {
            BiPredMode::Implicit
        } else {
            BiPredMode::Default
        }),
{
    if !is_b_slice {
        return BiPredMode::Default;
    }
    match weighted_bipred_idc {
        1 => BiPredMode::Explicit,
        2 => BiPredMode::Implicit,
        _ => BiPredMode::Default,
    }
}

/// The weights of the first and the second prediction, in sixty-fourths.
#[derive(Debug, Clone, Copy, PartialEq, Eq, Structural)]
pub struct ImplicitWeight {
    pub w0: i32,
    pub w1: i32,
}

/// A distance in display order, as far as weights distinguish it.
pub open spec fn distance(from: int, to: int) -> int {
    clip3(-128, 127, to - from)
}

/// The reciprocal of a distance in units of 1/16384, rounded to the nearest.
pub open spec fn reciprocal(td: int) -> int {
    if td > 0 {
        (16384 + td / 2) / td
    } else {
        -((16384 + (-td) / 2) / (-td))
    }
}

/// How far between its two references a picture lies, in units of 1/256.
pub open spec fn dist_scale(td: int, tb: int) -> int {
    clip3(-1024, 1023, (reciprocal(td) * tb + 32) / 64)
}

/// The weights that follow from the order counts of a picture and of its two
/// references: equal ones where both references are the same distance away or
/// the weights would leave their range.
pub open spec fn implicit_weights(curr: int, ref0: int, ref1: int) -> (int, int) {
    let td = distance(ref0, ref1);
    if td == 0 {
        (32, 32)
    } else {
        let w1 = dist_scale(td, distance(ref0, curr)) / 4;
        if -64 <= w1 <= 128 {
            (64 - w1, w1)
        } else {
            (32, 32)
        }
    }
}

fn clamped_distance(from: i32, to: i32) -> (r: i32)
    ensures
        r == distance(from as int, to as int),
        -128 <= r <= 127,
{
    let d: i64 = to as i64 - from as i64;
    if d < -128 {
        -128
    } else if d > 127 {
        127
    } else {
        d as i32
    }
}

fn rounded_reciprocal(td: i32) -> (r: i32)
    requires
        -128 <= td <= 127,
        td != 0,
    ensures
        r == reciprocal(td as int),
        -16384 <= r <= 16384,
{
    let d: i32 = if td > 0 {
        td
    } else {
        -td
    };
    let n: i32 = 16384 + d / 2;
    proof {
        assert(0 <= (n as int) / (d as int) <= 16384) by (nonlinear_arith)
            requires
                n == 16384 + d / 2,
                1 <= d <= 128,
        ;
    }
    let q: i32 = n / d;
    if td > 0 {
        q
    } else {
        -q
    }
}

pub fn implicit_weight(curr_poc: i32, ref0_poc: i32, ref1_poc: i32) -> (w: ImplicitWeight)
    ensures
        (w.w0 as int, w.w1 as int) == implicit_weights(
            curr_poc as int,
            ref0_poc as int,
            ref1_poc as int,
        ),
{
    let td: i32 = clamped_distance(ref0_poc, ref1_poc);
    if td == 0 {
        return ImplicitWeight { w0: 32, w1: 32 };
    }
    let tb: i32 = clamped_distance(ref0_poc, curr_poc);
    let tx: i32 = rounded_reciprocal(td);
    proof {
        assert(-16384 * 128 <= tx * tb <= 16384 * 128) by (nonlinear_arith)
            requires
                -16384 <= tx <= 16384,
                -128 <= tb <= 127,
        ;
    }
    let scaled: i32 = floor_div(tx * tb + 32, 64);
    let factor: i32 = if scaled < -1024 {
        -1024
    } else if scaled > 1023 {
        1023
    } else {
        scaled
    };
    let w1: i32 = floor_div(factor, 4);
    if w1 < -64 || w1 > 128 {
        return ImplicitWeight { w0: 32, w1: 32 };
    }
    ImplicitWeight { w0: 64 - w1, w1 }
}

/// Implicit weights always add up to one, and neither is more than twice that.
pub proof fn law_implicit_weights_add_up(curr: int, ref0: int, ref1: int)
    ensures
        implicit_weights(curr, ref0, ref1).0 + implicit_weights(curr, ref0, ref1).1 == 64,
        -64 <= implicit_weights(curr, ref0, ref1).0 <= 128,
        -64 <= implicit_weights(curr, ref0, ref1).1 <= 128,
{
}

/// A picture that coincides with one of its references takes that one alone,
/// where the references are at most sixty-four apart; beyond that rounding can
/// leave the other a sixty-fourth.
pub proof fn law_coinciding_reference_takes_all(ref0: int, ref1: int)
    requires
        ref0 != ref1,
        -64 <= ref1 - ref0 <= 64,
    ensures
        implicit_weights(ref0, ref0, ref1) == (64int, 0int),
        implicit_weights(ref1, ref0, ref1) == (0int, 64int),
{
    let td = ref1 - ref0;
    assert(reciprocal(td) * 0 == 0);
    let d = if td > 0 {
        td
    } else {
        -td
    };
    let n = 16384 + d / 2;
    vstd::arithmetic::div_mod::lemma_fundamental_div_mod(n, d);
    vstd::arithmetic::div_mod::lemma_mod_bound(n, d);
    assert(reciprocal(td) * td == d * (n / d)) by (nonlinear_arith)
        requires
            td == d || td == -d,
            reciprocal(td) == (if td > 0 {
                n / d
            } else {
                -(n / d)
            }),
            td > 0 <==> td == d,
            d > 0,
    ;
    assert(16384 - 32 <= reciprocal(td) * td <= 16384 + 32);
}

/// The weights of every pair of references, the first list's by rows.
pub open spec fn weight_table(curr: i32, pocs0: Seq<i32>, pocs1: Seq<i32>) -> Seq<Seq<(int, int)>> {
    Seq::new(
        pocs0.len(),
        |i: int|
            Seq::new(
                pocs1.len(),
                |j: int| implicit_weights(curr as int, pocs0[i] as int, pocs1[j] as int),
            ),
    )
}

/// The weights of one row of the table.
pub open spec fn row_weights(row: Seq<ImplicitWeight>) -> Seq<(int, int)> {
    Seq::new(row.len(), |j: int| (row[j].w0 as int, row[j].w1 as int))
}

/// The weights in a table.
pub open spec fn table_weights(table: Seq<Vec<ImplicitWeight>>) -> Seq<Seq<(int, int)>> {
    Seq::new(table.len(), |i: int| row_weights(table[i]@))
}

fn implicit_weight_row(curr_poc: i32, poc0: i32, pocs1: &Vec<i32>) -> (row: Vec<ImplicitWeight>)
    ensures
        row_weights(row@) == Seq::new(
            pocs1@.len(),
            |j: int| implicit_weights(curr_poc as int, poc0 as int, pocs1@[j] as int),
        ),
{
    let mut row: Vec<ImplicitWeight> = Vec::new();
    let n: usize = pocs1.len();
    for j in 0..n
        invariant
            n == pocs1@.len(),
            row@.len() == j,
            forall|k: int|
                0 <= k < j ==> row_weights(row@)[k] == implicit_weights(
                    curr_poc as int,
                    poc0 as int,
                    #[trigger] pocs1@[k] as int,
                ),
    {
        let ghost before = row@;
        row.push(implicit_weight(curr_poc, poc0, pocs1[j]));
        assert forall|k: int| 0 <= k < j + 1 implies row_weights(row@)[k] == implicit_weights(
            curr_poc as int,
            poc0 as int,
            #[trigger] pocs1@[k] as int,
        ) by {
            if k < j {
                assert(row_weights(row@)[k] == row_weights(before)[k]);
            }
        }
    }
    assert(row_weights(row@) =~= Seq::new(
        pocs1@.len(),
        |j: int| implicit_weights(curr_poc as int, poc0 as int, pocs1@[j] as int),
    ));
    row
}

/// Tabulates the weights of every pair of references.
pub fn implicit_weight_table(curr_poc: i32, pocs0: &Vec<i32>, pocs1: &Vec<i32>) -> (table: Vec<
    Vec<ImplicitWeight>,
>)
    ensures
        table_weights(table@) == weight_table(curr_poc, pocs0@, pocs1@),
{
    let mut table: Vec<Vec<ImplicitWeight>> = Vec::new();
    let n: usize = pocs0.len();
    for i in 0..n
        invariant
            n == pocs0@.len(),
            table@.len() == i,
            forall|k: int|
                0 <= k < i ==> row_weights((#[trigger] table@[k])@) == weight_table(
                    curr_poc,
                    pocs0@,
                    pocs1@,
                )[k],
    {
        let row: Vec<ImplicitWeight> = implicit_weight_row(curr_poc, pocs0[i], pocs1);
        table.push(row);
    }
    assert(table_weights(table@) =~= weight_table(curr_poc, pocs0@, pocs1@));
    table
}

} // verus!
