//! Motion vector prediction: the median predictor with its directional
//! shortcuts, and the skipped macroblock's vector.
use vstd::prelude::*;

verus! {

/// A neighbouring block as one reference list sees it. An intra neighbour, and
/// one that predicts from the other list only, is available with reference -1
/// and zero motion.
#[derive(Debug, Clone, Copy, PartialEq, Eq)]
pub struct Neighbour {
    pub available: bool,
    pub ref_idx: i8,
    pub mv: (i16, i16),
}

/// The partition shapes whose prediction differs.
#[derive(Debug, Clone, Copy, PartialEq, Eq, Structural)]
pub enum PartitionShape {
    Whole,
    Top16x8,
    Bottom16x8,
    Left8x16,
    Right8x16,
}

/// The middle one of three values.
pub open spec fn median3(a: int, b: int, c: int) -> int {
    if (a <= b && b <= c) || (c <= b && b <= a) {
        b
    } else if (b <= a && a <= c) || (c <= a && a <= b) {
        a
    } else {
        c
    }
}

fn median(a: i16, b: i16, c: i16) -> (m: i16)
    ensures
        m == median3(a as int, b as int, c as int),
{
    if (a <= b && b <= c) || (c <= b && b <= a) {
        b
    } else if (b <= a && a <= c) || (c <= a && a <= b) {
        a
    } else {
        c
    }
}

/// The median prediction: the left vector when neither neighbour above is
/// available but the left one is; the vector of the only neighbour with the
/// same reference; else the component-wise median.
pub open spec fn median_prediction(a: Neighbour, b: Neighbour, c: Neighbour, ref_idx: i8) -> (
    i16,
    i16,
) {
    let same_a = a.ref_idx == ref_idx;
    let same_b = b.ref_idx == ref_idx;
    let same_c = c.ref_idx == ref_idx;
    if !b.available && !c.available && a.available {
        a.mv
    } else if same_a && !same_b && !same_c {
        a.mv
    } else if !same_a && same_b && !same_c {
        b.mv
    } else if !same_a && !same_b && same_c {
        c.mv
    } else {
        (
            median3(a.mv.0 as int, b.mv.0 as int, c.mv.0 as int) as i16,
            median3(a.mv.1 as int, b.mv.1 as int, c.mv.1 as int) as i16,
        )
    }
}

/// The predicted vector of a partition. A two-part macroblock takes the vector
/// of one fixed neighbour where that has the same reference.
pub open spec fn predicted_mv(
    shape: PartitionShape,
    a: Neighbour,
    b: Neighbour,
    c: Neighbour,
    ref_idx: i8,
) -> (i16, i16) {
    match shape {
        PartitionShape::Top16x8 if b.ref_idx == ref_idx => b.mv,
        PartitionShape::Bottom16x8 if a.ref_idx == ref_idx => a.mv,
        PartitionShape::Left8x16 if a.ref_idx == ref_idx => a.mv,
        PartitionShape::Right8x16 if c.ref_idx == ref_idx => c.mv,
        _ => median_prediction(a, b, c, ref_idx),
    }
}

pub fn predict_mv(
    shape: PartitionShape,
    a: Neighbour,
    b: Neighbour,
    c: Neighbour,
    ref_idx: i8,
) -> (mv: (i16, i16))
    ensures
        mv == predicted_mv(shape, a, b, c, ref_idx),
{
    let same_a: bool = a.ref_idx == ref_idx;
    let same_b: bool = b.ref_idx == ref_idx;
    let same_c: bool = c.ref_idx == ref_idx;
    let fixed: Option<(i16, i16)> = match shape {
        PartitionShape::Top16x8 => if same_b {
            Some(b.mv)
        } else {
            None
        },
        PartitionShape::Bottom16x8 | PartitionShape::Left8x16 => if same_a {
            Some(a.mv)
        } else {
            None
        },
        PartitionShape::Right8x16 => if same_c {
            Some(c.mv)
        } else {
            None
        },
        PartitionShape::Whole => None,
    };
    match fixed {
        Some(mv) => mv,
        None => {
            if !b.available && !c.available && a.available {
                a.mv
            } else if same_a && !same_b && !same_c {
                a.mv
            } else if !same_a && same_b && !same_c {
                b.mv
            } else if !same_a && !same_b && same_c {
                c.mv
            } else {
                (median(a.mv.0, b.mv.0, c.mv.0), median(a.mv.1, b.mv.1, c.mv.1))
            }
        },
    }
}

/// Whether a neighbour forces a skipped macroblock to stand still: it is not
/// available, or it does not move against the first reference.
pub open spec fn still(n: Neighbour) -> bool {
    !n.available || (n.ref_idx == 0 && n.mv == (0i16, 0i16))
}

/// The vector of a skipped macroblock.
pub open spec fn skip_mv(a: Neighbour, b: Neighbour, c: Neighbour) -> (i16, i16) {
    if still(a) || still(b) {
        (0, 0)
    } else {
        median_prediction(a, b, c, 0)
    }
}

pub fn p_skip_mv(a: Neighbour, b: Neighbour, c: Neighbour) -> (mv: (i16, i16))
    ensures
        mv == skip_mv(a, b, c),
{
    let still_a: bool = !a.available || (a.ref_idx == 0 && a.mv.0 == 0 && a.mv.1 == 0);
    let still_b: bool = !b.available || (b.ref_idx == 0 && b.mv.0 == 0 && b.mv.1 == 0);
    if still_a || still_b {
        return (0, 0);
    }
    predict_mv(PartitionShape::Whole, a, b, c, 0)
}

/// Whatever the shape, a predicted component lies between the smallest and the
/// largest of the three neighbours' own.
pub proof fn law_prediction_stays_between_neighbours(
    shape: PartitionShape,
    a: Neighbour,
    b: Neighbour,
    c: Neighbour,
    ref_idx: i8,
)
    ensures
        ({
            let x = predicted_mv(shape, a, b, c, ref_idx).0;
            let lo = if a.mv.0 <= b.mv.0 && a.mv.0 <= c.mv.0 {
                a.mv.0
            } else if b.mv.0 <= c.mv.0 {
                b.mv.0
            } else {
                c.mv.0
            };
            let hi = if a.mv.0 >= b.mv.0 && a.mv.0 >= c.mv.0 {
                a.mv.0
            } else if b.mv.0 >= c.mv.0 {
                b.mv.0
            } else {
                c.mv.0
            };
            lo <= x <= hi
        }),
{
}

/// With all three neighbours moving alike, that motion is predicted.
pub proof fn law_uniform_motion_is_predicted(
    shape: PartitionShape,
    a: Neighbour,
    b: Neighbour,
    c: Neighbour,
    ref_idx: i8,
)
    requires
        a.mv == b.mv && b.mv == c.mv,
    ensures
        predicted_mv(shape, a, b, c, ref_idx) == a.mv,
{
}

} // verus!
