//! How values are spelled in bins, and that reading gives back what was spelled.
//!
//! A [`Spelling`] is what an encoder sends for a value: each bin with the context
//! that it is coded with. A source that [`sends`] a spelling is read as the
//! value, and reading stops right behind it.
use vstd::prelude::*;
use crate::bins::{ctx, Ask, CtxTable, Source};
use crate::cabac_syntax::{
    mb_type_b, mb_type_i, mb_type_p, mvd_component, mvd_prefix_from, qp_delta_bins_from,
    ref_idx_from, sub_mb_type_p,
};
use crate::error::Error;
use crate::golomb::signed_of;
use crate::grids::{CabacMbInfo, Grids};
use crate::inter::Syntax;
use crate::mb_cabac::{chroma_mode_from, chroma_pattern, luma_pattern_from};
use crate::mb_type::{mb_kind, MbKind, SliceKind};

verus! {

/// A request and its answer.
pub struct Bin {
    pub ask: Ask,
    pub value: int,
}

/// A bin coded with context `i` of a table.
pub open spec fn coded(t: CtxTable, i: int, value: int) -> Bin {
    Bin { ask: Ask::Decision(ctx(t, i)), value }
}

/// Whether the coded run ends.
pub open spec fn ending(value: int) -> Bin {
    Bin { ask: Ask::Terminate, value }
}

/// An equiprobable bin.
pub open spec fn even(value: int) -> Bin {
    Bin { ask: Ask::Bypass, value }
}

/// An equiprobable Exp-Golomb value.
pub open spec fn golomb(order: u32, value: int) -> Bin {
    Bin { ask: Ask::Suffix(order), value }
}

/// What an encoder sends for a value.
pub type Spelling = Seq<Bin>;

/// A source's answer to a request is the given one.
pub open spec fn gives(s: Source, b: Bin) -> bool {
    match b.ask {
        Ask::Suffix(_) => s.answer(b.ask) == b.value,
        _ => (s.answer(b.ask) != 0) == (b.value != 0),
    }
}

/// A source sends a spelling from bin `k` on.
pub open spec fn sends(s: Source, w: Spelling, k: int) -> bool
    decreases w.len() - k,
{
    k >= w.len() || (gives(s, w[k]) && sends(s.after(w[k].ask), w, k + 1))
}

/// The source behind a spelling from bin `k` on.
pub open spec fn past(s: Source, w: Spelling, k: int) -> Source
    decreases w.len() - k,
{
    if k >= w.len() {
        s
    } else {
        past(s.after(w[k].ask), w, k + 1)
    }
}

pub proof fn lemma_shifted(s: Source, a: Spelling, b: Spelling, j: int)
    requires
        0 <= j,
    ensures
        sends(s, a + b, a.len() + j) == sends(s, b, j),
        past(s, a + b, a.len() + j) == past(s, b, j),
    decreases b.len() - j,
{
    if j < b.len() {
        assert((a + b)[a.len() + j] == b[j]);
        lemma_shifted(s.after(b[j].ask), a, b, j + 1);
    }
}

pub proof fn lemma_joined(s: Source, a: Spelling, b: Spelling, k: int)
    requires
        0 <= k <= a.len(),
    ensures
        sends(s, a + b, k) == (sends(s, a, k) && sends(past(s, a, k), b, 0)),
        past(s, a + b, k) == past(past(s, a, k), b, 0),
    decreases a.len() - k,
{
    if k < a.len() {
        assert((a + b)[k] == a[k]);
        lemma_joined(s.after(a[k].ask), a, b, k + 1);
    } else {
        lemma_shifted(s, a, b, 0);
    }
}

// --------------------------------------------------------- macroblock types
/// The four ways of predicting a P macroblock: whole, in two halves above each
/// other, in two halves side by side, in four quadrants.
pub open spec fn type_p(v: int) -> Spelling {
    let t = CtxTable::MbTypeP;
    if v == 0 {
        seq![coded(t, 0, 0), coded(t, 1, 0), coded(t, 2, 0)]
    } else if v == 1 {
        seq![coded(t, 0, 0), coded(t, 1, 1), coded(t, 3, 1)]
    } else if v == 2 {
        seq![coded(t, 0, 0), coded(t, 1, 1), coded(t, 3, 0)]
    } else {
        seq![coded(t, 0, 0), coded(t, 1, 0), coded(t, 2, 1)]
    }
}

/// The macroblock types of a P slice are read as they are spelled.
pub proof fn law_types_of_p_slices_round_trip(s: Source, v: int)
    requires
        0 <= v <= 3,
        sends(s, type_p(v), 0),
    ensures
        mb_type_p(s) == (v, past(s, type_p(v), 0)),
{
    reveal_with_fuel(sends, 4);
    reveal_with_fuel(past, 4);
}

/// The four ways of predicting a quadrant of a P macroblock.
pub open spec fn sub_type_p(v: int) -> Spelling {
    let t = CtxTable::SubMbTypeP;
    if v == 0 {
        seq![coded(t, 0, 1)]
    } else if v == 1 {
        seq![coded(t, 0, 0), coded(t, 1, 0)]
    } else if v == 2 {
        seq![coded(t, 0, 0), coded(t, 1, 1), coded(t, 2, 1)]
    } else {
        seq![coded(t, 0, 0), coded(t, 1, 1), coded(t, 2, 0)]
    }
}

/// The sub-macroblock types of a P slice are read as they are spelled.
pub proof fn law_sub_types_of_p_slices_round_trip(s: Source, v: int)
    requires
        0 <= v <= 3,
        sends(s, sub_type_p(v), 0),
    ensures
        sub_mb_type_p(s) == (v, past(s, sub_type_p(v), 0)),
{
    reveal_with_fuel(sends, 4);
    reveal_with_fuel(past, 4);
}

/// A sixteen-by-sixteen intra prediction behind the bins that announce it:
/// whether it has luma coefficients, its chroma pattern (0, or 1 and one bin
/// more), and its mode in two bins, the higher one first. `c` are the contexts of
/// the five bins; without the second chroma bin the mode keeps its contexts.
pub open spec fn intra16(
    t: CtxTable,
    c: (int, int, int, int, int),
    luma: int,
    chroma: int,
    mode: int,
) -> Spelling {
    let head = if chroma == 0 {
        seq![coded(t, c.0, luma), coded(t, c.1, 0)]
    } else {
        seq![coded(t, c.0, luma), coded(t, c.1, 1), coded(t, c.2, chroma - 1)]
    };
    head + seq![coded(t, c.3, mode / 2), coded(t, c.4, mode % 2)]
}

proof fn lemma_intra16(
    s: Source,
    t: CtxTable,
    c: (int, int, int, int, int),
    luma: int,
    chroma: int,
    mode: int,
)
    requires
        0 <= luma <= 1,
        0 <= chroma <= 2,
        0 <= mode <= 3,
        sends(s, intra16(t, c, luma, chroma, mode), 0),
    ensures
        crate::cabac_syntax::intra16_fields(s, t, c.0, c.1, (c.2, c.3, c.4), (c.3, c.4)) == (
            1 + mode + 4 * chroma + 12 * luma,
            past(s, intra16(t, c, luma, chroma, mode), 0),
        ),
{
    reveal_with_fuel(sends, 6);
    reveal_with_fuel(past, 6);
    let w = intra16(t, c, luma, chroma, mode);
    if chroma == 0 {
        assert(w =~= seq![
            coded(t, c.0, luma),
            coded(t, c.1, 0),
            coded(t, c.3, mode / 2),
            coded(t, c.4, mode % 2),
        ]);
    } else {
        assert(w =~= seq![
            coded(t, c.0, luma),
            coded(t, c.1, 1),
            coded(t, c.2, chroma - 1),
            coded(t, c.3, mode / 2),
            coded(t, c.4, mode % 2),
        ]);
    }
}

/// The three kinds of intra macroblock.
pub enum IntraType {
    Blocks,
    Whole { luma: int, chroma: int, mode: int },
    Raw,
}

impl IntraType {
    pub open spec fn valid(self) -> bool {
        match self {
            IntraType::Whole { luma, chroma, mode } => 0 <= luma <= 1 && 0 <= chroma <= 2 && 0
                <= mode <= 3,
            _ => true,
        }
    }

    /// The macroblock that is meant: all luma coefficients or none.
    pub open spec fn kind(self) -> MbKind {
        match self {
            IntraType::Blocks => MbKind::Intra4x4,
            IntraType::Whole { luma, chroma, mode } => MbKind::Intra16x16 {
                cbp_luma: if luma == 1 {
                    15u8
                } else {
                    0u8
                },
                cbp_chroma: chroma as u8,
                pred_mode: mode as u8,
            },
            IntraType::Raw => MbKind::IPcm,
        }
    }
}

/// An intra macroblock behind a first bin: whether the run ends tells raw
/// samples from a sixteen-by-sixteen prediction.
pub open spec fn intra(first: Bin, t: CtxTable, c: (int, int, int, int, int), v: IntraType) -> Spelling {
    match v {
        IntraType::Blocks => seq![Bin { value: 0, ..first }],
        IntraType::Raw => seq![Bin { value: 1, ..first }, ending(1)],
        IntraType::Whole { luma, chroma, mode } => seq![Bin { value: 1, ..first }, ending(0)]
            + intra16(t, c, luma, chroma, mode),
    }
}

/// The macroblock types of an I slice are read as they are spelled, and mean
/// what was meant.
pub proof fn law_types_of_i_slices_round_trip(s: Source, inc: int, v: IntraType)
    requires
        0 <= inc <= 2,
        v.valid(),
        sends(s, intra(coded(CtxTable::MbTypeI, inc, 0), CtxTable::MbTypeI, (3, 4, 5, 6, 7), v), 0),
    ensures
        ({
            let w = intra(coded(CtxTable::MbTypeI, inc, 0), CtxTable::MbTypeI, (3, 4, 5, 6, 7), v);
            &&& mb_type_i(s, inc).1 == past(s, w, 0)
            &&& mb_kind(SliceKind::I, mb_type_i(s, inc).0) matches Ok(k) && k == v.kind()
        }),
{
    let t = CtxTable::MbTypeI;
    let c = (3int, 4int, 5int, 6int, 7int);
    reveal_with_fuel(sends, 3);
    reveal_with_fuel(past, 3);
    if let IntraType::Whole { luma, chroma, mode } = v {
        let head = seq![coded(t, inc, 1), ending(0)];
        lemma_joined(s, head, intra16(t, c, luma, chroma, mode), 0);
        lemma_intra16(past(s, head, 0), t, c, luma, chroma, mode);
    }
}

/// An intra macroblock of a P slice: a bin that announces it, and its type with
/// contexts of its own.
pub open spec fn intra_of_p(v: IntraType) -> Spelling {
    seq![coded(CtxTable::MbTypeP, 0, 1)] + intra(
        coded(CtxTable::MbTypeP, 3, 0),
        CtxTable::MbTypeP,
        (4, 5, 5, 6, 6),
        v,
    )
}

/// Intra macroblocks of a P slice are read as they are spelled, and mean what was
/// meant.
pub proof fn law_intra_types_of_p_slices_round_trip(s: Source, v: IntraType)
    requires
        v.valid(),
        sends(s, intra_of_p(v), 0),
    ensures
        mb_type_p(s).1 == past(s, intra_of_p(v), 0),
        mb_kind(SliceKind::P, mb_type_p(s).0) matches Ok(k) && k == v.kind(),
{
    let t = CtxTable::MbTypeP;
    let c = (4int, 5int, 5int, 6int, 6int);
    reveal_with_fuel(sends, 3);
    reveal_with_fuel(past, 3);
    let first = seq![coded(t, 0, 1)];
    let rest = intra(coded(t, 3, 0), t, c, v);
    lemma_joined(s, first, rest, 0);
    if let IntraType::Whole { luma, chroma, mode } = v {
        let head = seq![coded(t, 3, 1), ending(0)];
        lemma_joined(past(s, first, 0), head, intra16(t, c, luma, chroma, mode), 0);
        lemma_intra16(past(past(s, first, 0), head, 0), t, c, luma, chroma, mode);
    }
}

/// The bins 1 1 1 1 0 1 in front of an intra macroblock of a B slice, whose own
/// first bin takes the place of the seventh.
pub open spec fn intra_of_b(inc: int, v: IntraType) -> Spelling {
    let t = CtxTable::MbTypeB;
    seq![
        coded(t, inc, 1),
        coded(t, 3, 1),
        coded(t, 4, 1),
        coded(t, 5, 1),
        coded(t, 5, 0),
        coded(t, 5, 1),
    ] + intra(coded(t, 5, 0), t, (6, 7, 7, 8, 8), v)
}

/// Intra macroblocks of a B slice are read as they are spelled, and mean what was
/// meant.
pub proof fn law_intra_types_of_b_slices_round_trip(s: Source, inc: int, v: IntraType)
    requires
        0 <= inc <= 2,
        v.valid(),
        sends(s, intra_of_b(inc, v), 0),
    ensures
        mb_type_b(s, inc).1 == past(s, intra_of_b(inc, v), 0),
        mb_kind(SliceKind::B, mb_type_b(s, inc).0) matches Ok(k) && k == v.kind(),
{
    let t = CtxTable::MbTypeB;
    let c = (6int, 7int, 7int, 8int, 8int);
    reveal_with_fuel(sends, 7);
    reveal_with_fuel(past, 7);
    let first = seq![
        coded(t, inc, 1),
        coded(t, 3, 1),
        coded(t, 4, 1),
        coded(t, 5, 1),
        coded(t, 5, 0),
        coded(t, 5, 1),
    ];
    let rest = intra(coded(t, 5, 0), t, c, v);
    lemma_joined(s, first, rest, 0);
    if let IntraType::Whole { luma, chroma, mode } = v {
        let head = seq![coded(t, 5, 1), ending(0)];
        lemma_joined(past(s, first, 0), head, intra16(t, c, luma, chroma, mode), 0);
        lemma_intra16(past(past(s, first, 0), head, 0), t, c, luma, chroma, mode);
    }
}

/// The inter types of a B slice. Behind the first three bins everything is coded
/// with context 5.
pub open spec fn type_b(inc: int, v: int) -> Spelling {
    let t = CtxTable::MbTypeB;
    if v == 0 {
        seq![coded(t, inc, 0)]
    } else if v <= 2 {
        seq![coded(t, inc, 1), coded(t, 3, 0), coded(t, 5, v - 1)]
    } else {
        let bins: Seq<int> = if v == 3 {
            seq![0, 0, 0, 0]
        } else if v == 4 {
            seq![0, 0, 0, 1]
        } else if v == 5 {
            seq![0, 0, 1, 0]
        } else if v == 6 {
            seq![0, 0, 1, 1]
        } else if v == 7 {
            seq![0, 1, 0, 0]
        } else if v == 8 {
            seq![0, 1, 0, 1]
        } else if v == 9 {
            seq![0, 1, 1, 0]
        } else if v == 10 {
            seq![0, 1, 1, 1]
        } else if v == 11 {
            seq![1, 1, 1, 0]
        } else if v == 12 {
            seq![1, 0, 0, 0, 0]
        } else if v == 13 {
            seq![1, 0, 0, 0, 1]
        } else if v == 14 {
            seq![1, 0, 0, 1, 0]
        } else if v == 15 {
            seq![1, 0, 0, 1, 1]
        } else if v == 16 {
            seq![1, 0, 1, 0, 0]
        } else if v == 17 {
            seq![1, 0, 1, 0, 1]
        } else if v == 18 {
            seq![1, 0, 1, 1, 0]
        } else if v == 19 {
            seq![1, 0, 1, 1, 1]
        } else if v == 20 {
            seq![1, 1, 0, 0, 0]
        } else if v == 21 {
            seq![1, 1, 0, 0, 1]
        } else {
            seq![1, 1, 1, 1]
        };
        Seq::new(
            2 + bins.len(),
            |k: int|
                if k == 0 {
                    coded(t, inc, 1)
                } else if k == 1 {
                    coded(t, 3, 1)
                } else if k == 2 {
                    coded(t, 4, bins[0])
                } else {
                    coded(t, 5, bins[k - 2])
                },
        )
    }
}

/// The inter types of a B slice are read as they are spelled.
#[verifier::rlimit(60)]
pub proof fn law_types_of_b_slices_round_trip(s: Source, inc: int, v: int)
    requires
        0 <= inc <= 2,
        0 <= v <= 22,
        sends(s, type_b(inc, v), 0),
    ensures
        mb_type_b(s, inc) == (v, past(s, type_b(inc, v), 0)),
{
    reveal_with_fuel(sends, 8);
    reveal_with_fuel(past, 8);
}

// ------------------------------------------------------------ unary elements
/// As many ones as the value says, and a zero unless the value is the largest.
/// `c` gives the context of each bin.
pub open spec fn unary(t: CtxTable, c: spec_fn(int) -> int, v: int, largest: int) -> Spelling {
    Seq::new(
        (if v < largest {
            v + 1
        } else {
            largest
        }) as nat,
        |k: int|
            coded(
                t,
                c(k),
                if k < v {
                    1
                } else {
                    0
                },
            ),
    )
}

/// The contexts of a reference index: the neighbours choose the first, the second
/// bin has one of its own, and all others share one.
pub open spec fn ref_idx_contexts(inc: int) -> spec_fn(int) -> int {
    |k: int|
        if k == 0 {
            inc
        } else if k == 1 {
            4
        } else {
            5
        }
}

proof fn lemma_ref_idx(s: Source, inc: int, v: int, n: int)
    requires
        0 <= inc <= 3,
        0 <= n <= v <= 32,
        sends(s, unary(CtxTable::RefIdx, ref_idx_contexts(inc), v, 32), n),
    ensures
        ref_idx_from(s, n, inc) == (
            v,
            past(s, unary(CtxTable::RefIdx, ref_idx_contexts(inc), v, 32), n),
        ),
    decreases v - n,
{
    let w = unary(CtxTable::RefIdx, ref_idx_contexts(inc), v, 32);
    reveal_with_fuel(sends, 3);
    reveal_with_fuel(past, 3);
    if n < v {
        lemma_ref_idx(s.after(w[n].ask), inc, v, n + 1);
    }
}

/// Reference indices are read as they are spelled.
pub proof fn law_reference_indices_round_trip(s: Source, inc: int, v: int)
    requires
        0 <= inc <= 3,
        0 <= v <= 32,
        sends(s, unary(CtxTable::RefIdx, ref_idx_contexts(inc), v, 32), 0),
    ensures
        ref_idx_from(s, 0, inc) == (
            v,
            past(s, unary(CtxTable::RefIdx, ref_idx_contexts(inc), v, 32), 0),
        ),
{
    lemma_ref_idx(s, inc, v, 0);
}

/// The contexts of a chroma mode.
pub open spec fn chroma_mode_contexts(inc: int) -> spec_fn(int) -> int {
    |k: int|
        if k == 0 {
            inc
        } else {
            3
        }
}

/// Chroma prediction modes are read as they are spelled.
pub proof fn law_chroma_modes_round_trip(s: Source, inc: int, v: int)
    requires
        0 <= inc <= 2,
        0 <= v <= 3,
        sends(s, unary(CtxTable::IntraChroma, chroma_mode_contexts(inc), v, 3), 0),
    ensures
        chroma_mode_from(s, inc, 0) == (
            v,
            past(s, unary(CtxTable::IntraChroma, chroma_mode_contexts(inc), v, 3), 0),
        ),
{
    reveal_with_fuel(sends, 5);
    reveal_with_fuel(past, 5);
    reveal_with_fuel(chroma_mode_from, 5);
}

/// The contexts of a quantiser difference.
pub open spec fn qp_delta_contexts(inc: int) -> spec_fn(int) -> int {
    |k: int|
        if k == 0 {
            inc
        } else if k == 1 {
            2
        } else {
            3
        }
}

/// The place of a difference in the order 0, 1, -1, 2, -2 and so on.
pub open spec fn alternating(v: int) -> int {
    if v > 0 {
        2 * v - 1
    } else {
        -2 * v
    }
}

proof fn lemma_qp_delta(s: Source, inc: int, u: int, n: int)
    requires
        0 <= inc <= 1,
        0 <= n <= u < 64,
        sends(s, unary(CtxTable::QpDelta, qp_delta_contexts(inc), u, 64), n),
    ensures
        qp_delta_bins_from(s, n, inc, 64) == (
            u,
            past(s, unary(CtxTable::QpDelta, qp_delta_contexts(inc), u, 64), n),
        ),
    decreases u - n,
{
    let w = unary(CtxTable::QpDelta, qp_delta_contexts(inc), u, 64);
    reveal_with_fuel(sends, 3);
    reveal_with_fuel(past, 3);
    if n < u {
        lemma_qp_delta(s.after(w[n].ask), inc, u, n + 1);
    }
}

/// Quantiser differences are read as they are spelled.
pub proof fn law_quantiser_differences_round_trip(s: Source, inc: int, v: int)
    requires
        0 <= inc <= 1,
        -31 <= v <= 32,
        sends(s, unary(CtxTable::QpDelta, qp_delta_contexts(inc), alternating(v), 64), 0),
    ensures
        signed_of(qp_delta_bins_from(s, 0, inc, 64).0) == v,
        qp_delta_bins_from(s, 0, inc, 64).1 == past(
            s,
            unary(CtxTable::QpDelta, qp_delta_contexts(inc), alternating(v), 64),
            0,
        ),
{
    lemma_qp_delta(s, inc, alternating(v), 0);
}

/// The contexts of a vector difference: the first by how much the neighbours
/// differ together, less than 3, up to 32, or more.
pub open spec fn mvd_contexts(sum: int) -> spec_fn(int) -> int {
    |k: int|
        if k == 0 {
            if sum < 3 {
                0
            } else if sum <= 32 {
                1
            } else {
                2
            }
        } else if k == 1 {
            3
        } else if k == 2 {
            4
        } else if k == 3 {
            5
        } else {
            6
        }
}

/// The magnitude of a number.
pub open spec fn size(v: int) -> int {
    if v < 0 {
        -v
    } else {
        v
    }
}

/// A component of a vector difference: up to nine in unary, what is beyond nine
/// in an Exp-Golomb code of order 3, and a sign unless it is 0.
pub open spec fn mvd(t: CtxTable, sum: int, v: int) -> Spelling {
    let head = unary(
        t,
        mvd_contexts(sum),
        if size(v) < 9 {
            size(v)
        } else {
            9
        },
        9,
    );
    let sign = even(
        if v < 0 {
            1
        } else {
            0
        },
    );
    if v == 0 {
        head
    } else if size(v) < 9 {
        head + seq![sign]
    } else {
        head + seq![golomb(3, size(v) - 9), sign]
    }
}

proof fn lemma_mvd_prefix(s: Source, t: CtxTable, sum: int, u: int, n: int)
    requires
        0 <= n <= u <= 9,
        sends(s, unary(t, mvd_contexts(sum), u, 9), n),
    ensures
        mvd_prefix_from(s, t, n, sum) == (u, past(s, unary(t, mvd_contexts(sum), u, 9), n)),
    decreases u - n,
{
    let w = unary(t, mvd_contexts(sum), u, 9);
    reveal_with_fuel(sends, 3);
    reveal_with_fuel(past, 3);
    if n < u {
        lemma_mvd_prefix(s.after(w[n].ask), t, sum, u, n + 1);
    }
}

/// Components of vector differences are read as they are spelled.
pub proof fn law_vector_differences_round_trip(s: Source, t: CtxTable, sum: int, v: int)
    requires
        -i32::MAX <= v <= i32::MAX,
        sends(s, mvd(t, sum, v), 0),
    ensures
        mvd_component(s, t, sum) == (v, past(s, mvd(t, sum, v), 0)),
{
    let u = if size(v) < 9 {
        size(v)
    } else {
        9
    };
    let head = unary(t, mvd_contexts(sum), u, 9);
    let sign = even(
        if v < 0 {
            1
        } else {
            0
        },
    );
    let tail = if v == 0 {
        Seq::<Bin>::empty()
    } else if size(v) < 9 {
        seq![sign]
    } else {
        seq![golomb(3, size(v) - 9), sign]
    };
    assert(mvd(t, sum, v) =~= head + tail);
    lemma_joined(s, head, tail, 0);
    lemma_mvd_prefix(s, t, sum, u, 0);
    reveal_with_fuel(sends, 4);
    reveal_with_fuel(past, 4);
}

// ------------------------------------------------------------ fixed lengths
/// An intra prediction mode: a one where it is the predicted one, otherwise a
/// zero and the place among the remaining modes, its lowest bin first.
pub open spec fn remaining_mode(v: int) -> Spelling {
    seq![
        coded(CtxTable::PrevIntra4x4, 0, 0),
        coded(CtxTable::RemIntra4x4, 0, v % 2),
        coded(CtxTable::RemIntra4x4, 0, v / 2 % 2),
        coded(CtxTable::RemIntra4x4, 0, v / 4),
    ]
}

/// Intra prediction modes are read as they are spelled.
pub proof fn law_intra_modes_round_trip(s: Source, v: int)
    requires
        0 <= v <= 7,
    ensures
        sends(s, seq![coded(CtxTable::PrevIntra4x4, 0, 1)], 0) ==> Syntax::Bins(s).pred_mode() == Ok::<
            ((bool, u8), Syntax),
            Error,
        >(((true, 0), Syntax::Bins(past(s, seq![coded(CtxTable::PrevIntra4x4, 0, 1)], 0)))),
        sends(s, remaining_mode(v), 0) ==> Syntax::Bins(s).pred_mode() == Ok::<
            ((bool, u8), Syntax),
            Error,
        >(((false, v as u8), Syntax::Bins(past(s, remaining_mode(v), 0)))),
{
    reveal_with_fuel(sends, 5);
    reveal_with_fuel(past, 5);
}

// ------------------------------------------------------------------- patterns
/// Whether quadrant `q` of a neighbouring macroblock is known to have no luma
/// coefficients.
pub open spec fn empty_quadrant(n: Option<CabacMbInfo>, q: int) -> int {
    match n {
        None => 0,
        Some(info) => if info.is_ipcm {
            0
        } else if info.skipped {
            1
        } else {
            1 - luma_bit(info.cbp_luma as int, q)
        },
    }
}

/// Bit `q` of a luma pattern: whether quadrant `q` has coefficients.
pub open spec fn luma_bit(pattern: int, q: int) -> int {
    if q == 0 {
        pattern % 2
    } else if q == 1 {
        pattern / 2 % 2
    } else if q == 2 {
        pattern / 4 % 2
    } else {
        pattern / 8 % 2
    }
}

/// A luma pattern: for each quadrant whether it has coefficients. The context
/// counts 1 for an empty quadrant on the left and 2 for an empty one above; of
/// the outer quadrants those lie in the neighbouring macroblocks.
pub open spec fn luma_pattern(left: Option<CabacMbInfo>, above: Option<CabacMbInfo>, v: int) -> Spelling {
    let t = CtxTable::CbpLuma;
    let (b0, b1, b2, b3) = (luma_bit(v, 0), luma_bit(v, 1), luma_bit(v, 2), luma_bit(v, 3));
    seq![
        coded(t, empty_quadrant(left, 1) + 2 * empty_quadrant(above, 2), b0),
        coded(t, (1 - b0) + 2 * empty_quadrant(above, 3), b1),
        coded(t, empty_quadrant(left, 3) + 2 * (1 - b0), b2),
        coded(t, (1 - b2) + 2 * (1 - b1), b3),
    ]
}

/// Luma patterns are read as they are spelled.
#[verifier::rlimit(40)]
pub proof fn law_luma_patterns_round_trip(s: Source, g: Grids, mb_x: int, mb_y: int, v: int)
    requires
        0 <= v <= 15,
        g.left_of(mb_x, mb_y) matches Some(i) ==> i.cbp_luma <= 15,
        g.above(mb_x, mb_y) matches Some(i) ==> i.cbp_luma <= 15,
        sends(s, luma_pattern(g.left_of(mb_x, mb_y), g.above(mb_x, mb_y), v), 0),
    ensures
        luma_pattern_from(s, g, mb_x, mb_y, 0, 0) == (
            v as u8,
            past(s, luma_pattern(g.left_of(mb_x, mb_y), g.above(mb_x, mb_y), v), 0),
        ),
{
    reveal_with_fuel(sends, 5);
    reveal_with_fuel(past, 5);
    reveal_with_fuel(luma_pattern_from, 6);
}

/// Whether a neighbouring macroblock has chroma coefficients, or has more than
/// the DC ones. Raw samples count as both.
pub open spec fn has_chroma(n: Option<CabacMbInfo>, beyond_dc: bool) -> int {
    match n {
        None => 0,
        Some(info) => if info.is_ipcm {
            1
        } else if info.skipped {
            0
        } else if beyond_dc {
            if info.cbp_chroma == 2 {
                1
            } else {
                0
            }
        } else if info.cbp_chroma == 0 {
            0
        } else {
            1
        },
    }
}

/// A chroma pattern: nothing, the DC coefficients, or all.
pub open spec fn chroma_word(left: Option<CabacMbInfo>, above: Option<CabacMbInfo>, v: int) -> Spelling {
    let t = CtxTable::CbpChroma;
    let first = has_chroma(left, false) + 2 * has_chroma(above, false);
    let second = 4 + has_chroma(left, true) + 2 * has_chroma(above, true);
    if v == 0 {
        seq![coded(t, first, 0)]
    } else {
        seq![coded(t, first, 1), coded(t, second, v - 1)]
    }
}

/// Chroma patterns are read as they are spelled.
pub proof fn law_chroma_patterns_round_trip(s: Source, g: Grids, mb_x: int, mb_y: int, v: int)
    requires
        0 <= v <= 2,
        sends(s, chroma_word(g.left_of(mb_x, mb_y), g.above(mb_x, mb_y), v), 0),
    ensures
        chroma_pattern(s, g, mb_x, mb_y) == (
            v as u8,
            past(s, chroma_word(g.left_of(mb_x, mb_y), g.above(mb_x, mb_y), v), 0),
        ),
{
    reveal_with_fuel(sends, 3);
    reveal_with_fuel(past, 3);
}

} // verus!
