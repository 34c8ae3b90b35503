//! Arithmetic-coded coefficients: reading gives back the coefficients that were
//! spelled.
use vstd::prelude::*;
use crate::binarisation::{even, golomb, lemma_joined, past, sends, size, Bin, Spelling};
use crate::bins::{ctx, Ask, Ctx, CtxTable, Source};
use crate::cabac_residual::{
    coded_levels, level_prefix_from, magnitude_minus1, map_from, residual, Block, ContextCategory,
};
use crate::residual_tables::{POS2CTX_LAST8X8, POS2CTX_MAP8X8};

verus! {

/// A bin coded with a context.
pub open spec fn with_context(c: Ctx, value: int) -> Bin {
    Bin { ask: Ask::Decision(c), value }
}

/// The places of the coefficients that are not zero among the first `n`.
pub open spec fn places(c: Seq<i32>, n: int) -> Seq<u8>
    decreases n,
{
    if n <= 0 {
        Seq::empty()
    } else if c[n - 1] != 0 {
        places(c, n - 1).push((n - 1) as u8)
    } else {
        places(c, n - 1)
    }
}

/// The coefficients that are not zero among the first `n`.
pub open spec fn values(c: Seq<i32>, n: int) -> Seq<i32>
    decreases n,
{
    if n <= 0 {
        Seq::empty()
    } else if c[n - 1] != 0 {
        values(c, n - 1).push(c[n - 1])
    } else {
        values(c, n - 1)
    }
}

/// No coefficient from place `i` on differs from zero.
pub open spec fn zero_from(c: Seq<i32>, i: int) -> bool {
    forall|j: int| i <= j < c.len() ==> #[trigger] c[j] == 0
}

/// The context that says whether a place holds a coefficient. Each place of a
/// block of up to sixteen has its own; those of a block of sixty-four share
/// fifteen.
pub open spec fn place_context(cat: ContextCategory, i: int) -> Ctx {
    if cat is Luma8x8 {
        ctx(CtxTable::Significant(cat), POS2CTX_MAP8X8[i] as int)
    } else {
        ctx(CtxTable::Significant(cat), i)
    }
}

/// The context that says whether a coefficient is the last.
pub open spec fn end_context(cat: ContextCategory, i: int) -> Ctx {
    if cat is Luma8x8 {
        ctx(CtxTable::Last(cat), POS2CTX_LAST8X8[i] as int)
    } else {
        ctx(CtxTable::Last(cat), i)
    }
}

/// Where the coefficients are, from place `i` on: for each place whether it holds
/// one, and for each that does whether it is the last. Nothing is said of the
/// final place: a coefficient that was not the last leaves one for it.
pub open spec fn places_word(cat: ContextCategory, c: Seq<i32>, i: int) -> Spelling
    decreases c.len() - i,
{
    if i >= c.len() - 1 {
        Seq::empty()
    } else if c[i] == 0 {
        seq![with_context(place_context(cat, i), 0)] + places_word(cat, c, i + 1)
    } else if zero_from(c, i + 1) {
        seq![with_context(place_context(cat, i), 1), with_context(end_context(cat, i), 1)]
    } else {
        seq![with_context(place_context(cat, i), 1), with_context(end_context(cat, i), 0)]
            + places_word(cat, c, i + 1)
    }
}

/// The context of bin `k` of a magnitude. The first bin goes by how many ones
/// came before, as long as nothing larger did; the others by how many larger ones.
pub open spec fn magnitude_context(cat: ContextCategory, k: int, ones: int, larger: int) -> Ctx {
    if k == 0 && larger > 0 {
        ctx(CtxTable::AbsFirst(cat), 0)
    } else if k == 0 {
        ctx(
            CtxTable::AbsFirst(cat),
            if ones >= 3 {
                4
            } else {
                ones + 1
            },
        )
    } else {
        ctx(
            CtxTable::AbsRest(cat),
            if larger >= 4 {
                4
            } else {
                larger
            },
        )
    }
}

/// A magnitude, one less than itself: up to fourteen in unary, what is beyond in
/// an Exp-Golomb code of order 0.
pub open spec fn magnitude_word(cat: ContextCategory, m: int, ones: int, larger: int) -> Spelling {
    let head = magnitude_head(cat, m, ones, larger);
    if m < 15 {
        head
    } else {
        head + seq![golomb(0, m - 15)]
    }
}

/// The unary bins of a magnitude.
pub open spec fn magnitude_head(cat: ContextCategory, m: int, ones: int, larger: int) -> Spelling {
    Seq::new(
        (if m < 15 {
            m
        } else {
            14
        }) as nat,
        |k: int|
            with_context(
                magnitude_context(cat, k, ones, larger),
                if k < m - 1 {
                    1
                } else {
                    0
                },
            ),
    )
}

/// The coefficients in front of place `i`, the last first: each its magnitude
/// and its sign.
pub open spec fn levels_word(cat: ContextCategory, c: Seq<i32>, i: int, ones: int, larger: int) -> Spelling
    decreases i,
{
    if i <= 0 {
        Seq::empty()
    } else if c[i - 1] == 0 {
        levels_word(cat, c, i - 1, ones, larger)
    } else {
        let m = size(c[i - 1] as int);
        magnitude_word(cat, m, ones, larger) + seq![
            even(
                if c[i - 1] < 0 {
                    1
                } else {
                    0
                },
            ),
        ] + levels_word(
            cat,
            c,
            i - 1,
            if m == 1 {
                ones + 1
            } else {
                ones
            },
            if m == 1 {
                larger
            } else {
                larger + 1
            },
        )
    }
}

proof fn lemma_rest_is_zero(c: Seq<i32>, k: int, n: int)
    requires
        0 <= k <= n <= c.len(),
        forall|j: int| k <= j < n ==> #[trigger] c[j] == 0,
    ensures
        places(c, n) == places(c, k),
        values(c, n) == values(c, k),
    decreases n - k,
{
    if k < n {
        lemma_rest_is_zero(c, k, n - 1);
    }
}

proof fn lemma_as_many(c: Seq<i32>, n: int)
    requires
        0 <= n <= c.len(),
    ensures
        places(c, n).len() == values(c, n).len() <= n,
    decreases n,
{
    if n > 0 {
        lemma_as_many(c, n - 1);
    }
}

proof fn lemma_places(s: Source, cat: ContextCategory, c: Seq<i32>, i: int)
    requires
        0 <= i < c.len() <= 64,
        !(cat is Luma8x8) ==> c.len() <= 16,
        !zero_from(c, i),
        sends(s, places_word(cat, c, i), 0),
    ensures
        map_from(s, cat, i, c.len() - 1, places(c, i)) == (
            places(c, c.len() as int),
            past(s, places_word(cat, c, i), 0),
        ),
    decreases c.len() - i,
{
    let last = c.len() - 1;
    let w = places_word(cat, c, i);
    reveal_with_fuel(sends, 3);
    reveal_with_fuel(past, 3);
    if i < last {
        let rest = places_word(cat, c, i + 1);
        if c[i] == 0 {
            let first = seq![with_context(place_context(cat, i), 0)];
            lemma_joined(s, first, rest, 0);
            lemma_places(past(s, first, 0), cat, c, i + 1);
        } else if zero_from(c, i + 1) {
            lemma_rest_is_zero(c, i + 1, c.len() as int);
        } else {
            let first = seq![
                with_context(place_context(cat, i), 1),
                with_context(end_context(cat, i), 0),
            ];
            lemma_joined(s, first, rest, 0);
            lemma_places(past(s, first, 0), cat, c, i + 1);
        }
    }
}

proof fn lemma_head(s: Source, cat: ContextCategory, m: int, ones: int, larger: int, n: int)
    requires
        1 <= m,
        0 <= n <= m - 1,
        n <= 14,
        0 <= ones,
        0 <= larger,
        sends(s, magnitude_head(cat, m, ones, larger), n),
    ensures
        level_prefix_from(s, cat, n, ones, larger) == (
            (if m < 15 {
                m - 1
            } else {
                14
            }),
            past(s, magnitude_head(cat, m, ones, larger), n),
        ),
    decreases 14 - n,
{
    let w = magnitude_head(cat, m, ones, larger);
    reveal_with_fuel(sends, 2);
    reveal_with_fuel(past, 2);
    if n < 14 && n < m - 1 {
        lemma_head(s.after(w[n].ask), cat, m, ones, larger, n + 1);
    }
}

proof fn lemma_magnitude(s: Source, cat: ContextCategory, m: int, ones: int, larger: int)
    requires
        1 <= m <= i32::MAX,
        0 <= ones,
        0 <= larger,
        sends(s, magnitude_word(cat, m, ones, larger), 0),
    ensures
        magnitude_minus1(s, cat, ones, larger) == (
            (m - 1) as u32,
            past(s, magnitude_word(cat, m, ones, larger), 0),
        ),
{
    let head = magnitude_head(cat, m, ones, larger);
    if m >= 15 {
        lemma_joined(s, head, seq![golomb(0, m - 15)], 0);
        reveal_with_fuel(sends, 3);
        reveal_with_fuel(past, 3);
    }
    lemma_head(s, cat, m, ones, larger, 0);
}

proof fn lemma_sign(m: u32, v: i32)
    requires
        v != 0,
        v != i32::MIN,
        m == size(v as int),
    ensures
        crate::cabac_residual::signed_level(m, v < 0) == v,
{
}

#[verifier::rlimit(30)]
proof fn lemma_levels(
    s: Source,
    cat: ContextCategory,
    c: Seq<i32>,
    i: int,
    k: int,
    n: int,
    ones: int,
    larger: int,
    acc: Seq<i32>,
)
    requires
        0 <= i <= c.len(),
        n - k == values(c, i).len(),
        0 <= ones,
        0 <= larger,
        forall|j: int| 0 <= j < c.len() ==> #[trigger] c[j] != i32::MIN,
        sends(s, levels_word(cat, c, i, ones, larger), 0),
    ensures
        coded_levels(s, cat, k, n, ones, larger, acc) == (
            acc + values(c, i).reverse(),
            past(s, levels_word(cat, c, i, ones, larger), 0),
        ),
    decreases i,
{
    if i > 0 {
        if c[i - 1] == 0 {
            lemma_levels(s, cat, c, i - 1, k, n, ones, larger, acc);
        } else {
            let v = c[i - 1];
            let m = size(v as int);
            let word = magnitude_word(cat, m, ones, larger);
            let sign = seq![
                even(
                    if v < 0 {
                        1
                    } else {
                        0
                    },
                ),
            ];
            let (o, l) = if m == 1 {
                (ones + 1, larger)
            } else {
                (ones, larger + 1)
            };
            let rest = levels_word(cat, c, i - 1, o, l);
            assert(levels_word(cat, c, i, ones, larger) == word + sign + rest);
            lemma_joined(s, word + sign, rest, 0);
            lemma_joined(s, word, sign, 0);
            lemma_magnitude(s, cat, m, ones, larger);
            let s1 = past(s, word, 0);
            assert(sends(s1, sign, 0) && past(s1, sign, 0) == s1.after(Ask::Bypass) && (s1.answer(
                Ask::Bypass,
            ) != 0) == (v < 0)) by {
                reveal_with_fuel(sends, 2);
                reveal_with_fuel(past, 2);
            }
            lemma_sign(m as u32, v);
            lemma_levels(past(s1, sign, 0), cat, c, i - 1, k + 1, n, o, l, acc.push(v));
            assert(values(c, i).reverse() =~= seq![v] + values(c, i - 1).reverse());
            assert(acc.push(v) + values(c, i - 1).reverse() =~= acc + values(c, i).reverse());
        }
    } else {
        assert(values(c, i).reverse() =~= Seq::<i32>::empty());
        assert(acc + values(c, i).reverse() =~= acc);
    }
}

/// A block of coefficients is read as it is spelled: what is stored is where
/// those that are not zero are, and what they are, from the first to the last.
pub proof fn law_coefficients_round_trip(s: Source, cat: ContextCategory, c: Seq<i32>, room: int)
    requires
        0 < c.len() <= 64,
        !(cat is Luma8x8) ==> c.len() <= 16,
        !zero_from(c, 0),
        forall|j: int| 0 <= j < c.len() ==> #[trigger] c[j] != i32::MIN,
        sends(s, places_word(cat, c, 0) + levels_word(cat, c, c.len() as int, 0, 0), 0),
        room >= 5 * c.len(),
    ensures
        residual(s, cat, c.len() as u8, room) == Ok::<(Block, Source), crate::error::Error>(
            (
                Block {
                    levels: values(c, c.len() as int),
                    positions: places(c, c.len() as int),
                    reserved: c.len() as u8,
                },
                past(s, places_word(cat, c, 0) + levels_word(cat, c, c.len() as int, 0, 0), 0),
            ),
        ),
{
    let n = c.len() as int;
    let (a, b) = (places_word(cat, c, 0), levels_word(cat, c, n, 0, 0));
    lemma_joined(s, a, b, 0);
    lemma_places(s, cat, c, 0);
    lemma_as_many(c, n);
    lemma_levels(
        past(s, a, 0),
        cat,
        c,
        n,
        0,
        places(c, n).len() as int,
        0,
        0,
        Seq::<i32>::empty(),
    );
    assert(Seq::<i32>::empty() + values(c, n).reverse() =~= values(c, n).reverse());
    assert(values(c, n).reverse().reverse() =~= values(c, n));
}

} // verus!
