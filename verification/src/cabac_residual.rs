//! Arithmetic-coded decoding of one residual block: the significance map
//! forward, then the levels backward.
use vstd::prelude::*;
use crate::bins::{ctx, BinSource, Ctx, CtxTable, Source};
use crate::budget::Budget;
use crate::cavlc::all_nonzero;
use crate::error::Error;
use crate::residual_tables::{POS2CTX_LAST8X8, POS2CTX_MAP8X8};

verus! {

/// The kinds of residual block, each with contexts of its own.
#[derive(Debug, Clone, Copy, PartialEq, Eq, Structural)]
pub enum ContextCategory {
    /// Luma DC of a sixteen-by-sixteen intra macroblock: 16 coefficients.
    LumaDc,
    /// Luma AC of such a macroblock: 15 coefficients.
    LumaAc,
    /// Any other four-by-four luma block: 16 coefficients.
    Luma4x4,
    /// Chroma DC: 4 coefficients.
    ChromaDc,
    /// Chroma AC: 15 coefficients.
    ChromaAc,
    /// An eight-by-eight luma block: 64 coefficients, whose scan positions
    /// share contexts.
    Luma8x8,
}

/// Which column of the initialisation tables a slice uses.
#[derive(Debug, Clone, Copy, PartialEq, Eq, Structural)]
pub enum CabacInit {
    /// An intra slice.
    IorSi,
    /// Any other, with its initialisation index.
    PSpB(u8),
}

/// A decoded residual block in forward scan order.
#[derive(Debug, Clone, PartialEq, Eq)]
pub struct CabacResidual {
    /// The non-zero levels with their signs.
    pub levels: Vec<i32>,
    /// The scan position of each level, strictly increasing.
    pub positions: Vec<u8>,
    /// How many positions were reserved (and charged) for the block.
    pub reserved: u8,
}

impl Default for CabacResidual {
    fn default() -> (r: Self)
        ensures
            r@ == (Block {
                levels: Seq::<i32>::empty(),
                positions: Seq::<u8>::empty(),
                reserved: 0,
            }),
    {
        CabacResidual { levels: Vec::new(), positions: Vec::new(), reserved: 0 }
    }
}

/// The mathematical content of a [`CabacResidual`].
#[verifier::ext_equal]
pub struct Block {
    pub levels: Seq<i32>,
    pub positions: Seq<u8>,
    pub reserved: u8,
}

impl View for CabacResidual {
    type V = Block;

    open spec fn view(&self) -> Block {
        Block { levels: self.levels@, positions: self.positions@, reserved: self.reserved }
    }
}

impl Block {
    /// What the block charged: a byte per reserved position and four per
    /// level.
    pub open spec fn charge(self) -> int {
        self.reserved + 4 * self.levels.len()
    }

    /// The block has a coefficient, a position for each level, and no level
    /// that is zero.
    pub open spec fn significant(self) -> bool {
        &&& 0 < self.levels.len() == self.positions.len()
        &&& all_nonzero(self.levels)
    }
}

/// The significance context of a scan position.
pub open spec fn significance_ctx(cat: ContextCategory, i: int) -> Ctx {
    if cat is Luma8x8 {
        ctx(
            CtxTable::Significant(cat),
            if i < 63 {
                POS2CTX_MAP8X8[i] as int
            } else {
                0
            },
        )
    } else if i < 15 {
        ctx(CtxTable::Significant(cat), i)
    } else {
        ctx(CtxTable::Spare(cat), 0)
    }
}

/// The last-coefficient context of a scan position.
pub open spec fn last_ctx(cat: ContextCategory, i: int) -> Ctx {
    if cat is Luma8x8 {
        ctx(
            CtxTable::Last(cat),
            if i < 63 {
                POS2CTX_LAST8X8[i] as int
            } else {
                0
            },
        )
    } else if i < 15 {
        ctx(CtxTable::Last(cat), i)
    } else {
        ctx(CtxTable::Spare(cat), 0)
    }
}

fn sig_ctx(cat: ContextCategory, i: u8) -> (c: Ctx)
    ensures
        c == significance_ctx(cat, i as int),
        c.valid(),
{
    if matches!(cat, ContextCategory::Luma8x8) {
        let index: usize = if i < 63 {
            POS2CTX_MAP8X8[i as usize] as usize
        } else {
            0
        };
        Ctx { table: CtxTable::Significant(cat), index }
    } else if i < 15 {
        Ctx { table: CtxTable::Significant(cat), index: i as usize }
    } else {
        Ctx { table: CtxTable::Spare(cat), index: 0 }
    }
}

fn last_sig_ctx(cat: ContextCategory, i: u8) -> (c: Ctx)
    ensures
        c == last_ctx(cat, i as int),
        c.valid(),
{
    if matches!(cat, ContextCategory::Luma8x8) {
        let index: usize = if i < 63 {
            POS2CTX_LAST8X8[i as usize] as usize
        } else {
            0
        };
        Ctx { table: CtxTable::Last(cat), index }
    } else if i < 15 {
        Ctx { table: CtxTable::Last(cat), index: i as usize }
    } else {
        Ctx { table: CtxTable::Spare(cat), index: 0 }
    }
}

/// The significance map from scan position `i` on. The final position is never
/// flagged: it is significant when no earlier coefficient was the last.
pub open spec fn map_from(
    s: Source,
    cat: ContextCategory,
    i: int,
    last: int,
    acc: Seq<u8>,
) -> (Seq<u8>, Source)
    decreases last - i,
{
    if i >= last {
        (acc.push(last as u8), s)
    } else {
        let (sig, s1) = s.decide(significance_ctx(cat, i));
        if sig {
            let (end, s2) = s1.decide(last_ctx(cat, i));
            if end {
                (acc.push(i as u8), s2)
            } else {
                map_from(s2, cat, i + 1, last, acc.push(i as u8))
            }
        } else {
            map_from(s1, cat, i + 1, last, acc)
        }
    }
}

/// The context of bin `prefix` of a level, given how many earlier levels were
/// one and how many larger.
pub open spec fn level_ctx(cat: ContextCategory, prefix: int, ones: int, larger: int) -> Ctx {
    if prefix == 0 {
        ctx(
            CtxTable::AbsFirst(cat),
            if larger != 0 {
                0
            } else if ones < 3 {
                1 + ones
            } else {
                4
            },
        )
    } else {
        ctx(
            CtxTable::AbsRest(cat),
            if larger < 4 {
                larger
            } else {
                4
            },
        )
    }
}

/// The unary prefix of a level from bin `n` on, at most 14.
pub open spec fn level_prefix_from(
    s: Source,
    cat: ContextCategory,
    n: int,
    ones: int,
    larger: int,
) -> (int, Source)
    decreases 14 - n,
{
    if n >= 14 {
        (n, s)
    } else {
        let (b, s1) = s.decide(level_ctx(cat, n, ones, larger));
        if b {
            level_prefix_from(s1, cat, n + 1, ones, larger)
        } else {
            (n, s1)
        }
    }
}

/// A sum that stays at the largest 32-bit value.
pub open spec fn saturated(v: int) -> u32 {
    if v > u32::MAX {
        u32::MAX
    } else {
        v as u32
    }
}

/// A level's magnitude minus one: the prefix, and behind a full one a suffix.
pub open spec fn magnitude_minus1(
    s: Source,
    cat: ContextCategory,
    ones: int,
    larger: int,
) -> (u32, Source) {
    let (n, s1) = level_prefix_from(s, cat, 0, ones, larger);
    if n >= 14 {
        let (v, s2) = s1.suffix(0);
        (saturated(14 + v), s2)
    } else {
        (n as u32, s1)
    }
}

/// A magnitude with a sign, in 32-bit arithmetic.
pub open spec fn signed_level(magnitude: u32, negative: bool) -> i32 {
    let v = magnitude as i32;
    if negative && v != i32::MIN {
        (-v) as i32
    } else {
        v
    }
}

/// The levels from the `k`th of `n` on, in the order they are coded.
pub open spec fn coded_levels(
    s: Source,
    cat: ContextCategory,
    k: int,
    n: int,
    ones: int,
    larger: int,
    acc: Seq<i32>,
) -> (Seq<i32>, Source)
    decreases n - k,
{
    if k >= n {
        (acc, s)
    } else {
        let (m, s1) = magnitude_minus1(s, cat, ones, larger);
        let (neg, s2) = s1.bypass();
        coded_levels(
            s2,
            cat,
            k + 1,
            n,
            if m == 0 {
                ones + 1
            } else {
                ones
            },
            if m == 0 {
                larger
            } else {
                larger + 1
            },
            acc.push(signed_level(saturated(m + 1), neg)),
        )
    }
}

/// A whole residual block. `room` is what the memory budget still allows: a
/// byte per possible position first, then four per level.
pub open spec fn residual(
    s: Source,
    cat: ContextCategory,
    max_num_coeff: u8,
    room: int,
) -> Result<(Block, Source), Error> {
    if max_num_coeff > room {
        Err(Error::LimitExceeded)
    } else {
        let (positions, s1) = map_from(
            s,
            cat,
            0,
            max_num_coeff - 1,
            Seq::<u8>::empty(),
        );
        if max_num_coeff + 4 * positions.len() > room {
            Err(Error::LimitExceeded)
        } else {
            let (coded, s2) = coded_levels(
                s1,
                cat,
                0,
                positions.len() as int,
                0,
                0,
                Seq::<i32>::empty(),
            );
            Ok((Block { levels: coded.reverse(), positions, reserved: max_num_coeff }, s2))
        }
    }
}

fn decode_significance_map<B: BinSource>(
    bins: &mut B,
    cat: ContextCategory,
    max_num_coeff: u8,
) -> (positions: Vec<u8>)
    requires
        old(bins).wf(),
        max_num_coeff >= 1,
    ensures
        final(bins).wf(),
        (positions@, final(bins).source()) == map_from(
            old(bins).source(),
            cat,
            0,
            max_num_coeff - 1,
            Seq::<u8>::empty(),
        ),
        positions@.len() <= max_num_coeff,
{
    let mut positions: Vec<u8> = Vec::new();
    let last: u8 = max_num_coeff - 1;
    for i in 0..last
        invariant
            bins.wf(),
            last == max_num_coeff - 1,
            positions@.len() <= i,
            map_from(old(bins).source(), cat, 0, last as int, Seq::<u8>::empty()) == map_from(
                bins.source(),
                cat,
                i as int,
                last as int,
                positions@,
            ),
    {
        if bins.decode_decision(sig_ctx(cat, i)) {
            positions.push(i);
            if bins.decode_decision(last_sig_ctx(cat, i)) {
                return positions;
            }
        }
    }
    positions.push(last);
    positions
}

/// Reads one level's magnitude minus one and counts it.
pub fn decode_coeff_abs_level_minus1<B: BinSource>(
    bins: &mut B,
    cat: ContextCategory,
    num_eq1: &mut u32,
    num_gt1: &mut u32,
) -> (value: u32)
    requires
        old(bins).wf(),
        *old(num_eq1) < u32::MAX,
        *old(num_gt1) < u32::MAX,
    ensures
        final(bins).wf(),
        (value, final(bins).source()) == magnitude_minus1(
            old(bins).source(),
            cat,
            *old(num_eq1) as int,
            *old(num_gt1) as int,
        ),
        *final(num_eq1) == *old(num_eq1) + (if value == 0 {
            1int
        } else {
            0
        }),
        *final(num_gt1) == *old(num_gt1) + (if value == 0 {
            0int
        } else {
            1
        }),
{
    let (ones, larger) = (*num_eq1, *num_gt1);
    let mut prefix: u32 = 0;
    let mut more: bool = true;
    while more && prefix < 14
        invariant
            bins.wf(),
            prefix <= 14,
            ones < u32::MAX,
            level_prefix_from(old(bins).source(), cat, 0, ones as int, larger as int) == (if more {
                level_prefix_from(bins.source(), cat, prefix as int, ones as int, larger as int)
            } else {
                (prefix as int, bins.source())
            }),
            !more ==> prefix < 14,
        decreases 14 - prefix, if more { 1int } else { 0int },
    {
        let c: Ctx = if prefix == 0 {
            let index: usize = if larger != 0 {
                0
            } else if ones < 3 {
                1 + ones as usize
            } else {
                4
            };
            Ctx { table: CtxTable::AbsFirst(cat), index }
        } else {
            let index: usize = if larger < 4 {
                larger as usize
            } else {
                4
            };
            Ctx { table: CtxTable::AbsRest(cat), index }
        };
        if bins.decode_decision(c) {
            prefix = prefix + 1;
        } else {
            more = false;
        }
    }
    let value: u32 = if prefix >= 14 {
        prefix.saturating_add(bins.decode_bypass_egk(0))
    } else {
        prefix
    };
    if value == 0 {
        *num_eq1 = ones + 1;
    } else {
        *num_gt1 = larger + 1;
    }
    value
}

fn apply_sign(magnitude: u32, negative: bool) -> (level: i32)
    ensures
        level == signed_level(magnitude, negative),
{
    let v: i32 = magnitude as i32;
    if negative && v != i32::MIN {
        -v
    } else {
        v
    }
}

/// What the memory budget still allows where it does not cover a block: the
/// positions stay charged where only the levels do not fit.
pub open spec fn room_after_refusal(max_num_coeff: u8, room: int) -> int {
    if max_num_coeff > room {
        room
    } else {
        room - max_num_coeff
    }
}

/// Decodes a residual block that its flag has announced.
pub fn residual_block_cabac<B: BinSource>(
    bins: &mut B,
    cat: ContextCategory,
    max_num_coeff: u8,
    budget: &mut Budget,
) -> (r: Result<CabacResidual, Error>)
    requires
        old(bins).wf(),
        max_num_coeff >= 1,
    ensures
        final(bins).wf(),
        final(budget).limit == old(budget).limit,
        final(budget).committed >= old(budget).committed,
        match residual(old(bins).source(), cat, max_num_coeff, old(budget).room()) {
            Ok((block, s)) => r matches Ok(b) && b@ == block && final(bins).source() == s
                && final(budget).committed == old(budget).committed + block.charge(),
            Err(e) => r matches Err(f) && e == f && final(budget).room() == room_after_refusal(
                max_num_coeff,
                old(budget).room(),
            ),
        },
{
    budget.charge(max_num_coeff as u64)?;
    let positions: Vec<u8> = decode_significance_map(bins, cat, max_num_coeff);
    budget.charge(4 * positions.len() as u64)?;
    let ghost s1 = bins.source();
    let n: usize = positions.len();
    let mut coded: Vec<i32> = Vec::new();
    let mut num_eq1: u32 = 0;
    let mut num_gt1: u32 = 0;
    for k in 0..n
        invariant
            bins.wf(),
            n <= 255,
            num_eq1 <= k,
            num_gt1 <= k,
            coded@.len() == k,
            coded_levels(s1, cat, 0, n as int, 0, 0, Seq::<i32>::empty()) == coded_levels(
                bins.source(),
                cat,
                k as int,
                n as int,
                num_eq1 as int,
                num_gt1 as int,
                coded@,
            ),
    {
        let m: u32 = decode_coeff_abs_level_minus1(bins, cat, &mut num_eq1, &mut num_gt1);
        let negative: bool = bins.decode_bypass();
        coded.push(apply_sign(m.saturating_add(1), negative));
    }
    let mut levels: Vec<i32> = Vec::new();
    for k in 0..n
        invariant
            coded@.len() == n,
            levels@.len() == k,
            forall|j: int| 0 <= j < k ==> #[trigger] levels@[j] == coded@[n - 1 - j],
    {
        levels.push(coded[n - 1 - k]);
    }
    assert(levels@ =~= coded@.reverse());
    Ok(CabacResidual { levels, positions, reserved: max_num_coeff })
}

proof fn lemma_map_shape(
    s: Source,
    cat: ContextCategory,
    i: int,
    last: int,
    acc: Seq<u8>,
)
    requires
        0 <= i <= last <= 255,
        increasing_below(acc, i),
    ensures
        increasing_below(map_from(s, cat, i, last, acc).0, last + 1),
        map_from(s, cat, i, last, acc).0.len() > acc.len(),
    decreases last - i,
{
    assert(increasing_below(acc.push(last as u8), last + 1));
    if i < last {
        assert(increasing_below(acc.push(i as u8), i + 1));
        let (sig, s1) = s.decide(significance_ctx(cat, i));
        if sig {
            let (end, s2) = s1.decide(last_ctx(cat, i));
            if !end {
                lemma_map_shape(s2, cat, i + 1, last, acc.push(i as u8));
            }
        } else {
            lemma_map_shape(s1, cat, i + 1, last, acc);
        }
    }
}

/// Positions that strictly increase and stay below a bound.
pub open spec fn increasing_below(positions: Seq<u8>, bound: int) -> bool {
    &&& forall|k: int| 0 <= k < positions.len() ==> #[trigger] positions[k] < bound
    &&& forall|j: int, k: int|
        0 <= j < k < positions.len() ==> #[trigger] positions[j] < #[trigger] positions[k]
}

/// A magnitude that is not zero makes a level that is not zero.
proof fn lemma_signed_level(magnitude: u32, negative: bool)
    requires
        magnitude != 0,
    ensures
        signed_level(magnitude, negative) != 0,
{
    assert(magnitude as i32 != 0) by (bit_vector)
        requires
            magnitude != 0,
    ;
}

proof fn lemma_coded_levels(
    s: Source,
    cat: ContextCategory,
    k: int,
    n: int,
    ones: int,
    larger: int,
    acc: Seq<i32>,
)
    requires
        0 <= k <= n,
        all_nonzero(acc),
    ensures
        coded_levels(s, cat, k, n, ones, larger, acc).0.len() == acc.len() + n - k,
        all_nonzero(coded_levels(s, cat, k, n, ones, larger, acc).0),
    decreases n - k,
{
    if k < n {
        let (m, s1) = magnitude_minus1(s, cat, ones, larger);
        let (neg, s2) = s1.bypass();
        lemma_signed_level(saturated(m + 1), neg);
        lemma_coded_levels(
            s2,
            cat,
            k + 1,
            n,
            if m == 0 {
                ones + 1
            } else {
                ones
            },
            if m == 0 {
                larger
            } else {
                larger + 1
            },
            acc.push(signed_level(saturated(m + 1), neg)),
        );
    }
}

/// An announced block holds at least one coefficient, as many levels as
/// positions, no level that is zero, and positions that strictly increase
/// within the block.
pub proof fn law_residual_shape(
    s: Source,
    cat: ContextCategory,
    max_num_coeff: u8,
    room: int,
)
    requires
        max_num_coeff >= 1,
    ensures
        residual(s, cat, max_num_coeff, room) matches Ok((block, t)) ==> {
            &&& block.significant()
            &&& increasing_below(block.positions, max_num_coeff as int)
        },
{
    lemma_map_shape(s, cat, 0, max_num_coeff - 1, Seq::<u8>::empty());
    let (positions, s1) = map_from(s, cat, 0, max_num_coeff - 1, Seq::<u8>::empty());
    lemma_coded_levels(s1, cat, 0, positions.len() as int, 0, 0, Seq::<i32>::empty());
}

} // verus!
