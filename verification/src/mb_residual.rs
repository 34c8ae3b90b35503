//! The coefficients of a macroblock, block by block.
use vstd::prelude::*;
use crate::budget::Budget;
use crate::cabac_residual::{increasing_below, Block, CabacResidual};
use crate::cavlc::{all_nonzero, total_run, CavlcBlock, CavlcResidual};
use crate::error::Error;

verus! {

/// A block that may be uncoded, by its content.
pub open spec fn content(b: Option<CabacResidual>) -> Option<Block> {
    match b {
        Some(r) => Some(r@),
        None => None,
    }
}

/// The contents of some blocks.
pub open spec fn contents(v: Seq<Option<CabacResidual>>) -> Seq<Option<Block>> {
    Seq::new(v.len(), |i: int| content(v[i]))
}

/// A macroblock's coefficients in forward scan order, and the modes that its
/// luma blocks are predicted with. A block without coefficients is absent.
#[derive(Debug, Clone)]
pub struct MbResidual {
    pub luma_dc: Option<CabacResidual>,
    /// By luma block.
    pub luma_ac: Vec<Option<CabacResidual>>,
    /// Blue, then red.
    pub chroma_dc: Vec<Option<CabacResidual>>,
    /// Four blue blocks, then four red ones.
    pub chroma_ac: Vec<Option<CabacResidual>>,
    /// By quadrant, where the transform covers whole quadrants.
    pub luma8x8: Vec<Option<CabacResidual>>,
    /// By luma block; averaging (2) where the macroblock is predicted
    /// otherwise.
    pub intra4x4_pred_mode: Vec<u8>,
    /// By quadrant; averaging (2) where the macroblock is predicted otherwise.
    pub intra8x8_pred_mode: Vec<u8>,
}

/// The mathematical content of an [`MbResidual`].
#[verifier::ext_equal]
pub struct Residuals {
    pub luma_dc: Option<Block>,
    pub luma_ac: Seq<Option<Block>>,
    pub chroma_dc: Seq<Option<Block>>,
    pub chroma_ac: Seq<Option<Block>>,
    pub luma8x8: Seq<Option<Block>>,
    pub modes4: Seq<u8>,
    pub modes8: Seq<u8>,
}

impl View for MbResidual {
    type V = Residuals;

    open spec fn view(&self) -> Residuals {
        Residuals {
            luma_dc: content(self.luma_dc),
            luma_ac: contents(self.luma_ac@),
            chroma_dc: contents(self.chroma_dc@),
            chroma_ac: contents(self.chroma_ac@),
            luma8x8: contents(self.luma8x8@),
            modes4: self.intra4x4_pred_mode@,
            modes8: self.intra8x8_pred_mode@,
        }
    }
}

/// `n` absent blocks.
pub open spec fn absent(n: nat) -> Seq<Option<Block>> {
    Seq::new(n, |i: int| None)
}

/// `n` averaging modes.
pub open spec fn averaging(n: nat) -> Seq<u8> {
    Seq::new(n, |i: int| 2u8)
}

/// No coefficients, and averaging everywhere.
pub open spec fn no_residual() -> Residuals {
    Residuals {
        luma_dc: None,
        luma_ac: absent(16),
        chroma_dc: absent(2),
        chroma_ac: absent(8),
        luma8x8: absent(4),
        modes4: averaging(16),
        modes8: averaging(4),
    }
}

fn absent_blocks(n: usize) -> (v: Vec<Option<CabacResidual>>)
    ensures
        contents(v@) == absent(n as nat),
        v@.len() == n,
{
    let mut v: Vec<Option<CabacResidual>> = Vec::new();
    for i in 0..n
        invariant
            v@.len() == i,
            forall|j: int| 0 <= j < i ==> content(#[trigger] v@[j]) is None,
    {
        v.push(None);
    }
    v
}

fn averaging_modes(n: usize) -> (v: Vec<u8>)
    ensures
        v@ == averaging(n as nat),
{
    let mut v: Vec<u8> = Vec::new();
    for i in 0..n
        invariant
            v@.len() == i,
            forall|j: int| 0 <= j < i ==> #[trigger] v@[j] == 2,
    {
        v.push(2);
    }
    v
}

impl Residuals {
    /// As many blocks as a macroblock has.
    pub open spec fn has_blocks(self) -> bool {
        &&& self.luma_ac.len() == 16
        &&& self.chroma_dc.len() == 2
        &&& self.chroma_ac.len() == 8
        &&& self.luma8x8.len() == 4
    }

    /// As many blocks and modes as a macroblock has.
    pub open spec fn shaped(self) -> bool {
        &&& self.has_blocks()
        &&& self.modes4.len() == 16
        &&& self.modes8.len() == 4
    }

    /// No stored coefficient is zero, and no block without any is stored.
    pub open spec fn significant(self) -> bool {
        &&& absent_or_significant(self.luma_dc)
        &&& all_significant(self.luma_ac)
        &&& all_significant(self.chroma_dc)
        &&& all_significant(self.chroma_ac)
        &&& all_significant(self.luma8x8)
    }

    /// What the blocks charged to the budget.
    pub open spec fn charge(self) -> int {
        block_charge(self.luma_dc) + charges(self.luma_ac) + charges(self.chroma_dc) + charges(
            self.chroma_ac,
        ) + charges(self.luma8x8)
    }
}

/// A block is absent or has coefficients, none of which is zero.
pub open spec fn absent_or_significant(b: Option<Block>) -> bool {
    b matches Some(x) ==> x.significant()
}

/// No stored coefficient of some blocks is zero.
pub open spec fn all_significant(v: Seq<Option<Block>>) -> bool {
    forall|i: int| 0 <= i < v.len() ==> absent_or_significant(#[trigger] v[i])
}

/// What a block charged.
pub open spec fn block_charge(b: Option<Block>) -> int {
    match b {
        Some(x) => x.charge(),
        None => 0,
    }
}

/// What some blocks charged together.
pub open spec fn charges(v: Seq<Option<Block>>) -> int
    decreases v.len(),
{
    if v.len() == 0 {
        0
    } else {
        charges(v.drop_last()) + block_charge(v.last())
    }
}

/// Absent blocks charge nothing.
pub proof fn lemma_absent_charges(n: nat)
    ensures
        charges(absent(n)) == 0,
    decreases n,
{
    if n > 0 {
        assert(absent(n).drop_last() =~= absent((n - 1) as nat));
        lemma_absent_charges((n - 1) as nat);
    }
}

/// Putting a block in an absent one's place adds its charge.
pub proof fn lemma_charge_update(v: Seq<Option<Block>>, i: int, b: Block)
    requires
        0 <= i < v.len(),
        v[i] is None,
    ensures
        charges(v.update(i, Some(b))) == charges(v) + b.charge(),
    decreases v.len(),
{
    let w = v.update(i, Some(b));
    if i == v.len() - 1 {
        assert(w.drop_last() =~= v.drop_last());
    } else {
        assert(w.drop_last() =~= v.drop_last().update(i, Some(b)));
        lemma_charge_update(v.drop_last(), i, b);
    }
}

/// No charge is negative.
pub proof fn lemma_charges_nonnegative(v: Seq<Option<Block>>)
    ensures
        charges(v) >= 0,
    decreases v.len(),
{
    if v.len() > 0 {
        lemma_charges_nonnegative(v.drop_last());
    }
}

/// A macroblock's charge is never negative.
pub proof fn lemma_charge_nonnegative(r: Residuals)
    ensures
        r.charge() >= 0,
{
    lemma_charges_nonnegative(r.luma_ac);
    lemma_charges_nonnegative(r.chroma_dc);
    lemma_charges_nonnegative(r.chroma_ac);
    lemma_charges_nonnegative(r.luma8x8);
}

impl Default for MbResidual {
    fn default() -> (r: Self)
        ensures
            r@ == no_residual(),
    {
        MbResidual {
            luma_dc: None,
            luma_ac: absent_blocks(16),
            chroma_dc: absent_blocks(2),
            chroma_ac: absent_blocks(8),
            luma8x8: absent_blocks(4),
            intra4x4_pred_mode: averaging_modes(16),
            intra8x8_pred_mode: averaging_modes(4),
        }
    }
}

/// Puts a block in its place.
pub fn put_block(v: &mut Vec<Option<CabacResidual>>, i: usize, b: CabacResidual)
    requires
        i < old(v)@.len(),
    ensures
        contents(final(v)@) == contents(old(v)@).update(i as int, Some(b@)),
        final(v)@.len() == old(v)@.len(),
{
    v.set(i, Some(b));
    assert(contents(v@) =~= contents(old(v)@).update(i as int, Some(b@)));
}

fn one_charge(b: &Option<CabacResidual>) -> (n: u64)
    ensures
        n == saturated64(block_charge(content(*b))),
{
    match b {
        Some(r) => {
            let n: u64 = r.levels.len() as u64;
            if n > 0x3fff_ffff_ffff_ffff {
                u64::MAX
            } else {
                (r.reserved as u64).saturating_add(4 * n)
            }
        },
        None => 0,
    }
}

/// A sum that stays at the largest 64-bit value.
pub open spec fn saturated64(v: int) -> u64 {
    if v > u64::MAX {
        u64::MAX
    } else {
        v as u64
    }
}

fn all_charges(v: &Vec<Option<CabacResidual>>) -> (n: u64)
    ensures
        n == saturated64(charges(contents(v@))),
{
    let mut total: u64 = 0;
    let ghost all = contents(v@);
    for i in 0..v.len()
        invariant
            all == contents(v@),
            total == saturated64(charges(all.take(i as int))),
    {
        proof {
            lemma_charges_nonnegative(all.take(i as int));
            assert(all.take(i + 1).drop_last() =~= all.take(i as int));
            assert(all.take(i + 1).last() == content(v@[i as int]));
        }
        total = total.saturating_add(one_charge(&v[i]));
    }
    assert(all.take(all.len() as int) =~= all);
    total
}

/// What a macroblock's blocks charged to the budget, at most the largest
/// 64-bit value.
pub fn mb_residual_charged_bytes(residual: &MbResidual) -> (n: u64)
    ensures
        n == saturated64(residual@.charge()),
{
    proof {
        lemma_charges_nonnegative(residual@.luma_ac);
        lemma_charges_nonnegative(residual@.chroma_dc);
        lemma_charges_nonnegative(residual@.chroma_ac);
        lemma_charges_nonnegative(residual@.luma8x8);
    }
    one_charge(&residual.luma_dc).saturating_add(all_charges(&residual.luma_ac)).saturating_add(
        all_charges(&residual.chroma_dc),
    ).saturating_add(all_charges(&residual.chroma_ac)).saturating_add(
        all_charges(&residual.luma8x8),
    )
}

// ------------------------------------------------------------- forward order
/// The run in front of coefficient `i`, 0 where none is stored.
pub open spec fn run_of(b: CavlcBlock, i: int) -> int {
    if 0 <= i < b.runs.len() {
        b.runs[i] as int
    } else {
        0
    }
}

/// The level of coefficient `i`, 0 where none is stored.
pub open spec fn level_of(b: CavlcBlock, i: int) -> i32 {
    if 0 <= i < b.levels.len() {
        b.levels[i]
    } else {
        0
    }
}

/// The scan position of coefficient `i`, counted from the highest frequency:
/// behind every coefficient of lower frequency and all their zeros.
pub open spec fn scan_position(b: CavlcBlock, i: int) -> int
    decreases b.total_coeff - i,
{
    if i >= b.total_coeff {
        -1
    } else {
        scan_position(b, i + 1) + run_of(b, i) + 1
    }
}

/// A position as it is stored.
pub open spec fn stored_position(p: int) -> u8 {
    if 0 <= p <= 255 {
        p as u8
    } else {
        255
    }
}

/// The block lowest frequency first.
pub open spec fn forward(b: CavlcBlock) -> Block {
    Block {
        levels: Seq::new(b.total_coeff as nat, |k: int| level_of(b, b.total_coeff - 1 - k)),
        positions: Seq::new(
            b.total_coeff as nat,
            |k: int| stored_position(scan_position(b, b.total_coeff - 1 - k)),
        ),
        reserved: b.total_coeff,
    }
}

/// What the memory budget still allows where it does not cover a block that is
/// turned round: a byte for each position is charged first.
pub open spec fn room_after_turn(total_coeff: u8, room: int) -> int {
    if total_coeff > room {
        room
    } else {
        room - total_coeff
    }
}

/// Turns a block round: lowest frequency first, with positions for runs.
pub fn cavlc_residual_to_forward(res: &CavlcResidual, budget: &mut Budget) -> (r: Result<
    CabacResidual,
    Error,
>)
    ensures
        final(budget).limit == old(budget).limit,
        final(budget).committed >= old(budget).committed,
        match r {
            Ok(b) => 5 * res.total_coeff <= old(budget).room() && b@ == forward(res@)
                && final(budget).committed == old(budget).committed + forward(res@).charge(),
            Err(e) => 5 * res.total_coeff > old(budget).room() && e == Error::LimitExceeded
                && final(budget).room() == room_after_turn(res.total_coeff, old(budget).room()),
        },
{
    budget.charge(res.total_coeff as u64)?;
    budget.charge(4 * res.total_coeff as u64)?;
    let ghost block = res@;
    let n: usize = res.total_coeff as usize;
    let mut positions: Vec<u8> = Vec::new();
    let mut levels: Vec<i32> = Vec::new();
    let mut coeff_num: i32 = -1;
    let mut i: usize = n;
    while i > 0
        invariant
            block == res@,
            n == res.total_coeff,
            i <= n,
            positions@.len() == n - i,
            levels@.len() == n - i,
            coeff_num == scan_position(block, i as int),
            -1 <= coeff_num <= 256 * (n - i) - 1,
            forall|k: int|
                0 <= k < n - i ==> #[trigger] positions@[k] == stored_position(
                    scan_position(block, n - 1 - k),
                ),
            forall|k: int|
                0 <= k < n - i ==> #[trigger] levels@[k] == level_of(block, n - 1 - k),
        decreases i,
    {
        i = i - 1;
        let run: u8 = if i < res.runs.len() {
            res.runs[i]
        } else {
            0
        };
        coeff_num = coeff_num + run as i32 + 1;
        positions.push(
            if 0 <= coeff_num && coeff_num <= 255 {
                coeff_num as u8
            } else {
                255
            },
        );
        levels.push(
            if i < res.levels.len() {
                res.levels[i]
            } else {
                0
            },
        );
    }
    let out = CabacResidual { levels, positions, reserved: res.total_coeff };
    assert(out@ =~= forward(block));
    Ok(out)
}

proof fn lemma_scan_position(b: CavlcBlock, i: int)
    requires
        b.runs.len() == b.total_coeff,
        0 <= i <= b.total_coeff,
    ensures
        scan_position(b, i) == total_run(b.runs) - total_run(b.runs.take(i)) + b.total_coeff - i - 1,
        scan_position(b, i) >= b.total_coeff - i - 1,
    decreases b.total_coeff - i,
{
    if i < b.total_coeff {
        lemma_scan_position(b, i + 1);
        assert(b.runs.take(i + 1).drop_last() =~= b.runs.take(i));
    } else {
        assert(b.runs.take(i) =~= b.runs);
    }
}

proof fn lemma_scan_order(b: CavlcBlock, i: int, j: int)
    requires
        0 <= i < j <= b.total_coeff,
    ensures
        scan_position(b, j) < scan_position(b, i),
        -1 <= scan_position(b, j),
    decreases b.total_coeff - i,
{
    lemma_scan_low(b, j);
    if i + 1 < j {
        lemma_scan_order(b, i + 1, j);
    }
}

proof fn lemma_scan_low(b: CavlcBlock, i: int)
    requires
        0 <= i <= b.total_coeff,
    ensures
        -1 <= scan_position(b, i),
    decreases b.total_coeff - i,
{
    if i < b.total_coeff {
        lemma_scan_low(b, i + 1);
    }
}

/// Turned round, a block whose coefficients and zeros fit a scan of `size`
/// positions has strictly increasing positions below `size`, each level with
/// its own, and charges five bytes for each coefficient.
pub proof fn law_forward_keeps_scan_order(b: CavlcBlock, size: int)
    requires
        b.runs.len() == b.total_coeff,
        total_run(b.runs) + b.total_coeff <= size <= 256,
    ensures
        increasing_below(forward(b).positions, size),
        forward(b).levels.len() == forward(b).positions.len() == b.total_coeff,
        forward(b).charge() == 5 * b.total_coeff,
{
    let f = forward(b);
    let n = b.total_coeff as int;
    lemma_scan_position(b, 0);
    assert(total_run(b.runs.take(0)) == 0);
    assert forall|i: int| 0 <= i < n implies 0 <= #[trigger] scan_position(b, i) < size by {
        lemma_scan_order(b, i, n);
        if i > 0 {
            lemma_scan_order(b, 0, i);
        }
    }
    assert forall|k: int| 0 <= k < f.positions.len() implies #[trigger] f.positions[k] < size by {
        assert(0 <= scan_position(b, n - 1 - k) < size);
    }
    assert forall|j: int, k: int| 0 <= j < k < f.positions.len() implies #[trigger] f.positions[j]
        < #[trigger] f.positions[k] by {
        lemma_scan_order(b, n - 1 - k, n - 1 - j);
        assert(0 <= scan_position(b, n - 1 - j) < size);
        assert(0 <= scan_position(b, n - 1 - k) < size);
    }
}

/// Turned round, a block that has a level for each coefficient, none of them
/// zero, still has.
pub proof fn law_forward_keeps_levels(b: CavlcBlock)
    requires
        b.total_coeff > 0,
        b.levels.len() == b.total_coeff,
        all_nonzero(b.levels),
    ensures
        forward(b).significant(),
        forward(b).levels == b.levels.reverse(),
{
    assert(forward(b).levels =~= b.levels.reverse());
}

} // verus!
