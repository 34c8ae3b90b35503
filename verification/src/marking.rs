//! The buffer of stored pictures: which leave it, what their leaving gives
//! back, and the motion that a stored picture keeps.
use std::collections::VecDeque;
use vstd::prelude::*;
use crate::budget::{given_back, Budget};
use crate::error::{Error, Reason};
use crate::grids::{
    law_macroblock_address_round_trip, law_read_after_write, lemma_cell_bound,
    lemma_cell_injective, no_motion, with_cell, MvInfo,
};
use crate::refs::{find_from, find_picture, stored, RefPicture, Stored};
use crate::slice::{summaries, MbSummary, Summary};

verus! {

/// One command of an adaptive marking.
#[derive(Debug, Clone, Copy, PartialEq, Eq, Structural)]
pub struct MarkingCommand {
    /// 1 to drop one picture, 5 to drop all of them; the others manage
    /// long-term pictures.
    pub op: u32,
    /// How far back the picture to drop lies, less 1.
    pub arg0: u32,
}

/// The stored pictures, the oldest first, and what the budget has committed.
#[verifier::ext_equal]
pub struct Buffer {
    pub dpb: Seq<Stored>,
    pub committed: int,
}

/// What all stored pictures are charged.
pub open spec fn total_charge(dpb: Seq<Stored>) -> int
    decreases dpb.len(),
{
    if dpb.len() == 0 {
        0
    } else {
        total_charge(dpb.drop_first()) + dpb[0].charged
    }
}

impl Buffer {
    /// Without the `i`-th picture, whose charge is given back.
    pub open spec fn evict(self, i: int) -> Buffer {
        Buffer {
            dpb: self.dpb.remove(i),
            committed: given_back(self.committed, self.dpb[i].charged as int),
        }
    }

    /// Without its oldest pictures, as many as are more than `n`.
    pub open spec fn trimmed(self, n: int) -> Buffer
        decreases self.dpb.len(),
    {
        if self.dpb.len() == 0 || self.dpb.len() <= n {
            self
        } else {
            self.evict(0).trimmed(n)
        }
    }

    /// After one marking command, unless it is one for long-term pictures. A
    /// picture that is not stored need not be dropped.
    pub open spec fn command(self, cmd: MarkingCommand, curr: int, max_frame_num: int) -> Option<
        Buffer,
    > {
        if cmd.op == 1 {
            match find_from(self.dpb, curr - (cmd.arg0 + 1), curr, max_frame_num, 0) {
                Some(i) => Some(self.evict(i as int)),
                None => Some(self),
            }
        } else if cmd.op == 5 {
            Some(self.trimmed(0))
        } else {
            None
        }
    }

    /// After the commands from the `i`-th on, up to the first that is refused,
    /// and whether none was.
    pub open spec fn commands(
        self,
        cmds: Seq<MarkingCommand>,
        i: int,
        curr: int,
        max_frame_num: int,
    ) -> (Buffer, bool)
        decreases cmds.len() - i,
    {
        if i >= cmds.len() {
            (self, true)
        } else {
            match self.command(cmds[i], curr, max_frame_num) {
                None => (self, false),
                Some(next) => next.commands(cmds, i + 1, curr, max_frame_num),
            }
        }
    }
}

/// The stored pictures with what the budget has committed.
pub open spec fn buffer(dpb: VecDeque<RefPicture>, budget: Budget) -> Buffer {
    Buffer { dpb: stored(dpb@), committed: budget.committed as int }
}

/// Drops the oldest pictures, as many as are more than `n`, and gives back
/// what they were charged.
pub fn trim(dpb: &mut VecDeque<RefPicture>, budget: &mut Budget, n: usize)
    ensures
        final(budget).limit == old(budget).limit,
        buffer(*final(dpb), *final(budget)) == buffer(*old(dpb), *old(budget)).trimmed(n as int),
{
    while dpb.len() > n
        invariant
            budget.limit == old(budget).limit,
            buffer(*dpb, *budget).trimmed(n as int) == buffer(*old(dpb), *old(budget)).trimmed(
                n as int,
            ),
        decreases dpb@.len(),
    {
        let ghost before = buffer(*dpb, *budget);
        if let Some(evicted) = dpb.pop_front() {
            budget.release(evicted.charged);
        }
        assert(buffer(*dpb, *budget) =~= before.evict(0)) by {
            assert(stored(dpb@) =~= before.dpb.remove(0));
        }
    }
}

/// Carries out the commands of an adaptive marking. Those for long-term
/// pictures are refused, with what came before them done.
#[verifier::loop_isolation(false)]
pub fn apply_marking(
    dpb: &mut VecDeque<RefPicture>,
    budget: &mut Budget,
    cmds: &[MarkingCommand],
    curr_frame_num: u32,
    max_frame_num: u32,
) -> (r: Result<(), Error>)
    ensures
        final(budget).limit == old(budget).limit,
        (buffer(*final(dpb), *final(budget)), r is Ok) == buffer(*old(dpb), *old(budget)).commands(
            cmds@,
            0,
            curr_frame_num as int,
            max_frame_num as int,
        ),
        r matches Err(e) ==> e == Error::Unsupported(Reason::LongTermReference),
{
    let n: usize = cmds.len();
    for i in 0..n
        invariant
            n == cmds@.len(),
            budget.limit == old(budget).limit,
            buffer(*old(dpb), *old(budget)).commands(
                cmds@,
                0,
                curr_frame_num as int,
                max_frame_num as int,
            ) == buffer(*dpb, *budget).commands(
                cmds@,
                i as int,
                curr_frame_num as int,
                max_frame_num as int,
            ),
    {
        let cmd: MarkingCommand = cmds[i];
        let ghost before = buffer(*dpb, *budget);
        if cmd.op == 1 {
            let num: i128 = curr_frame_num as i128 - (cmd.arg0 as i128 + 1);
            if let Some(k) = find_picture(dpb, num, curr_frame_num, max_frame_num) {
                if let Some(evicted) = dpb.remove(k) {
                    budget.release(evicted.charged);
                }
                assert(buffer(*dpb, *budget) =~= before.evict(k as int)) by {
                    assert(stored(dpb@) =~= before.dpb.remove(k as int));
                }
            }
        } else if cmd.op == 5 {
            trim(dpb, budget, 0);
        } else {
            return Err(Error::Unsupported(Reason::LongTermReference));
        }
    }
    Ok(())
}

pub proof fn lemma_total_without(dpb: Seq<Stored>, i: int)
    requires
        0 <= i < dpb.len(),
    ensures
        total_charge(dpb) == total_charge(dpb.remove(i)) + dpb[i].charged,
        total_charge(dpb.remove(i)) >= 0,
    decreases dpb.len(),
{
    lemma_total_is_nonnegative(dpb.remove(i));
    if i == 0 {
        assert(dpb.remove(0) =~= dpb.drop_first());
    } else {
        lemma_total_without(dpb.drop_first(), i - 1);
        assert(dpb.remove(i).drop_first() =~= dpb.drop_first().remove(i - 1));
        assert(dpb.remove(i)[0] == dpb[0]);
    }
}

pub proof fn lemma_total_is_nonnegative(dpb: Seq<Stored>)
    ensures
        total_charge(dpb) >= 0,
    decreases dpb.len(),
{
    if dpb.len() > 0 {
        lemma_total_is_nonnegative(dpb.drop_first());
    }
}

proof fn lemma_trimmed_gives_back(b: Buffer, n: int)
    requires
        total_charge(b.dpb) <= b.committed,
    ensures
        b.trimmed(n).committed - total_charge(b.trimmed(n).dpb) == b.committed - total_charge(
            b.dpb,
        ),
        total_charge(b.trimmed(n).dpb) <= b.trimmed(n).committed,
        b.trimmed(n).dpb.len() <= b.dpb.len(),
        n >= 0 ==> b.trimmed(n).dpb.len() <= n,
    decreases b.dpb.len(),
{
    if b.dpb.len() != 0 && b.dpb.len() > n {
        lemma_total_without(b.dpb, 0);
        lemma_trimmed_gives_back(b.evict(0), n);
    }
}

pub proof fn lemma_trimmed_len(b: Buffer, n: int)
    requires
        n >= 0,
    ensures
        b.trimmed(n).dpb.len() <= n,
        b.trimmed(n).dpb.len() <= b.dpb.len(),
    decreases b.dpb.len(),
{
    if b.dpb.len() != 0 && b.dpb.len() > n {
        lemma_trimmed_len(b.evict(0), n);
    }
}

/// Marking gives back exactly what the pictures that leave were charged, so
/// that what is committed for anything else stays committed.
pub proof fn law_marking_gives_back_what_leaves(
    b: Buffer,
    cmds: Seq<MarkingCommand>,
    i: int,
    curr: int,
    max_frame_num: int,
    n: int,
)
    requires
        0 <= i,
        b.dpb.len() <= usize::MAX,
        total_charge(b.dpb) <= b.committed,
    ensures
        ({
            let after = b.commands(cmds, i, curr, max_frame_num).0;
            &&& after.committed - total_charge(after.dpb) == b.committed - total_charge(b.dpb)
            &&& after.trimmed(n).committed - total_charge(after.trimmed(n).dpb) == b.committed
                - total_charge(b.dpb)
            &&& after.dpb.len() <= b.dpb.len()
            &&& n >= 0 ==> after.trimmed(n).dpb.len() <= n
        }),
    decreases cmds.len() - i,
{
    let after = b.commands(cmds, i, curr, max_frame_num).0;
    if i < cmds.len() {
        if let Some(next) = b.command(cmds[i], curr, max_frame_num) {
            if cmds[i].op == 1 {
                let num = curr - (cmds[i].arg0 + 1);
                crate::refs::law_found_pictures_have_the_number(b.dpb, num, curr, max_frame_num, 0);
                if let Some(k) = find_from(b.dpb, num, curr, max_frame_num, 0) {
                    lemma_total_without(b.dpb, k as int);
                }
            } else {
                lemma_trimmed_gives_back(b, 0);
            }
            law_marking_gives_back_what_leaves(next, cmds, i + 1, curr, max_frame_num, n);
        } else {
            lemma_trimmed_gives_back(b, n);
        }
    } else {
        lemma_trimmed_gives_back(b, n);
    }
}

// --------------------------------------------------------------------- motion
/// The bytes of one block's motion.
pub const MOTION_BYTES: u64 = 22;

/// A motion field with one block of a macroblock in it.
pub open spec fn with_block(field: Seq<MvInfo>, m: Summary, k: int, wide4: int) -> Seq<MvInfo> {
    let i = (4 * m.mb_y + k / 4) * wide4 + 4 * m.mb_x + k % 4;
    if i < field.len() {
        field.update(i, m.mv_blocks[k])
    } else {
        field
    }
}

/// A motion field with the blocks of a macroblock from the `k`-th on in it.
pub open spec fn with_blocks(field: Seq<MvInfo>, m: Summary, k: int, wide4: int) -> Seq<MvInfo>
    decreases 16 - k,
{
    if k >= 16 {
        field
    } else {
        with_blocks(with_block(field, m, k, wide4), m, k + 1, wide4)
    }
}

/// A motion field with the macroblocks from the `i`-th on in it.
pub open spec fn with_motion(field: Seq<MvInfo>, ms: Seq<Summary>, i: int, wide4: int) -> Seq<
    MvInfo,
>
    decreases ms.len() - i,
{
    if i >= ms.len() {
        field
    } else {
        with_motion(with_blocks(field, ms[i], 0, wide4), ms, i + 1, wide4)
    }
}

/// The motion field of a picture: its blocks row by row, nothing where no
/// macroblock was decoded.
pub open spec fn motion_field(ms: Seq<Summary>, mbs_wide: int, mbs_high: int) -> Seq<MvInfo> {
    with_motion(
        Seq::new((16 * (mbs_wide * mbs_high)) as nat, |i: int| no_motion()),
        ms,
        0,
        4 * mbs_wide,
    )
}

fn put_blocks(field: &mut Vec<MvInfo>, m: &MbSummary, wide4: u32)
    requires
        m.mb_x <= 0x2fff_ffff,
        m.mb_y <= 0x2fff_ffff,
        old(field)@.len() <= u32::MAX,
    ensures
        final(field)@ == with_blocks(old(field)@, m@, 0, wide4 as int),
        final(field)@.len() == old(field)@.len(),
{
    for k in 0..16usize
        invariant
            m.mb_x <= 0x2fff_ffff,
            m.mb_y <= 0x2fff_ffff,
            field@.len() == old(field)@.len(),
            field@.len() <= u32::MAX,
            with_blocks(old(field)@, m@, 0, wide4 as int) == with_blocks(
                field@,
                m@,
                k as int,
                wide4 as int,
            ),
    {
        let x: u64 = m.mb_x as u64 * 4 + (k % 4) as u64;
        let y: u64 = m.mb_y as u64 * 4 + (k / 4) as u64;
        proof {
            assert(0 <= y * wide4 <= 0xffff_ffff * 0xffff_ffff) by (nonlinear_arith)
                requires
                    0 <= y <= 0xffff_ffff,
                    0 <= wide4 <= 0xffff_ffff,
            ;
        }
        let i: u64 = y * wide4 as u64 + x;
        if i < field.len() as u64 {
            field[i as usize] = m.mv_blocks[k];
        }
    }
}

/// Whether a macroblock's position is one that slices can produce.
pub open spec fn positioned(m: Summary) -> bool {
    m.mb_x <= 0x2fff_ffff && m.mb_y <= 0x2fff_ffff
}

/// Collects the motion of a decoded picture, or refuses where the budget has
/// no room for it.
#[verifier::loop_isolation(false)]
pub fn collect_motion(macroblocks: &Vec<MbSummary>, mbs_wide: u32, mbs_high: u32, budget: &mut Budget) -> (r:
    Result<Vec<MvInfo>, Error>)
    requires
        mbs_wide * mbs_high <= 0x0fff_ffff,
        4 * mbs_wide <= u32::MAX,
        forall|i: int| 0 <= i < macroblocks@.len() ==> positioned(#[trigger] macroblocks@[i]@),
    ensures
        final(budget).limit == old(budget).limit,
        16 * (mbs_wide * mbs_high) * MOTION_BYTES <= old(budget).room() ==> {
            &&& r matches Ok(v) && v@ == motion_field(
                summaries(macroblocks@),
                mbs_wide as int,
                mbs_high as int,
            )
            &&& final(budget).committed == old(budget).committed + 16 * (mbs_wide * mbs_high)
                * MOTION_BYTES
        },
        16 * (mbs_wide * mbs_high) * MOTION_BYTES > old(budget).room() ==> {
            &&& r matches Err(e) && e == Error::LimitExceeded
            &&& final(budget).committed == old(budget).committed
        },
{
    let n: usize = 16 * (mbs_wide * mbs_high) as usize;
    budget.charge(n as u64 * MOTION_BYTES)?;
    let mut field: Vec<MvInfo> = Vec::new();
    for i in 0..n
        invariant
            field@ == Seq::new(i as nat, |j: int| no_motion()),
    {
        field.push(MvInfo::default());
        assert(field@ =~= Seq::new((i + 1) as nat, |j: int| no_motion()));
    }
    let wide4: u32 = mbs_wide * 4;
    let m: usize = macroblocks.len();
    for i in 0..m
        invariant
            m == macroblocks@.len(),
            field@.len() == n,
            motion_field(summaries(macroblocks@), mbs_wide as int, mbs_high as int) == with_motion(
                field@,
                summaries(macroblocks@),
                i as int,
                4 * mbs_wide,
            ),
    {
        assert(positioned(macroblocks@[i as int]@));
        put_blocks(&mut field, &macroblocks[i], wide4);
        assert(summaries(macroblocks@)[i as int] == macroblocks@[i as int]@);
    }
    Ok(field)
}

proof fn lemma_with_blocks(field: Seq<MvInfo>, m: Summary, k: int, wide: int, high: int, x: int, y: int)
    requires
        field.len() == (4 * wide) * (4 * high),
        0 <= k <= 16,
        0 <= m.mb_x < wide,
        0 <= m.mb_y < high,
        0 <= x < 4 * wide,
        0 <= y < 4 * high,
    ensures
        with_blocks(field, m, k, 4 * wide).len() == field.len(),
        with_blocks(field, m, k, 4 * wide)[y * (4 * wide) + x] == (if x / 4 == m.mb_x && y / 4
            == m.mb_y && (y % 4) * 4 + x % 4 >= k {
            m.mv_blocks[(y % 4) * 4 + x % 4]
        } else {
            field[y * (4 * wide) + x]
        }),
    decreases 16 - k,
{
    if k < 16 {
        let (bx, by) = (4 * m.mb_x + k % 4, 4 * m.mb_y + k / 4);
        let next = with_block(field, m, k, 4 * wide);
        lemma_with_blocks(next, m, k + 1, wide, high, x, y);
        law_read_after_write(
            field,
            bx,
            by,
            x,
            y,
            4 * wide,
            4 * high,
            m.mv_blocks[k],
            no_motion(),
        );
        lemma_cell_bound(x, y, 4 * wide, 4 * high);
        lemma_cell_bound(bx, by, 4 * wide, 4 * high);
        assert(next == with_cell(field, bx, by, 4 * wide, 4 * high, m.mv_blocks[k]));
    }
}

proof fn lemma_with_motion(field: Seq<MvInfo>, ms: Seq<Summary>, i: int, wide: int, high: int, x: int, y: int)
    requires
        field.len() == (4 * wide) * (4 * high),
        ms.len() == wide * high,
        0 <= i <= ms.len(),
        raster(ms, wide),
        0 <= x < 4 * wide,
        0 <= y < 4 * high,
    ensures
        with_motion(field, ms, i, 4 * wide)[y * (4 * wide) + x] == (if (y / 4) * wide + x / 4 >= i {
            ms[(y / 4) * wide + x / 4].mv_blocks[(y % 4) * 4 + x % 4]
        } else {
            field[y * (4 * wide) + x]
        }),
    decreases ms.len() - i,
{
    lemma_cell_bound(x / 4, y / 4, wide, high);
    if i < ms.len() {
        let m = ms[i];
        law_macroblock_address_round_trip(i, wide);
        assert(m.mb_x == i % wide && m.mb_y == i / wide);
        assert(i / wide < high) by (nonlinear_arith)
            requires
                (i / wide) * wide <= i,
                i < wide * high,
                0 < wide,
        ;
        assert(0 <= i / wide) by (nonlinear_arith)
            requires
                0 <= i,
                0 < wide,
        ;
        lemma_with_blocks(field, m, 0, wide, high, x, y);
        lemma_with_motion(
            with_blocks(field, m, 0, 4 * wide),
            ms,
            i + 1,
            wide,
            high,
            x,
            y,
        );
        let owner = (y / 4) * wide + x / 4;
        if x / 4 == m.mb_x && y / 4 == m.mb_y {
            assert(owner == i);
        } else if owner == i {
            lemma_cell_injective(x / 4, y / 4, i % wide, i / wide, wide);
        }
    }
}

/// Macroblocks in raster order.
pub open spec fn raster(ms: Seq<Summary>, wide: int) -> bool {
    forall|i: int|
        0 <= i < ms.len() ==> (#[trigger] ms[i]).mb_x == i % wide && ms[i].mb_y == i / wide
}

/// The motion field of a completely decoded picture holds every block of every
/// macroblock at its place.
pub proof fn law_motion_field_holds_every_block(ms: Seq<Summary>, wide: int, high: int, x: int, y: int)
    requires
        ms.len() == wide * high,
        raster(ms, wide),
        0 <= x < 4 * wide,
        0 <= y < 4 * high,
    ensures
        motion_field(ms, wide, high)[y * (4 * wide) + x] == ms[(y / 4) * wide + x / 4].mv_blocks[(y
            % 4) * 4 + x % 4],
{
    let field = Seq::new((16 * (wide * high)) as nat, |i: int| no_motion());
    assert((4 * wide) * (4 * high) == 16 * (wide * high)) by (nonlinear_arith);
    assert(0 <= wide * high) by (nonlinear_arith)
        requires
            0 < wide,
            0 < high,
    ;
    assert((y / 4) * wide + x / 4 >= 0) by (nonlinear_arith)
        requires
            0 <= y / 4,
            0 < wide,
            0 <= x / 4,
    ;
    lemma_with_motion(field, ms, 0, wide, high, x, y);
}

} // verus!
