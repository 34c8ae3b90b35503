//! Macroblocks of four quadrants, each with parts and motion of its own.
use vstd::prelude::*;
use crate::direct::{apply_direct_quadrant, with_direct_quadrant, ColocatedField, DirectParams};
use crate::error::{Error, Reason};
use crate::grids::{above_of, addressable, left_of, CabacGrids, Grids, Lists, Mv, MvInfo};
use crate::inter::{
    derive_vector, optional_ref_idx, read_optional_ref_idx, vector, SyntaxReader, Syntax,
};
use crate::mb_type::{classify_sub_mb_type, sub_mb_kind, PartPred};
use crate::motion::PartitionShape;

verus! {

/// A quadrant's type.
#[derive(Debug, Clone, Copy)]
pub struct SubMb {
    pub code: u32,
    /// How many parts it has.
    pub num_sub: u8,
    /// Which lists its parts use; none that is read for a direct quadrant.
    pub pred: Option<PartPred>,
}

impl SubMb {
    /// A number of parts that divides a quadrant.
    pub open spec fn divides(self) -> bool {
        self.num_sub == 1 || self.num_sub == 2 || self.num_sub == 4
    }

    /// Two parts that lie above each other, not side by side: of the two codes
    /// that split a quadrant in two, with one prediction, the lower one.
    pub open spec fn stacked(self) -> bool {
        self.num_sub == 2 && (self.code == 1 || self.code == 4 || self.code == 6 || self.code == 8)
    }

    /// Where part `s` begins inside the quadrant.
    pub open spec fn corner(self, s: int) -> (int, int) {
        if self.num_sub == 1 {
            (0, 0)
        } else if self.stacked() {
            (0, s)
        } else if self.num_sub == 2 {
            (s, 0)
        } else {
            (s % 2, s / 2)
        }
    }

    /// The last column of part `s` inside the quadrant.
    pub open spec fn right(self, s: int) -> int {
        if self.num_sub == 1 || self.stacked() {
            1
        } else {
            self.corner(s).0
        }
    }

    /// The part that a block of the quadrant belongs to.
    pub open spec fn owner(self, dx: int, dy: int) -> int {
        if self.num_sub == 1 {
            0
        } else if self.stacked() {
            dy
        } else if self.num_sub == 2 {
            dx
        } else {
            dx + 2 * dy
        }
    }

    fn is_stacked(&self) -> (r: bool)
        ensures
            r == self.stacked(),
    {
        self.num_sub == 2 && (self.code == 1 || self.code == 4 || self.code == 6 || self.code == 8)
    }

    fn corner_of(&self, s: u32) -> (r: (u32, u32))
        requires
            self.divides(),
            s < self.num_sub,
        ensures
            r.0 == self.corner(s as int).0,
            r.1 == self.corner(s as int).1,
            r.0 < 2,
            r.1 < 2,
    {
        if self.num_sub == 1 {
            (0, 0)
        } else if self.is_stacked() {
            (0, s)
        } else if self.num_sub == 2 {
            (s, 0)
        } else {
            (s % 2, s / 2)
        }
    }

    fn owner_of(&self, dx: u32, dy: u32) -> (r: usize)
        requires
            self.divides(),
            dx < 2,
            dy < 2,
        ensures
            r == self.owner(dx as int, dy as int),
            r < self.num_sub,
    {
        if self.num_sub == 1 {
            0
        } else if self.is_stacked() {
            dy as usize
        } else if self.num_sub == 2 {
            dx as usize
        } else {
            dx as usize + 2 * dy as usize
        }
    }
}

/// Every block of a quadrant belongs to a part, and each part owns the block
/// that it begins with.
pub proof fn law_parts_cover_the_quadrant(sub: SubMb, dx: int, dy: int, s: int)
    requires
        sub.divides(),
        0 <= dx < 2,
        0 <= dy < 2,
        0 <= s < sub.num_sub,
    ensures
        0 <= sub.owner(dx, dy) < sub.num_sub,
        sub.owner(sub.corner(s).0, sub.corner(s).1) == s,
{
}

/// The four quadrant types, the rest of those already read.
pub open spec fn sub_types_from(t: Syntax, is_b: bool, subs: Seq<SubMb>) -> Result<
    (Seq<SubMb>, Syntax),
    Error,
>
    decreases 4 - subs.len(),
{
    if subs.len() >= 4 {
        Ok((subs, t))
    } else {
        match t.sub_mb_type(is_b) {
            Err(e) => Err(e),
            Ok((code, t1)) => match sub_mb_kind(is_b, code) {
                Err(e) => Err(e),
                Ok((num_sub, pred)) => sub_types_from(
                    t1,
                    is_b,
                    subs.push(SubMb { code: code as u32, num_sub, pred }),
                ),
            },
        }
    }
}

/// Whether no part is smaller than a quadrant; a direct one counts by the
/// granularity of its inference.
pub open spec fn no_small_parts(subs: Seq<SubMb>, is_b: bool, inference: bool) -> bool {
    forall|i: int|
        0 <= i < subs.len() ==> if is_b && (#[trigger] subs[i]).pred is None {
            inference
        } else {
            subs[i].num_sub == 1
        }
}

/// What direct quadrants need: the macroblock's direct motion, where it has
/// any, and the co-located picture.
#[derive(Clone, Copy)]
pub struct DirectEnv<'a> {
    pub inference: bool,
    pub params: Option<DirectParams>,
    pub colocated: Option<&'a ColocatedField>,
}

/// The direct quadrants from the `i`th on.
pub open spec fn direct_quadrants_from(
    g: Grids,
    subs: Seq<SubMb>,
    mb_x: int,
    mb_y: int,
    env: DirectEnv,
    i: int,
) -> Result<Grids, Error>
    decreases 4 - i,
{
    if i >= 4 {
        Ok(g)
    } else if subs[i].pred is Some {
        direct_quadrants_from(g, subs, mb_x, mb_y, env, i + 1)
    } else {
        match env.params {
            None => Err(Error::InvalidData(Reason::DirectOutsideB)),
            Some(p) => direct_quadrants_from(
                with_direct_quadrant(g, mb_x, mb_y, i, env.inference, p, env.colocated),
                subs,
                mb_x,
                mb_y,
                env,
                i + 1,
            ),
        }
    }
}

/// The grids with a block's reference index of one list written. The block
/// stays unavailable until its vector is known.
pub open spec fn with_ref(g: Grids, x: int, y: int, pred: PartPred, list: int, v: i8) -> Grids {
    let before = g.mv_at(x, y);
    g.with_mv(
        x,
        y,
        MvInfo { pred: Some(pred), ref_idx: before.ref_idx.with(list, v), ..before },
    )
}

/// The same for the four blocks of a quadrant whose first is at `(x, y)`.
pub open spec fn with_quadrant_ref(
    g: Grids,
    x: int,
    y: int,
    pred: PartPred,
    list: int,
    v: i8,
) -> Grids {
    let g1 = with_ref(g, x, y, pred, list, v);
    let g2 = with_ref(g1, x + 1, y, pred, list, v);
    let g3 = with_ref(g2, x, y + 1, pred, list, v);
    with_ref(g3, x + 1, y + 1, pred, list, v)
}

/// The first column of a quadrant.
pub open spec fn quad_x(mb_x: int, i: int) -> int {
    4 * mb_x + 2 * (i % 2)
}

/// The first row of a quadrant.
pub open spec fn quad_y(mb_y: int, i: int) -> int {
    4 * mb_y + 2 * (i / 2)
}

/// Whether a quadrant's parts use a list.
pub open spec fn quad_uses(sub: SubMb, list: int) -> bool {
    sub.pred matches Some(p) && p.uses(list)
}

/// The reference indices from the `k`th on: those of list 0 for all quadrants,
/// then those of list 1.
pub open spec fn sub_ref_idx_from(
    t: Syntax,
    g: Grids,
    subs: Seq<SubMb>,
    n: Lists<u32>,
    ref0_inferred: bool,
    mb_x: int,
    mb_y: int,
    k: int,
) -> Result<(Grids, Syntax), Error>
    decreases 8 - k,
{
    if k >= 8 {
        Ok((g, t))
    } else {
        let (list, i) = (k / 4, k % 4);
        let (x, y) = (quad_x(mb_x, i), quad_y(mb_y, i));
        if !quad_uses(subs[i], list) {
            sub_ref_idx_from(t, g, subs, n, ref0_inferred, mb_x, mb_y, k + 1)
        } else {
            let read = !(list == 0 && ref0_inferred);
            match optional_ref_idx(
                t,
                g.mv_at(x - 1, y),
                g.mv_at(x, y - 1),
                list,
                read,
                n.at(list) as int,
            ) {
                Err(e) => Err(e),
                Ok((v, t1)) => sub_ref_idx_from(
                    t1,
                    with_quadrant_ref(g, x, y, subs[i].pred->0, list, v),
                    subs,
                    n,
                    ref0_inferred,
                    mb_x,
                    mb_y,
                    k + 1,
                ),
            }
        }
    }
}

/// A block with its motion in one list completed.
pub open spec fn with_vector(
    before: MvInfo,
    pred: PartPred,
    list: int,
    ref_idx: i8,
    mvd: Mv,
    mv: Mv,
) -> MvInfo {
    MvInfo {
        mb_available: true,
        pred: Some(pred),
        ref_idx: before.ref_idx.with(list, ref_idx),
        mvd: before.mvd.with(list, mvd),
        mv: before.mv.with(list, mv),
        direct_or_skip: before.direct_or_skip,
    }
}

/// The parts of a quadrant at `(x, y)` from the `s`th on: each reads a vector
/// difference and is known to the next by its first block.
pub open spec fn parts_from(
    t: Syntax,
    g: Grids,
    sub: SubMb,
    x: int,
    y: int,
    list: int,
    ref_idx: i8,
    done: Seq<MvInfo>,
) -> Result<(Grids, Seq<MvInfo>, Syntax), Error>
    decreases sub.num_sub - done.len(),
{
    let s = done.len() as int;
    if s >= sub.num_sub {
        Ok((g, done, t))
    } else {
        let (px, py) = (x + sub.corner(s).0, y + sub.corner(s).1);
        match t.mvd(g.mv_at(px - 1, py), g.mv_at(px, py - 1), list) {
            Err(e) => Err(e),
            Ok((d, t1)) => {
                let v = vector(
                    g,
                    PartitionShape::Whole,
                    px,
                    x + sub.right(s),
                    py,
                    list,
                    ref_idx,
                    d,
                );
                let info = with_vector(g.mv_at(px, py), sub.pred->0, list, ref_idx, d, v);
                parts_from(
                    t1,
                    g.with_mv(px, py, info),
                    sub,
                    x,
                    y,
                    list,
                    ref_idx,
                    done.push(info),
                )
            },
        }
    }
}

/// The grids with each block of a quadrant given the motion of its part.
pub open spec fn with_owners(g: Grids, sub: SubMb, x: int, y: int, parts: Seq<MvInfo>) -> Grids {
    g.with_mv(x, y, parts[sub.owner(0, 0)]).with_mv(x + 1, y, parts[sub.owner(1, 0)]).with_mv(
        x,
        y + 1,
        parts[sub.owner(0, 1)],
    ).with_mv(x + 1, y + 1, parts[sub.owner(1, 1)])
}

/// The vector differences from the `k`th quadrant pass on: those of list 0 for
/// all parts of all quadrants, then those of list 1.
pub open spec fn sub_mvd_from(
    t: Syntax,
    g: Grids,
    subs: Seq<SubMb>,
    mb_x: int,
    mb_y: int,
    k: int,
) -> Result<(Grids, Syntax), Error>
    decreases 8 - k,
{
    if k >= 8 {
        Ok((g, t))
    } else {
        let (list, i) = (k / 4, k % 4);
        let (x, y) = (quad_x(mb_x, i), quad_y(mb_y, i));
        if !quad_uses(subs[i], list) {
            sub_mvd_from(t, g, subs, mb_x, mb_y, k + 1)
        } else {
            match parts_from(
                t,
                g,
                subs[i],
                x,
                y,
                list,
                g.mv_at(x, y).ref_idx.at(list),
                Seq::<MvInfo>::empty(),
            ) {
                Err(e) => Err(e),
                Ok((g1, parts, t1)) => sub_mvd_from(
                    t1,
                    with_owners(g1, subs[i], x, y, parts),
                    subs,
                    mb_x,
                    mb_y,
                    k + 1,
                ),
            }
        }
    }
}

/// A macroblock of four quadrants. Says besides whether no part is smaller
/// than a quadrant.
pub open spec fn sub_mb_pred(
    t: Syntax,
    g: Grids,
    n: Lists<u32>,
    mb_x: int,
    mb_y: int,
    ref0_inferred: bool,
    is_b: bool,
    env: DirectEnv,
) -> Result<(bool, Grids, Syntax), Error> {
    match sub_types_from(t, is_b, Seq::<SubMb>::empty()) {
        Err(e) => Err(e),
        Ok((subs, t1)) => match direct_quadrants_from(g, subs, mb_x, mb_y, env, 0) {
            Err(e) => Err(e),
            Ok(g1) => match sub_ref_idx_from(t1, g1, subs, n, ref0_inferred, mb_x, mb_y, 0) {
                Err(e) => Err(e),
                Ok((g2, t2)) => match sub_mvd_from(t2, g2, subs, mb_x, mb_y, 0) {
                    Err(e) => Err(e),
                    Ok((g3, t3)) => Ok((no_small_parts(subs, is_b, env.inference), g3, t3)),
                },
            },
        },
    }
}

/// Storage for the four quadrant types, whose number no stream decides.
pub fn budget_alloc_four<T>() -> (v: Vec<T>)
    ensures
        v@ == Seq::<T>::empty(),
{
    Vec::new()
}

#[verifier::loop_isolation(false)]
fn read_sub_types<R: SyntaxReader>(reader: &mut R, is_b: bool) -> (r: Result<Vec<SubMb>, Error>)
    requires
        old(reader).sound(),
    ensures
        final(reader).sound(),
        final(reader).input() == old(reader).input(),
        match sub_types_from(old(reader).syntax(), is_b, Seq::<SubMb>::empty()) {
            Ok((subs, t)) => r matches Ok(v) && v@ == subs && final(reader).syntax() == t,
            Err(e) => r matches Err(f) && f == e,
        },
        r matches Ok(v) ==> v@.len() == 4 && forall|i: int|
            0 <= i < 4 ==> (#[trigger] v@[i]).divides(),
{
    let mut subs: Vec<SubMb> = budget_alloc_four();
    for k in 0..4usize
        invariant
            reader.sound(),
            reader.input() == old(reader).input(),
            subs@.len() == k,
            forall|i: int| 0 <= i < k ==> (#[trigger] subs@[i]).divides(),
            sub_types_from(old(reader).syntax(), is_b, Seq::<SubMb>::empty()) == sub_types_from(
                reader.syntax(),
                is_b,
                subs@,
            ),
    {
        let code: u32 = reader.read_sub_mb_type(is_b)?;
        let (num_sub, pred) = classify_sub_mb_type(is_b, code)?;
        subs.push(SubMb { code, num_sub, pred });
    }
    Ok(subs)
}

fn all_parts_large(subs: &Vec<SubMb>, is_b: bool, inference: bool) -> (r: bool)
    ensures
        r == no_small_parts(subs@, is_b, inference),
{
    for i in 0..subs.len()
        invariant
            forall|j: int|
                0 <= j < i ==> if is_b && (#[trigger] subs@[j]).pred is None {
                    inference
                } else {
                    subs@[j].num_sub == 1
                },
    {
        let sub: SubMb = subs[i];
        let large: bool = if is_b && sub.pred.is_none() {
            inference
        } else {
            sub.num_sub == 1
        };
        if !large {
            assert(subs@[i as int] == sub);
            return false;
        }
    }
    true
}

#[verifier::loop_isolation(false)]
fn apply_direct_quadrants(
    grids: &mut CabacGrids,
    subs: &Vec<SubMb>,
    mb_x: u32,
    mb_y: u32,
    env: DirectEnv,
) -> (r: Result<(), Error>)
    requires
        old(grids).wf(),
        subs@.len() == 4,
        addressable(mb_x as int, mb_y as int),
    ensures
        final(grids).wf(),
        final(grids).charged_bytes == old(grids).charged_bytes,
        final(grids)@.current == old(grids)@.current,
        match direct_quadrants_from(old(grids)@, subs@, mb_x as int, mb_y as int, env, 0) {
            Ok(g) => r is Ok && final(grids)@ == g,
            Err(e) => r == Err::<(), Error>(e),
        },
{
    for i in 0..4u32
        invariant
            grids.wf(),
            grids.charged_bytes == old(grids).charged_bytes,
            grids@.current == old(grids)@.current,
            direct_quadrants_from(old(grids)@, subs@, mb_x as int, mb_y as int, env, 0)
                == direct_quadrants_from(
                grids@,
                subs@,
                mb_x as int,
                mb_y as int,
                env,
                i as int,
            ),
    {
        if subs[i as usize].pred.is_none() {
            match env.params {
                None => {
                    return Err(Error::InvalidData(Reason::DirectOutsideB));
                },
                Some(p) => {
                    apply_direct_quadrant(grids, mb_x, mb_y, i, env.inference, p, env.colocated);
                },
            }
        }
    }
    Ok(())
}

fn write_ref(grids: &mut CabacGrids, x: u32, y: u32, pred: PartPred, list: usize, v: i8)
    requires
        old(grids).wf(),
        list < 2,
    ensures
        final(grids).wf(),
        final(grids).charged_bytes == old(grids).charged_bytes,
        final(grids)@.current == old(grids)@.current,
        final(grids)@ == with_ref(old(grids)@, x as int, y as int, pred, list as int, v),
{
    let mut info: MvInfo = grids.mv_at(x, y);
    info.pred = Some(pred);
    info.ref_idx.set(list, v);
    grids.set_mv(x, y, info);
}

#[verifier::loop_isolation(false)]
fn read_sub_ref_idx<R: SyntaxReader>(
    reader: &mut R,
    grids: &mut CabacGrids,
    subs: &Vec<SubMb>,
    n: Lists<u32>,
    ref0_inferred: bool,
    mb_x: u32,
    mb_y: u32,
) -> (r: Result<(), Error>)
    requires
        old(reader).sound(),
        old(grids).wf(),
        subs@.len() == 4,
        addressable(mb_x as int, mb_y as int),
    ensures
        final(reader).sound(),
        final(reader).input() == old(reader).input(),
        final(grids).wf(),
        final(grids).charged_bytes == old(grids).charged_bytes,
        final(grids)@.current == old(grids)@.current,
        match sub_ref_idx_from(
            old(reader).syntax(),
            old(grids)@,
            subs@,
            n,
            ref0_inferred,
            mb_x as int,
            mb_y as int,
            0,
        ) {
            Ok((g, t)) => r is Ok && final(grids)@ == g && final(reader).syntax() == t,
            Err(e) => r == Err::<(), Error>(e),
        },
{
    for k in 0..8u32
        invariant
            reader.sound(),
            reader.input() == old(reader).input(),
            grids.wf(),
            grids.charged_bytes == old(grids).charged_bytes,
            grids@.current == old(grids)@.current,
            sub_ref_idx_from(
                old(reader).syntax(),
                old(grids)@,
                subs@,
                n,
                ref0_inferred,
                mb_x as int,
                mb_y as int,
                0,
            ) == sub_ref_idx_from(
                reader.syntax(),
                grids@,
                subs@,
                n,
                ref0_inferred,
                mb_x as int,
                mb_y as int,
                k as int,
            ),
    {
        let (list, i) = ((k / 4) as usize, k % 4);
        if let Some(pred) = subs[i as usize].pred {
            if pred.reads(list) {
                let (x, y) = (mb_x * 4 + 2 * (i % 2), mb_y * 4 + 2 * (i / 2));
                let left: MvInfo = left_of(grids, x, y);
                let above: MvInfo = above_of(grids, x, y);
                let read: bool = !(list == 0 && ref0_inferred);
                let v: i8 = read_optional_ref_idx(reader, left, above, list, read, n.get(list))?;
                write_ref(grids, x, y, pred, list, v);
                write_ref(grids, x + 1, y, pred, list, v);
                write_ref(grids, x, y + 1, pred, list, v);
                write_ref(grids, x + 1, y + 1, pred, list, v);
            }
        }
    }
    Ok(())
}

#[verifier::loop_isolation(false)]
fn read_parts<R: SyntaxReader>(
    reader: &mut R,
    grids: &mut CabacGrids,
    sub: SubMb,
    pred: PartPred,
    x: u32,
    y: u32,
    list: usize,
    ref_idx: i8,
) -> (r: Result<Vec<MvInfo>, Error>)
    requires
        old(reader).sound(),
        old(grids).wf(),
        sub.divides(),
        sub.pred == Some(pred),
        x + 2 <= u32::MAX,
        y + 2 <= u32::MAX,
        list < 2,
    ensures
        final(reader).sound(),
        final(reader).input() == old(reader).input(),
        final(grids).wf(),
        final(grids).charged_bytes == old(grids).charged_bytes,
        final(grids)@.current == old(grids)@.current,
        match parts_from(
            old(reader).syntax(),
            old(grids)@,
            sub,
            x as int,
            y as int,
            list as int,
            ref_idx,
            Seq::<MvInfo>::empty(),
        ) {
            Ok((g, parts, t)) => r matches Ok(v) && v@ == parts && final(grids)@ == g
                && final(reader).syntax() == t,
            Err(e) => r matches Err(f) && f == e,
        },
        r matches Ok(v) ==> v@.len() == sub.num_sub,
{
    let mut done: Vec<MvInfo> = Vec::new();
    for s in 0..sub.num_sub
        invariant
            reader.sound(),
            reader.input() == old(reader).input(),
            grids.wf(),
            grids.charged_bytes == old(grids).charged_bytes,
            grids@.current == old(grids)@.current,
            done@.len() == s,
            parts_from(
                old(reader).syntax(),
                old(grids)@,
                sub,
                x as int,
                y as int,
                list as int,
                ref_idx,
                Seq::<MvInfo>::empty(),
            ) == parts_from(
                reader.syntax(),
                grids@,
                sub,
                x as int,
                y as int,
                list as int,
                ref_idx,
                done@,
            ),
    {
        let (dx, dy) = sub.corner_of(s as u32);
        let (px, py) = (x + dx, y + dy);
        let right_x: u32 = if sub.num_sub == 1 || sub.is_stacked() {
            x + 1
        } else {
            px
        };
        let left: MvInfo = left_of(grids, px, py);
        let above: MvInfo = above_of(grids, px, py);
        let d: Mv = reader.read_mvd(left, above, list)?;
        let v: Mv = derive_vector(
            grids,
            PartitionShape::Whole,
            px,
            right_x,
            py,
            list,
            ref_idx,
            d,
        );
        let mut info: MvInfo = grids.mv_at(px, py);
        info.mb_available = true;
        info.pred = Some(pred);
        info.ref_idx.set(list, ref_idx);
        info.mvd.set(list, d);
        info.mv.set(list, v);
        grids.set_mv(px, py, info);
        done.push(info);
    }
    Ok(done)
}

#[verifier::loop_isolation(false)]
fn read_sub_mvd<R: SyntaxReader>(
    reader: &mut R,
    grids: &mut CabacGrids,
    subs: &Vec<SubMb>,
    mb_x: u32,
    mb_y: u32,
) -> (r: Result<(), Error>)
    requires
        old(reader).sound(),
        old(grids).wf(),
        subs@.len() == 4,
        forall|i: int| 0 <= i < 4 ==> (#[trigger] subs@[i]).divides(),
        addressable(mb_x as int, mb_y as int),
    ensures
        final(reader).sound(),
        final(reader).input() == old(reader).input(),
        final(grids).wf(),
        final(grids).charged_bytes == old(grids).charged_bytes,
        final(grids)@.current == old(grids)@.current,
        match sub_mvd_from(
            old(reader).syntax(),
            old(grids)@,
            subs@,
            mb_x as int,
            mb_y as int,
            0,
        ) {
            Ok((g, t)) => r is Ok && final(grids)@ == g && final(reader).syntax() == t,
            Err(e) => r == Err::<(), Error>(e),
        },
{
    for k in 0..8u32
        invariant
            reader.sound(),
            reader.input() == old(reader).input(),
            grids.wf(),
            grids.charged_bytes == old(grids).charged_bytes,
            grids@.current == old(grids)@.current,
            sub_mvd_from(
                old(reader).syntax(),
                old(grids)@,
                subs@,
                mb_x as int,
                mb_y as int,
                0,
            ) == sub_mvd_from(
                reader.syntax(),
                grids@,
                subs@,
                mb_x as int,
                mb_y as int,
                k as int,
            ),
    {
        let (list, i) = ((k / 4) as usize, k % 4);
        let sub: SubMb = subs[i as usize];
        if let Some(pred) = sub.pred {
            if pred.reads(list) {
                let (x, y) = (mb_x * 4 + 2 * (i % 2), mb_y * 4 + 2 * (i / 2));
                let ref_idx: i8 = grids.mv_at(x, y).ref_idx.get(list);
                let parts: Vec<MvInfo> = read_parts(
                    reader,
                    grids,
                    sub,
                    pred,
                    x,
                    y,
                    list,
                    ref_idx,
                )?;
                grids.set_mv(x, y, parts[sub.owner_of(0, 0)]);
                grids.set_mv(x + 1, y, parts[sub.owner_of(1, 0)]);
                grids.set_mv(x, y + 1, parts[sub.owner_of(0, 1)]);
                grids.set_mv(x + 1, y + 1, parts[sub.owner_of(1, 1)]);
            }
        }
    }
    Ok(())
}

/// Reads and applies the motion of a macroblock of four quadrants.
pub fn decode_sub_mb_pred<R: SyntaxReader>(
    reader: &mut R,
    grids: &mut CabacGrids,
    n: Lists<u32>,
    mb_x: u32,
    mb_y: u32,
    ref0_inferred: bool,
    is_b: bool,
    env: DirectEnv,
) -> (r: Result<bool, Error>)
    requires
        old(reader).sound(),
        old(grids).wf(),
        addressable(mb_x as int, mb_y as int),
    ensures
        final(reader).sound(),
        final(reader).input() == old(reader).input(),
        final(grids).wf(),
        final(grids).charged_bytes == old(grids).charged_bytes,
        final(grids)@.current == old(grids)@.current,
        match sub_mb_pred(
            old(reader).syntax(),
            old(grids)@,
            n,
            mb_x as int,
            mb_y as int,
            ref0_inferred,
            is_b,
            env,
        ) {
            Ok((large, g, t)) => r == Ok::<bool, Error>(large) && final(grids)@ == g
                && final(reader).syntax() == t,
            Err(e) => r == Err::<bool, Error>(e),
        },
{
    let subs: Vec<SubMb> = read_sub_types(reader, is_b)?;
    apply_direct_quadrants(grids, &subs, mb_x, mb_y, env)?;
    read_sub_ref_idx(reader, grids, &subs, n, ref0_inferred, mb_x, mb_y)?;
    read_sub_mvd(reader, grids, &subs, mb_x, mb_y)?;
    Ok(all_parts_large(&subs, is_b, env.inference))
}

} // verus!
