//! The decoder's state between pictures, and what each picture does to it.
//!
//! Everything here is decided in decoding order: which pictures are stored and
//! how they are listed, what the budget is charged, and in which order finished
//! pictures go out. Samples are computed elsewhere, possibly later.
use std::collections::VecDeque;
use std::sync::Arc;
use vstd::prelude::*;
use crate::bins::BinSource;
use crate::bits::BitReader;
use crate::budget::{given_back, Budget, Fault};
use crate::coder::{ArithmeticDecoder, Coder};
use crate::direct::ColocatedField;
use crate::error::{Error, Reason};
use crate::grids::{at_least_one, countable, numbered_or_refused, MvInfo};
use crate::headers::{Pps, SliceHeader, Sps};
use crate::marking::{
    apply_marking, buffer, collect_motion, law_marking_gives_back_what_leaves,
    lemma_total_is_nonnegative, lemma_total_without, lemma_trimmed_len, motion_field, positioned,
    raster, total_charge, trim, Buffer, MarkingCommand, MOTION_BYTES,
};
use crate::mb_type::SliceKind;
use crate::output::{coded_picture_bytes, output_frame_bytes, picture_bytes, within_u64};
use crate::refs::{
    apply_ref_list_modification, default_list0, default_list1, default_lists, law_order_is_stable,
    law_modified_list_names_stored_pictures, modified_list, stored, CurrentPicture, RefPicture,
    RefPicListModification, Stored,
};
use crate::reorder::{flush_reorder, frames, hold_for_reordering, joined, leaving};
use crate::slice::{summaries, MbSummary, SliceStats, Stats, Summary};
use crate::slice_cabac::{cabac_slice, decode_slice_cabac};
use crate::slice_cavlc::{cavlc_slice, decode_slice_cavlc, lemma_position, lemma_total};
use crate::slice_laws::{
    consistent, law_cabac_slice_is_consistent, law_cavlc_slice_is_consistent, placed,
};
use crate::weights::{
    bipred_mode, implicit_weight_table, table_weights, weight_table, BiPredMode, ImplicitWeight,
};

verus! {

/// What a slice header says of reference pictures.
#[derive(Debug, Clone)]
pub struct RefSyntax {
    pub modification_l0: Vec<RefPicListModification>,
    pub modification_l1: Vec<RefPicListModification>,
    /// The commands of an adaptive marking, none where the oldest pictures
    /// simply leave.
    pub marking: Option<Vec<MarkingCommand>>,
}

/// A picture about to be decoded.
#[derive(Debug, Clone, Copy)]
pub struct NewPicture<'a> {
    pub sps: Sps,
    pub pps: Pps,
    pub header: SliceHeader,
    pub syntax: &'a RefSyntax,
    /// Its place in display order.
    pub poc: i32,
    /// Nothing before it is ever referred to again.
    pub is_idr: bool,
    /// Later pictures may refer to it.
    pub is_reference: bool,
    /// The bytes of its output, if its layout is known.
    pub frame_bytes: Option<u64>,
}

impl<'a> NewPicture<'a> {
    /// A picture whose blocks 32 bits can number in each direction.
    pub open spec fn wf(self) -> bool {
        &&& self.sps.wf()
        &&& 4 * self.sps.pic_width_in_mbs <= u32::MAX
        &&& 4 * self.sps.mbs_high() <= u32::MAX
        &&& self.header.num_ref_idx_l0_active_minus1 + 2 <= usize::MAX
        &&& self.header.num_ref_idx_l1_active_minus1 + 2 <= usize::MAX
    }

    /// What its lists are built for.
    pub open spec fn current(self) -> CurrentPicture {
        CurrentPicture {
            is_b: self.header.kind is B,
            poc: self.poc,
            frame_num: self.header.frame_num,
            max_frame_num: self.sps.max_frame_num,
        }
    }

    /// How many pictures may wait for display.
    pub open spec fn window(self) -> int {
        let n = match self.sps.max_num_reorder_frames {
            Some(n) => n,
            None => self.sps.max_num_ref_frames,
        };
        if n < 1 {
            1
        } else {
            n as int
        }
    }
}

/// The final lists of a picture, as places among the stored pictures.
pub open spec fn lists_of(dpb: Seq<Stored>, pic: NewPicture) -> Result<
    (Seq<usize>, Seq<usize>),
    Error,
> {
    let (curr, max) = (pic.header.frame_num as int, pic.sps.max_frame_num as int);
    match modified_list(
        dpb,
        default_list0(dpb, pic.current()),
        pic.header.num_ref_idx_l0_active_minus1 + 1,
        pic.syntax.modification_l0@,
        curr,
        max,
    ) {
        Err(e) => Err(e),
        Ok(l0) => if !(pic.header.kind is B) {
            Ok((l0, Seq::empty()))
        } else {
            match modified_list(
                dpb,
                default_list1(dpb, pic.current()),
                pic.header.num_ref_idx_l1_active_minus1 + 1,
                pic.syntax.modification_l1@,
                curr,
                max,
            ) {
                Err(e) => Err(e),
                Ok(l1) => Ok((l0, l1)),
            }
        },
    }
}

/// Whether a list names stored pictures only.
pub open spec fn names_stored(list: Seq<usize>, n: nat) -> bool {
    forall|i: int| 0 <= i < list.len() ==> (#[trigger] list[i]) < n
}

/// The final lists of a picture name stored pictures only.
pub proof fn law_lists_name_stored_pictures(dpb: Seq<Stored>, pic: NewPicture)
    requires
        dpb.len() <= usize::MAX,
    ensures
        lists_of(dpb, pic) matches Ok((l0, l1)) ==> names_stored(l0, dpb.len()) && names_stored(
            l1,
            dpb.len(),
        ),
{
    let cur = pic.current();
    law_order_is_stable(crate::refs::keys0(dpb, cur), dpb.len());
    law_order_is_stable(crate::refs::keys1(dpb, cur), dpb.len());
    let (curr, max) = (pic.header.frame_num as int, pic.sps.max_frame_num as int);
    let d1 = default_list1(dpb, cur);
    assert forall|j: int| 0 <= j < d1.len() implies (#[trigger] d1[j]) < dpb.len() by {
        let plain = crate::refs::order_of(crate::refs::keys1(dpb, cur), dpb.len());
        assert(d1[j] == plain[j] || d1[j] == plain[0] || d1[j] == plain[1]);
    }
    law_modified_list_names_stored_pictures(
        dpb,
        default_list0(dpb, cur),
        pic.header.num_ref_idx_l0_active_minus1 + 1,
        pic.syntax.modification_l0@,
        curr,
        max,
    );
    law_modified_list_names_stored_pictures(
        dpb,
        d1,
        pic.header.num_ref_idx_l1_active_minus1 + 1,
        pic.syntax.modification_l1@,
        curr,
        max,
    );
}

/// The final lists of a picture.
#[derive(Debug, Clone)]
pub struct RefLists {
    pub l0: Vec<usize>,
    pub l1: Vec<usize>,
}

/// Builds the lists of a picture.
pub fn reference_lists(dpb: &VecDeque<RefPicture>, pic: NewPicture) -> (r: Result<RefLists, Error>)
    requires
        pic.wf(),
    ensures
        match lists_of(stored(dpb@), pic) {
            Ok((l0, l1)) => {
                &&& r matches Ok(v)
                &&& v.l0@ == l0
                &&& v.l1@ == l1
                &&& names_stored(l0, dpb@.len())
                &&& names_stored(l1, dpb@.len())
            },
            Err(e) => r matches Err(f) && f == e,
        },
{
    let is_b: bool = matches!(pic.header.kind, SliceKind::B);
    let cur = CurrentPicture {
        is_b,
        poc: pic.poc,
        frame_num: pic.header.frame_num,
        max_frame_num: pic.sps.max_frame_num,
    };
    let n: usize = dpb.len();
    proof {
        law_lists_name_stored_pictures(stored(dpb@), pic);
    }
    let (d0, d1) = default_lists(dpb, cur);
    let l0: Vec<usize> = apply_ref_list_modification(
        dpb,
        d0.as_slice(),
        pic.header.num_ref_idx_l0_active_minus1 as usize + 1,
        pic.syntax.modification_l0.as_slice(),
        pic.header.frame_num,
        pic.sps.max_frame_num,
    )?;
    if !is_b {
        return Ok(RefLists { l0, l1: Vec::new() });
    }
    let l1: Vec<usize> = apply_ref_list_modification(
        dpb,
        d1.as_slice(),
        pic.header.num_ref_idx_l1_active_minus1 as usize + 1,
        pic.syntax.modification_l1.as_slice(),
        pic.header.frame_num,
        pic.sps.max_frame_num,
    )?;
    Ok(RefLists { l0, l1 })
}

/// The motion of the picture that direct prediction looks at: the first of the
/// second list, in bipredictive slices.
pub open spec fn colocated_of(dpb: Seq<RefPicture>, l1: Seq<usize>, pic: NewPicture) -> Option<
    ColocatedField,
> {
    if pic.header.kind is B && l1.len() > 0 {
        Some(
            ColocatedField {
                width_4x4: (4 * pic.sps.pic_width_in_mbs) as u32,
                height_4x4: (4 * pic.sps.mbs_high()) as u32,
                blocks: dpb[l1[0] as int].motion,
            },
        )
    } else {
        None
    }
}

fn colocated(dpb: &VecDeque<RefPicture>, lists: &RefLists, pic: NewPicture) -> (r: Option<
    ColocatedField,
>)
    requires
        pic.wf(),
        names_stored(lists.l1@, dpb@.len()),
    ensures
        r == colocated_of(dpb@, lists.l1@, pic),
{
    if !matches!(pic.header.kind, SliceKind::B) || lists.l1.len() == 0 {
        return None;
    }
    let n: usize = dpb.len();
    let i: usize = lists.l1[0];
    assert(i == lists.l1@[0] && i < n);
    let p: &RefPicture = &dpb[i];
    let high: u32 = pic.sps.height_in_mbs();
    Some(
        ColocatedField {
            width_4x4: pic.sps.pic_width_in_mbs * 4,
            height_4x4: high * 4,
            blocks: Arc::clone(&p.motion),
        },
    )
}

// ----------------------------------------------------------------- entry
/// The bytes of one macroblock's summary.
pub const SUMMARY_BYTES: u64 = 1888;

/// What turning a decoded slice into a picture needs.
#[derive(Debug)]
pub struct PictureWork {
    pub macroblocks: Vec<MbSummary>,
    /// The numbers of the referenced pictures, list by list.
    pub refs0: Vec<u64>,
    pub refs1: Vec<u64>,
    /// Their places in display order.
    pub pocs0: Vec<i32>,
    pub pocs1: Vec<i32>,
    pub bipred_mode: BiPredMode,
    /// The weights of every pair of references, where distances give them.
    pub implicit: Option<Vec<Vec<ImplicitWeight>>>,
    /// What the work is charged while it goes on.
    pub task_charge: u64,
    /// The room that should be left before it starts.
    pub headroom: u64,
}

/// The mathematical content of [`PictureWork`].
#[verifier::ext_equal]
pub struct Work {
    pub macroblocks: Seq<Summary>,
    pub refs0: Seq<u64>,
    pub refs1: Seq<u64>,
    pub pocs0: Seq<i32>,
    pub pocs1: Seq<i32>,
    pub bipred_mode: BiPredMode,
    pub implicit: Option<Seq<Seq<(int, int)>>>,
    pub task_charge: int,
    pub headroom: int,
}

impl View for PictureWork {
    type V = Work;

    open spec fn view(&self) -> Work {
        Work {
            macroblocks: summaries(self.macroblocks@),
            refs0: self.refs0@,
            refs1: self.refs1@,
            pocs0: self.pocs0@,
            pocs1: self.pocs1@,
            bipred_mode: self.bipred_mode,
            implicit: match self.implicit {
                Some(t) => Some(table_weights(t@)),
                None => None,
            },
            task_charge: self.task_charge as int,
            headroom: self.headroom as int,
        }
    }
}

/// The numbers of the pictures in a list.
pub open spec fn pictures_in(dpb: Seq<Stored>, list: Seq<usize>) -> Seq<u64> {
    Seq::new(list.len(), |i: int| dpb[list[i] as int].picture)
}

/// The order counts of the pictures in a list.
pub open spec fn pocs_in(dpb: Seq<Stored>, list: Seq<usize>) -> Seq<i32> {
    Seq::new(list.len(), |i: int| dpb[list[i] as int].poc)
}

/// Where a slice's weights come from.
pub open spec fn mode_of(pic: NewPicture) -> BiPredMode {
    if pic.header.kind is B && pic.pps.weighted_bipred_idc == 1 {
        BiPredMode::Explicit
    } else if pic.header.kind is B && pic.pps.weighted_bipred_idc == 2 {
        BiPredMode::Implicit
    } else {
        BiPredMode::Default
    }
}

/// What the work on a picture is charged: its samples, its output and its
/// macroblocks.
pub open spec fn charge_of(pic: NewPicture, macroblocks: nat) -> int {
    let coded = picture_bytes(pic.sps.pic_width_in_mbs as int, pic.sps.mbs_high());
    let output = match pic.frame_bytes {
        Some(n) => n as int,
        None => coded,
    };
    within_u64(coded + output + SUMMARY_BYTES * macroblocks)
}

/// What turning a decoded slice into a picture needs. A picture needs room for
/// itself and for its stored copy.
pub open spec fn work_of(
    dpb: Seq<Stored>,
    l0: Seq<usize>,
    l1: Seq<usize>,
    macroblocks: Seq<Summary>,
    pic: NewPicture,
) -> Work {
    let charge = charge_of(pic, macroblocks.len());
    let (pocs0, pocs1) = (pocs_in(dpb, l0), pocs_in(dpb, l1));
    Work {
        macroblocks,
        refs0: pictures_in(dpb, l0),
        refs1: pictures_in(dpb, l1),
        pocs0,
        pocs1,
        bipred_mode: mode_of(pic),
        implicit: if mode_of(pic) is Implicit {
            Some(weight_table(pic.poc, pocs0, pocs1))
        } else {
            None
        },
        task_charge: charge,
        headroom: within_u64(
            charge + picture_bytes(pic.sps.pic_width_in_mbs as int, pic.sps.mbs_high()),
        ),
    }
}

fn list_pictures(dpb: &VecDeque<RefPicture>, list: &Vec<usize>) -> (r: (Vec<u64>, Vec<i32>))
    requires
        names_stored(list@, dpb@.len()),
    ensures
        r.0@ == pictures_in(stored(dpb@), list@),
        r.1@ == pocs_in(stored(dpb@), list@),
{
    let mut pictures: Vec<u64> = Vec::new();
    let mut pocs: Vec<i32> = Vec::new();
    let n: usize = list.len();
    let size: usize = dpb.len();
    for i in 0..n
        invariant
            n == list@.len(),
            size == dpb@.len(),
            names_stored(list@, dpb@.len()),
            pictures@ == pictures_in(stored(dpb@), list@).take(i as int),
            pocs@ == pocs_in(stored(dpb@), list@).take(i as int),
    {
        let k: usize = list[i];
        assert(k == list@[i as int] && k < size);
        let p: &RefPicture = &dpb[k];
        pictures.push(p.picture);
        pocs.push(p.poc);
        assert(stored(dpb@)[k as int] == dpb@[k as int]@);
        assert(pictures@ =~= pictures_in(stored(dpb@), list@).take(i + 1));
        assert(pocs@ =~= pocs_in(stored(dpb@), list@).take(i + 1));
    }
    assert(pictures@ =~= pictures_in(stored(dpb@), list@));
    assert(pocs@ =~= pocs_in(stored(dpb@), list@));
    (pictures, pocs)
}

fn task_charge(coded: u64, frame_bytes: Option<u64>, macroblocks: usize) -> (n: u64)
    ensures
        n == within_u64(
            coded + (match frame_bytes {
                Some(b) => b as int,
                None => coded as int,
            }) + SUMMARY_BYTES * macroblocks,
        ),
{
    let output: u64 = output_frame_bytes(frame_bytes, coded);
    let total: u128 = coded as u128 + output as u128 + macroblocks as u128 * 1888;
    if total > 0xffff_ffff_ffff_ffff {
        0xffff_ffff_ffff_ffff
    } else {
        total as u64
    }
}

fn describe(
    dpb: &VecDeque<RefPicture>,
    lists: &RefLists,
    macroblocks: Vec<MbSummary>,
    pic: NewPicture,
) -> (w: PictureWork)
    requires
        pic.wf(),
        names_stored(lists.l0@, dpb@.len()),
        names_stored(lists.l1@, dpb@.len()),
    ensures
        w@ == work_of(stored(dpb@), lists.l0@, lists.l1@, summaries(macroblocks@), pic),
        w.macroblocks@ == macroblocks@,
{
    let (refs0, pocs0) = list_pictures(dpb, &lists.l0);
    let (refs1, pocs1) = list_pictures(dpb, &lists.l1);
    let is_b: bool = matches!(pic.header.kind, SliceKind::B);
    let mode: BiPredMode = bipred_mode(is_b, pic.pps.weighted_bipred_idc);
    let implicit: Option<Vec<Vec<ImplicitWeight>>> = match mode {
        BiPredMode::Implicit => Some(implicit_weight_table(pic.poc, &pocs0, &pocs1)),
        _ => None,
    };
    let coded: u64 = coded_picture_bytes(pic.sps.pic_width_in_mbs, pic.sps.height_in_mbs());
    let charge: u64 = task_charge(coded, pic.frame_bytes, macroblocks.len());
    let headroom: u64 = charge.saturating_add(coded);
    PictureWork {
        macroblocks,
        refs0,
        refs1,
        pocs0,
        pocs1,
        bipred_mode: mode,
        implicit,
        task_charge: charge,
        headroom,
    }
}

// --------------------------------------------------------------------- state
/// What was decided about a picture's output while its samples are still
/// being computed.
#[derive(Debug, Clone, Copy, PartialEq, Eq, Structural)]
pub struct InFlight {
    /// Everything that waits for display goes out before this picture.
    pub flush_reorder_first: bool,
    pub poc: i32,
    pub reorder_window: usize,
    /// What its work is charged.
    pub charge: u64,
}

/// A decoder of pictures `F`.
#[derive(Debug)]
pub struct H264Decoder<F> {
    /// The bytes that everything together may take.
    pub limit: u64,
    pub budget: Budget,
    /// The stored pictures, the oldest first.
    pub dpb: VecDeque<RefPicture>,
    /// The pictures that wait for display, with their places in its order.
    pub reorder: Vec<(i32, F)>,
    /// The pictures that are being computed, in decoding order.
    pub in_flight: VecDeque<InFlight>,
    /// How many pictures may be computed at once.
    pub threads: usize,
    /// The pictures that are ready to be shown, in display order.
    pub ready: Vec<F>,
}

/// The stored pictures that a new picture finds: none where nothing before it
/// is ever referred to again.
pub open spec fn kept(dpb: Seq<RefPicture>, pic: NewPicture) -> Seq<RefPicture> {
    if pic.is_idr {
        Seq::empty()
    } else {
        dpb
    }
}

/// What is committed when a new picture begins.
pub open spec fn committed_at_start(b: Buffer, pic: NewPicture) -> int {
    if pic.is_idr {
        b.trimmed(0).committed
    } else {
        b.committed
    }
}

/// Whether a slice covers its whole picture.
pub open spec fn covers(stats: Stats, pic: NewPicture) -> bool {
    stats.count == pic.sps.pic_width_in_mbs * pic.sps.mbs_high()
}

/// The macroblocks of a picture that storing its motion can rely on.
pub open spec fn storable(ms: Seq<MbSummary>, pic: NewPicture) -> bool {
    &&& pic.sps.pic_width_in_mbs * pic.sps.mbs_high() <= 0x0fff_ffff
    &&& forall|i: int| 0 <= i < ms.len() ==> positioned(#[trigger] ms[i]@)
}

/// Decoding a variable-length coded picture: its work, where reading ended and
/// what room the budget then has.
pub open spec fn begun_cavlc(
    dpb: Seq<RefPicture>,
    committed: int,
    limit: int,
    data: Seq<u8>,
    pos: int,
    pic: NewPicture,
) -> Result<(Work, int, int), Fault> {
    let kept = kept(dpb, pic);
    let room = limit - committed_at_start(Buffer { dpb: stored(dpb), committed }, pic);
    if pic.header.first_mb_in_slice != 0 {
        Err(
            Fault {
                error: Error::Unsupported(Reason::SeveralSlices),
                room: limit - committed,
            },
        )
    } else {
        match lists_of(stored(kept), pic) {
            Err(error) => Err(Fault { error, room }),
            Ok((l0, l1)) => match cavlc_slice(
                data,
                pos,
                pic.sps,
                pic.pps,
                pic.header,
                as_ref(colocated_of(kept, l1, pic)),
                room,
            ) {
                Err(e) => Err(e),
                Ok((stats, end, left)) => if covers(stats, pic) {
                    Ok((work_of(stored(kept), l0, l1, stats.macroblocks, pic), end, left))
                } else {
                    Err(
                        Fault {
                            error: Error::InvalidData(Reason::IncompletePicture),
                            room: left,
                        },
                    )
                },
            },
        }
    }
}

/// Decoding an arithmetic-coded picture: its work.
pub open spec fn begun_cabac<E: ArithmeticDecoder>(
    dpb: Seq<RefPicture>,
    committed: int,
    limit: int,
    engine: E::State,
    engine_behind: E::State,
    pic: NewPicture,
) -> Result<Work, Fault> {
    let kept = kept(dpb, pic);
    let room = limit - committed_at_start(Buffer { dpb: stored(dpb), committed }, pic);
    if pic.header.first_mb_in_slice != 0 {
        Err(
            Fault {
                error: Error::Unsupported(Reason::SeveralSlices),
                room: limit - committed,
            },
        )
    } else {
        match lists_of(stored(kept), pic) {
            Err(error) => Err(Fault { error, room }),
            Ok((l0, l1)) => match cabac_slice::<E>(
                engine,
                pic.sps,
                pic.pps,
                pic.header,
                as_ref(colocated_of(kept, l1, pic)),
                room,
            ) {
                Err(e) => Err(e),
                Ok((stats, _)) => if E::malformed(engine_behind) {
                    Err(Fault { error: Error::InvalidData(Reason::MalformedBins), room })
                } else if covers(stats, pic) {
                    Ok(work_of(stored(kept), l0, l1, stats.macroblocks, pic))
                } else {
                    Err(
                        Fault {
                            error: Error::InvalidData(Reason::IncompletePicture),
                            room,
                        },
                    )
                },
            },
        }
    }
}

proof fn lemma_storable(ms: Seq<MbSummary>, stats: Stats, pic: NewPicture)
    requires
        consistent(stats, 0, pic.sps.pic_width_in_mbs as int),
        stats.macroblocks == summaries(ms),
        covers(stats, pic),
        countable(
            at_least_one(pic.sps.pic_width_in_mbs as int),
            at_least_one(pic.sps.mbs_high()),
        ),
    ensures
        storable(ms, pic),
{
    let (wide, high) = (pic.sps.pic_width_in_mbs as int, pic.sps.mbs_high());
    lemma_total(wide, high);
    assert forall|i: int| 0 <= i < ms.len() implies positioned(#[trigger] ms[i]@) by {
        assert(stats.macroblocks[i] == ms[i]@);
        assert(placed(stats.macroblocks[i], 0 + i, wide));
        lemma_position(i, wide);
        vstd::arithmetic::div_mod::lemma_mod_bound(i, wide);
        assert(0 <= i / wide <= i) by (nonlinear_arith)
            requires
                0 <= i,
                1 <= wide,
        ;
    }
}

proof fn lemma_covering_slice_is_complete(stats: Stats, pic: NewPicture)
    requires
        consistent(stats, 0, pic.sps.pic_width_in_mbs as int),
        covers(stats, pic),
        pic.sps.wf(),
    ensures
        stats.macroblocks.len() == pic.sps.pic_width_in_mbs * pic.sps.mbs_high(),
        raster(stats.macroblocks, pic.sps.pic_width_in_mbs as int),
{
    let (wide, high) = (pic.sps.pic_width_in_mbs as int, pic.sps.mbs_high());
    assert forall|i: int| 0 <= i < stats.macroblocks.len() implies (
    #[trigger] stats.macroblocks[i]).mb_x == i % wide && stats.macroblocks[i].mb_y == i / wide by {
        assert(placed(stats.macroblocks[i], 0 + i, wide));
        assert(1 <= wide) by (nonlinear_arith)
            requires
                0 <= i < wide * high,
                0 <= wide,
        ;
        vstd::arithmetic::div_mod::lemma_mod_bound(i, wide);
        assert(0 <= i / wide < high) by (nonlinear_arith)
            requires
                0 <= i < wide * high,
                1 <= wide,
        ;
    }
}

/// A variable-length coded picture that is decoded at all is decoded
/// completely, in raster order.
pub proof fn law_cavlc_pictures_are_complete(
    dpb: Seq<RefPicture>,
    committed: int,
    limit: int,
    data: Seq<u8>,
    pos: int,
    pic: NewPicture,
)
    requires
        pic.sps.wf(),
    ensures
        begun_cavlc(dpb, committed, limit, data, pos, pic) matches Ok((work, end, left)) ==> {
            &&& work.macroblocks.len() == pic.sps.pic_width_in_mbs * pic.sps.mbs_high()
            &&& raster(work.macroblocks, pic.sps.pic_width_in_mbs as int)
        },
{
    let kept = kept(dpb, pic);
    let room = limit - committed_at_start(Buffer { dpb: stored(dpb), committed }, pic);
    if let Ok((l0, l1)) = lists_of(stored(kept), pic) {
        let field = as_ref(colocated_of(kept, l1, pic));
        law_cavlc_slice_is_consistent(data, pos, pic.sps, pic.pps, pic.header, field, room);
        if let Ok((stats, end, left)) = cavlc_slice(
            data,
            pos,
            pic.sps,
            pic.pps,
            pic.header,
            field,
            room,
        ) {
            if pic.header.first_mb_in_slice == 0 && covers(stats, pic) {
                lemma_covering_slice_is_complete(stats, pic);
            }
        }
    }
}

/// An arithmetic-coded picture that is decoded at all is decoded completely,
/// in raster order.
pub proof fn law_cabac_pictures_are_complete<E: ArithmeticDecoder>(
    dpb: Seq<RefPicture>,
    committed: int,
    limit: int,
    engine: E::State,
    engine_behind: E::State,
    pic: NewPicture,
)
    requires
        pic.sps.wf(),
    ensures
        begun_cabac::<E>(dpb, committed, limit, engine, engine_behind, pic) matches Ok(work) ==> {
            &&& work.macroblocks.len() == pic.sps.pic_width_in_mbs * pic.sps.mbs_high()
            &&& raster(work.macroblocks, pic.sps.pic_width_in_mbs as int)
        },
{
    let kept = kept(dpb, pic);
    let room = limit - committed_at_start(Buffer { dpb: stored(dpb), committed }, pic);
    if let Ok((l0, l1)) = lists_of(stored(kept), pic) {
        let field = as_ref(colocated_of(kept, l1, pic));
        law_cabac_slice_is_consistent::<E>(engine, pic.sps, pic.pps, pic.header, field, room);
        if let Ok((stats, s)) = cabac_slice::<E>(
            engine,
            pic.sps,
            pic.pps,
            pic.header,
            field,
            room,
        ) {
            if pic.header.first_mb_in_slice == 0 && covers(stats, pic) {
                lemma_covering_slice_is_complete(stats, pic);
            }
        }
    }
}

/// A field by reference.
pub open spec fn as_ref(field: Option<ColocatedField>) -> Option<&'static ColocatedField> {
    match field {
        Some(f) => Some(&f),
        None => None,
    }
}

impl<F> H264Decoder<F> {
    /// Everything but the stored pictures and the budget.
    pub open spec fn output_side(&self) -> (u64, Seq<(i32, F)>, Seq<InFlight>, usize, Seq<F>) {
        (self.limit, self.reorder@, self.in_flight@, self.threads, self.ready@)
    }

    /// A decoder that may take `limit` bytes, with one thread.
    pub fn new(limit: u64) -> (d: Self)
        ensures
            d.limit == limit,
            d.budget.limit == limit,
            d.budget.committed == 0,
            d.dpb@.len() == 0,
            d.reorder@.len() == 0,
            d.in_flight@.len() == 0,
            d.ready@.len() == 0,
            d.threads == 1,
    {
        H264Decoder {
            limit,
            budget: Budget::new(limit),
            dpb: VecDeque::new(),
            reorder: Vec::new(),
            in_flight: VecDeque::new(),
            threads: 1,
            ready: Vec::new(),
        }
    }

    /// How many pictures may be in flight: with several threads one more than
    /// there are threads.
    pub open spec fn max_frames(&self) -> int {
        if self.threads <= 1 {
            1
        } else if self.threads == usize::MAX {
            usize::MAX as int
        } else {
            self.threads + 1
        }
    }

    pub fn max_in_flight(&self) -> (n: usize)
        ensures
            n == self.max_frames(),
    {
        if self.threads <= 1 {
            1
        } else {
            self.threads.saturating_add(1)
        }
    }

    /// Starts a picture: refuses one that is not whole, drops the stored
    /// pictures that cannot be referred to any more and builds the lists.
    fn start(&mut self, pic: NewPicture) -> (r: Result<RefLists, Error>)
        requires
            pic.wf(),
        ensures
            final(self).output_side() == old(self).output_side(),
            final(self).budget.limit == old(self).budget.limit,
            pic.header.first_mb_in_slice != 0 ==> {
                &&& r matches Err(e) && e == Error::Unsupported(Reason::SeveralSlices)
                &&& final(self).dpb@ == old(self).dpb@
                &&& final(self).budget == old(self).budget
            },
            pic.header.first_mb_in_slice == 0 ==> {
                &&& final(self).dpb@ == kept(old(self).dpb@, pic)
                &&& final(self).budget.committed == committed_at_start(
                    buffer(old(self).dpb, old(self).budget),
                    pic,
                )
                &&& match lists_of(stored(final(self).dpb@), pic) {
                    Ok((l0, l1)) => {
                        &&& r matches Ok(v)
                        &&& v.l0@ == l0
                        &&& v.l1@ == l1
                        &&& names_stored(l0, final(self).dpb@.len())
                        &&& names_stored(l1, final(self).dpb@.len())
                    },
                    Err(e) => r matches Err(f) && f == e,
                }
            },
    {
        if pic.header.first_mb_in_slice != 0 {
            return Err(Error::Unsupported(Reason::SeveralSlices));
        }
        if pic.is_idr {
            trim(&mut self.dpb, &mut self.budget, 0);
            proof {
                lemma_trimmed_len(buffer(old(self).dpb, old(self).budget), 0);
                assert(stored(self.dpb@).len() == 0);
                assert(self.dpb@ =~= Seq::<RefPicture>::empty());
            }
        }
        reference_lists(&self.dpb, pic)
    }

    /// Decodes a variable-length coded picture up to its samples.
    pub fn begin_cavlc(&mut self, r: &mut BitReader, pic: NewPicture) -> (v: Result<
        PictureWork,
        Error,
    >)
        requires
            old(r).wf(),
            pic.wf(),
            numbered_or_refused(
                pic.sps.pic_width_in_mbs as int,
                pic.sps.mbs_high(),
                old(self).budget.limit - committed_at_start(
                    buffer(old(self).dpb, old(self).budget),
                    pic,
                ),
            ),
        ensures
            final(r).wf(),
            final(r).data@ == old(r).data@,
            final(self).output_side() == old(self).output_side(),
            final(self).budget.limit == old(self).budget.limit,
            final(self).dpb@ == (if pic.header.first_mb_in_slice == 0 {
                kept(old(self).dpb@, pic)
            } else {
                old(self).dpb@
            }),
            pic.header.first_mb_in_slice != 0 ==> final(self).budget == old(self).budget,
            pic.header.first_mb_in_slice == 0 ==> final(self).budget.committed
                >= committed_at_start(buffer(old(self).dpb, old(self).budget), pic),
            match begun_cavlc(
                old(self).dpb@,
                old(self).budget.committed as int,
                old(self).budget.limit as int,
                old(r).data@,
                old(r).pos as int,
                pic,
            ) {
                Ok((work, end, left)) => {
                    &&& v matches Ok(w)
                    &&& w@ == work
                    &&& storable(w.macroblocks@, pic)
                    &&& final(r).pos == end
                    &&& final(self).budget.room() == left
                },
                Err(f) => v matches Err(e) && e == f.error && final(self).budget.room() == f.room,
            },
    {
        let lists: RefLists = self.start(pic)?;
        let field: Option<ColocatedField> = colocated(&self.dpb, &lists, pic);
        let ghost room = self.budget.room();
        let ghost (data, pos) = (r.data@, r.pos as int);
        let stats: SliceStats = decode_slice_cavlc(
            r,
            &mut self.budget,
            &pic.sps,
            &pic.pps,
            &pic.header,
            field.as_ref(),
        )?;
        proof {
            law_cavlc_slice_is_consistent(
                data,
                pos,
                pic.sps,
                pic.pps,
                pic.header,
                as_ref(field),
                room,
            );
        }
        let high: u32 = pic.sps.height_in_mbs();
        assert(0 <= pic.sps.pic_width_in_mbs * high <= 0xffff_ffff * 0xffff_ffff)
            by (nonlinear_arith)
            requires
                0 <= pic.sps.pic_width_in_mbs <= 0xffff_ffff,
                0 <= high <= 0xffff_ffff,
        ;
        if stats.macroblock_count as u64 != pic.sps.pic_width_in_mbs as u64 * high as u64 {
            return Err(Error::InvalidData(Reason::IncompletePicture));
        }
        proof {
            lemma_storable(stats.macroblocks@, stats@, pic);
        }
        Ok(describe(&self.dpb, &lists, stats.macroblocks, pic))
    }

    /// Decodes an arithmetic-coded picture up to its samples.
    pub fn begin_cabac<E: ArithmeticDecoder>(&mut self, bins: &mut Coder<E>, pic: NewPicture) -> (v:
        Result<PictureWork, Error>)
        requires
            old(bins).wf(),
            pic.wf(),
            numbered_or_refused(
                pic.sps.pic_width_in_mbs as int,
                pic.sps.mbs_high(),
                old(self).budget.limit - committed_at_start(
                    buffer(old(self).dpb, old(self).budget),
                    pic,
                ),
            ),
        ensures
            final(bins).wf(),
            final(self).output_side() == old(self).output_side(),
            final(self).budget.limit == old(self).budget.limit,
            final(self).dpb@ == (if pic.header.first_mb_in_slice == 0 {
                kept(old(self).dpb@, pic)
            } else {
                old(self).dpb@
            }),
            pic.header.first_mb_in_slice != 0 ==> final(self).budget == old(self).budget,
            pic.header.first_mb_in_slice == 0 ==> final(self).budget.committed
                >= committed_at_start(buffer(old(self).dpb, old(self).budget), pic),
            match begun_cabac::<E>(
                old(self).dpb@,
                old(self).budget.committed as int,
                old(self).budget.limit as int,
                old(bins).engine.state(),
                final(bins).engine.state(),
                pic,
            ) {
                Ok(work) => {
                    &&& v matches Ok(w)
                    &&& w@ == work
                    &&& storable(w.macroblocks@, pic)
                    &&& final(self).budget.committed == committed_at_start(
                        buffer(old(self).dpb, old(self).budget),
                        pic,
                    )
                },
                Err(f) => v matches Err(e) && e == f.error && final(self).budget.room() == f.room,
            },
    {
        let lists: RefLists = self.start(pic)?;
        let field: Option<ColocatedField> = colocated(&self.dpb, &lists, pic);
        let ghost room = self.budget.room();
        let ghost engine = bins.engine.state();
        let stats: SliceStats = decode_slice_cabac(
            bins,
            &mut self.budget,
            &pic.sps,
            &pic.pps,
            &pic.header,
            field.as_ref(),
        )?;
        if bins.engine.is_malformed() {
            return Err(Error::InvalidData(Reason::MalformedBins));
        }
        proof {
            law_cabac_slice_is_consistent::<E>(
                engine,
                pic.sps,
                pic.pps,
                pic.header,
                as_ref(field),
                room,
            );
        }
        let high: u32 = pic.sps.height_in_mbs();
        assert(0 <= pic.sps.pic_width_in_mbs * high <= 0xffff_ffff * 0xffff_ffff)
            by (nonlinear_arith)
            requires
                0 <= pic.sps.pic_width_in_mbs <= 0xffff_ffff,
                0 <= high <= 0xffff_ffff,
        ;
        if stats.macroblock_count as u64 != pic.sps.pic_width_in_mbs as u64 * high as u64 {
            return Err(Error::InvalidData(Reason::IncompletePicture));
        }
        proof {
            lemma_storable(stats.macroblocks@, stats@, pic);
        }
        Ok(describe(&self.dpb, &lists, stats.macroblocks, pic))
    }

    /// Whether a picture in flight should be awaited before a new one is let
    /// in: there is one, and the budget has less room than the new one needs.
    pub fn must_wait(&self, headroom: u64) -> (r: bool)
        ensures
            r == (self.budget.room() < headroom && headroom > 0 && self.in_flight@.len() > 0),
    {
        self.budget.available() < headroom && self.in_flight.len() > 0
    }

    /// Whether as many pictures are in flight as may be.
    pub fn must_collect(&self) -> (r: bool)
        ensures
            r == (self.in_flight@.len() >= self.max_frames()),
    {
        self.in_flight.len() >= self.max_in_flight()
    }

    /// Stores a picture that later ones may refer to: carries out its marking,
    /// makes room, and keeps its motion. `bytes` is what its samples take.
    fn store(&mut self, pic: NewPicture, macroblocks: &Vec<MbSummary>, picture: u64, bytes: u64) -> (r:
        Result<(), Error>)
        requires
            pic.wf(),
            storable(macroblocks@, pic),
        ensures
            final(self).output_side() == old(self).output_side(),
            final(self).budget.limit == old(self).budget.limit,
            (buffer(final(self).dpb, final(self).budget), r) == stored_picture(
                buffer(old(self).dpb, old(self).budget),
                old(self).budget.limit as int,
                pic,
                summaries(macroblocks@),
                picture,
                bytes,
            ),
    {
        if let Some(cmds) = &pic.syntax.marking {
            apply_marking(
                &mut self.dpb,
                &mut self.budget,
                cmds.as_slice(),
                pic.header.frame_num,
                pic.sps.max_frame_num,
            )?;
        }
        let cap: u32 = if pic.sps.max_num_ref_frames < 1 {
            1
        } else {
            pic.sps.max_num_ref_frames
        };
        trim(&mut self.dpb, &mut self.budget, (cap - 1) as usize);
        let high: u32 = pic.sps.height_in_mbs();
        let motion: Vec<MvInfo> = collect_motion(
            macroblocks,
            pic.sps.pic_width_in_mbs,
            high,
            &mut self.budget,
        )?;
        self.budget.charge(bytes)?;
        let mbs: u64 = pic.sps.pic_width_in_mbs as u64 * high as u64;
        let charged: u64 = bytes.saturating_add(mbs * 16 * MOTION_BYTES);
        let ghost before = stored(self.dpb@);
        self.dpb.push_back(
            RefPicture {
                picture,
                charged,
                poc: pic.poc,
                frame_num: pic.header.frame_num,
                motion: Arc::new(motion),
            },
        );
        assert(stored(self.dpb@) =~= before.push(stored(self.dpb@).last()));
        Ok(())
    }

    /// Lets a decoded picture in: stores it where later ones may refer to it,
    /// charges its work and notes what was decided about its output. `picture`
    /// is the number by which its samples are found, `bytes` what they take.
    pub fn let_in(&mut self, pic: NewPicture, work: &PictureWork, picture: u64, bytes: u64) -> (r:
        Result<(), Error>)
        requires
            pic.wf(),
            storable(work.macroblocks@, pic),
        ensures
            final(self).limit == old(self).limit,
            final(self).budget.limit == old(self).budget.limit,
            final(self).reorder@ == old(self).reorder@,
            final(self).threads == old(self).threads,
            final(self).ready@ == old(self).ready@,
            (buffer(final(self).dpb, final(self).budget), r) == let_in_picture(
                buffer(old(self).dpb, old(self).budget),
                old(self).budget.limit as int,
                pic,
                work@,
                picture,
                bytes,
            ),
            final(self).in_flight@ == (if r is Ok {
                old(self).in_flight@.push(in_flight_of(pic, work.task_charge))
            } else {
                old(self).in_flight@
            }),
    {
        if pic.is_reference {
            self.store(pic, &work.macroblocks, picture, bytes)?;
        }
        self.budget.charge(work.task_charge)?;
        let window: u32 = match pic.sps.max_num_reorder_frames {
            Some(n) => n,
            None => pic.sps.max_num_ref_frames,
        };
        let reorder_window: usize = if window < 1 {
            1
        } else {
            window as usize
        };
        self.in_flight.push_back(
            InFlight {
                flush_reorder_first: pic.is_idr,
                poc: pic.poc,
                reorder_window,
                charge: work.task_charge,
            },
        );
        Ok(())
    }

    /// Takes the outcome of the oldest picture in flight, if there is one, and
    /// lets out what need not wait any longer. Says whether there was one.
    pub fn collect_one(&mut self, outcome: Option<Result<F, Error>>) -> (r: Result<bool, Error>)
        ensures
            final(self).limit == old(self).limit,
            final(self).budget.limit == old(self).budget.limit,
            final(self).dpb@ == old(self).dpb@,
            final(self).threads == old(self).threads,
            old(self).in_flight@.len() == 0 || outcome is None ==> {
                &&& r == Ok::<bool, Error>(false)
                &&& final(self).output_side() == old(self).output_side()
                &&& final(self).budget == old(self).budget
            },
            old(self).in_flight@.len() > 0 ==> (outcome matches Some(result) ==> {
                let meta = old(self).in_flight@[0];
                &&& final(self).in_flight@ == old(self).in_flight@.drop_first()
                &&& final(self).budget.committed == given_back(
                    old(self).budget.committed as int,
                    meta.charge as int,
                )
                &&& match result {
                    Err(e) => {
                        &&& r == Err::<bool, Error>(e)
                        &&& final(self).reorder@ == old(self).reorder@
                        &&& final(self).ready@ == old(self).ready@
                    },
                    Ok(frame) => {
                        let (held, gone) = joined(
                            old(self).reorder@,
                            meta.flush_reorder_first,
                            meta.reorder_window as int,
                            meta.poc,
                            frame,
                        );
                        &&& r == Ok::<bool, Error>(true)
                        &&& final(self).reorder@ == held
                        &&& final(self).ready@ == old(self).ready@ + frames(gone)
                    },
                }
            }),
    {
        if self.in_flight.len() == 0 {
            return Ok(false);
        }
        let result: Result<F, Error> = match outcome {
            None => {
                return Ok(false);
            },
            Some(result) => result,
        };
        let meta: InFlight = self.in_flight[0];
        let _ = self.in_flight.pop_front();
        assert(self.in_flight@ =~= old(self).in_flight@.drop_first());
        self.budget.release(meta.charge);
        match result {
            Err(e) => Err(e),
            Ok(frame) => {
                hold_for_reordering(
                    &mut self.reorder,
                    &mut self.ready,
                    meta.flush_reorder_first,
                    meta.reorder_window,
                    meta.poc,
                    frame,
                );
                Ok(true)
            },
        }
    }

    /// At the end of the stream everything that waits for display goes out.
    pub fn finish(&mut self)
        ensures
            final(self).limit == old(self).limit,
            final(self).budget == old(self).budget,
            final(self).dpb@ == old(self).dpb@,
            final(self).in_flight@ == old(self).in_flight@,
            final(self).threads == old(self).threads,
            final(self).reorder@.len() == 0,
            final(self).ready@ == old(self).ready@ + frames(leaving(old(self).reorder@)),
    {
        flush_reorder(&mut self.reorder, &mut self.ready);
    }

    /// The next picture in display order, if one is ready.
    pub fn receive_frame(&mut self) -> (r: Option<F>)
        ensures
            final(self).limit == old(self).limit,
            final(self).budget == old(self).budget,
            final(self).dpb@ == old(self).dpb@,
            final(self).in_flight@ == old(self).in_flight@,
            final(self).threads == old(self).threads,
            final(self).reorder@ == old(self).reorder@,
            old(self).ready@.len() == 0 ==> r is None && final(self).ready@ == old(self).ready@,
            old(self).ready@.len() > 0 ==> r == Some(old(self).ready@[0]) && final(self).ready@
                == old(self).ready@.drop_first(),
    {
        if self.ready.len() == 0 {
            return None;
        }
        let frame: F = self.ready.remove(0);
        assert(self.ready@ =~= old(self).ready@.drop_first());
        Some(frame)
    }

    /// Forgets everything but the limit and the threads: nothing that was held
    /// is shown.
    pub fn flush(&mut self)
        ensures
            final(self).limit == old(self).limit,
            final(self).threads == old(self).threads,
            final(self).budget.limit == old(self).limit,
            final(self).budget.committed == 0,
            final(self).dpb@.len() == 0,
            final(self).reorder@.len() == 0,
            final(self).in_flight@.len() == 0,
            final(self).ready@.len() == 0,
    {
        self.in_flight = VecDeque::new();
        self.ready = Vec::new();
        self.dpb = VecDeque::new();
        self.reorder = Vec::new();
        self.budget = Budget::new(self.limit);
    }

    /// Sets how many pictures may be computed at once, unless something is
    /// stored or in flight already. Says how many may then be in flight.
    pub fn set_thread_count(&mut self, threads: usize) -> (n: usize)
        ensures
            final(self).limit == old(self).limit,
            final(self).budget == old(self).budget,
            final(self).dpb@ == old(self).dpb@,
            final(self).reorder@ == old(self).reorder@,
            final(self).in_flight@ == old(self).in_flight@,
            final(self).ready@ == old(self).ready@,
            final(self).threads == (if old(self).dpb@.len() > 0 || old(self).in_flight@.len() > 0 {
                old(self).threads
            } else if threads < 1 {
                1
            } else {
                threads
            }),
            n == final(self).max_frames(),
    {
        if self.dpb.len() == 0 && self.in_flight.len() == 0 {
            self.threads = if threads < 1 {
                1
            } else {
                threads
            };
        }
        self.max_in_flight()
    }
}

/// What is noted about a picture's output.
pub open spec fn in_flight_of(pic: NewPicture, charge: u64) -> InFlight {
    InFlight {
        flush_reorder_first: pic.is_idr,
        poc: pic.poc,
        reorder_window: pic.window() as usize,
        charge,
    }
}

/// What the motion of a picture is charged.
pub open spec fn motion_bytes(pic: NewPicture) -> int {
    16 * (pic.sps.pic_width_in_mbs * pic.sps.mbs_high()) * MOTION_BYTES
}

/// How many pictures stay when one more is stored.
pub open spec fn stored_before(pic: NewPicture) -> int {
    if pic.sps.max_num_ref_frames < 1 {
        0
    } else {
        pic.sps.max_num_ref_frames - 1
    }
}

/// The buffer after a picture was stored in it, or as far as storing came.
pub open spec fn stored_picture(
    b: Buffer,
    limit: int,
    pic: NewPicture,
    ms: Seq<Summary>,
    picture: u64,
    bytes: u64,
) -> (Buffer, Result<(), Error>) {
    let (marked, done) = match pic.syntax.marking {
        Some(cmds) => b.commands(
            cmds@,
            0,
            pic.header.frame_num as int,
            pic.sps.max_frame_num as int,
        ),
        None => (b, true),
    };
    let trimmed = marked.trimmed(stored_before(pic));
    let moved = Buffer { committed: trimmed.committed + motion_bytes(pic), ..trimmed };
    if !done {
        (marked, Err(Error::Unsupported(Reason::LongTermReference)))
    } else if moved.committed > limit {
        (trimmed, Err(Error::LimitExceeded))
    } else if moved.committed + bytes > limit {
        (moved, Err(Error::LimitExceeded))
    } else {
        (
            Buffer {
                dpb: moved.dpb.push(
                    Stored {
                        picture,
                        charged: within_u64(bytes + motion_bytes(pic)) as u64,
                        poc: pic.poc,
                        frame_num: pic.header.frame_num,
                        motion: motion_field(ms, pic.sps.pic_width_in_mbs as int, pic.sps.mbs_high()),
                    },
                ),
                committed: moved.committed + bytes,
            },
            Ok(()),
        )
    }
}

/// The buffer after a picture was let in, or as far as that came.
pub open spec fn let_in_picture(
    b: Buffer,
    limit: int,
    pic: NewPicture,
    work: Work,
    picture: u64,
    bytes: u64,
) -> (Buffer, Result<(), Error>) {
    let (with, r) = if pic.is_reference {
        stored_picture(b, limit, pic, work.macroblocks, picture, bytes)
    } else {
        (b, Ok(()))
    };
    match r {
        Err(e) => (with, Err(e)),
        Ok(_) => if with.committed + work.task_charge > limit {
            (with, Err(Error::LimitExceeded))
        } else {
            (Buffer { committed: with.committed + work.task_charge, ..with }, Ok(()))
        },
    }
}

/// What all pictures in flight are charged.
pub open spec fn flight_charge(q: Seq<InFlight>) -> int
    decreases q.len(),
{
    if q.len() == 0 {
        0
    } else {
        flight_charge(q.drop_first()) + q[0].charge
    }
}

/// A picture that is let in is charged exactly for its work and, where it is
/// stored, for its samples and its motion; what leaves gives back exactly what
/// it was charged. And no more pictures are stored than the stream allows.
pub proof fn law_letting_in_accounts_for_everything(
    b: Buffer,
    limit: int,
    pic: NewPicture,
    work: Work,
    picture: u64,
    bytes: u64,
)
    requires
        b.dpb.len() <= usize::MAX,
        limit <= u64::MAX,
        total_charge(b.dpb) <= b.committed,
        0 <= motion_bytes(pic),
        0 <= work.task_charge,
    ensures
        ({
            let (after, r) = let_in_picture(b, limit, pic, work, picture, bytes);
            &&& r is Ok ==> after.committed - total_charge(after.dpb) == b.committed
                - total_charge(b.dpb) + work.task_charge
            &&& r is Ok && pic.is_reference ==> after.dpb.len() <= stored_before(pic) + 1
            &&& r is Ok && pic.is_reference ==> after.dpb.last().picture == picture
            &&& !pic.is_reference ==> after.dpb == b.dpb
        }),
{
    if pic.is_reference {
        let cmds = match pic.syntax.marking {
            Some(c) => c@,
            None => Seq::empty(),
        };
        law_marking_gives_back_what_leaves(
            b,
            cmds,
            0,
            pic.header.frame_num as int,
            pic.sps.max_frame_num as int,
            stored_before(pic),
        );
        let (after, r) = stored_picture(b, limit, pic, work.macroblocks, picture, bytes);
        if r is Ok {
            lemma_total_is_nonnegative(after.dpb.drop_last());
            lemma_total_without(after.dpb, after.dpb.len() - 1);
            assert(after.dpb.remove(after.dpb.len() - 1) =~= after.dpb.drop_last());
            let (marked, _) = match pic.syntax.marking {
                Some(c) => b.commands(
                    c@,
                    0,
                    pic.header.frame_num as int,
                    pic.sps.max_frame_num as int,
                ),
                None => (b, true),
            };
            assert(after.dpb.drop_last() =~= marked.trimmed(stored_before(pic)).dpb);
        }
    }
}

proof fn lemma_flight_charge_push(q: Seq<InFlight>, m: InFlight)
    ensures
        flight_charge(q.push(m)) == flight_charge(q) + m.charge,
    decreases q.len(),
{
    if q.len() == 0 {
        assert(q.push(m).drop_first() =~= Seq::<InFlight>::empty());
        assert(flight_charge(q.push(m).drop_first()) == 0);
    } else {
        assert(q.push(m).drop_first() =~= q.drop_first().push(m));
        lemma_flight_charge_push(q.drop_first(), m);
    }
}

proof fn lemma_flight_charge_nonnegative(q: Seq<InFlight>)
    ensures
        flight_charge(q) >= 0,
    decreases q.len(),
{
    if q.len() > 0 {
        lemma_flight_charge_nonnegative(q.drop_first());
    }
}

/// A picture that is let in and later collected leaves nothing behind in the
/// budget but what its stored copy is charged.
pub proof fn law_collecting_gives_back_the_work(
    q: Seq<InFlight>,
    m: InFlight,
    dpb: Seq<Stored>,
    committed: int,
)
    requires
        q.len() > 0,
        total_charge(dpb) + flight_charge(q) <= committed,
    ensures
        flight_charge(q.push(m)) == flight_charge(q) + m.charge,
        given_back(committed, q[0].charge as int) == committed - q[0].charge,
        given_back(committed, q[0].charge as int) - total_charge(dpb) - flight_charge(q.drop_first())
            == committed - total_charge(dpb) - flight_charge(q),
{
    lemma_flight_charge_push(q, m);
    lemma_flight_charge_nonnegative(q.drop_first());
    lemma_total_is_nonnegative(dpb);
}

/// The entries held and those gone out after the first `n` of some pictures
/// were collected, in decoding order.
pub open spec fn collected<F>(
    held: Seq<(i32, F)>,
    metas: Seq<InFlight>,
    pictures: Seq<F>,
    n: int,
) -> (Seq<(i32, F)>, Seq<(i32, F)>)
    decreases n,
{
    if n <= 0 {
        (held, Seq::empty())
    } else {
        let (before, gone) = collected(held, metas, pictures, n - 1);
        let m = metas[n - 1];
        let (after, more) = joined(
            before,
            m.flush_reorder_first,
            m.reorder_window as int,
            m.poc,
            pictures[n - 1],
        );
        (after, gone + more)
    }
}

/// It does not matter how many pictures are collected at once: `m` and later
/// `n` more show the same as all of them together. So the number of threads,
/// which only decides when pictures are collected, never changes the output.
pub proof fn law_output_does_not_depend_on_the_threads<F>(
    held: Seq<(i32, F)>,
    metas: Seq<InFlight>,
    pictures: Seq<F>,
    m: int,
    n: int,
)
    requires
        0 <= m,
        0 <= n,
        m + n <= metas.len(),
        m + n <= pictures.len(),
    ensures
        ({
            let (first, gone) = collected(held, metas, pictures, m);
            let (second, more) = collected(first, metas.skip(m), pictures.skip(m), n);
            collected(held, metas, pictures, m + n) == (second, gone + more)
        }),
    decreases n,
{
    let (first, gone) = collected(held, metas, pictures, m);
    if n == 0 {
        assert(gone + Seq::<(i32, F)>::empty() =~= gone);
    } else {
        law_output_does_not_depend_on_the_threads(held, metas, pictures, m, n - 1);
        let (second, more) = collected(first, metas.skip(m), pictures.skip(m), n - 1);
        let meta = metas[m + n - 1];
        assert(metas.skip(m)[n - 1] == meta);
        assert(pictures.skip(m)[n - 1] == pictures[m + n - 1]);
        let (last, out) = joined(
            second,
            meta.flush_reorder_first,
            meta.reorder_window as int,
            meta.poc,
            pictures[m + n - 1],
        );
        assert((gone + more) + out =~= gone + (more + out));
    }
}

/// A picture that starts over refers to nothing before it.
pub proof fn law_nothing_is_referenced_across_a_start(dpb: Seq<RefPicture>, pic: NewPicture)
    requires
        pic.is_idr,
    ensures
        lists_of(stored(kept(dpb, pic)), pic) matches Ok((l0, l1)) ==> l0.len() == 0 && l1.len()
            == 0,
{
    let none = stored(kept(dpb, pic));
    law_lists_name_stored_pictures(none, pic);
    if let Ok((l0, l1)) = lists_of(none, pic) {
        if l0.len() > 0 {
            assert(l0[0] < none.len());
        }
        if l1.len() > 0 {
            assert(l1[0] < none.len());
        }
    }
}

} // verus!
