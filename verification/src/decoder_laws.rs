//! What the decoder keeps of its pictures, and what it hands on to reconstruct them.
use vstd::prelude::*;
use crate::decoder::{
    colocated_of, in_flight_of, kept, let_in_picture, lists_of, mode_of, work_of, H264Decoder,
    NewPicture, Work,
};
use crate::error::Error;
use crate::marking::Buffer;
use crate::reference_laws::law_trimming_keeps_the_newest;
use crate::refs::{RefPicture, Stored};
use crate::slice::Summary;
use crate::weights::{implicit_weights, BiPredMode};

verus! {

/// A picture waits for as many others as the stream says display order can hold
/// back, or else as it stores, but for at least one.
pub proof fn law_window_of_a_picture(pic: NewPicture)
    ensures
        pic.window() >= 1,
        pic.sps.max_num_reorder_frames matches Some(n) ==> n >= 1 ==> pic.window() == n,
        pic.sps.max_num_reorder_frames is None && pic.sps.max_num_ref_frames >= 1 ==> pic.window()
            == pic.sps.max_num_ref_frames,
        in_flight_of(pic, 0).flush_reorder_first == pic.is_idr,
        in_flight_of(pic, 0).poc == pic.poc,
{
}

/// As many pictures may be in the works as there are threads, and one more; without
/// further threads just one.
pub proof fn law_pictures_in_the_works<F>(d: H264Decoder<F>)
    ensures
        d.threads <= 1 ==> d.max_frames() == 1,
        1 < d.threads < usize::MAX ==> d.max_frames() == d.threads + 1,
{
}

/// Only bipredictive slices have a second list, and only they weigh predictions by
/// header or by distance.
pub proof fn law_only_bipredictive_slices_use_two_lists(dpb: Seq<Stored>, pic: NewPicture)
    ensures
        !(pic.header.kind is B) ==> (lists_of(dpb, pic) matches Ok((l0, l1)) ==> l1.len() == 0),
        !(pic.header.kind is B) ==> mode_of(pic) == BiPredMode::Default,
        pic.header.kind is B && pic.pps.weighted_bipred_idc == 1 ==> mode_of(pic)
            == BiPredMode::Explicit,
        pic.header.kind is B && pic.pps.weighted_bipred_idc == 2 ==> mode_of(pic)
            == BiPredMode::Implicit,
        pic.header.kind is B && pic.pps.weighted_bipred_idc != 1 && pic.pps.weighted_bipred_idc
            != 2 ==> mode_of(pic) == BiPredMode::Default,
{
}

/// The work of a picture names, for every entry of its lists, the stored picture and
/// its place in display order; where weights go by distance it has those of every
/// pair of entries.
pub proof fn law_work_names_the_stored_pictures(
    dpb: Seq<Stored>,
    l0: Seq<usize>,
    l1: Seq<usize>,
    ms: Seq<Summary>,
    pic: NewPicture,
    i: int,
    j: int,
)
    requires
        0 <= i < l0.len(),
        0 <= j < l1.len(),
    ensures
        ({
            let w = work_of(dpb, l0, l1, ms, pic);
            let (a, b) = (dpb[l0[i] as int], dpb[l1[j] as int]);
            &&& w.macroblocks == ms
            &&& w.refs0.len() == l0.len() && w.refs1.len() == l1.len()
            &&& w.pocs0.len() == l0.len() && w.pocs1.len() == l1.len()
            &&& w.refs0[i] == a.picture && w.pocs0[i] == a.poc
            &&& w.refs1[j] == b.picture && w.pocs1[j] == b.poc
            &&& w.implicit is Some <==> mode_of(pic) == BiPredMode::Implicit
            &&& w.implicit matches Some(t) ==> t[i][j] == implicit_weights(
                pic.poc as int,
                a.poc as int,
                b.poc as int,
            )
        }),
{
}

/// A picture is charged its samples, the frame that it puts out (as large as its
/// samples where nothing else is known) and its macroblocks; it waits until there is
/// room for its samples once more.
pub proof fn law_work_is_charged(
    dpb: Seq<Stored>,
    l0: Seq<usize>,
    l1: Seq<usize>,
    ms: Seq<Summary>,
    pic: NewPicture,
)
    requires
        pic.sps.pic_width_in_mbs <= 0xffff,
        0 <= pic.sps.mbs_high() <= 0xffff,
        ms.len() <= 0xffff_ffff,
        pic.frame_bytes matches Some(n) ==> n <= 0xffff_ffff_ffff,
    ensures
        ({
            let w = work_of(dpb, l0, l1, ms, pic);
            let samples = 384 * (pic.sps.pic_width_in_mbs * pic.sps.mbs_high());
            let shown = match pic.frame_bytes {
                Some(n) => n as int,
                None => samples,
            };
            &&& w.task_charge == samples + shown + crate::decoder::SUMMARY_BYTES * ms.len()
            &&& w.headroom == w.task_charge + samples
        }),
{
    crate::picture_laws::law_pictures_take_their_samples(
        pic.sps.pic_width_in_mbs as int,
        pic.sps.mbs_high(),
    );
    let (w, h) = (pic.sps.pic_width_in_mbs as int, pic.sps.mbs_high());
    assert(0 <= w * h <= 0xffff * 0xffff) by (nonlinear_arith)
        requires
            0 <= w <= 0xffff,
            0 <= h <= 0xffff,
    ;
    let n = ms.len() as int;
    let each = crate::decoder::SUMMARY_BYTES as int;
    assert(0 <= each * n <= each * 0xffff_ffff) by (nonlinear_arith)
        requires
            0 <= n <= 0xffff_ffff,
            0 <= each,
    ;
}

/// Co-located motion is that of the first picture of the second list, in blocks of
/// four by four; other slices have none.
pub proof fn law_colocated_motion_is_the_second_lists(
    dpb: Seq<RefPicture>,
    l1: Seq<usize>,
    pic: NewPicture,
)
    requires
        4 * pic.sps.pic_width_in_mbs <= u32::MAX,
        4 * pic.sps.mbs_high() <= u32::MAX,
        0 <= pic.sps.mbs_high(),
    ensures
        ({
            let field = colocated_of(dpb, l1, pic);
            &&& field is Some <==> pic.header.kind is B && l1.len() > 0
            &&& field matches Some(f) ==> f.blocks == dpb[l1[0] as int].motion && f.width_4x4 == 4
                * pic.sps.pic_width_in_mbs && f.height_4x4 == 4 * pic.sps.mbs_high()
        }),
{
}

/// A reference picture without marking commands is stored behind the newest of those
/// before it, as many as leave room for it, with its own numbers; a picture that is
/// no reference changes nothing but what is committed.
pub proof fn law_reference_pictures_are_stored_last(
    b: Buffer,
    limit: int,
    pic: NewPicture,
    work: Work,
    picture: u64,
    bytes: u64,
)
    ensures
        ({
            let (after, r) = let_in_picture(b, limit, pic, work, picture, bytes);
            let room = if pic.sps.max_num_ref_frames >= 1 {
                pic.sps.max_num_ref_frames - 1
            } else {
                0
            };
            &&& r is Ok && pic.is_reference && pic.syntax.marking is None ==> {
                let older = after.dpb.drop_last();
                &&& after.dpb.len() >= 1
                &&& after.dpb.last().picture == picture
                &&& after.dpb.last().poc == pic.poc
                &&& after.dpb.last().frame_num == pic.header.frame_num
                &&& b.dpb.len() <= room ==> older == b.dpb
                &&& b.dpb.len() > room ==> older == b.dpb.skip(b.dpb.len() - room)
            }
            &&& !pic.is_reference && b.committed + work.task_charge <= limit ==> r is Ok && after.dpb
                == b.dpb && after.committed == b.committed + work.task_charge
            &&& !pic.is_reference && b.committed + work.task_charge > limit ==> r == Err::<
                (),
                Error,
            >(Error::LimitExceeded) && after == b
        }),
{
    if pic.is_reference && pic.syntax.marking is None {
        law_trimming_keeps_the_newest(b, crate::decoder::stored_before(pic));
        let t = b.trimmed(crate::decoder::stored_before(pic));
        let (after, r) = let_in_picture(b, limit, pic, work, picture, bytes);
        if r is Ok {
            assert(after.dpb.drop_last() =~= t.dpb);
        }
    }
}

/// A picture that starts over keeps nothing of those before it; any other keeps
/// them all.
pub proof fn law_starts_forget_what_was_stored(dpb: Seq<RefPicture>, pic: NewPicture)
    ensures
        pic.is_idr ==> kept(dpb, pic).len() == 0,
        !pic.is_idr ==> kept(dpb, pic) == dpb,
{
}

} // verus!
