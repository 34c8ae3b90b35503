//! The parameters of a stream and of a slice, as far as decoding reads them.
use vstd::prelude::*;
use crate::arith::clip3;
use crate::error::{Error, Reason};
use crate::grids::Lists;
use crate::mb_type::SliceKind;

verus! {

/// How chroma is sampled.
#[derive(Debug, Clone, Copy, PartialEq, Eq, Structural)]
pub enum ChromaFormat {
    Monochrome,
    Yuv420,
    Yuv422,
    Yuv444,
}

/// Sequence parameters.
#[derive(Debug, Clone, Copy, PartialEq, Eq, Structural)]
pub struct Sps {
    pub pic_width_in_mbs: u32,
    pub pic_height_in_map_units: u32,
    pub frame_mbs_only: bool,
    pub mb_adaptive_frame_field: bool,
    pub chroma_format: ChromaFormat,
    pub direct_8x8_inference: bool,
    /// How many pictures are stored at most.
    pub max_num_ref_frames: u32,
    /// Where frame numbers start over.
    pub max_frame_num: u32,
    /// How many pictures display order can hold back, if the stream says so.
    pub max_num_reorder_frames: Option<u32>,
}

/// Picture parameters.
#[derive(Debug, Clone, Copy, PartialEq, Eq, Structural)]
pub struct Pps {
    /// The luma quantiser that slices start from.
    pub pic_init_qp: i32,
    pub constrained_intra_pred: bool,
    pub transform_8x8_mode: bool,
    /// 1 for weights in slice headers, 2 for weights by distance.
    pub weighted_bipred_idc: u32,
}

/// A slice header.
#[derive(Debug, Clone, Copy, PartialEq, Eq, Structural)]
pub struct SliceHeader {
    pub kind: SliceKind,
    pub first_mb_in_slice: u32,
    pub frame_num: u32,
    pub slice_qp_delta: i32,
    pub field_pic: bool,
    pub direct_spatial_mv_pred: Option<bool>,
    pub cabac_init_idc: Option<u32>,
    pub num_ref_idx_l0_active_minus1: u32,
    pub num_ref_idx_l1_active_minus1: u32,
}

impl Sps {
    /// The picture's height in macroblocks; map units cover two where fields
    /// are possible.
    pub open spec fn mbs_high(self) -> int {
        if self.frame_mbs_only {
            self.pic_height_in_map_units as int
        } else {
            2 * self.pic_height_in_map_units
        }
    }

    /// A height that 32 bits can count.
    pub open spec fn wf(self) -> bool {
        self.mbs_high() <= u32::MAX
    }

    pub fn height_in_mbs(&self) -> (n: u32)
        requires
            self.wf(),
        ensures
            n == self.mbs_high(),
    {
        if self.frame_mbs_only {
            self.pic_height_in_map_units
        } else {
            self.pic_height_in_map_units * 2
        }
    }
}

impl Pps {
    /// The luma quantiser that a slice starts with.
    pub open spec fn slice_qp(self, delta: int) -> int {
        clip3(0, 51, self.pic_init_qp + delta)
    }

    pub fn start_qp(&self, slice_qp_delta: i32) -> (qp: i32)
        ensures
            qp == self.slice_qp(slice_qp_delta as int),
            0 <= qp <= 51,
    {
        let qp: i64 = self.pic_init_qp as i64 + slice_qp_delta as i64;
        if qp < 0 {
            0
        } else if qp > 51 {
            51
        } else {
            qp as i32
        }
    }
}

impl SliceHeader {
    /// How many entries behind the first each reference list has.
    pub open spec fn active(self) -> Lists<u32> {
        Lists { l0: self.num_ref_idx_l0_active_minus1, l1: self.num_ref_idx_l1_active_minus1 }
    }

    pub fn active_minus1(&self) -> (n: Lists<u32>)
        ensures
            n == self.active(),
    {
        Lists { l0: self.num_ref_idx_l0_active_minus1, l1: self.num_ref_idx_l1_active_minus1 }
    }
}

/// What a slice is refused for, the first reason that applies.
pub open spec fn refusal(sps: Sps, pps: Pps, header: SliceHeader) -> Option<Reason> {
    if sps.mb_adaptive_frame_field || header.field_pic {
        Some(Reason::FieldPicture)
    } else if pps.constrained_intra_pred {
        Some(Reason::ConstrainedIntra)
    } else if sps.chroma_format != ChromaFormat::Yuv420 {
        Some(Reason::ChromaFormat)
    } else if header.kind is Si {
        Some(Reason::SiSlice)
    } else {
        None
    }
}

/// Refuses slices that use what this decoder lacks.
pub fn check_scope(sps: &Sps, pps: &Pps, header: &SliceHeader) -> (r: Result<(), Error>)
    ensures
        match refusal(*sps, *pps, *header) {
            Some(reason) => r == Err::<(), Error>(Error::Unsupported(reason)),
            None => r is Ok,
        },
{
    if sps.mb_adaptive_frame_field || header.field_pic {
        return Err(Error::Unsupported(Reason::FieldPicture));
    }
    if pps.constrained_intra_pred {
        return Err(Error::Unsupported(Reason::ConstrainedIntra));
    }
    if sps.chroma_format != ChromaFormat::Yuv420 {
        return Err(Error::Unsupported(Reason::ChromaFormat));
    }
    if matches!(header.kind, SliceKind::Si) {
        return Err(Error::Unsupported(Reason::SiSlice));
    }
    Ok(())
}

/// Whether a slice relies on temporal direct prediction.
pub open spec fn temporal_direct(header: SliceHeader) -> bool {
    header.kind is B && header.direct_spatial_mv_pred != Some(true)
}

/// Refuses slices that rely on temporal direct prediction.
pub fn check_direct(header: &SliceHeader) -> (r: Result<(), Error>)
    ensures
        temporal_direct(*header) ==> r == Err::<(), Error>(
            Error::Unsupported(Reason::TemporalDirect),
        ),
        !temporal_direct(*header) ==> r is Ok,
{
    let spatial: bool = match header.direct_spatial_mv_pred {
        Some(s) => s,
        None => false,
    };
    if matches!(header.kind, SliceKind::B) && !spatial {
        return Err(Error::Unsupported(Reason::TemporalDirect));
    }
    Ok(())
}

} // verus!
