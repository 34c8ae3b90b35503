//! What decoding a slice yields.
use vstd::prelude::*;
use crate::grids::{no_mb_info, CabacMbInfo, MvInfo};
use crate::mb_residual::{no_residual, MbResidual, Residuals};

verus! {

/// Everything that reconstruction needs of a macroblock.
#[derive(Debug, Clone)]
pub struct MbSummary {
    pub mb_x: u32,
    pub mb_y: u32,
    pub skipped: bool,
    pub is_ipcm: bool,
    pub is_intra4x4: bool,
    pub is_intra8x8: bool,
    pub is_intra16x16: bool,
    pub intra16x16_pred_mode: u8,
    /// Whether the transform covers whole quadrants.
    pub transform_8x8: bool,
    pub intra_chroma_pred_mode: u8,
    /// The luma quantiser that the coefficients were scaled with.
    pub qpy: i32,
    pub residual: MbResidual,
    /// The motion of the sixteen luma blocks, in raster order.
    pub mv_blocks: [MvInfo; 16],
}

/// The mathematical content of an [`MbSummary`].
#[verifier::ext_equal]
pub struct Summary {
    pub mb_x: u32,
    pub mb_y: u32,
    pub skipped: bool,
    pub is_ipcm: bool,
    pub is_intra4x4: bool,
    pub is_intra8x8: bool,
    pub is_intra16x16: bool,
    pub intra16x16_pred_mode: u8,
    pub transform_8x8: bool,
    pub intra_chroma_pred_mode: u8,
    pub qpy: i32,
    pub residual: Residuals,
    pub mv_blocks: Seq<MvInfo>,
}

impl View for MbSummary {
    type V = Summary;

    open spec fn view(&self) -> Summary {
        Summary {
            mb_x: self.mb_x,
            mb_y: self.mb_y,
            skipped: self.skipped,
            is_ipcm: self.is_ipcm,
            is_intra4x4: self.is_intra4x4,
            is_intra8x8: self.is_intra8x8,
            is_intra16x16: self.is_intra16x16,
            intra16x16_pred_mode: self.intra16x16_pred_mode,
            transform_8x8: self.transform_8x8,
            intra_chroma_pred_mode: self.intra_chroma_pred_mode,
            qpy: self.qpy,
            residual: self.residual@,
            mv_blocks: self.mv_blocks@,
        }
    }
}

/// The summary of a skipped macroblock.
pub open spec fn skipped_summary(mb_x: u32, mb_y: u32, qpy: int, motion: Seq<MvInfo>) -> Summary {
    Summary {
        mb_x,
        mb_y,
        skipped: true,
        is_ipcm: false,
        is_intra4x4: false,
        is_intra8x8: false,
        is_intra16x16: false,
        intra16x16_pred_mode: 0,
        transform_8x8: false,
        intra_chroma_pred_mode: 0,
        qpy: qpy as i32,
        residual: no_residual(),
        mv_blocks: motion,
    }
}

/// The facts of a macroblock, those of an unknown one where there are none.
pub open spec fn facts_or_none(info: Option<CabacMbInfo>) -> CabacMbInfo {
    match info {
        Some(i) => i,
        None => no_mb_info(),
    }
}

/// The summary of a macroblock that is not skipped.
pub open spec fn coded_summary(
    mb_x: u32,
    mb_y: u32,
    info: Option<CabacMbInfo>,
    qpy: int,
    residual: Residuals,
    motion: Seq<MvInfo>,
) -> Summary {
    let i = facts_or_none(info);
    Summary {
        mb_x,
        mb_y,
        skipped: false,
        is_ipcm: i.is_ipcm,
        is_intra4x4: i.is_intra4x4,
        is_intra8x8: i.is_intra8x8,
        is_intra16x16: i.is_intra16x16,
        intra16x16_pred_mode: i.intra16x16_pred_mode,
        transform_8x8: i.transform_8x8,
        intra_chroma_pred_mode: i.intra_chroma_pred_mode,
        qpy: qpy as i32,
        residual,
        mv_blocks: motion,
    }
}

pub fn summarise_skipped(mb_x: u32, mb_y: u32, qpy: i32, mv_blocks: [MvInfo; 16]) -> (r: MbSummary)
    ensures
        r@ == skipped_summary(mb_x, mb_y, qpy as int, mv_blocks@),
{
    MbSummary {
        mb_x,
        mb_y,
        skipped: true,
        is_ipcm: false,
        is_intra4x4: false,
        is_intra8x8: false,
        is_intra16x16: false,
        intra16x16_pred_mode: 0,
        transform_8x8: false,
        intra_chroma_pred_mode: 0,
        qpy,
        residual: MbResidual::default(),
        mv_blocks,
    }
}

pub fn summarise_coded(
    mb_x: u32,
    mb_y: u32,
    info: Option<CabacMbInfo>,
    qpy: i32,
    residual: MbResidual,
    mv_blocks: [MvInfo; 16],
) -> (r: MbSummary)
    ensures
        r@ == coded_summary(mb_x, mb_y, info, qpy as int, residual@, mv_blocks@),
{
    let i: CabacMbInfo = match info {
        Some(x) => x,
        None => CabacMbInfo::default(),
    };
    MbSummary {
        mb_x,
        mb_y,
        skipped: false,
        is_ipcm: i.is_ipcm,
        is_intra4x4: i.is_intra4x4,
        is_intra8x8: i.is_intra8x8,
        is_intra16x16: i.is_intra16x16,
        intra16x16_pred_mode: i.intra16x16_pred_mode,
        transform_8x8: i.transform_8x8,
        intra_chroma_pred_mode: i.intra_chroma_pred_mode,
        qpy,
        residual,
        mv_blocks,
    }
}

/// What one slice held. The first macroblock's coefficients are those of the
/// first entry of `macroblocks`.
#[derive(Debug)]
pub struct SliceStats {
    pub macroblock_count: u32,
    pub skipped_count: u32,
    /// Luma and chroma pattern of the slice's first macroblock, none of a
    /// slice without macroblocks.
    pub first_slice_mb_cbp: Option<(u8, u8)>,
    /// The mode of the first macroblock, where it is predicted as a whole.
    pub first_slice_mb_intra16x16_pred_mode: Option<u8>,
    /// The chroma mode of the first macroblock, where it is intra.
    pub first_slice_mb_intra_chroma_pred_mode: Option<u8>,
    /// The luma quantiser of the first macroblock.
    pub first_slice_mb_qpy: Option<i32>,
    /// Every macroblock in decoding order.
    pub macroblocks: Vec<MbSummary>,
}

/// The mathematical content of [`SliceStats`].
#[verifier::ext_equal]
pub struct Stats {
    pub count: int,
    pub skipped: int,
    pub first_cbp: Option<(u8, u8)>,
    pub first_mode16: Option<u8>,
    pub first_chroma_mode: Option<u8>,
    pub first_qpy: Option<i32>,
    pub macroblocks: Seq<Summary>,
}

/// The contents of some summaries.
pub open spec fn summaries(v: Seq<MbSummary>) -> Seq<Summary> {
    Seq::new(v.len(), |i: int| v[i]@)
}

impl View for SliceStats {
    type V = Stats;

    open spec fn view(&self) -> Stats {
        Stats {
            count: self.macroblock_count as int,
            skipped: self.skipped_count as int,
            first_cbp: self.first_slice_mb_cbp,
            first_mode16: self.first_slice_mb_intra16x16_pred_mode,
            first_chroma_mode: self.first_slice_mb_intra_chroma_pred_mode,
            first_qpy: self.first_slice_mb_qpy,
            macroblocks: summaries(self.macroblocks@),
        }
    }
}

/// A slice before its first macroblock.
pub open spec fn no_stats() -> Stats {
    Stats {
        count: 0,
        skipped: 0,
        first_cbp: None,
        first_mode16: None,
        first_chroma_mode: None,
        first_qpy: None,
        macroblocks: Seq::<Summary>::empty(),
    }
}

impl Default for SliceStats {
    fn default() -> (r: Self)
        ensures
            r@ == no_stats(),
    {
        SliceStats {
            macroblock_count: 0,
            skipped_count: 0,
            first_slice_mb_cbp: None,
            first_slice_mb_intra16x16_pred_mode: None,
            first_slice_mb_intra_chroma_pred_mode: None,
            first_slice_mb_qpy: None,
            macroblocks: Vec::new(),
        }
    }
}

impl Stats {
    /// With a skipped macroblock behind the others.
    pub open spec fn with_skipped(self, m: Summary, first: bool) -> Stats {
        Stats {
            count: self.count + 1,
            skipped: self.skipped + 1,
            first_cbp: if first {
                Some((0u8, 0u8))
            } else {
                self.first_cbp
            },
            first_qpy: if first {
                Some(m.qpy)
            } else {
                self.first_qpy
            },
            macroblocks: self.macroblocks.push(m),
            ..self
        }
    }

    /// With a coded macroblock behind the others.
    pub open spec fn with_coded(self, m: Summary, info: Option<CabacMbInfo>, first: bool) -> Stats {
        if first {
            Stats {
                count: self.count + 1,
                skipped: self.skipped,
                first_cbp: match info {
                    Some(i) => Some((i.cbp_luma, i.cbp_chroma)),
                    None => None,
                },
                first_mode16: match info {
                    Some(i) => if i.is_intra16x16 {
                        Some(i.intra16x16_pred_mode)
                    } else {
                        None
                    },
                    None => None,
                },
                first_chroma_mode: match info {
                    Some(i) => if i.is_intra {
                        Some(i.intra_chroma_pred_mode)
                    } else {
                        None
                    },
                    None => None,
                },
                first_qpy: Some(m.qpy),
                macroblocks: self.macroblocks.push(m),
            }
        } else {
            Stats { count: self.count + 1, macroblocks: self.macroblocks.push(m), ..self }
        }
    }
}

impl SliceStats {
    /// Adds a skipped macroblock.
    pub fn push_skipped(&mut self, m: MbSummary, first: bool)
        requires
            old(self).macroblock_count < u32::MAX,
            old(self).skipped_count < u32::MAX,
        ensures
            final(self)@ == old(self)@.with_skipped(m@, first),
    {
        let qpy: i32 = m.qpy;
        self.macroblock_count = self.macroblock_count + 1;
        self.skipped_count = self.skipped_count + 1;
        if first {
            self.first_slice_mb_cbp = Some((0, 0));
            self.first_slice_mb_qpy = Some(qpy);
        }
        self.macroblocks.push(m);
        assert(summaries(self.macroblocks@) =~= summaries(old(self).macroblocks@).push(m@));
    }

    /// Adds a coded macroblock.
    pub fn push_coded(&mut self, m: MbSummary, info: Option<CabacMbInfo>, first: bool)
        requires
            old(self).macroblock_count < u32::MAX,
        ensures
            final(self)@ == old(self)@.with_coded(m@, info, first),
    {
        self.macroblock_count = self.macroblock_count + 1;
        if first {
            self.first_slice_mb_qpy = Some(m.qpy);
            match info {
                Some(i) => {
                    self.first_slice_mb_cbp = Some((i.cbp_luma, i.cbp_chroma));
                    self.first_slice_mb_intra16x16_pred_mode = if i.is_intra16x16 {
                        Some(i.intra16x16_pred_mode)
                    } else {
                        None
                    };
                    self.first_slice_mb_intra_chroma_pred_mode = if i.is_intra {
                        Some(i.intra_chroma_pred_mode)
                    } else {
                        None
                    };
                },
                None => {
                    self.first_slice_mb_cbp = None;
                    self.first_slice_mb_intra16x16_pred_mode = None;
                    self.first_slice_mb_intra_chroma_pred_mode = None;
                },
            }
        }
        self.macroblocks.push(m);
        assert(summaries(self.macroblocks@) =~= summaries(old(self).macroblocks@).push(m@));
    }
}

} // verus!
