//! Macroblock and sub-macroblock types: what a decoded type code stands for.
use vstd::prelude::*;
use crate::error::{Error, Reason};

verus! {

/// The kind of a slice.
#[derive(Debug, Clone, Copy, PartialEq, Eq, Structural)]
pub enum SliceKind {
    P,
    B,
    I,
    Sp,
    Si,
}

/// Which reference lists a partition predicts from.
#[derive(Debug, Clone, Copy, PartialEq, Eq, Structural)]
pub enum PartPred {
    L0,
    L1,
    Bi,
}

impl PartPred {
    /// Whether list `list` is read. There are two lists, 0 and 1.
    pub open spec fn uses(self, list: int) -> bool {
        if list == 0 {
            self != PartPred::L1
        } else {
            list == 1 && self != PartPred::L0
        }
    }

    pub fn reads_l0(self) -> (r: bool)
        ensures
            r == self.uses(0),
    {
        !matches!(self, PartPred::L1)
    }

    pub fn reads_l1(self) -> (r: bool)
        ensures
            r == self.uses(1),
    {
        !matches!(self, PartPred::L0)
    }

    /// Whether list `list` is read.
    pub fn reads(self, list: usize) -> (r: bool)
        ensures
            r == self.uses(list as int),
    {
        if list == 0 {
            self.reads_l0()
        } else {
            list == 1 && self.reads_l1()
        }
    }
}

/// A classified macroblock type, as far as its syntax depends on it.
#[derive(Debug, Clone, Copy, PartialEq, Eq, Structural)]
pub enum MbKind {
    Intra4x4,
    /// Sixteen four-by-four predictions replaced by four eight-by-eight ones:
    /// never a type code of its own, but an `Intra4x4` with the larger
    /// transform.
    Intra8x8,
    Intra16x16 { cbp_luma: u8, cbp_chroma: u8, pred_mode: u8 },
    IPcm,
    /// One or two whole-macroblock partitions.
    Inter { first: PartPred, second: Option<PartPred> },
    /// Four sub-macroblocks of a P slice. `ref0_inferred` never reads a
    /// reference index.
    P8x8 { ref0_inferred: bool },
    /// Four sub-macroblocks of a B slice.
    B8x8,
    /// A wholly direct macroblock.
    BDirect16x16,
}

impl MbKind {
    pub open spec fn intra(self) -> bool {
        self is Intra4x4 || self is Intra8x8 || self is Intra16x16 || self is IPcm
    }

    pub fn is_intra(&self) -> (r: bool)
        ensures
            r == self.intra(),
    {
        matches!(
            self,
            MbKind::Intra4x4 | MbKind::Intra8x8 | MbKind::Intra16x16 { .. } | MbKind::IPcm
        )
    }
}

/// The intra types: 0 is four-by-four, 1 to 24 encode pattern and mode of a
/// sixteen-by-sixteen prediction, 25 is raw samples.
pub open spec fn intra_kind(v: int) -> Result<MbKind, Error> {
    if v == 0 {
        Ok(MbKind::Intra4x4)
    } else if 1 <= v <= 24 {
        Ok(
            MbKind::Intra16x16 {
                cbp_luma: if v - 1 >= 12 {
                    15
                } else {
                    0
                },
                cbp_chroma: (((v - 1) / 4) % 3) as u8,
                pred_mode: ((v - 1) % 4) as u8,
            },
        )
    } else if v == 25 {
        Ok(MbKind::IPcm)
    } else {
        Err(Error::InvalidData(Reason::MbTypeRange))
    }
}

/// The prediction lists of the two partitions of B types 4 to 21, two types
/// (one per split direction) for each pair.
pub open spec fn b_pair(v: int) -> (PartPred, PartPred) {
    let pair = (v - 4) / 2;
    if pair == 0 {
        (PartPred::L0, PartPred::L0)
    } else if pair == 1 {
        (PartPred::L1, PartPred::L1)
    } else if pair == 2 {
        (PartPred::L0, PartPred::L1)
    } else if pair == 3 {
        (PartPred::L1, PartPred::L0)
    } else if pair == 4 {
        (PartPred::L0, PartPred::Bi)
    } else if pair == 5 {
        (PartPred::L1, PartPred::Bi)
    } else if pair == 6 {
        (PartPred::Bi, PartPred::L0)
    } else if pair == 7 {
        (PartPred::Bi, PartPred::L1)
    } else {
        (PartPred::Bi, PartPred::Bi)
    }
}

/// What a type code means in a slice of each kind. P slices put their intra
/// types behind 5 codes of their own, B slices behind 23.
pub open spec fn mb_kind(kind: SliceKind, code: int) -> Result<MbKind, Error> {
    match kind {
        SliceKind::I => intra_kind(code),
        SliceKind::P | SliceKind::Sp => if code == 0 {
            Ok(MbKind::Inter { first: PartPred::L0, second: None })
        } else if code == 1 || code == 2 {
            Ok(MbKind::Inter { first: PartPred::L0, second: Some(PartPred::L0) })
        } else if code == 3 || code == 4 {
            Ok(MbKind::P8x8 { ref0_inferred: code == 4 })
        } else {
            intra_kind(code - 5)
        },
        SliceKind::B => if code == 0 {
            Ok(MbKind::BDirect16x16)
        } else if code == 1 {
            Ok(MbKind::Inter { first: PartPred::L0, second: None })
        } else if code == 2 {
            Ok(MbKind::Inter { first: PartPred::L1, second: None })
        } else if code == 3 {
            Ok(MbKind::Inter { first: PartPred::Bi, second: None })
        } else if code <= 21 {
            Ok(MbKind::Inter { first: b_pair(code).0, second: Some(b_pair(code).1) })
        } else if code == 22 {
            Ok(MbKind::B8x8)
        } else {
            intra_kind(code - 23)
        },
        SliceKind::Si => Err(Error::Unsupported(Reason::SiSlice)),
    }
}

fn classify_intra(v: u32) -> (r: Result<MbKind, Error>)
    ensures
        r == intra_kind(v as int),
{
    if v == 0 {
        Ok(MbKind::Intra4x4)
    } else if v <= 24 {
        let idx: u32 = v - 1;
        Ok(
            MbKind::Intra16x16 {
                cbp_luma: if idx >= 12 {
                    15
                } else {
                    0
                },
                cbp_chroma: ((idx / 4) % 3) as u8,
                pred_mode: (idx % 4) as u8,
            },
        )
    } else if v == 25 {
        Ok(MbKind::IPcm)
    } else {
        Err(Error::InvalidData(Reason::MbTypeRange))
    }
}

fn classify_b_pair(v: u32) -> (r: (PartPred, PartPred))
    requires
        4 <= v,
    ensures
        r == b_pair(v as int),
{
    match (v - 4) / 2 {
        0 => (PartPred::L0, PartPred::L0),
        1 => (PartPred::L1, PartPred::L1),
        2 => (PartPred::L0, PartPred::L1),
        3 => (PartPred::L1, PartPred::L0),
        4 => (PartPred::L0, PartPred::Bi),
        5 => (PartPred::L1, PartPred::Bi),
        6 => (PartPred::Bi, PartPred::L0),
        7 => (PartPred::Bi, PartPred::L1),
        _ => (PartPred::Bi, PartPred::Bi),
    }
}

/// Classifies a macroblock type code.
pub fn classify_mb_type(kind: SliceKind, code: u32) -> (r: Result<MbKind, Error>)
    ensures
        r == mb_kind(kind, code as int),
{
    match kind {
        SliceKind::I => classify_intra(code),
        SliceKind::P | SliceKind::Sp => match code {
            0 => Ok(MbKind::Inter { first: PartPred::L0, second: None }),
            1 | 2 => Ok(MbKind::Inter { first: PartPred::L0, second: Some(PartPred::L0) }),
            3 => Ok(MbKind::P8x8 { ref0_inferred: false }),
            4 => Ok(MbKind::P8x8 { ref0_inferred: true }),
            _ => classify_intra(code - 5),
        },
        SliceKind::B => match code {
            0 => Ok(MbKind::BDirect16x16),
            1 => Ok(MbKind::Inter { first: PartPred::L0, second: None }),
            2 => Ok(MbKind::Inter { first: PartPred::L1, second: None }),
            3 => Ok(MbKind::Inter { first: PartPred::Bi, second: None }),
            22 => Ok(MbKind::B8x8),
            _ => if code <= 21 {
                let (first, second) = classify_b_pair(code);
                Ok(MbKind::Inter { first, second: Some(second) })
            } else {
                classify_intra(code - 23)
            },
        },
        SliceKind::Si => Err(Error::Unsupported(Reason::SiSlice)),
    }
}

/// A sub-macroblock type: how many parts it has, and which lists they predict
/// from. A direct one predicts from none that the stream names, and counts as
/// four parts.
pub open spec fn sub_mb_kind(is_b: bool, code: int) -> Result<(u8, Option<PartPred>), Error> {
    if is_b {
        if code == 0 {
            Ok((4, None))
        } else if code == 1 {
            Ok((1, Some(PartPred::L0)))
        } else if code == 2 {
            Ok((1, Some(PartPred::L1)))
        } else if code == 3 {
            Ok((1, Some(PartPred::Bi)))
        } else if code == 4 || code == 5 {
            Ok((2, Some(PartPred::L0)))
        } else if code == 6 || code == 7 {
            Ok((2, Some(PartPred::L1)))
        } else if code == 8 || code == 9 {
            Ok((2, Some(PartPred::Bi)))
        } else if code == 10 {
            Ok((4, Some(PartPred::L0)))
        } else if code == 11 {
            Ok((4, Some(PartPred::L1)))
        } else if code == 12 {
            Ok((4, Some(PartPred::Bi)))
        } else {
            Err(Error::InvalidData(Reason::SubMbTypeRange))
        }
    } else {
        if code == 0 {
            Ok((1, Some(PartPred::L0)))
        } else if code == 1 || code == 2 {
            Ok((2, Some(PartPred::L0)))
        } else if code == 3 {
            Ok((4, Some(PartPred::L0)))
        } else {
            Err(Error::InvalidData(Reason::SubMbTypeRange))
        }
    }
}

/// Classifies a sub-macroblock type code.
pub fn classify_sub_mb_type(is_b: bool, code: u32) -> (r: Result<(u8, Option<PartPred>), Error>)
    ensures
        r == sub_mb_kind(is_b, code as int),
{
    if is_b {
        match code {
            0 => Ok((4, None)),
            1 => Ok((1, Some(PartPred::L0))),
            2 => Ok((1, Some(PartPred::L1))),
            3 => Ok((1, Some(PartPred::Bi))),
            4 | 5 => Ok((2, Some(PartPred::L0))),
            6 | 7 => Ok((2, Some(PartPred::L1))),
            8 | 9 => Ok((2, Some(PartPred::Bi))),
            10 => Ok((4, Some(PartPred::L0))),
            11 => Ok((4, Some(PartPred::L1))),
            12 => Ok((4, Some(PartPred::Bi))),
            _ => Err(Error::InvalidData(Reason::SubMbTypeRange)),
        }
    } else {
        match code {
            0 => Ok((1, Some(PartPred::L0))),
            1 | 2 => Ok((2, Some(PartPred::L0))),
            3 => Ok((4, Some(PartPred::L0))),
            _ => Err(Error::InvalidData(Reason::SubMbTypeRange)),
        }
    }
}

/// A rectangle of four-by-four blocks inside a macroblock: left, top, right
/// and bottom, all inclusive.
pub type Rect = (u32, u32, u32, u32);

/// Whether a two-part macroblock is split into an upper and a lower half.
pub open spec fn split_is_16x8(kind: SliceKind, code: int) -> bool {
    if kind is B {
        code % 2 == 0
    } else {
        code == 1
    }
}

/// The rectangles of the two partitions of a macroblock.
pub open spec fn partition_rects(kind: SliceKind, code: int) -> (Rect, Rect) {
    if split_is_16x8(kind, code) {
        ((0, 0, 3, 1), (0, 2, 3, 3))
    } else {
        ((0, 0, 1, 3), (2, 0, 3, 3))
    }
}

pub fn two_partition_rects(kind: SliceKind, raw_code: u32) -> (r: (Rect, Rect))
    ensures
        r == partition_rects(kind, raw_code as int),
{
    let upper_lower: bool = match kind {
        SliceKind::B => raw_code % 2 == 0,
        _ => raw_code == 1,
    };
    if upper_lower {
        ((0, 0, 3, 1), (0, 2, 3, 3))
    } else {
        ((0, 0, 1, 3), (2, 0, 3, 3))
    }
}

/// The two partitions of a macroblock do not overlap and together cover it.
pub proof fn law_partitions_tile_the_macroblock(kind: SliceKind, code: int, x: u32, y: u32)
    requires
        x < 4,
        y < 4,
    ensures
        in_rect(partition_rects(kind, code).0, x, y) != in_rect(partition_rects(kind, code).1, x, y),
{
}

/// Whether a block lies in a rectangle.
pub open spec fn in_rect(r: Rect, x: u32, y: u32) -> bool {
    r.0 <= x <= r.2 && r.1 <= y <= r.3
}

/// Sub-macroblocks have one, two or four parts.
pub proof fn law_sub_parts(is_b: bool, code: int)
    ensures
        sub_mb_kind(is_b, code) matches Ok((n, p)) ==> (n == 1 || n == 2 || n == 4) && (p is None
            ==> is_b && code == 0),
{
}

} // verus!
