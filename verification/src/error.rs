//! Why decoding stops.
use vstd::prelude::*;

verus! {

/// The cause of a refused or malformed stream.
#[derive(Debug, Clone, Copy, PartialEq, Eq, Structural)]
pub enum Reason {
    /// An Exp-Golomb code is longer than any 32-bit value needs.
    GolombTooLong,
    /// A decoded value lies outside the range its syntax element allows.
    ValueOutOfRange,
    /// `nC` names no `coeff_token` table.
    NcRange,
    /// No usable `coeff_token` code matches.
    CoeffTokenCode,
    /// A fixed-length `coeff_token` names more trailing ones than coefficients.
    FixedTokenCode,
    /// `total_zeros` is not decoded for this coefficient count.
    TotalZerosUnconfirmed,
    /// The coefficient count has no `total_zeros` row.
    TotalZerosRange,
    /// No `total_zeros` code matches.
    TotalZerosCode,
    /// The block has no room for its zeros.
    TotalZerosExceed,
    /// No `run_before` code matches.
    RunBeforeCode,
    /// A `run_before` exceeds the zeros that are left.
    RunBeforeRange,
    /// The unary run of a level prefix is too long.
    LevelPrefix,
    /// A macroblock type code names no type.
    MbTypeRange,
    /// A sub-macroblock type code names no type.
    SubMbTypeRange,
    /// Switching-intra slices are refused.
    SiSlice,
    /// Direct prediction outside a bipredictive slice.
    DirectOutsideB,
    /// Four bipredictive quadrants outside a bipredictive slice.
    B8x8OutsideB,
    /// An inter prediction was asked of a type that has none.
    NotInter,
    /// Fields and mixed frames and fields are refused.
    FieldPicture,
    /// Constrained intra prediction is refused.
    ConstrainedIntra,
    /// Chroma formats other than 4:2:0 are refused.
    ChromaFormat,
    /// Temporal direct prediction is refused.
    TemporalDirect,
    /// The larger transform is refused in variable-length coded slices.
    Transform8x8,
    /// Raw samples are refused in variable-length coded slices.
    RawSamples,
    /// Long-term reference pictures are refused.
    LongTermReference,
    /// A list modification names a picture that is not stored.
    MissingReference,
    /// More than one slice per picture is refused.
    SeveralSlices,
    /// The arithmetic decoder met malformed data.
    MalformedBins,
    /// A slice ends before every macroblock of its picture is decoded.
    IncompletePicture,
    /// The cropping leaves nothing of the picture.
    NothingVisible,
    /// The planes of a stored picture are not those of the coded one.
    BandGeometry,
}

/// What a decoding step reports instead of a value.
#[derive(Debug, Clone, Copy, PartialEq, Eq, Structural)]
pub enum Error {
    /// The stream contradicts its own syntax.
    InvalidData(Reason),
    /// The stream uses something that this decoder refuses.
    Unsupported(Reason),
    /// The stream ends inside a syntax element.
    UnexpectedEof,
    /// The memory budget is exhausted.
    LimitExceeded,
}

} // verus!
