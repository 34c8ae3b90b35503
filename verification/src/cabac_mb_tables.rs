//! Initialisation pairs of the macroblock-level contexts. Tables with three
//! columns have one per initialisation index; tables with four have one for
//! intra slices in front.
use vstd::prelude::*;

verus! {

/// Macroblock type in I slices.
pub const MB_TYPE_I: [(i16, i16); 8] = [(20, -15), (2, 54), (3, 74), (-28, 127), (-23, 104), (-6, 53), (-1, 54), (7, 51)];

/// Skip flag in P slices.
pub const SKIP_P: [[(i16, i16); 3]; 3] = [
    [(23, 33), (22, 25), (29, 16)],
    [(23, 2), (34, 0), (25, 0)],
    [(21, 0), (16, 0), (14, 0)],
];

/// Macroblock type in P slices: four of its own, then those of its intra suffix.
pub const MB_TYPE_P: [[(i16, i16); 3]; 7] = [
    [(1, 9), (-2, 9), (-10, 51)],
    [(0, 49), (4, 41), (-3, 62)],
    [(-37, 118), (-29, 118), (-27, 99)],
    [(5, 57), (2, 65), (26, 16)],
    [(-13, 78), (-6, 71), (-4, 85)],
    [(-11, 65), (-13, 79), (-24, 102)],
    [(1, 62), (5, 52), (5, 57)],
];

/// Sub-macroblock type in P slices.
pub const SUB_MB_TYPE_P: [[(i16, i16); 3]; 3] = [
    [(12, 49), (9, 50), (6, 57)],
    [(-4, 73), (-3, 70), (-17, 73)],
    [(17, 50), (10, 54), (14, 57)],
];

/// Skip flag in B slices.
pub const SKIP_B: [[(i16, i16); 3]; 3] = [
    [(18, 64), (26, 34), (20, 40)],
    [(9, 43), (19, 22), (20, 10)],
    [(29, 0), (40, 0), (29, 0)],
];

/// Macroblock type in B slices: six of its own, then those of its intra suffix.
pub const MB_TYPE_B: [[(i16, i16); 3]; 9] = [
    [(26, 67), (57, 2), (54, 0)],
    [(16, 90), (41, 36), (37, 42)],
    [(9, 104), (26, 69), (12, 97)],
    [(-46, 127), (-45, 127), (-32, 127)],
    [(-20, 104), (-15, 101), (-22, 117)],
    [(1, 67), (-4, 76), (-2, 74)],
    [(-13, 78), (-6, 71), (-4, 85)],
    [(-11, 65), (-13, 79), (-24, 102)],
    [(1, 62), (5, 52), (5, 57)],
];

/// Sub-macroblock type in B slices.
pub const SUB_MB_TYPE_B: [[(i16, i16); 3]; 4] = [
    [(-6, 86), (6, 69), (-6, 93)],
    [(-17, 95), (-13, 90), (-14, 88)],
    [(-6, 61), (0, 52), (-6, 44)],
    [(9, 45), (8, 43), (4, 55)],
];

/// Horizontal vector difference.
pub const MVD_COMP0: [[(i16, i16); 3]; 7] = [
    [(-3, 69), (-2, 69), (-11, 89)],
    [(-6, 81), (-5, 82), (-15, 103)],
    [(-11, 96), (-10, 96), (-21, 116)],
    [(6, 55), (2, 59), (19, 57)],
    [(7, 67), (2, 75), (20, 58)],
    [(-5, 86), (-3, 87), (4, 84)],
    [(2, 88), (-3, 100), (6, 96)],
];

/// Vertical vector difference.
pub const MVD_COMP1: [[(i16, i16); 3]; 7] = [
    [(0, 58), (1, 56), (1, 63)],
    [(-3, 76), (-3, 74), (-5, 85)],
    [(-10, 94), (-6, 85), (-13, 106)],
    [(5, 54), (0, 59), (5, 63)],
    [(4, 69), (-3, 81), (6, 75)],
    [(-3, 81), (-7, 86), (-3, 90)],
    [(0, 88), (-5, 95), (-1, 101)],
];

/// Reference index.
pub const REF_IDX: [[(i16, i16); 3]; 6] = [
    [(-7, 67), (-1, 66), (3, 55)],
    [(-5, 74), (-1, 77), (-4, 79)],
    [(-4, 74), (1, 70), (-2, 75)],
    [(-5, 80), (-2, 86), (-12, 97)],
    [(-7, 72), (-5, 72), (-7, 50)],
    [(1, 58), (0, 61), (1, 60)],
];

/// Quantiser delta.
pub const QP_DELTA: [(i16, i16); 4] = [(0, 41), (0, 63), (0, 63), (0, 63)];

/// Chroma prediction mode.
pub const INTRA_CHROMA_PRED_MODE: [(i16, i16); 4] = [(-9, 83), (4, 86), (0, 97), (-7, 72)];

/// Whether a block takes its predicted mode.
pub const PREV_INTRA4X4: (i16, i16) = (13, 41);

/// The remaining mode of a block.
pub const REM_INTRA4X4: (i16, i16) = (3, 62);

/// Whether the larger transform is used.
pub const TRANSFORM_SIZE_8X8: [[(i16, i16); 4]; 3] = [
    [(31, 21), (12, 40), (25, 32), (21, 33)],
    [(31, 31), (11, 51), (21, 49), (19, 50)],
    [(25, 50), (14, 59), (21, 54), (17, 61)],
];

/// Luma coded block pattern.
pub const CBP_LUMA: [[(i16, i16); 4]; 4] = [
    [(-17, 127), (-27, 126), (-39, 127), (-36, 127)],
    [(-13, 102), (-28, 98), (-18, 91), (-17, 91)],
    [(0, 82), (-25, 101), (-17, 96), (-14, 95)],
    [(-7, 74), (-23, 67), (-26, 81), (-25, 84)],
];

/// Chroma coded block pattern.
pub const CBP_CHROMA: [[(i16, i16); 4]; 8] = [
    [(-21, 107), (-28, 82), (-35, 98), (-25, 86)],
    [(-27, 127), (-20, 94), (-24, 102), (-12, 89)],
    [(-31, 127), (-16, 83), (-23, 97), (-17, 91)],
    [(-24, 127), (-22, 110), (-27, 119), (-31, 127)],
    [(-18, 95), (-21, 91), (-24, 99), (-14, 76)],
    [(-27, 127), (-18, 102), (-21, 110), (-18, 103)],
    [(-21, 114), (-13, 93), (-18, 102), (-13, 90)],
    [(-30, 127), (-29, 127), (-36, 127), (-37, 127)],
];

/// Coded-block flag of luma DC.
pub const CBF_LUMA_DC: [[(i16, i16); 4]; 4] = [
    [(-17, 123), (-7, 92), (0, 80), (11, 80)],
    [(-12, 115), (-5, 89), (-5, 89), (5, 76)],
    [(-16, 122), (-7, 96), (-7, 94), (2, 84)],
    [(-11, 115), (-13, 108), (-4, 92), (5, 78)],
];

/// Coded-block flag of chroma DC.
pub const CBF_CHROMA_DC: [[(i16, i16); 4]; 4] = [
    [(-1, 74), (5, 54), (3, 55), (0, 65)],
    [(-6, 97), (6, 60), (7, 56), (-2, 79)],
    [(-7, 91), (6, 59), (7, 55), (0, 72)],
    [(-20, 127), (6, 69), (8, 61), (-4, 92)],
];

/// Coded-block flag of luma AC.
pub const CBF_LUMA_AC: [[(i16, i16); 4]; 4] = [
    [(-12, 63), (-3, 46), (0, 39), (-6, 55)],
    [(-2, 68), (-1, 65), (0, 65), (4, 61)],
    [(-15, 84), (-1, 57), (-15, 84), (-14, 83)],
    [(-13, 104), (-9, 93), (-35, 127), (-37, 127)],
];

/// Coded-block flag of four-by-four luma.
pub const CBF_LUMA4X4: [[(i16, i16); 4]; 4] = [
    [(-3, 70), (-3, 74), (-2, 73), (-5, 79)],
    [(-8, 93), (-9, 92), (-12, 104), (-11, 104)],
    [(-10, 90), (-8, 87), (-9, 91), (-11, 91)],
    [(-30, 127), (-23, 126), (-31, 127), (-30, 127)],
];

/// Coded-block flag of chroma AC.
pub const CBF_CHROMA_AC: [[(i16, i16); 4]; 4] = [
    [(-4, 56), (-1, 48), (-3, 53), (-6, 56)],
    [(-5, 82), (0, 68), (0, 68), (3, 68)],
    [(-7, 76), (-4, 69), (-7, 74), (-8, 71)],
    [(-22, 125), (-8, 88), (-9, 88), (-13, 98)],
];

} // verus!
