//! Initialisation pairs of the residual contexts, per block category: one
//! column for intra slices and one per initialisation index.
use vstd::prelude::*;

verus! {

/// Significance flags of luma DC.
pub const SIG_LUMA_DC: [[(i16, i16); 4]; 15] = [
    [(-7, 93), (-2, 85), (-13, 103), (-4, 86)],
    [(-11, 87), (-6, 78), (-13, 91), (-12, 88)],
    [(-3, 77), (-1, 75), (-9, 89), (-5, 82)],
    [(-5, 71), (-7, 77), (-14, 92), (-3, 72)],
    [(-4, 63), (2, 54), (-8, 76), (-4, 67)],
    [(-4, 68), (5, 50), (-12, 87), (-8, 72)],
    [(-12, 84), (-3, 68), (-23, 110), (-16, 89)],
    [(-7, 62), (1, 50), (-24, 105), (-9, 69)],
    [(-7, 65), (6, 42), (-10, 78), (-1, 59)],
    [(8, 61), (-4, 81), (-20, 112), (5, 66)],
    [(5, 56), (1, 63), (-17, 99), (4, 57)],
    [(-2, 66), (-4, 70), (-78, 127), (-4, 71)],
    [(1, 64), (0, 67), (-70, 127), (-2, 71)],
    [(0, 61), (2, 57), (-50, 127), (2, 58)],
    [(-2, 78), (-2, 76), (-46, 127), (-1, 74)],
];

/// Significance flags of luma AC.
pub const SIG_LUMA_AC: [[(i16, i16); 4]; 14] = [
    [(1, 50), (11, 35), (-4, 66), (-4, 44)],
    [(7, 52), (4, 64), (-5, 78), (-1, 69)],
    [(10, 35), (1, 61), (-4, 71), (0, 62)],
    [(0, 44), (11, 35), (-8, 72), (-7, 51)],
    [(11, 38), (18, 25), (2, 59), (-4, 47)],
    [(1, 45), (12, 24), (-1, 55), (-6, 42)],
    [(0, 46), (13, 29), (-7, 70), (-3, 41)],
    [(5, 44), (13, 36), (-6, 75), (-6, 53)],
    [(31, 17), (-10, 93), (-8, 89), (8, 76)],
    [(1, 51), (-7, 73), (-34, 119), (-9, 78)],
    [(7, 50), (-2, 73), (-3, 75), (-11, 83)],
    [(28, 19), (13, 46), (32, 20), (9, 52)],
    [(16, 33), (9, 49), (30, 22), (0, 67)],
    [(14, 62), (-7, 100), (-44, 127), (-5, 90)],
];

/// Significance flags of four-by-four luma.
pub const SIG_LUMA4X4: [[(i16, i16); 4]; 15] = [
    [(-13, 108), (9, 53), (0, 54), (1, 67)],
    [(-15, 100), (2, 53), (-5, 61), (-15, 72)],
    [(-13, 101), (5, 53), (0, 58), (-5, 75)],
    [(-13, 91), (-2, 61), (-1, 60), (-8, 80)],
    [(-12, 94), (0, 56), (-3, 61), (-21, 83)],
    [(-10, 88), (0, 56), (-8, 67), (-21, 64)],
    [(-16, 84), (-13, 63), (-25, 84), (-13, 31)],
    [(-10, 86), (-5, 60), (-14, 74), (-25, 64)],
    [(-7, 83), (-1, 62), (-5, 65), (-29, 94)],
    [(-13, 87), (4, 57), (5, 52), (9, 75)],
    [(-19, 94), (-6, 69), (2, 57), (17, 63)],
    [(1, 70), (4, 57), (0, 61), (-8, 74)],
    [(0, 72), (14, 39), (-9, 69), (-5, 35)],
    [(-5, 74), (4, 51), (-11, 70), (-2, 27)],
    [(18, 59), (13, 68), (18, 55), (13, 91)],
];

/// Significance flags of chroma AC.
pub const SIG_CHROMA_AC: [[(i16, i16); 4]; 14] = [
    [(-4, 75), (7, 50), (9, 41), (-10, 66)],
    [(2, 72), (16, 39), (18, 25), (3, 62)],
    [(-11, 75), (5, 44), (9, 32), (-3, 68)],
    [(-3, 71), (4, 52), (5, 43), (-20, 81)],
    [(15, 46), (11, 48), (9, 47), (0, 30)],
    [(-13, 69), (-5, 60), (0, 44), (1, 7)],
    [(0, 62), (-1, 59), (0, 51), (-3, 23)],
    [(0, 65), (0, 59), (2, 46), (-21, 74)],
    [(21, 37), (22, 33), (19, 38), (16, 66)],
    [(-15, 72), (5, 44), (-4, 66), (-23, 124)],
    [(9, 57), (14, 43), (15, 38), (17, 37)],
    [(16, 54), (-1, 78), (12, 42), (44, -18)],
    [(0, 62), (0, 60), (9, 34), (50, -34)],
    [(12, 72), (9, 69), (0, 89), (-22, 127)],
];

/// Last-coefficient flags of luma DC.
pub const LAST_LUMA_DC: [[(i16, i16); 4]; 15] = [
    [(24, 0), (11, 28), (4, 45), (4, 39)],
    [(15, 9), (2, 40), (10, 28), (0, 42)],
    [(8, 25), (3, 44), (10, 31), (7, 34)],
    [(13, 18), (0, 49), (33, -11), (11, 29)],
    [(15, 9), (0, 46), (52, -43), (8, 31)],
    [(13, 19), (2, 44), (18, 15), (6, 37)],
    [(10, 37), (2, 51), (28, 0), (7, 42)],
    [(12, 18), (0, 47), (35, -22), (3, 40)],
    [(6, 29), (4, 39), (38, -25), (8, 33)],
    [(20, 33), (2, 62), (34, 0), (13, 43)],
    [(15, 30), (6, 46), (39, -18), (13, 36)],
    [(4, 45), (0, 54), (32, -12), (4, 47)],
    [(1, 58), (3, 54), (102, -94), (3, 55)],
    [(0, 62), (2, 58), (0, 0), (2, 58)],
    [(7, 61), (4, 63), (56, -15), (6, 60)],
];

/// Last-coefficient flags of luma AC.
pub const LAST_LUMA_AC: [[(i16, i16); 4]; 14] = [
    [(12, 38), (6, 51), (33, -4), (8, 44)],
    [(11, 45), (6, 57), (29, 10), (11, 44)],
    [(15, 39), (7, 53), (37, -5), (14, 42)],
    [(11, 42), (6, 52), (51, -29), (7, 48)],
    [(13, 44), (6, 55), (39, -9), (4, 56)],
    [(16, 45), (11, 45), (52, -34), (4, 52)],
    [(12, 41), (14, 36), (69, -58), (13, 37)],
    [(10, 49), (8, 53), (67, -63), (9, 49)],
    [(30, 34), (-1, 82), (44, -5), (19, 58)],
    [(18, 42), (7, 55), (32, 7), (10, 48)],
    [(10, 55), (-3, 78), (55, -29), (12, 45)],
    [(17, 51), (15, 46), (32, 1), (0, 69)],
    [(17, 46), (22, 31), (0, 0), (20, 33)],
    [(0, 89), (-1, 84), (27, 36), (8, 63)],
];

/// Last-coefficient flags of four-by-four luma.
pub const LAST_LUMA4X4: [[(i16, i16); 4]; 15] = [
    [(26, -19), (25, 7), (33, -25), (35, -18)],
    [(22, -17), (30, -7), (34, -30), (33, -25)],
    [(26, -17), (28, 3), (36, -28), (28, -3)],
    [(30, -25), (28, 4), (38, -28), (24, 10)],
    [(28, -20), (32, 0), (38, -27), (27, 0)],
    [(33, -23), (34, -1), (34, -18), (34, -14)],
    [(37, -27), (30, 6), (35, -16), (52, -44)],
    [(33, -23), (30, 6), (34, -14), (39, -24)],
    [(40, -28), (32, 9), (32, -8), (19, 17)],
    [(38, -17), (31, 19), (37, -6), (31, 25)],
    [(33, -11), (26, 27), (35, 0), (36, 29)],
    [(40, -15), (26, 30), (30, 10), (24, 33)],
    [(41, -6), (37, 20), (28, 18), (34, 15)],
    [(38, 1), (28, 34), (26, 25), (30, 20)],
    [(41, 17), (17, 70), (29, 41), (22, 73)],
];

/// Last-coefficient flags of chroma AC.
pub const LAST_CHROMA_AC: [[(i16, i16); 4]; 14] = [
    [(37, -16), (16, 30), (14, 35), (19, 16)],
    [(35, -4), (18, 32), (18, 31), (15, 36)],
    [(38, -8), (18, 35), (17, 35), (15, 36)],
    [(38, -3), (22, 29), (21, 30), (21, 28)],
    [(37, 3), (24, 31), (17, 45), (25, 21)],
    [(38, 5), (23, 38), (20, 42), (30, 20)],
    [(42, 0), (18, 43), (18, 45), (31, 12)],
    [(35, 16), (20, 41), (27, 26), (27, 16)],
    [(39, 22), (11, 63), (16, 54), (24, 42)],
    [(14, 48), (9, 59), (7, 66), (0, 93)],
    [(27, 37), (9, 64), (16, 56), (14, 56)],
    [(21, 60), (-1, 94), (11, 73), (15, 57)],
    [(12, 68), (-2, 89), (10, 67), (26, 38)],
    [(2, 97), (-9, 108), (-10, 116), (-24, 127)],
];

/// First level bin of luma DC.
pub const ABS_BIN0_LUMA_DC: [[(i16, i16); 4]; 5] = [
    [(-3, 71), (-6, 76), (-23, 112), (-24, 115)],
    [(-6, 42), (-2, 44), (-15, 71), (-22, 82)],
    [(-5, 50), (0, 45), (-7, 61), (-9, 62)],
    [(-3, 54), (0, 52), (0, 53), (0, 53)],
    [(-2, 62), (-3, 64), (-5, 66), (0, 59)],
];

/// Further level bins of luma DC.
pub const ABS_BINN_LUMA_DC: [[(i16, i16); 4]; 5] = [
    [(0, 58), (-2, 59), (-11, 77), (-14, 85)],
    [(1, 63), (-4, 70), (-9, 80), (-13, 89)],
    [(-2, 72), (-4, 75), (-9, 84), (-13, 94)],
    [(-1, 74), (-8, 82), (-10, 87), (-11, 92)],
    [(-9, 91), (-17, 102), (-34, 127), (-29, 127)],
];

/// First level bin of luma AC.
pub const ABS_BIN0_LUMA_AC: [[(i16, i16); 4]; 5] = [
    [(-5, 67), (-9, 77), (-21, 101), (-21, 100)],
    [(-5, 27), (3, 24), (-3, 39), (-14, 57)],
    [(-3, 39), (0, 42), (-5, 53), (-12, 67)],
    [(-2, 44), (0, 48), (-7, 61), (-11, 71)],
    [(0, 46), (0, 55), (-11, 75), (-10, 77)],
];

/// Further level bins of luma AC.
pub const ABS_BINN_LUMA_AC: [[(i16, i16); 4]; 5] = [
    [(-16, 64), (-6, 59), (-15, 77), (-21, 85)],
    [(-8, 68), (-7, 71), (-17, 91), (-16, 88)],
    [(-10, 78), (-12, 83), (-25, 107), (-23, 104)],
    [(-6, 77), (-11, 87), (-25, 111), (-15, 98)],
    [(-10, 86), (-30, 119), (-28, 122), (-37, 127)],
];

/// First level bin of four-by-four luma.
pub const ABS_BIN0_LUMA4X4: [[(i16, i16); 4]; 5] = [
    [(-12, 92), (1, 58), (-11, 76), (-10, 82)],
    [(-15, 55), (-3, 29), (-10, 44), (-8, 48)],
    [(-10, 60), (-1, 36), (-10, 52), (-8, 61)],
    [(-6, 62), (1, 38), (-10, 57), (-8, 66)],
    [(-4, 65), (2, 43), (-9, 58), (-7, 70)],
];

/// Further level bins of four-by-four luma.
pub const ABS_BINN_LUMA4X4: [[(i16, i16); 4]; 5] = [
    [(-12, 73), (-6, 55), (-16, 72), (-14, 75)],
    [(-8, 76), (0, 58), (-7, 69), (-10, 79)],
    [(-7, 80), (0, 64), (-4, 69), (-9, 83)],
    [(-9, 88), (-3, 74), (-5, 74), (-12, 92)],
    [(-17, 110), (-10, 90), (-9, 86), (-18, 108)],
];

/// First level bin of chroma AC.
pub const ABS_BIN0_CHROMA_AC: [[(i16, i16); 4]; 5] = [
    [(-8, 78), (0, 58), (3, 52), (-13, 81)],
    [(-5, 33), (8, 5), (7, 4), (-6, 38)],
    [(-4, 48), (10, 14), (10, 8), (-13, 62)],
    [(-2, 53), (14, 18), (17, 8), (-6, 58)],
    [(-3, 62), (13, 27), (16, 19), (-2, 59)],
];

/// Further level bins of chroma AC.
pub const ABS_BINN_CHROMA_AC: [[(i16, i16); 4]; 5] = [
    [(-13, 71), (2, 40), (3, 37), (-16, 73)],
    [(-10, 79), (0, 58), (-1, 61), (-10, 76)],
    [(-12, 86), (-3, 70), (-5, 73), (-13, 86)],
    [(-13, 90), (-6, 79), (-1, 70), (-9, 83)],
    [(-14, 97), (-8, 85), (-4, 78), (-10, 87)],
];

/// Significance flags of chroma DC.
pub const SIG_CHROMA_DC: [[(i16, i16); 4]; 3] = [
    [(-8, 102), (3, 64), (-4, 71), (3, 65)],
    [(-15, 100), (1, 61), (0, 58), (-7, 69)],
    [(0, 95), (9, 63), (7, 61), (8, 77)],
];

/// Last-coefficient flags of chroma DC.
pub const LAST_CHROMA_DC: [[(i16, i16); 4]; 3] = [
    [(30, -6), (1, 67), (0, 75), (20, 34)],
    [(27, 3), (5, 59), (2, 72), (19, 31)],
    [(26, 22), (9, 67), (8, 77), (27, 44)],
];

/// First level bin of chroma DC.
pub const ABS_BIN0_CHROMA_DC: [[(i16, i16); 4]; 5] = [
    [(-11, 97), (0, 70), (2, 66), (-4, 79)],
    [(-20, 84), (-4, 29), (-9, 34), (-22, 69)],
    [(-11, 79), (5, 31), (1, 32), (-16, 75)],
    [(-6, 73), (7, 42), (11, 31), (-2, 58)],
    [(-4, 74), (1, 59), (5, 52), (1, 58)],
];

/// Further level bins of chroma DC.
pub const ABS_BINN_CHROMA_DC: [[(i16, i16); 4]; 4] = [
    [(-13, 86), (-2, 58), (-2, 55), (-13, 78)],
    [(-13, 96), (-3, 72), (-2, 67), (-9, 83)],
    [(-11, 97), (-3, 81), (0, 73), (-4, 81)],
    [(-19, 117), (-11, 97), (-8, 89), (-13, 99)],
];

/// Significance flags of eight-by-eight luma.
pub const SIG_LUMA8X8: [[(i16, i16); 4]; 15] = [
    [(-17, 120), (-4, 79), (-5, 85), (-3, 78)],
    [(-20, 112), (-7, 71), (-6, 81), (-8, 74)],
    [(-18, 114), (-5, 69), (-10, 77), (-9, 72)],
    [(-11, 85), (-9, 70), (-7, 81), (-10, 72)],
    [(-15, 92), (-8, 66), (-17, 80), (-18, 75)],
    [(-14, 89), (-10, 68), (-18, 73), (-12, 71)],
    [(-26, 71), (-19, 73), (-4, 74), (-11, 63)],
    [(-15, 81), (-12, 69), (-10, 83), (-5, 70)],
    [(-14, 80), (-16, 70), (-9, 71), (-17, 75)],
    [(0, 68), (-15, 67), (-9, 67), (-14, 72)],
    [(-14, 70), (-20, 62), (-1, 61), (-16, 67)],
    [(-24, 56), (-19, 70), (-8, 66), (-8, 53)],
    [(-23, 68), (-16, 66), (-14, 66), (-14, 59)],
    [(-24, 50), (-22, 65), (0, 59), (-9, 52)],
    [(-11, 74), (-20, 63), (2, 59), (-11, 68)],
];

/// Last-coefficient flags of eight-by-eight luma.
pub const LAST_LUMA8X8: [[(i16, i16); 4]; 9] = [
    [(23, -13), (9, -2), (17, -10), (9, -2)],
    [(26, -13), (26, -9), (32, -13), (30, -10)],
    [(40, -15), (33, -9), (42, -9), (31, -4)],
    [(49, -14), (39, -7), (49, -5), (33, -1)],
    [(44, 3), (41, -2), (53, 0), (33, 7)],
    [(45, 6), (45, 3), (64, 3), (31, 12)],
    [(44, 34), (49, 9), (68, 10), (37, 23)],
    [(33, 54), (45, 27), (66, 27), (31, 38)],
    [(19, 82), (36, 59), (47, 57), (20, 64)],
];

/// First level bin of eight-by-eight luma.
pub const ABS_BIN0_LUMA8X8: [[(i16, i16); 4]; 5] = [
    [(-3, 75), (-6, 66), (-5, 71), (-9, 71)],
    [(-1, 23), (-7, 35), (0, 24), (-7, 37)],
    [(1, 34), (-7, 42), (-1, 36), (-8, 44)],
    [(1, 43), (-8, 45), (-2, 42), (-11, 49)],
    [(0, 54), (-5, 48), (-2, 52), (-10, 56)],
];

/// Further level bins of eight-by-eight luma.
pub const ABS_BINN_LUMA8X8: [[(i16, i16); 4]; 5] = [
    [(-2, 55), (-12, 56), (-9, 57), (-12, 59)],
    [(0, 61), (-6, 60), (-6, 63), (-8, 63)],
    [(1, 64), (-5, 62), (-4, 65), (-9, 67)],
    [(0, 68), (-8, 66), (-4, 67), (-6, 68)],
    [(-9, 92), (-8, 76), (-7, 82), (-10, 79)],
];

/// The significance context of each scan position of an eight-by-eight block.
pub const POS2CTX_MAP8X8: [u8; 63] = [
    0, 1, 2, 3, 4, 5, 5, 4, 4, 3, 3, 4, 4, 4, 5, 5,
    4, 4, 4, 4, 3, 3, 6, 7, 7, 7, 8, 9, 10, 9, 8, 7,
    7, 6, 11, 12, 13, 11, 6, 7, 8, 9, 14, 10, 9, 8, 6, 11,
    12, 13, 11, 6, 9, 14, 10, 9, 11, 12, 13, 11, 14, 10, 12,
];

/// The last-coefficient context of each scan position of an eight-by-eight
/// block.
pub const POS2CTX_LAST8X8: [u8; 63] = [
    0, 1, 1, 1, 1, 1, 1, 1, 1, 1, 1, 1, 1, 1, 1, 1,
    2, 2, 2, 2, 2, 2, 2, 2, 2, 2, 2, 2, 2, 2, 2, 2,
    3, 3, 3, 3, 3, 3, 3, 3, 4, 4, 4, 4, 4, 4, 4, 4,
    5, 5, 5, 5, 6, 6, 6, 6, 7, 7, 7, 7, 8, 8, 8,
];

} // verus!
