//! The variable-length code tables of context-adaptive residual decoding.
//!
//! Every entry is two values, the code's length in bits and the code itself.
//! The `coeff_token` tables give trailing ones and total coefficients; the
//! `total_zeros` and `run_before` tables give the row (the coefficient count,
//! or the zeros left capped at seven) and the value.
use vstd::prelude::*;

verus! {

/// `coeff_token` for an average neighbour count of 0 or 1.
pub const COEFF_TOKEN_NC0: [(u8, u8, u8, u16); 62] = [
    (0, 0, 1, 0b1),
    (0, 1, 6, 0b000101),
    (1, 1, 2, 0b01),
    (0, 2, 8, 0b00000111),
    (1, 2, 6, 0b000100),
    (2, 2, 3, 0b001),
    (0, 3, 9, 0b000000111),
    (1, 3, 8, 0b00000110),
    (2, 3, 7, 0b0000101),
    (3, 3, 5, 0b00011),
    (0, 4, 10, 0b0000000111),
    (1, 4, 9, 0b000000110),
    (2, 4, 8, 0b00000101),
    (3, 4, 6, 0b000011),
    (0, 5, 11, 0b00000000111),
    (1, 5, 10, 0b0000000110),
    (2, 5, 9, 0b000000101),
    (3, 5, 7, 0b0000100),
    (0, 6, 13, 0b0000000001111),
    (1, 6, 11, 0b00000000110),
    (2, 6, 10, 0b0000000101),
    (3, 6, 8, 0b00000100),
    (0, 7, 13, 0b0000000001011),
    (1, 7, 13, 0b0000000001110),
    (2, 7, 11, 0b00000000101),
    (3, 7, 9, 0b000000100),
    (0, 8, 13, 0b0000000001000),
    (1, 8, 13, 0b0000000001010),
    (2, 8, 13, 0b0000000001101),
    (3, 8, 10, 0b0000000100),
    (0, 9, 14, 0b00000000001111),
    (1, 9, 14, 0b00000000001110),
    (2, 9, 13, 0b0000000001001),
    (3, 9, 11, 0b00000000100),
    (0, 10, 14, 0b00000000001011),
    (1, 10, 14, 0b00000000001010),
    (2, 10, 14, 0b00000000001101),
    (3, 10, 13, 0b0000000001100),
    (0, 11, 15, 0b000000000001111),
    (1, 11, 15, 0b000000000001110),
    (2, 11, 14, 0b00000000001001),
    (3, 11, 14, 0b00000000001100),
    (0, 12, 15, 0b000000000001011),
    (1, 12, 15, 0b000000000001010),
    (2, 12, 15, 0b000000000001101),
    (3, 12, 14, 0b00000000001000),
    (0, 13, 16, 0b0000000000001111),
    (1, 13, 15, 0b000000000000001),
    (2, 13, 15, 0b000000000001001),
    (3, 13, 15, 0b000000000001100),
    (0, 14, 16, 0b0000000000001011),
    (1, 14, 16, 0b0000000000001110),
    (2, 14, 16, 0b0000000000001101),
    (3, 14, 15, 0b000000000001000),
    (0, 15, 16, 0b0000000000000111),
    (1, 15, 16, 0b0000000000001010),
    (2, 15, 16, 0b0000000000001001),
    (3, 15, 16, 0b0000000000001100),
    (0, 16, 16, 0b0000000000000100),
    (1, 16, 16, 0b0000000000000110),
    (2, 16, 16, 0b0000000000000101),
    (3, 16, 16, 0b0000000000001000),
];

/// `coeff_token` for an average neighbour count of 2 or 3.
pub const COEFF_TOKEN_NC2: [(u8, u8, u8, u16); 62] = [
    (0, 0, 2, 0b11),
    (0, 1, 6, 0b001011),
    (1, 1, 2, 0b10),
    (0, 2, 6, 0b000111),
    (1, 2, 5, 0b00111),
    (2, 2, 3, 0b011),
    (0, 3, 7, 0b0000111),
    (1, 3, 6, 0b001010),
    (2, 3, 6, 0b001001),
    (3, 3, 4, 0b0101),
    (0, 4, 8, 0b00000111),
    (1, 4, 6, 0b000110),
    (2, 4, 6, 0b000101),
    (3, 4, 4, 0b0100),
    (0, 5, 8, 0b00000100),
    (1, 5, 7, 0b0000110),
    (2, 5, 7, 0b0000101),
    (3, 5, 5, 0b00110),
    (0, 6, 9, 0b000000111),
    (1, 6, 8, 0b00000110),
    (2, 6, 8, 0b00000101),
    (3, 6, 6, 0b001000),
    (0, 7, 11, 0b00000001111),
    (1, 7, 9, 0b000000110),
    (2, 7, 9, 0b000000101),
    (3, 7, 6, 0b000100),
    (0, 8, 11, 0b00000001011),
    (1, 8, 11, 0b00000001110),
    (2, 8, 11, 0b00000001101),
    (3, 8, 7, 0b0000100),
    (0, 9, 12, 0b000000001111),
    (1, 9, 11, 0b00000001010),
    (2, 9, 11, 0b00000001001),
    (3, 9, 9, 0b000000100),
    (0, 10, 12, 0b000000001011),
    (1, 10, 12, 0b000000001110),
    (2, 10, 12, 0b000000001101),
    (3, 10, 11, 0b00000001100),
    (0, 11, 12, 0b000000001000),
    (1, 11, 12, 0b000000001010),
    (2, 11, 12, 0b000000001001),
    (3, 11, 11, 0b00000001000),
    (0, 12, 13, 0b0000000001111),
    (1, 12, 13, 0b0000000001110),
    (2, 12, 13, 0b0000000001101),
    (3, 12, 12, 0b000000001100),
    (0, 13, 13, 0b0000000001011),
    (1, 13, 13, 0b0000000001010),
    (2, 13, 13, 0b0000000001001),
    (3, 13, 13, 0b0000000001100),
    (0, 14, 13, 0b0000000000111),
    (1, 14, 14, 0b00000000001011),
    (2, 14, 13, 0b0000000000110),
    (3, 14, 13, 0b0000000001000),
    (0, 15, 14, 0b00000000001001),
    (1, 15, 14, 0b00000000001000),
    (2, 15, 14, 0b00000000001010),
    (3, 15, 13, 0b0000000000001),
    (0, 16, 14, 0b00000000000111),
    (1, 16, 14, 0b00000000000110),
    (2, 16, 14, 0b00000000000101),
    (3, 16, 14, 0b00000000000100),
];

/// `coeff_token` for an average neighbour count from 4 to 7.
pub const COEFF_TOKEN_NC4: [(u8, u8, u8, u16); 62] = [
    (0, 0, 4, 0b1111),
    (0, 1, 6, 0b001111),
    (1, 1, 4, 0b1110),
    (0, 2, 6, 0b001011),
    (1, 2, 5, 0b01111),
    (2, 2, 4, 0b1101),
    (0, 3, 6, 0b001000),
    (1, 3, 5, 0b01100),
    (2, 3, 5, 0b01110),
    (3, 3, 4, 0b1100),
    (0, 4, 7, 0b0001111),
    (1, 4, 5, 0b01010),
    (2, 4, 5, 0b01011),
    (3, 4, 4, 0b1011),
    (0, 5, 7, 0b0001011),
    (1, 5, 5, 0b01000),
    (2, 5, 5, 0b01001),
    (3, 5, 4, 0b1010),
    (0, 6, 7, 0b0001001),
    (1, 6, 6, 0b001110),
    (2, 6, 6, 0b001101),
    (3, 6, 4, 0b1001),
    (0, 7, 7, 0b0001000),
    (1, 7, 6, 0b001010),
    (2, 7, 6, 0b001001),
    (3, 7, 4, 0b1000),
    (0, 8, 8, 0b00001111),
    (1, 8, 7, 0b0001110),
    (2, 8, 7, 0b0001101),
    (3, 8, 5, 0b01101),
    (0, 9, 8, 0b00001011),
    (1, 9, 8, 0b00001110),
    (2, 9, 7, 0b0001010),
    (3, 9, 6, 0b001100),
    (0, 10, 9, 0b000001111),
    (1, 10, 8, 0b00001010),
    (2, 10, 8, 0b00001101),
    (3, 10, 7, 0b0001100),
    (0, 11, 9, 0b000001011),
    (1, 11, 9, 0b000001110),
    (2, 11, 8, 0b00001001),
    (3, 11, 8, 0b00001100),
    (0, 12, 9, 0b000001000),
    (1, 12, 9, 0b000001010),
    (2, 12, 9, 0b000001101),
    (3, 12, 8, 0b00001000),
    (0, 13, 10, 0b0000001101),
    (1, 13, 9, 0b000000111),
    (2, 13, 9, 0b000001001),
    (3, 13, 9, 0b000001100),
    (0, 14, 10, 0b0000001001),
    (1, 14, 10, 0b0000001100),
    (2, 14, 10, 0b0000001011),
    (3, 14, 10, 0b0000001010),
    (0, 15, 10, 0b0000000101),
    (1, 15, 10, 0b0000001000),
    (2, 15, 10, 0b0000000111),
    (3, 15, 10, 0b0000000110),
    (0, 16, 10, 0b0000000001),
    (1, 16, 10, 0b0000000100),
    (2, 16, 10, 0b0000000011),
    (3, 16, 10, 0b0000000010),
];

/// `coeff_token` for the DC of 4:2:0 chroma.
pub const COEFF_TOKEN_CHROMA_DC_420: [(u8, u8, u8, u16); 14] = [
    (0, 0, 2, 0b01),
    (0, 1, 6, 0b000111),
    (1, 1, 1, 0b1),
    (0, 2, 6, 0b000100),
    (1, 2, 6, 0b000110),
    (2, 2, 3, 0b001),
    (0, 3, 6, 0b000011),
    (1, 3, 7, 0b0000011),
    (2, 3, 7, 0b0000010),
    (3, 3, 6, 0b000101),
    (0, 4, 6, 0b000010),
    (1, 4, 8, 0b00000011),
    (2, 4, 8, 0b00000010),
    (3, 4, 7, 0b0000000),
];

/// `coeff_token` for the DC of 4:2:2 chroma.
pub const COEFF_TOKEN_CHROMA_DC_422: [(u8, u8, u8, u16); 30] = [
    (0, 0, 1, 0b1),
    (0, 1, 7, 0b0001111),
    (1, 1, 2, 0b01),
    (0, 2, 7, 0b0001110),
    (1, 2, 7, 0b0001101),
    (2, 2, 3, 0b001),
    (0, 3, 9, 0b000000111),
    (1, 3, 7, 0b0001100),
    (2, 3, 7, 0b0001011),
    (3, 3, 5, 0b00001),
    (0, 4, 9, 0b000000110),
    (1, 4, 9, 0b000000101),
    (2, 4, 7, 0b0001010),
    (3, 4, 6, 0b000001),
    (0, 5, 10, 0b0000000111),
    (1, 5, 10, 0b0000000110),
    (2, 5, 9, 0b000000100),
    (3, 5, 7, 0b0001001),
    (0, 6, 11, 0b00000000111),
    (1, 6, 11, 0b00000000110),
    (2, 6, 10, 0b0000000101),
    (3, 6, 7, 0b0001000),
    (0, 7, 12, 0b000000000111),
    (1, 7, 12, 0b000000000110),
    (2, 7, 11, 0b00000000101),
    (3, 7, 10, 0b0000000100),
    (0, 8, 13, 0b0000000000111),
    (1, 8, 12, 0b000000000101),
    (2, 8, 12, 0b000000000100),
    (3, 8, 11, 0b00000000100),
];

/// `total_zeros` of four-by-four blocks.
pub const TOTAL_ZEROS_4X4: [(u8, u8, u8, u16); 135] = [
    (1, 0, 1, 0b1),
    (1, 1, 3, 0b011),
    (1, 2, 3, 0b010),
    (1, 3, 4, 0b0011),
    (1, 4, 4, 0b0010),
    (1, 5, 5, 0b00011),
    (1, 6, 5, 0b00010),
    (1, 7, 6, 0b000011),
    (1, 8, 6, 0b000010),
    (1, 9, 7, 0b0000011),
    (1, 10, 7, 0b0000010),
    (1, 11, 8, 0b00000011),
    (1, 12, 8, 0b00000010),
    (1, 13, 9, 0b000000011),
    (1, 14, 9, 0b000000010),
    (1, 15, 9, 0b000000001),
    (2, 0, 3, 0b111),
    (2, 1, 3, 0b110),
    (2, 2, 3, 0b101),
    (2, 3, 3, 0b100),
    (2, 4, 3, 0b011),
    (2, 5, 4, 0b0101),
    (2, 6, 4, 0b0100),
    (2, 7, 4, 0b0011),
    (2, 8, 4, 0b0010),
    (2, 9, 5, 0b00011),
    (2, 10, 5, 0b00010),
    (2, 11, 6, 0b000011),
    (2, 12, 6, 0b000010),
    (2, 13, 6, 0b000001),
    (2, 14, 6, 0b000000),
    (3, 0, 4, 0b0101),
    (3, 1, 3, 0b111),
    (3, 2, 3, 0b110),
    (3, 3, 3, 0b101),
    (3, 4, 4, 0b0100),
    (3, 5, 4, 0b0011),
    (3, 6, 3, 0b100),
    (3, 7, 3, 0b011),
    (3, 8, 4, 0b0010),
    (3, 9, 5, 0b00011),
    (3, 10, 5, 0b00010),
    (3, 11, 6, 0b000001),
    (3, 12, 5, 0b00001),
    (3, 13, 6, 0b000000),
    (4, 0, 5, 0b00011),
    (4, 1, 3, 0b111),
    (4, 2, 4, 0b0101),
    (4, 3, 4, 0b0100),
    (4, 4, 3, 0b110),
    (4, 5, 3, 0b101),
    (4, 6, 3, 0b100),
    (4, 7, 4, 0b0011),
    (4, 8, 3, 0b011),
    (4, 9, 4, 0b0010),
    (4, 10, 5, 0b00010),
    (4, 11, 5, 0b00001),
    (4, 12, 5, 0b00000),
    (5, 0, 4, 0b0101),
    (5, 1, 4, 0b0100),
    (5, 2, 4, 0b0011),
    (5, 3, 3, 0b111),
    (5, 4, 3, 0b110),
    (5, 5, 3, 0b101),
    (5, 6, 3, 0b100),
    (5, 7, 3, 0b011),
    (5, 8, 4, 0b0010),
    (5, 9, 5, 0b00001),
    (5, 10, 4, 0b0001),
    (5, 11, 5, 0b00000),
    (6, 0, 6, 0b000001),
    (6, 1, 5, 0b00001),
    (6, 2, 3, 0b111),
    (6, 3, 3, 0b110),
    (6, 4, 3, 0b101),
    (6, 5, 3, 0b100),
    (6, 6, 3, 0b011),
    (6, 7, 3, 0b010),
    (6, 8, 4, 0b0001),
    (6, 9, 3, 0b001),
    (6, 10, 6, 0b000000),
    (7, 0, 6, 0b000001),
    (7, 1, 5, 0b00001),
    (7, 2, 3, 0b101),
    (7, 3, 3, 0b100),
    (7, 4, 3, 0b011),
    (7, 5, 2, 0b11),
    (7, 6, 3, 0b010),
    (7, 7, 4, 0b0001),
    (7, 8, 3, 0b001),
    (7, 9, 6, 0b000000),
    (8, 0, 6, 0b000001),
    (8, 1, 4, 0b0001),
    (8, 2, 5, 0b00001),
    (8, 3, 3, 0b011),
    (8, 4, 2, 0b11),
    (8, 5, 2, 0b10),
    (8, 6, 3, 0b010),
    (8, 7, 3, 0b001),
    (8, 8, 6, 0b000000),
    (9, 0, 6, 0b000001),
    (9, 1, 6, 0b000000),
    (9, 2, 4, 0b0001),
    (9, 3, 2, 0b11),
    (9, 4, 2, 0b10),
    (9, 5, 3, 0b001),
    (9, 6, 2, 0b01),
    (9, 7, 5, 0b00001),
    (10, 0, 5, 0b00001),
    (10, 1, 5, 0b00000),
    (10, 2, 3, 0b001),
    (10, 3, 2, 0b11),
    (10, 4, 2, 0b10),
    (10, 5, 2, 0b01),
    (10, 6, 4, 0b0001),
    (11, 0, 4, 0b0000),
    (11, 1, 4, 0b0001),
    (11, 2, 3, 0b001),
    (11, 3, 3, 0b010),
    (11, 4, 1, 0b1),
    (11, 5, 3, 0b011),
    (12, 0, 4, 0b0000),
    (12, 1, 4, 0b0001),
    (12, 2, 2, 0b01),
    (12, 3, 1, 0b1),
    (12, 4, 3, 0b001),
    (13, 0, 3, 0b000),
    (13, 1, 3, 0b001),
    (13, 2, 1, 0b1),
    (13, 3, 2, 0b01),
    (14, 0, 2, 0b00),
    (14, 1, 2, 0b01),
    (14, 2, 1, 0b1),
    (15, 0, 1, 0b0),
    (15, 1, 1, 0b1),
];

/// `total_zeros` of the DC of 4:2:0 chroma.
pub const TOTAL_ZEROS_CHROMA_DC_420: [(u8, u8, u8, u16); 9] = [
    (1, 0, 1, 0b1),
    (1, 1, 2, 0b01),
    (1, 2, 3, 0b001),
    (1, 3, 3, 0b000),
    (2, 0, 1, 0b1),
    (2, 1, 2, 0b01),
    (2, 2, 2, 0b00),
    (3, 0, 1, 0b1),
    (3, 1, 1, 0b0),
];

/// `total_zeros` of the DC of 4:2:2 chroma.
pub const TOTAL_ZEROS_CHROMA_DC_422: [(u8, u8, u8, u16); 35] = [
    (1, 0, 1, 0b1),
    (1, 1, 3, 0b010),
    (1, 2, 3, 0b011),
    (1, 3, 4, 0b0010),
    (1, 4, 4, 0b0011),
    (1, 5, 4, 0b0001),
    (1, 6, 5, 0b00001),
    (1, 7, 5, 0b00000),
    (2, 0, 3, 0b000),
    (2, 1, 2, 0b01),
    (2, 2, 3, 0b001),
    (2, 3, 3, 0b100),
    (2, 4, 3, 0b101),
    (2, 5, 3, 0b110),
    (2, 6, 3, 0b111),
    (3, 0, 3, 0b000),
    (3, 1, 3, 0b001),
    (3, 2, 2, 0b01),
    (3, 3, 2, 0b10),
    (3, 4, 3, 0b110),
    (3, 5, 3, 0b111),
    (4, 0, 3, 0b110),
    (4, 1, 2, 0b00),
    (4, 2, 2, 0b01),
    (4, 3, 2, 0b10),
    (4, 4, 3, 0b111),
    (5, 0, 2, 0b00),
    (5, 1, 2, 0b01),
    (5, 2, 2, 0b10),
    (5, 3, 2, 0b11),
    (6, 0, 2, 0b00),
    (6, 1, 2, 0b01),
    (6, 2, 1, 0b1),
    (7, 0, 1, 0b0),
    (7, 1, 1, 0b1),
];

/// `run_before` by zeros left, with seven standing for seven or more.
pub const RUN_BEFORE: [(u8, u8, u8, u16); 42] = [
    (1, 0, 1, 0b1),
    (1, 1, 1, 0b0),
    (2, 0, 1, 0b1),
    (2, 1, 2, 0b01),
    (2, 2, 2, 0b00),
    (3, 0, 2, 0b11),
    (3, 1, 2, 0b10),
    (3, 2, 2, 0b01),
    (3, 3, 2, 0b00),
    (4, 0, 2, 0b11),
    (4, 1, 2, 0b10),
    (4, 2, 2, 0b01),
    (4, 3, 3, 0b001),
    (4, 4, 3, 0b000),
    (5, 0, 2, 0b11),
    (5, 1, 2, 0b10),
    (5, 2, 3, 0b011),
    (5, 3, 3, 0b010),
    (5, 4, 3, 0b001),
    (5, 5, 3, 0b000),
    (6, 0, 2, 0b11),
    (6, 1, 3, 0b000),
    (6, 2, 3, 0b001),
    (6, 3, 3, 0b011),
    (6, 4, 3, 0b010),
    (6, 5, 3, 0b101),
    (6, 6, 3, 0b100),
    (7, 0, 3, 0b111),
    (7, 1, 3, 0b110),
    (7, 2, 3, 0b101),
    (7, 3, 3, 0b100),
    (7, 4, 3, 0b011),
    (7, 5, 3, 0b010),
    (7, 6, 3, 0b001),
    (7, 7, 4, 0b0001),
    (7, 8, 5, 0b00001),
    (7, 9, 6, 0b000001),
    (7, 10, 7, 0b0000001),
    (7, 11, 8, 0b00000001),
    (7, 12, 9, 0b000000001),
    (7, 13, 10, 0b0000000001),
    (7, 14, 11, 0b00000000001),
];

/// The six-bit code used from an average neighbour count of 8 on: its length
/// and value. No coefficients at all is the one irregular code.
pub fn coeff_token_fixed_length(total_coeff: u8, trailing_ones: u8) -> (r: (u8, u16))
    requires
        total_coeff <= 16,
        trailing_ones <= 3,
    ensures
        r.0 == 6,
        r.1 == fixed_token_code(trailing_ones as int, total_coeff as int),
{
    if total_coeff == 0 {
        (6, 0b00_0011)
    } else {
        (6, (total_coeff as u16 - 1) * 4 + trailing_ones as u16)
    }
}

/// The fixed-length code of a `coeff_token`.
pub open spec fn fixed_token_code(trailing_ones: int, total_coeff: int) -> int {
    if total_coeff == 0 {
        3
    } else {
        (total_coeff - 1) * 4 + trailing_ones
    }
}

} // verus!
