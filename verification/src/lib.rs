//! A verified H.264 decoder core: entropy decoding of slices, prediction and
//! filtering of samples, reference pictures and output order.
//!
//! * Reading: [`bits`], [`golomb`], [`access_unit`].
//! * Variable-length coding: [`cavlc`] over [`cavlc_tables`], [`mb_cavlc`],
//!   [`slice_cavlc`].
//! * Arithmetic coding: [`bins`] and [`coder`] join an engine with [`contexts`];
//!   [`cabac_syntax`], [`cabac_residual`], [`mb_cabac`], [`slice_cabac`].
//! * Macroblocks, whichever way they are coded: [`mb_type`], [`grids`],
//!   [`motion`], [`inter`], [`sub_mb`], [`direct`], [`prediction`],
//!   [`mb_residual`], [`slice`].
//! * Samples: [`dequant`], [`intra`], [`interp`], [`edge_filter`], [`deblock`].
//! * Pictures: [`headers`], [`refs`], [`marking`], [`weights`], [`reorder`],
//!   [`decoder`], [`frame_task`], [`output`].
//!
//! Executable functions state what they compute over mathematical models of
//! their data; `law_` functions prove what holds across them.
//!
//! * What is written is what is read: [`binarisation`], [`residual_laws`],
//!   [`cavlc_laws`], [`code_laws`], [`syntax_laws`], [`reading_laws`],
//!   [`neighbour_laws`], [`context_laws`].
//! * What macroblocks mean and keep: [`motion_laws`], [`partition_laws`],
//!   [`direct_laws`], [`macroblock_laws`], [`coefficient_laws`], [`slice_laws`].
//! * What happens to samples: [`scaling_laws`], [`intra_laws`], [`interp_laws`],
//!   [`filter_laws`], [`deblock_laws`], [`edge_laws`].
//! * What happens to pictures: [`reference_laws`], [`decoder_laws`],
//!   [`picture_laws`].
pub mod access_unit;
pub mod arith;
pub mod binarisation;
pub mod bins;
pub mod bits;
pub mod budget;
pub mod cabac_mb_tables;
pub mod cabac_residual;
pub mod cabac_syntax;
pub mod cavlc;
pub mod cavlc_laws;
pub mod cavlc_tables;
pub mod code_laws;
pub mod coder;
pub mod coefficient_laws;
pub mod context_laws;
pub mod contexts;
pub mod deblock;
pub mod deblock_laws;
pub mod decoder;
pub mod decoder_laws;
pub mod dequant;
pub mod direct;
pub mod direct_laws;
pub mod edge_filter;
pub mod edge_laws;
pub mod error;
pub mod filter_laws;
pub mod frame_task;
pub mod golomb;
pub mod grids;
pub mod headers;
pub mod inter;
pub mod interp;
pub mod interp_laws;
pub mod intra;
pub mod intra_laws;
pub mod macroblock_laws;
pub mod marking;
pub mod mb_cabac;
pub mod mb_cavlc;
pub mod mb_residual;
pub mod mb_type;
pub mod motion;
pub mod motion_laws;
pub mod neighbour_laws;
pub mod output;
pub mod partition_laws;
pub mod picture_laws;
pub mod prediction;
pub mod reading_laws;
pub mod reference_laws;
pub mod refs;
pub mod reorder;
pub mod residual_laws;
pub mod residual_tables;
pub mod scaling_laws;
pub mod slice;
pub mod slice_cabac;
pub mod slice_cavlc;
pub mod slice_laws;
pub mod sub_mb;
pub mod syntax_laws;
pub mod weights;

pub use crate::cabac_residual::{residual_block_cabac, CabacResidual, ContextCategory};
pub use crate::cavlc::{residual_block_cavlc, BlockKind, CavlcResidual};
pub use crate::contexts::ContextSet;
pub use crate::decoder::H264Decoder;
