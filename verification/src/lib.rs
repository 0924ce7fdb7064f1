//! A two-pass assembler for a MIPS-style textual assembly language.
//!
//! The pipeline classifies source lines into sections, extracts data
//! declarations and labels, expands pseudo-instructions, resolves symbolic
//! operands to addresses, encodes each instruction in its format, and
//! serialises everything as a flat string of `'0'`/`'1'` characters.

pub mod assembler;
pub mod constants;
pub mod datum;
pub mod errors;
pub mod instruction;
pub mod label;
pub mod line;
pub mod pseudo_instruction;
pub mod section;
pub mod strutil;
pub mod text;
pub mod utils;
