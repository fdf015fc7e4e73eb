//! Inspection of a compact self-describing model container format (header,
//! typed metadata, tensor descriptors, bounded previews of tensor data), plus
//! a small evaluator for arithmetic on base-3 numerals.

pub mod text;
pub mod ternary;
pub mod cursor;
pub mod value;
pub mod header;
pub mod model;
pub mod quant;
pub mod estimate;
pub mod laws;
