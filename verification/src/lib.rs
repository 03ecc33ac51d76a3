//! An incremental syntax-highlighting engine: a style interner that hands out
//! compact identifiers for visual styles, a merger that reduces selection
//! regions to a minimal set of line ranges, and a highlighter that walks a
//! document line by line and emits a non-overlapping span mapping.

pub mod ext;
pub mod highlight;
pub mod ranges;
pub mod style;
