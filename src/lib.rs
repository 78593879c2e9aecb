//! Rewrites vector tiles under a spatial filter language: the filter
//! expressions, their compilation and evaluation, the per-layer rewrite of a
//! tile's features and dictionaries, and the ordering of the output stream.

// Text and numbers.
pub mod decimal;
pub mod text;

// The filter language.
pub mod compiler;
pub mod error;
pub mod executor;
pub mod json;
pub mod operator;
pub mod pattern;
pub mod value;

// Filters and tiles.
pub mod coords;
pub mod filter;
pub mod mvt;
pub mod tile;

// The run.
pub mod args;
pub mod reorder;
