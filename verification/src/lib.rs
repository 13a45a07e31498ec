//! Flattens a directory tree into one output: a depth-bounded walk selects
//! files through glob include/exclude patterns, and their bytes are
//! concatenated behind an optional tree-text header, each optionally
//! preceded by a provenance line. The output file itself is never read back
//! into the result. The selection, traversal, and assembly logic is
//! verified; filesystem access and the command line stay outside.

pub mod engine;
pub mod matcher;
pub mod paths;
pub mod walker;
