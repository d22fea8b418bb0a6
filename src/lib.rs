//! Attributes the compiled-code size of a binary to the source files and functions that
//! produced it, from a model of its debug-information tree: each function or inlined
//! subroutine is credited with its mapped bytes less those of its inlined children, and the
//! results are summed per (directory, file, function) key.

pub mod contributors;
pub mod laws;
pub mod location;
pub mod model;
pub mod size;
pub mod walk;

pub use walk::{analyze, AnalysisError, DwarfAnalysisOpts};
