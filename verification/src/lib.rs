//! Conversion of the image files under a directory into one target format.
//!
//! The library decides and computes; it reads and writes no file. `format`
//! holds the target formats and what each accepts as input, `path` derives
//! the path a converted file is written to, `codec` and `convert` turn the
//! bytes of one file into those of another, `walk` schedules the work over a
//! directory tree, and `run` shows what a whole walk comes to.

pub mod codec;
pub mod convert;
pub mod error;
pub mod format;
pub mod path;
pub mod run;
pub mod walk;
