//! Stage files for packaging.
//!
//! A stage is described declaratively: for every target directory under a
//! staging root, a list of sources (single files, glob-selected file sets,
//! symbolic links, or bare directories) says what should end up there.  All
//! path-bearing fields are template strings; after rendering them against a
//! variable context, the description is translated into a flat, ordered list
//! of concrete filesystem actions which a caller can preview or perform.
//!
//! Translation never stops at the first problem: every invalid target,
//! invalid source and empty glob of one run is reported together.

pub mod action;
pub mod builder;
pub mod de;
pub mod error;
pub mod paths;
pub mod template;
