//! The cells of a result file: the part of a result that holds no
//! floating-point values.
use vstd::prelude::*;

verus! {

/// The schema version result files are written in.
pub const RESULT_SCHEMA_VERSION: u32 = 1;

/// A cell of a result mesh: the name of its kind and its nodes.
#[derive(Clone, Debug, PartialEq)]
pub struct KeplerResultCell {
    pub kind: String,
    pub nodes: Vec<usize>,
}

} // verus!
