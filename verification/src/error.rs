//! Why a load was given up.

use vstd::prelude::*;

verus! {

/// The first thing found wrong with the lines of a file. Lines are counted
/// from zero.
#[derive(Debug, Clone, Copy, PartialEq, Eq)]
pub enum LoadError {
    /// The line lacks a field, or a field that must be an id denotes none.
    Format { line: usize },
    /// The id on the line names no usable position: in a node table it is
    /// not the number of the line, in an edge list it lies beyond the node
    /// table.
    Index { line: usize },
    /// An edge list was to be read against a node table without nodes.
    EmptyTable,
}

} // verus!
