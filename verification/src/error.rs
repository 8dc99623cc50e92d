//! The ways in which a bake can fail. Every one of them is fatal: no table is
//! produced.

use vstd::prelude::*;

verus! {

/// Why no table was produced.
#[derive(Clone, Copy, Debug, PartialEq, Eq, Structural)]
pub enum BakeError {
    /// The input file at position `file` (counted from 0 in the order the
    /// inputs were given) is missing, unreadable, or is not a document of the
    /// expected format.
    Load { file: usize },
    /// The tile map has no first layer, or its first layer is not a finite
    /// tile grid.
    LayerKind,
    /// The tag at position `tag` of the input file at position `file` ends
    /// before it starts.
    MalformedTag { file: usize, tag: usize },
}

} // verus!
