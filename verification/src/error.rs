//! The failures that the heap and the key-list parser report.

use vstd::prelude::*;

verus! {

/// Why an operation was refused. A refused operation changes nothing.
#[derive(Debug, Clone, Copy, PartialEq, Eq, Structural)]
pub enum HeapError {
    /// The text of a key list is not a comma-separated list of numbers that
    /// fit the key type.
    ConstructionError,
    /// The position is not one of `0 .. len`.
    IndexNotFound,
    /// The new key is smaller than the key it would replace.
    KeyNotIncreasing,
    /// The heap holds no key.
    EmptyHeap,
}

} // verus!
