//! What a node offers to the control plane that manages it.

use vstd::prelude::*;

verus! {

/// Implemented by a node so that it can be asked about its own health.
pub trait NodeInterface {
    /// Whether the node considers itself to be in a good state.
    fn is_ok() -> bool;
}

} // verus!
