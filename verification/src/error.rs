//! The ways an advance or a render is refused.

use vstd::prelude::*;

verus! {

/// Why the progress state refused a call. A refused call changes nothing.
#[derive(Debug, Clone, Copy, PartialEq, Eq, Structural)]
pub enum ProgressError {
    /// The layer index is not below the number of layers.
    OutOfRangeLayer,
    /// The layer already stands at its bound.
    BoundExceeded,
    /// The trailing text is longer than the room reserved for it.
    PostMessageTooLong,
    /// A repeatable handle was called after it had gone through every layer.
    LayerBudgetExhausted,
    /// The line leaves no width at which the arrow can be drawn.
    BarDoesNotFit,
    /// The bound policy has no rendering.
    NoRendering,
}

impl ProgressError {
    /// The refusals that come from rendering the line, as opposed to the
    /// counter or a handle.
    pub open spec fn of_rendering(self) -> bool {
        self is PostMessageTooLong || self is BarDoesNotFit || self is NoRendering
    }
}

} // verus!
