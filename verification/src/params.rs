//! Start-up parameters of the HotStuff engine.
use vstd::prelude::*;

verus! {

/// A compatibility mode for chains launched before a consensus-breaking
/// change.
#[derive(Debug, Clone)]
pub enum CompatibilityMode<N> {
    /// No compatibility mode.
    Disabled,
    /// Call `initialize_block` before any runtime call, until block `until`
    /// (at which the default rules apply again).
    UseInitializeBlock {
        /// The first block at which the default rules apply.
        until: N,
    },
}

impl<N> Default for CompatibilityMode<N> {
    fn default() -> (r: Self)
        ensures
            r is Disabled,
    {
        CompatibilityMode::Disabled
    }
}

} // verus!
