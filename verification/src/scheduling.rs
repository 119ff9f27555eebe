//! The capability the worker requires of a dataflow's operator tree.

use vstd::prelude::*;
use crate::activate::Activations;

verus! {

/// The scheduling surface of a built dataflow. The root operator of every
/// registered dataflow exposes it; implementations are built by operator
/// constructors outside this crate, so the worker assumes nothing of their
/// behaviour.
pub trait Schedule {
    /// Offers the operator tree one quantum of CPU, with mutable access to
    /// the worker's activation set so the tree can drain the activations
    /// addressed into it (and re-activate itself). Returns `true` to stay
    /// live, `false` to be retired.
    fn schedule(&mut self, activations: &mut Activations) -> bool;

    /// Initializes internal progress-tracking state; the worker invokes it
    /// exactly once, when the dataflow is registered.
    fn get_internal_summary(&mut self);

    /// Seeds external progress-tracking state; the worker invokes it exactly
    /// once, right after `get_internal_summary`.
    fn set_external_summary(&mut self);
}

} // verus!
