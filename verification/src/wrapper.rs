//! One live dataflow: its operator tree and the resources it must outlive.

use vstd::prelude::*;
use crate::activate::Activations;
use crate::scheduling::Schedule;

verus! {

/// A registered dataflow: a diagnostic index, the operator tree behind its
/// `Schedule` capability, and an optional bag of auxiliary resources whose
/// lifetime is tied to the dataflow (a loaded library, a preallocated
/// buffer). Both options are filled at registration and emptied at
/// retirement.
///
/// The operator may hold weak references into the resources, so it must be
/// destroyed first. At voluntary retirement `step` releases the fields in
/// that order; at forced teardown the declaration order below makes the
/// language release them in the same order.
pub struct Wrapper<S, V> {
    /// The dataflow's index, for diagnostics.
    pub index: usize,
    /// The operator tree; `None` once retired.
    pub operate: Option<S>,
    /// The auxiliary resources; `None` once retired.
    pub resources: Option<V>,
}

impl<S: Schedule, V> Wrapper<S, V> {
    /// Wraps a freshly built operator tree and its resources.
    pub fn new(index: usize, operate: S, resources: Option<V>) -> (w: Wrapper<S, V>)
        ensures
            w.index == index,
            w.operate == Some(operate),
            w.resources == resources,
    {
        Wrapper { index, operate: Some(operate), resources }
    }

    /// Whether the dataflow is still live: its operator has not been released.
    pub fn active(&self) -> (r: bool)
        ensures
            r == (self.operate is Some),
    {
        self.operate.is_some()
    }

    /// Offers the operator one quantum of CPU. If the operator reports
    /// inactive (or was already released), the operator is released first
    /// and the resources after it, in that order.
    pub fn step(&mut self, activations: &mut Activations) -> (active: bool)
        ensures
            final(self).index == old(self).index,
            active == (final(self).operate is Some),
            old(self).operate is None ==> !active,
            !active ==> final(self).resources is None,
            active ==> final(self).resources == old(self).resources,
    {
        let taken = self.operate.take();
        let mut active = false;
        if let Some(mut op) = taken {
            active = op.schedule(activations);
            if active {
                self.operate = Some(op);
            }
            // an inactive operator is dropped here, before the resources
        }
        if !active {
            self.resources = None;
        }
        active
    }
}

} // verus!
