//! The capability the worker requires of its communication substrate.
//!
//! The substrate itself lives outside this crate; the worker consumes this
//! surface only. Channel endpoints are opaque to the worker: it allocates
//! them on behalf of operators and hands them straight through.

use vstd::prelude::*;

verus! {

/// One inbound notification from the substrate: something happened on a
/// channel. The step loop activates the channel's target operator on either
/// kind; suppressing activations for events that carry no data is a permitted
/// refinement that this core does not take.
#[derive(Clone, Copy, PartialEq, Eq, Structural)]
pub enum ChannelEvent {
    /// Records were pushed into the channel; the count travels with the event.
    Pushed(usize),
    /// Records were pulled from the channel; the count travels with the event.
    Pulled(usize),
}

/// The communication substrate's capability set. Implementations accompany a
/// concrete substrate outside this crate, so nothing is assumed of their
/// behaviour here: the worker states what holds whatever these calls return.
pub trait Allocate {
    /// One push endpoint per peer of an exchange channel.
    type Pusher;

    /// The pull endpoint of an exchange channel, delivering what is destined
    /// for this worker.
    type Puller;

    /// The push endpoint of an intra-worker pipeline channel.
    type ThreadPusher;

    /// The pull endpoint of an intra-worker pipeline channel.
    type ThreadPuller;

    /// The index of this worker among its peers.
    fn index(&self) -> usize;

    /// The number of peer workers.
    fn peers(&self) -> usize;

    /// Allocates the endpoints of the exchange channel named `identifier`:
    /// one pusher per peer, and the puller for this worker.
    fn allocate(&mut self, identifier: usize) -> (Vec<Self::Pusher>, Self::Puller);

    /// Allocates the endpoints of the intra-worker pipeline channel named
    /// `identifier`, short-circuiting the network path.
    fn pipeline(&mut self, identifier: usize) -> (Self::ThreadPusher, Self::ThreadPuller);

    /// Drains inbound network traffic into the substrate's queues.
    fn receive(&mut self);

    /// Hands over the channel events accumulated since the last call.
    fn drain_events(&mut self) -> Vec<(usize, ChannelEvent)>;

    /// Signals that this step's outbound work is complete, letting the
    /// substrate flush its network buffers.
    fn release(&mut self);
}

} // verus!
