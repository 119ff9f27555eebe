//! The per-worker core of a timely dataflow computation.
//!
//! A [`worker::Worker`] owns the state of one single-threaded participant in
//! a timely computation: a write-once registry mapping channel identifiers to
//! operator addresses, a monotone identifier mint, the list of live
//! dataflows, an activation set naming the operator addresses that deserve
//! CPU, and a registry of named logging handles. The worker drives the
//! computation one cooperative step at a time, multiplexing the
//! communication substrate (the [`communication::Allocate`] capability)
//! against the dataflows' [`scheduling::Schedule`] capability.

pub mod activate;
pub mod communication;
pub mod logging;
pub mod scheduling;
pub mod worker;
pub mod wrapper;

pub use activate::Activations;
pub use communication::Allocate;
pub use communication::ChannelEvent;
pub use logging::Logger;
pub use logging::Registry;
pub use scheduling::Schedule;
pub use worker::AsWorker;
pub use worker::Worker;
pub use wrapper::Wrapper;
