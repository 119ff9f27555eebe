//! The root of each single-threaded worker.

use vstd::prelude::*;
use crate::activate::Activations;
use crate::activate::lemma_filter_push;
use crate::activate::strictly_sorted;
use crate::communication::Allocate;
use crate::communication::ChannelEvent;
use crate::logging::Logger;
use crate::logging::Registry;
use crate::logging::spec_get;
use crate::scheduling::Schedule;
use crate::wrapper::Wrapper;

verus! {

#[verifier::external_type_specification]
#[verifier::external_body]
pub struct ExInstant(std::time::Instant);

/// Relies on `std::time::Instant::now`: an opaque monotonic instant. Its
/// value depends on the clock, so nothing is stated of it.
#[verifier::external_body]
fn monotonic_now() -> std::time::Instant {
    std::time::Instant::now()
}

/// The operator addresses that a batch of channel events activates, in event
/// order: the registered, non-empty path of each event's channel. An event
/// for a channel without a registered path names no operator and is dropped.
pub open spec fn activation_targets(
    paths: Seq<Seq<usize>>,
    events: Seq<(usize, ChannelEvent)>,
) -> Seq<Seq<usize>>
    decreases events.len(),
{
    if events.len() == 0 {
        Seq::empty()
    } else {
        let rest = activation_targets(paths, events.drop_last());
        let c = events.last().0;
        if c < paths.len() && paths[c as int].len() > 0 {
            rest.push(paths[c as int])
        } else {
            rest
        }
    }
}

/// Every activated address is a registered path.
proof fn lemma_targets_subset(paths: Seq<Seq<usize>>, events: Seq<(usize, ChannelEvent)>)
    ensures
        activation_targets(paths, events).to_set().subset_of(paths.to_set()),
    decreases events.len(),
{
    if events.len() > 0 {
        lemma_targets_subset(paths, events.drop_last());
        let rest = activation_targets(paths, events.drop_last());
        let c = events.last().0;
        if c < paths.len() && paths[c as int].len() > 0 {
            rest.lemma_push_to_set_commute(paths[c as int]);
            assert(paths.contains(paths[c as int]));
        }
    }
}

/// Methods provided by the root worker: the uniform capability surface
/// that operator-building code invokes to allocate channels, mint
/// identifiers, and obtain logging, oblivious to its nesting depth. The
/// root [`Worker`] provides it directly; a nested scope forwards to its
/// parent.
pub trait AsWorker {
    /// One push endpoint per peer of an exchange channel.
    type Pusher;

    /// The pull endpoint of an exchange channel.
    type Puller;

    /// The push endpoint of an intra-worker pipeline channel.
    type ThreadPusher;

    /// The pull endpoint of an intra-worker pipeline channel.
    type ThreadPuller;

    /// The logging handle type.
    type LogHandle;

    /// The channel paths registered through this surface, by identifier.
    spec fn capability_paths(&self) -> Seq<Seq<usize>>;

    /// How many worker-unique identifiers have been minted.
    spec fn capability_identifiers(&self) -> usize;

    /// The logging handles registered through this surface.
    spec fn capability_logging(&self) -> Seq<(Seq<char>, Self::LogHandle)>;

    /// Index of the worker among its peers.
    fn index(&self) -> usize;

    /// Number of peer workers.
    fn peers(&self) -> usize;

    /// Allocates a new exchange channel from a supplied identifier and
    /// address. The identifier names the underlying channel and routes its
    /// data, so it must be distinct from the other identifiers used for
    /// allocation; callers draw it from `new_identifier`. The address names
    /// the operator to schedule when records arrive, most commonly the
    /// channel's target, and cannot be empty.
    fn allocate(&mut self, identifier: usize, address: &[usize]) -> (channel: (
        Vec<Self::Pusher>,
        Self::Puller,
    ))
        requires
            address@.len() > 0,
        ensures
            final(self).capability_paths().len() == (if old(self).capability_paths().len()
                <= identifier {
                identifier + 1
            } else {
                old(self).capability_paths().len() as int
            }),
            final(self).capability_paths()[identifier as int] == address@,
            forall|i: int|
                0 <= i < final(self).capability_paths().len() && i != identifier
                    ==> final(self).capability_paths()[i] == (if i < old(
                    self,
                ).capability_paths().len() {
                    old(self).capability_paths()[i]
                } else {
                    Seq::<usize>::empty()
                }),
            final(self).capability_identifiers() == old(self).capability_identifiers();

    /// Constructs a pipeline channel from the worker to itself, under the
    /// same identifier and address rules as `allocate`.
    fn pipeline(&mut self, identifier: usize, address: &[usize]) -> (channel: (
        Self::ThreadPusher,
        Self::ThreadPuller,
    ))
        requires
            address@.len() > 0,
        ensures
            final(self).capability_paths().len() == (if old(self).capability_paths().len()
                <= identifier {
                identifier + 1
            } else {
                old(self).capability_paths().len() as int
            }),
            final(self).capability_paths()[identifier as int] == address@,
            forall|i: int|
                0 <= i < final(self).capability_paths().len() && i != identifier
                    ==> final(self).capability_paths()[i] == (if i < old(
                    self,
                ).capability_paths().len() {
                    old(self).capability_paths()[i]
                } else {
                    Seq::<usize>::empty()
                }),
            final(self).capability_identifiers() == old(self).capability_identifiers();

    /// Allocates a new worker-unique identifier.
    fn new_identifier(&mut self) -> (id: usize)
        requires
            old(self).capability_identifiers() < usize::MAX,
        ensures
            id == old(self).capability_identifiers(),
            final(self).capability_identifiers() == old(self).capability_identifiers() + 1,
            final(self).capability_paths() == old(self).capability_paths();

    /// Registers a named logging handle.
    fn log_register(&mut self, name: String, logger: Self::LogHandle)
        ensures
            spec_get(final(self).capability_logging(), name@) == Some(logger),
            forall|n: Seq<char>|
                n != name@ ==> spec_get(final(self).capability_logging(), n) == spec_get(
                    old(self).capability_logging(),
                    n,
                ),
            final(self).capability_paths() == old(self).capability_paths(),
            final(self).capability_identifiers() == old(self).capability_identifiers();

    /// Provides access to the timely logging stream.
    fn logging(&self) -> (r: Option<Self::LogHandle>)
        ensures
            (r is Some) == (spec_get(self.capability_logging(), "timely"@) is Some);
}

/// `a` stands inside `b` in order: matched greedily from the back, every
/// element of `a` is found in `b`, left to right.
pub open spec fn subsequence_of<T>(a: Seq<T>, b: Seq<T>) -> bool
    decreases b.len(), a.len(),
{
    if a.len() == 0 {
        true
    } else if b.len() == 0 {
        false
    } else if a.last() == b.last() {
        subsequence_of(a.drop_last(), b.drop_last())
    } else {
        subsequence_of(a, b.drop_last())
    }
}

/// Shortening the found sequence keeps it a subsequence.
proof fn lemma_subsequence_drop<T>(a: Seq<T>, b: Seq<T>)
    requires
        subsequence_of(a, b),
        a.len() > 0,
    ensures
        subsequence_of(a.drop_last(), b),
    decreases b.len(), 0int,
{
    if b.len() > 0 {
        if a.last() == b.last() {
            lemma_subsequence_grow(a.drop_last(), b.drop_last(), b.last());
            assert(b.drop_last().push(b.last()) =~= b);
        } else {
            lemma_subsequence_drop(a, b.drop_last());
            if a.drop_last().len() > 0 && a.drop_last().last() == b.last() {
                lemma_subsequence_drop(a.drop_last(), b.drop_last());
            }
        }
    }
}

/// Extending the surrounding sequence keeps a subsequence a subsequence.
proof fn lemma_subsequence_grow<T>(a: Seq<T>, b: Seq<T>, z: T)
    requires
        subsequence_of(a, b),
    ensures
        subsequence_of(a, b.push(z)),
    decreases b.len(), 1int,
{
    if a.len() > 0 {
        assert(b.push(z).drop_last() =~= b);
        if a.last() == z {
            lemma_subsequence_drop(a, b);
        }
    }
}

/// Retirement never reorders: what `filter` keeps of a sequence stands in
/// the sequence's own order, so the dataflows that survive a step keep
/// their insertion order (see the `step` contract, where the surviving
/// list is exactly a filtering of the stepped one).
pub proof fn lemma_filter_subsequence<T>(s: Seq<T>, pred: spec_fn(T) -> bool)
    ensures
        subsequence_of(s.filter(pred), s),
    decreases s.len(),
{
    reveal(Seq::filter);
    if s.len() > 0 {
        lemma_filter_subsequence(s.drop_last(), pred);
        let f = s.drop_last().filter(pred);
        if pred(s.last()) {
            assert(s.filter(pred) == f.push(s.last()));
            assert(f.push(s.last()).drop_last() =~= f);
        } else {
            assert(s.filter(pred) == f);
            if f.len() > 0 && f.last() == s.last() {
                lemma_subsequence_drop(f, s.drop_last());
            }
        }
    }
}

/// A `Worker` is the entry point to a timely dataflow computation. It owns a
/// communication substrate of capability `A` and manages a list of dataflows
/// whose operator trees have capability `S`, whose stashed resources have
/// type `V`, and whose logging handles have type `L`.
///
/// The single mutable handle to the worker is threaded explicitly through
/// the code that builds and drives dataflows; mutation is serialized by the
/// single-threaded discipline of one worker per thread.
pub struct Worker<A, S, V, L> {
    timer: std::time::Instant,
    allocator: A,
    index: usize,
    peers: usize,
    paths: Vec<Vec<usize>>,
    identifiers: usize,
    dataflows: Vec<Wrapper<S, V>>,
    dataflow_counter: usize,
    logging: Registry<L>,
    activations: Activations,
}

impl<A: Allocate, S: Schedule, V, L: Logger + Clone> Worker<A, S, V, L> {
    /// The registered channel paths, indexed by channel identifier; an
    /// unallocated slot below the highest allocated identifier is empty.
    pub closed spec fn paths_view(&self) -> Seq<Seq<usize>> {
        self.paths.deep_view()
    }

    /// How many worker-unique identifiers have been minted.
    pub closed spec fn identifier_count(&self) -> usize {
        self.identifiers
    }

    /// How many dataflow indices have been allocated.
    pub closed spec fn dataflow_count(&self) -> usize {
        self.dataflow_counter
    }

    /// The live dataflow wrappers, in insertion order.
    pub closed spec fn dataflows_view(&self) -> Seq<Wrapper<S, V>> {
        self.dataflows@
    }

    /// The recorded activation set.
    pub closed spec fn activations_view(&self) -> Seq<Seq<usize>> {
        self.activations@
    }

    /// The registered logging handles.
    pub closed spec fn logging_view(&self) -> Seq<(Seq<char>, L)> {
        self.logging@
    }

    /// The names under which logging handles are registered.
    pub closed spec fn logging_names(&self) -> Seq<Seq<char>> {
        self.logging.names()
    }

    /// The captured index of this worker among its peers.
    pub closed spec fn index_spec(&self) -> usize {
        self.index
    }

    /// The captured number of peer workers.
    pub closed spec fn peers_spec(&self) -> usize {
        self.peers
    }

    /// The captured epoch.
    pub closed spec fn timer_spec(&self) -> std::time::Instant {
        self.timer
    }

    /// Every listed dataflow is live: a retired wrapper never stays in the
    /// list past the step that retired it.
    pub open spec fn wf(&self) -> bool {
        forall|i: int|
            0 <= i < self.dataflows_view().len() ==> (#[trigger] self.dataflows_view()[i]).operate
                is Some
    }

    /// The identity a worker keeps for its whole lifetime.
    pub open spec fn same_identity(&self, other: &Self) -> bool {
        &&& other.index_spec() == self.index_spec()
        &&& other.peers_spec() == self.peers_spec()
        &&& other.timer_spec() == self.timer_spec()
    }

    /// Allocates a new `Worker` bound to a channel allocator: captures the
    /// monotonic epoch and the allocator's constant index and peer count,
    /// and starts with empty collections and zeroed counters.
    pub fn new(allocator: A) -> (w: Worker<A, S, V, L>)
        ensures
            w.wf(),
            w.paths_view() == Seq::<Seq<usize>>::empty(),
            w.identifier_count() == 0,
            w.dataflow_count() == 0,
            w.dataflows_view() == Seq::<Wrapper<S, V>>::empty(),
            w.activations_view() == Seq::<Seq<usize>>::empty(),
            w.logging_view() == Seq::<(Seq<char>, L)>::empty(),
    {
        let timer = monotonic_now();
        let index = allocator.index();
        let peers = allocator.peers();
        let w = Worker {
            timer,
            allocator,
            index,
            peers,
            paths: Vec::new(),
            identifiers: 0,
            dataflows: Vec::new(),
            dataflow_counter: 0,
            logging: Registry::new(),
            activations: Activations::new(),
        };
        proof {
            assert(w.paths_view() =~= Seq::<Seq<usize>>::empty());
        }
        w
    }

    /// The index of the worker out of its peers, as the allocator reported
    /// it at construction.
    pub fn index(&self) -> (r: usize)
        ensures
            r == self.index_spec(),
    {
        self.index
    }

    /// The total number of peer workers, as the allocator reported it at
    /// construction.
    pub fn peers(&self) -> (r: usize)
        ensures
            r == self.peers_spec(),
    {
        self.peers
    }

    /// A timer started at the initiation of the timely computation, shared
    /// verbatim with every operator.
    pub fn timer(&self) -> (r: std::time::Instant)
        ensures
            r == self.timer_spec(),
    {
        self.timer
    }

    /// Allocates a new worker-unique identifier: the counter's current
    /// value, which no earlier or later call returns again.
    pub fn new_identifier(&mut self) -> (id: usize)
        requires
            old(self).identifier_count() < usize::MAX,
        ensures
            id == old(self).identifier_count(),
            final(self).identifier_count() == old(self).identifier_count() + 1,
            final(self).paths_view() == old(self).paths_view(),
            final(self).dataflow_count() == old(self).dataflow_count(),
            final(self).dataflows_view() == old(self).dataflows_view(),
            final(self).activations_view() == old(self).activations_view(),
            final(self).logging_view() == old(self).logging_view(),
            old(self).same_identity(final(self)),
    {
        let id = self.identifiers;
        self.identifiers = self.identifiers + 1;
        id
    }

    /// Registers `address` as the path of channel `identifier`: grows the
    /// table to cover the identifier, writes the one slot, and leaves every
    /// other entry untouched.
    fn register_path(&mut self, identifier: usize, address: &[usize])
        requires
            address@.len() > 0,
        ensures
            final(self).paths_view().len() == (if old(self).paths_view().len() <= identifier {
                identifier + 1
            } else {
                old(self).paths_view().len() as int
            }),
            final(self).paths_view()[identifier as int] == address@,
            forall|i: int|
                0 <= i < final(self).paths_view().len() && i != identifier
                    ==> final(self).paths_view()[i] == (if i < old(self).paths_view().len() {
                    old(self).paths_view()[i]
                } else {
                    Seq::<usize>::empty()
                }),
            final(self).identifier_count() == old(self).identifier_count(),
            final(self).dataflow_count() == old(self).dataflow_count(),
            final(self).dataflows_view() == old(self).dataflows_view(),
            final(self).activations_view() == old(self).activations_view(),
            final(self).logging_view() == old(self).logging_view(),
            old(self).same_identity(final(self)),
    {
        broadcast use crate::activate::lemma_deep_view_index;

        let ghost before = self.paths.deep_view();
        let ghost state0 = *self;
        while self.paths.len() <= identifier
            invariant
                before.len() <= identifier ==> before.len() <= self.paths@.len() <= identifier + 1,
                before.len() > identifier ==> self.paths@.len() == before.len(),
                forall|i: int|
                    0 <= i < self.paths@.len() ==> #[trigger] self.paths.deep_view()[i] == (if i
                        < before.len() {
                        before[i]
                    } else {
                        Seq::<usize>::empty()
                    }),
                self.identifiers == state0.identifiers,
                self.dataflow_counter == state0.dataflow_counter,
                self.dataflows == state0.dataflows,
                self.activations == state0.activations,
                self.logging == state0.logging,
                self.allocator == state0.allocator,
                self.index == state0.index,
                self.peers == state0.peers,
                self.timer == state0.timer,
            decreases identifier + 1 - self.paths@.len(),
        {
            let ghost dvb = self.paths.deep_view();
            let empty_path: Vec<usize> = Vec::new();
            self.paths.push(empty_path);
            proof {
                assert(self.paths.deep_view() =~~= dvb.push(Seq::<usize>::empty()));
            }
        }
        let ghost grown = self.paths.deep_view();
        let slot = vstd::slice::slice_to_vec(address);
        let _old_slot = self.paths.remove(identifier);
        self.paths.insert(identifier, slot);
        proof {
            assert(self.paths.deep_view() =~= grown.update(identifier as int, address@));
        }
    }

    /// Allocates a new exchange channel: registers `address` as the path of
    /// channel `identifier` and obtains from the substrate one pusher per
    /// peer and the puller delivering this worker's share. A zero-length
    /// address would mis-wire the channel and is excluded outright.
    pub fn allocate(&mut self, identifier: usize, address: &[usize]) -> (channel: (
        Vec<A::Pusher>,
        A::Puller,
    ))
        requires
            address@.len() > 0,
        ensures
            final(self).paths_view().len() == (if old(self).paths_view().len() <= identifier {
                identifier + 1
            } else {
                old(self).paths_view().len() as int
            }),
            final(self).paths_view()[identifier as int] == address@,
            forall|i: int|
                0 <= i < final(self).paths_view().len() && i != identifier
                    ==> final(self).paths_view()[i] == (if i < old(self).paths_view().len() {
                    old(self).paths_view()[i]
                } else {
                    Seq::<usize>::empty()
                }),
            final(self).identifier_count() == old(self).identifier_count(),
            final(self).dataflow_count() == old(self).dataflow_count(),
            final(self).dataflows_view() == old(self).dataflows_view(),
            final(self).activations_view() == old(self).activations_view(),
            final(self).logging_view() == old(self).logging_view(),
            old(self).same_identity(final(self)),
    {
        self.register_path(identifier, address);
        self.allocator.allocate(identifier)
    }

    /// Constructs a pipeline channel from the worker to itself: registers
    /// `address` as the path of channel `identifier` and obtains the
    /// substrate's short-circuited thread-local endpoints. A zero-length
    /// address would mis-wire the channel and is excluded outright.
    pub fn pipeline(&mut self, identifier: usize, address: &[usize]) -> (channel: (
        A::ThreadPusher,
        A::ThreadPuller,
    ))
        requires
            address@.len() > 0,
        ensures
            final(self).paths_view().len() == (if old(self).paths_view().len() <= identifier {
                identifier + 1
            } else {
                old(self).paths_view().len() as int
            }),
            final(self).paths_view()[identifier as int] == address@,
            forall|i: int|
                0 <= i < final(self).paths_view().len() && i != identifier
                    ==> final(self).paths_view()[i] == (if i < old(self).paths_view().len() {
                    old(self).paths_view()[i]
                } else {
                    Seq::<usize>::empty()
                }),
            final(self).identifier_count() == old(self).identifier_count(),
            final(self).dataflow_count() == old(self).dataflow_count(),
            final(self).dataflows_view() == old(self).dataflows_view(),
            final(self).activations_view() == old(self).activations_view(),
            final(self).logging_view() == old(self).logging_view(),
            old(self).same_identity(final(self)),
    {
        self.register_path(identifier, address);
        self.allocator.pipeline(identifier)
    }

    /// Registers `logger` under `name`, shadowing any earlier handle of
    /// that name.
    pub fn log_register(&mut self, name: String, logger: L)
        ensures
            spec_get(final(self).logging_view(), name@) == Some(logger),
            forall|n: Seq<char>|
                n != name@ ==> spec_get(final(self).logging_view(), n) == spec_get(
                    old(self).logging_view(),
                    n,
                ),
            final(self).paths_view() == old(self).paths_view(),
            final(self).identifier_count() == old(self).identifier_count(),
            final(self).dataflow_count() == old(self).dataflow_count(),
            final(self).dataflows_view() == old(self).dataflows_view(),
            final(self).activations_view() == old(self).activations_view(),
            old(self).same_identity(final(self)),
    {
        self.logging.insert(name, logger);
    }

    /// Fetches a clone of the timely logging handle, if one is registered.
    pub fn logging(&self) -> (r: Option<L>)
        ensures
            (r is Some) == (spec_get(self.logging_view(), "timely"@) is Some),
    {
        self.logging.get("timely")
    }

    /// Read access to the activation set.
    pub fn activations(&self) -> (r: &Activations)
        ensures
            r@ == self.activations_view(),
    {
        &self.activations
    }

    /// How many channel-path slots exist: one per identifier up to the
    /// highest allocated channel.
    pub fn paths_len(&self) -> (r: usize)
        ensures
            r == self.paths_view().len(),
    {
        self.paths.len()
    }

    /// The registered path of channel `channel`; empty if the slot below a
    /// higher allocated identifier was never written.
    pub fn path_of(&self, channel: usize) -> (r: Vec<usize>)
        requires
            channel < self.paths_view().len(),
        ensures
            r@ == self.paths_view()[channel as int],
    {
        broadcast use crate::activate::lemma_deep_view_index;

        let src = &self.paths[channel];
        let mut out: Vec<usize> = Vec::new();
        let mut i: usize = 0;
        while i < src.len()
            invariant
                i <= src@.len(),
                out@ == src@.take(i as int),
            decreases src@.len() - i,
        {
            out.push(src[i]);
            proof {
                assert(out@ =~= src@.take(i + 1));
            }
            i = i + 1;
        }
        proof {
            assert(src@.take(i as int) =~= src@);
            assert(src@ == self.paths_view()[channel as int]);
        }
        out
    }

    /// The number of live dataflows.
    pub fn num_dataflows(&self) -> (r: usize)
        ensures
            r == self.dataflows_view().len(),
    {
        self.dataflows.len()
    }

    /// Marks the registered target of each channel event runnable, in event
    /// order; events of channels without a registered path name no operator
    /// and are dropped.
    fn activate(&mut self, events: &Vec<(usize, ChannelEvent)>)
        ensures
            final(self).activations_view() == old(self).activations_view() + activation_targets(
                old(self).paths_view(),
                events@,
            ),
            final(self).paths_view() == old(self).paths_view(),
            final(self).identifier_count() == old(self).identifier_count(),
            final(self).dataflow_count() == old(self).dataflow_count(),
            final(self).dataflows_view() == old(self).dataflows_view(),
            final(self).logging_view() == old(self).logging_view(),
            old(self).same_identity(final(self)),
    {
        broadcast use crate::activate::lemma_deep_view_index;

        let ghost paths0 = self.paths_view();
        let ghost act0 = self.activations_view();
        let mut i: usize = 0;
        proof {
            assert(events@.take(0) =~= Seq::<(usize, ChannelEvent)>::empty());
            assert(act0 + activation_targets(paths0, events@.take(0)) =~= act0);
        }
        while i < events.len()
            invariant
                i <= events@.len(),
                self.paths_view() == paths0,
                self.activations_view() == act0 + activation_targets(paths0, events@.take(i as int)),
                self.paths == old(self).paths,
                self.identifiers == old(self).identifiers,
                self.dataflow_counter == old(self).dataflow_counter,
                self.dataflows == old(self).dataflows,
                self.logging == old(self).logging,
                self.allocator == old(self).allocator,
                self.index == old(self).index,
                self.peers == old(self).peers,
                self.timer == old(self).timer,
            decreases events@.len() - i,
        {
            let (channel, _event) = events[i];
            proof {
                assert(events@.take(i + 1).drop_last() =~= events@.take(i as int));
                assert(events@.take(i + 1).last() == events@[i as int]);
            }
            if channel < self.paths.len() {
                let path = &self.paths[channel];
                if path.len() > 0 {
                    self.activations.unpark(path.as_slice());
                    proof {
                        assert(path@ == paths0[channel as int]);
                        assert(self.activations_view() =~= act0 + activation_targets(
                            paths0,
                            events@.take(i + 1),
                        ));
                    }
                }
            }
            i = i + 1;
        }
        proof {
            assert(events@.take(events@.len() as int) =~= events@);
        }
    }

    /// Performs one step of the computation: drains the substrate's channel
    /// events into activations, tidies the activation set, offers every live
    /// dataflow one scheduling quantum in insertion order, flushes logging,
    /// releases the substrate, retires the dataflows that reported inactive,
    /// and tells whether any dataflow remains live.
    pub fn step(&mut self) -> (live: bool)
        requires
            old(self).wf(),
        ensures
            final(self).wf(),
            live == (final(self).dataflows_view().len() > 0),
            final(self).paths_view() == old(self).paths_view(),
            final(self).identifier_count() == old(self).identifier_count(),
            final(self).dataflow_count() == old(self).dataflow_count(),
            final(self).logging_names() == old(self).logging_names(),
            old(self).same_identity(final(self)),
            // each dataflow is stepped once in place, then exactly the
            // still-active wrappers survive, in insertion order
            exists|mid: Seq<Wrapper<S, V>>|
                #![trigger mid.len()]
                mid.len() == old(self).dataflows_view().len() && (forall|i: int|
                    0 <= i < mid.len() ==> (#[trigger] mid[i]).index == old(
                        self,
                    ).dataflows_view()[i].index) && final(self).dataflows_view() == mid.filter(
                    |w: Wrapper<S, V>| w.operate is Some,
                ),
            // a worker with no dataflows reports no life and touches nothing
            // beyond draining events into the tidied activation set
            old(self).dataflows_view().len() == 0 ==> !live && final(self).dataflows_view().len()
                == 0 && strictly_sorted(final(self).activations_view()) && old(
                self,
            ).activations_view().to_set().subset_of(final(self).activations_view().to_set())
                && final(self).activations_view().to_set().subset_of(
                old(self).activations_view().to_set().union(old(self).paths_view().to_set()),
            ),
    {
        let ghost pred = |w: Wrapper<S, V>| w.operate is Some;
        // Process channel events; activate responders.
        self.allocator.receive();
        let events = self.allocator.drain_events();
        let ghost act0 = self.activations_view();
        self.activate(&events);
        let ghost act1 = self.activations_view();
        let ghost targets = activation_targets(old(self).paths_view(), events@);
        // Organize activations.
        self.activations.tidy();
        let ghost act2 = self.activations_view();
        proof {
            lemma_targets_subset(old(self).paths_view(), events@);
            assert(act2.to_set() == act1.to_set());
            assert forall|x: Seq<usize>| act0.to_set().contains(x) implies act2.to_set().contains(
                x,
            ) by {
                let j = choose|j: int| 0 <= j < act0.len() && act0[j] == x;
                assert(act1[j] == x);
                assert(act1.contains(x));
            }
            assert forall|x: Seq<usize>| act2.to_set().contains(x) implies act0.to_set().union(
                old(self).paths_view().to_set(),
            ).contains(x) by {
                let j = choose|j: int| 0 <= j < act1.len() && act1[j] == x;
                if j < act0.len() {
                    assert(act0[j] == x);
                    assert(act0.contains(x));
                } else {
                    assert(targets[j - act0.len()] == x);
                    assert(targets.contains(x));
                }
            }
        }
        // Step each dataflow once, in insertion order.
        let mut i: usize = 0;
        while i < self.dataflows.len()
            invariant
                i <= self.dataflows@.len(),
                self.dataflows@.len() == old(self).dataflows_view().len(),
                forall|j: int|
                    0 <= j < self.dataflows@.len() ==> (#[trigger] self.dataflows@[j]).index == old(
                        self,
                    ).dataflows_view()[j].index,
                self.paths_view() == old(self).paths_view(),
                self.identifier_count() == old(self).identifier_count(),
                self.dataflow_count() == old(self).dataflow_count(),
                self.logging_view() == old(self).logging_view(),
                old(self).same_identity(self),
                old(self).dataflows_view().len() == 0 ==> self.activations@ == act2,
            decreases self.dataflows@.len() - i,
        {
            self.dataflows[i].step(&mut self.activations);
            i = i + 1;
        }
        let ghost mid = self.dataflows@;
        // Flush logging infrastructure.
        self.logging.flush();
        // Flush communication infrastructure.
        self.allocator.release();
        // Discard completed dataflows; indicate non-emptiness.
        let ghost act3 = self.activations@;
        let mut pending: Vec<Wrapper<S, V>> = Vec::new();
        core::mem::swap(&mut self.dataflows, &mut pending);
        let ghost k: int = 0;
        proof {
            assert(pending@ =~= mid.skip(0));
            assert(mid.take(0) =~= Seq::<Wrapper<S, V>>::empty());
            assert(self.dataflows@ =~= mid.take(0).filter(pred));
        }
        while pending.len() > 0
            invariant
                0 <= k <= mid.len(),
                pending@ == mid.skip(k),
                self.dataflows@ == mid.take(k).filter(pred),
                pred == (|w: Wrapper<S, V>| w.operate is Some),
                self.paths_view() == old(self).paths_view(),
                self.identifier_count() == old(self).identifier_count(),
                self.dataflow_count() == old(self).dataflow_count(),
                self.logging_names() == old(self).logging_names(),
                old(self).same_identity(self),
                self.activations@ == act3,
            decreases pending@.len(),
        {
            let ghost pvb = pending@;
            let w = pending.remove(0);
            proof {
                vstd::seq_lib::lemma_seq_skip_len(mid, k);
                vstd::seq_lib::lemma_seq_skip_len(mid, k + 1);
                vstd::seq_lib::lemma_seq_skip_index(mid, k, 0);
                assert(w == mid[k]);
                assert forall|j: int| 0 <= j < pending@.len() implies #[trigger] pending@[j]
                    == mid.skip(k + 1)[j] by {
                    assert(pending@[j] == pvb.remove(0)[j]);
                    assert(pvb.remove(0)[j] == pvb[j + 1]);
                    vstd::seq_lib::lemma_seq_skip_index(mid, k, j + 1);
                    vstd::seq_lib::lemma_seq_skip_index(mid, k + 1, j);
                }
                assert(pending@ =~= mid.skip(k + 1));
                assert(mid.take(k + 1) =~= mid.take(k).push(mid[k]));
                lemma_filter_push::<Wrapper<S, V>>(mid.take(k), pred, mid[k]);
            }
            let ghost out_before = self.dataflows@;
            if w.active() {
                self.dataflows.push(w);
                proof {
                    assert(self.dataflows@ =~= out_before.push(mid[k]));
                }
            }
            proof {
                k = k + 1;
            }
        }
        proof {
            vstd::seq_lib::lemma_seq_skip_len(mid, k);
            assert(mid.take(k) =~= mid);
        }
        let live = !self.dataflows.is_empty();
        proof {
            assert(self.dataflows@ == mid.filter(pred));
            assert forall|j: int| 0 <= j < self.dataflows@.len() implies (
            #[trigger] self.dataflows@[j]).operate is Some by {
                mid.lemma_filter_pred(pred, j);
            }
            if old(self).dataflows_view().len() == 0 {
                assert(mid.len() == 0);
                assert(mid.filter(pred) =~= Seq::<Wrapper<S, V>>::empty());
                assert(act3 == act2);
            }
        }
        live
    }

    /// Calls `step` as long as `predicate` evaluates to true; the predicate
    /// is evaluated before each step. Every function of this library
    /// terminates, so the caller also bounds how many steps may run; a
    /// driver that wants an unbounded run passes the bound of its choice
    /// and calls again.
    pub fn step_while<F: Fn() -> bool>(&mut self, predicate: F, bound: usize)
        requires
            old(self).wf(),
            call_requires(predicate, ()),
        ensures
            final(self).wf(),
            final(self).paths_view() == old(self).paths_view(),
            final(self).identifier_count() == old(self).identifier_count(),
            final(self).dataflow_count() == old(self).dataflow_count(),
            old(self).same_identity(final(self)),
    {
        let mut remaining = bound;
        while remaining > 0
            invariant
                self.wf(),
                call_requires(predicate, ()),
                self.paths_view() == old(self).paths_view(),
                self.identifier_count() == old(self).identifier_count(),
                self.dataflow_count() == old(self).dataflow_count(),
                old(self).same_identity(self),
            decreases remaining,
        {
            if !predicate() {
                return ;
            }
            self.step();
            remaining = remaining - 1;
        }
    }

    /// Constructs, registers, and initializes a new dataflow whose builder
    /// also stashes auxiliary owned resources with the dataflow: the
    /// resources survive until the dataflow retires, and are released only
    /// after its operator.
    ///
    /// The builder receives the resources, the dataflow's index, the root
    /// address of the new dataflow (the one-element path naming this
    /// worker), and a clone of the timely logging handle; it returns the
    /// built operator tree, the resources to stash, and a result that is
    /// forwarded to the caller. Channels are wired through this worker's
    /// own capability surface (`allocate`, `pipeline`, `new_identifier`)
    /// around this call.
    pub fn dataflow_using<R, F: FnOnce(V, usize, Vec<usize>, Option<L>) -> (S, V, R)>(
        &mut self,
        resources: V,
        builder: F,
    ) -> (result: R)
        requires
            old(self).wf(),
            old(self).dataflow_count() < usize::MAX,
            forall|a: Vec<usize>, l: Option<L>|
                a@ == seq![old(self).index_spec()] ==> #[trigger] call_requires(
                    builder,
                    (resources, old(self).dataflow_count(), a, l),
                ),
        ensures
            final(self).wf(),
            final(self).dataflow_count() == old(self).dataflow_count() + 1,
            final(self).dataflows_view().len() == old(self).dataflows_view().len() + 1,
            final(self).dataflows_view().take(old(self).dataflows_view().len() as int) == old(
                self,
            ).dataflows_view(),
            final(self).dataflows_view().last().index == old(self).dataflow_count(),
            final(self).dataflows_view().last().operate is Some,
            final(self).dataflows_view().last().resources is Some,
            final(self).paths_view() == old(self).paths_view(),
            final(self).identifier_count() == old(self).identifier_count(),
            final(self).activations_view() == old(self).activations_view(),
            old(self).same_identity(final(self)),
            exists|s: S, v: V, a: Vec<usize>, l: Option<L>|
                a@ == seq![old(self).index_spec()] && #[trigger] call_ensures(
                    builder,
                    (resources, old(self).dataflow_count(), a, l),
                    (s, v, result),
                ),
    {
        let mut addr: Vec<usize> = Vec::new();
        addr.push(self.index);
        let dataflow_index = self.allocate_dataflow_index();
        let logger = self.logging.get("timely");
        proof {
            assert(addr@ =~= seq![old(self).index_spec()]);
        }
        let ghost addr0 = addr;
        let ghost logger0 = logger;
        let (mut operator, kept, result) = builder(resources, dataflow_index, addr, logger);
        let ghost op0 = operator;
        let ghost kept0 = kept;
        // flush what building the dataflow logged
        let flusher = self.logging.get("timely");
        if let Some(mut l) = flusher {
            l.flush();
        }
        // initialize progress tracking, exactly once each
        operator.get_internal_summary();
        operator.set_external_summary();
        let wrapper = Wrapper::new(dataflow_index, operator, Some(kept));
        let ghost flows_before = self.dataflows@;
        self.dataflows.push(wrapper);
        proof {
            assert(self.dataflows@.take(flows_before.len() as int) =~= flows_before);
            assert(call_ensures(
                builder,
                (resources, old(self).dataflow_count(), addr0, logger0),
                (op0, kept0, result),
            ));
        }
        result
    }

    /// Constructs, registers, and initializes a new dataflow with a default
    /// resource bag. The builder receives the dataflow's index, the root
    /// address of the new dataflow, and a clone of the timely logging
    /// handle; it returns the built operator tree and a result that is
    /// forwarded to the caller.
    pub fn dataflow<R, F: FnOnce(usize, Vec<usize>, Option<L>) -> (S, R)>(
        &mut self,
        builder: F,
    ) -> (result: R) where V: Default
        requires
            old(self).wf(),
            old(self).dataflow_count() < usize::MAX,
            forall|a: Vec<usize>, l: Option<L>|
                a@ == seq![old(self).index_spec()] ==> #[trigger] call_requires(
                    builder,
                    (old(self).dataflow_count(), a, l),
                ),
        ensures
            final(self).wf(),
            final(self).dataflow_count() == old(self).dataflow_count() + 1,
            final(self).dataflows_view().len() == old(self).dataflows_view().len() + 1,
            final(self).dataflows_view().take(old(self).dataflows_view().len() as int) == old(
                self,
            ).dataflows_view(),
            final(self).dataflows_view().last().index == old(self).dataflow_count(),
            final(self).dataflows_view().last().operate is Some,
            final(self).dataflows_view().last().resources is Some,
            final(self).paths_view() == old(self).paths_view(),
            final(self).identifier_count() == old(self).identifier_count(),
            final(self).activations_view() == old(self).activations_view(),
            old(self).same_identity(final(self)),
            exists|s: S, a: Vec<usize>, l: Option<L>|
                a@ == seq![old(self).index_spec()] && #[trigger] call_ensures(
                    builder,
                    (old(self).dataflow_count(), a, l),
                    (s, result),
                ),
    {
        let mut addr: Vec<usize> = Vec::new();
        addr.push(self.index);
        let dataflow_index = self.allocate_dataflow_index();
        let logger = self.logging.get("timely");
        proof {
            assert(addr@ =~= seq![old(self).index_spec()]);
        }
        let ghost addr0 = addr;
        let ghost logger0 = logger;
        let (mut operator, result) = builder(dataflow_index, addr, logger);
        let ghost op0 = operator;
        // flush what building the dataflow logged
        let flusher = self.logging.get("timely");
        if let Some(mut l) = flusher {
            l.flush();
        }
        // initialize progress tracking, exactly once each
        operator.get_internal_summary();
        operator.set_external_summary();
        let wrapper = Wrapper::new(dataflow_index, operator, Some(V::default()));
        let ghost flows_before = self.dataflows@;
        self.dataflows.push(wrapper);
        proof {
            assert(self.dataflows@.take(flows_before.len() as int) =~= flows_before);
            assert(call_ensures(
                builder,
                (old(self).dataflow_count(), addr0, logger0),
                (op0, result),
            ));
        }
        result
    }

    // Acquires a new distinct dataflow index.
    fn allocate_dataflow_index(&mut self) -> (id: usize)
        requires
            old(self).dataflow_count() < usize::MAX,
        ensures
            id == old(self).dataflow_count(),
            final(self).dataflow_count() == old(self).dataflow_count() + 1,
            final(self).paths_view() == old(self).paths_view(),
            final(self).identifier_count() == old(self).identifier_count(),
            final(self).dataflows_view() == old(self).dataflows_view(),
            final(self).activations_view() == old(self).activations_view(),
            final(self).logging_view() == old(self).logging_view(),
            old(self).same_identity(final(self)),
    {
        let id = self.dataflow_counter;
        self.dataflow_counter = self.dataflow_counter + 1;
        id
    }
}

impl<A: Allocate, S: Schedule, V, L: Logger + Clone> AsWorker for Worker<A, S, V, L> {
    type Pusher = A::Pusher;

    type Puller = A::Puller;

    type ThreadPusher = A::ThreadPusher;

    type ThreadPuller = A::ThreadPuller;

    type LogHandle = L;

    open spec fn capability_paths(&self) -> Seq<Seq<usize>> {
        self.paths_view()
    }

    open spec fn capability_identifiers(&self) -> usize {
        self.identifier_count()
    }

    open spec fn capability_logging(&self) -> Seq<(Seq<char>, L)> {
        self.logging_view()
    }

    fn index(&self) -> usize {
        self.index
    }

    fn peers(&self) -> usize {
        self.peers
    }

    fn allocate(&mut self, identifier: usize, address: &[usize]) -> (channel: (
        Vec<A::Pusher>,
        A::Puller,
    )) {
        Worker::allocate(self, identifier, address)
    }

    fn pipeline(&mut self, identifier: usize, address: &[usize]) -> (channel: (
        A::ThreadPusher,
        A::ThreadPuller,
    )) {
        Worker::pipeline(self, identifier, address)
    }

    fn new_identifier(&mut self) -> (id: usize) {
        Worker::new_identifier(self)
    }

    fn log_register(&mut self, name: String, logger: L) {
        Worker::log_register(self, name, logger)
    }

    fn logging(&self) -> (r: Option<L>) {
        Worker::logging(self)
    }
}

} // verus!
