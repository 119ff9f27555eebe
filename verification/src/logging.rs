//! The registry that multiplexes named logging handles.
//!
//! Concrete log sinks live outside this crate; the worker only stores
//! handles under names, fetches clones of them, and flushes them once per
//! step.

use vstd::prelude::*;

verus! {

/// The capability a logging handle offers the worker: it can be flushed.
/// Implementations accompany a concrete sink outside this crate, so nothing
/// is assumed of their behaviour.
pub trait Logger {
    /// Pushes whatever the handle has buffered towards its sink.
    fn flush(&mut self);
}

/// What a registry holds, by name: the first entry under a name decides.
pub open spec fn spec_get<L>(entries: Seq<(Seq<char>, L)>, name: Seq<char>) -> Option<L>
    decreases entries.len(),
{
    if entries.len() == 0 {
        None
    } else if entries[0].0 == name {
        Some(entries[0].1)
    } else {
        spec_get(entries.drop_first(), name)
    }
}

/// A registry of named logging handles.
pub struct Registry<L> {
    entries: Vec<(String, L)>,
}

impl<L> View for Registry<L> {
    type V = Seq<(Seq<char>, L)>;

    closed spec fn view(&self) -> Seq<(Seq<char>, L)> {
        self.entries@.map_values(|e: (String, L)| (e.0@, e.1))
    }
}

impl<L> Registry<L> {
    /// The names registered, in registration order.
    pub open spec fn names(&self) -> Seq<Seq<char>> {
        self@.map_values(|e: (Seq<char>, L)| e.0)
    }

    /// An empty registry.
    pub fn new() -> (r: Registry<L>)
        ensures
            r@ == Seq::<(Seq<char>, L)>::empty(),
    {
        let r = Registry { entries: Vec::new() };
        proof {
            assert(r@ =~= Seq::<(Seq<char>, L)>::empty());
        }
        r
    }

    /// Registers `logger` under `name`, shadowing any earlier handle of that
    /// name: later lookups see the new handle, all other names are untouched.
    pub fn insert(&mut self, name: String, logger: L)
        ensures
            spec_get(final(self)@, name@) == Some(logger),
            forall|n: Seq<char>| n != name@ ==> spec_get(final(self)@, n) == spec_get(
                old(self)@,
                n,
            ),
            final(self).names() == seq![name@] + old(self).names(),
    {
        let ghost before = self@;
        self.entries.insert(0, (name, logger));
        proof {
            assert(self@ =~= seq![(name@, logger)] + before);
            assert(self@.drop_first() =~= before);
            assert forall|n: Seq<char>| n != name@ implies spec_get(self@, n) == spec_get(
                before,
                n,
            ) by {
                assert(self@[0].0 == name@);
            }
            assert(final(self).names() =~= seq![name@] + old(self).names());
        }
    }

    /// Fetches a clone of the handle registered under `name`, if any.
    pub fn get(&self, name: &str) -> (r: Option<L>) where L: Clone
        ensures
            (r is Some) == (spec_get(self@, name@) is Some),
    {
        let wanted: String = name.to_owned();
        let mut i: usize = 0;
        proof {
            assert(self@.skip(0) =~= self@);
        }
        while i < self.entries.len()
            invariant
                i <= self.entries@.len(),
                wanted@ == name@,
                self@ == self.entries@.map_values(|e: (String, L)| (e.0@, e.1)),
                spec_get(self@, name@) == spec_get(self@.skip(i as int), name@),
            decreases self.entries@.len() - i,
        {
            proof {
                vstd::seq_lib::lemma_seq_skip_len(self@, i as int);
                vstd::seq_lib::lemma_seq_skip_index(self@, i as int, 0);
                assert(self@.skip(i as int)[0] == self@[i as int]);
                assert(self@.skip(i as int).drop_first() =~= self@.skip(i + 1));
            }
            if self.entries[i].0 == wanted {
                let r = Some(self.entries[i].1.clone());
                proof {
                    assert(self@[i as int].0 == name@);
                    assert(spec_get(self@.skip(i as int), name@) is Some);
                }
                return r;
            }
            proof {
                assert(self@[i as int].0 != name@);
            }
            i = i + 1;
        }
        proof {
            vstd::seq_lib::lemma_seq_skip_len(self@, i as int);
            assert(self@.skip(i as int).len() == 0);
        }
        None
    }

    /// Flushes every registered handle towards its sink; the set of
    /// registered names is untouched.
    pub fn flush(&mut self) where L: Logger
        ensures
            final(self).names() == old(self).names(),
    {
        let ghost before_names = self.names();
        let mut pending: Vec<(String, L)> = Vec::new();
        core::mem::swap(&mut self.entries, &mut pending);
        let ghost k: int = 0;
        proof {
            assert(self.names() =~= before_names.take(0));
        }
        while pending.len() > 0
            invariant
                0 <= k <= before_names.len(),
                pending@.len() == before_names.len() - k,
                forall|j: int| 0 <= j < pending@.len() ==> (#[trigger] pending@[j].0)@
                    == before_names[k + j],
                self.names() == before_names.take(k),
            decreases pending@.len(),
        {
            let ghost pvb = pending@;
            let (name, mut logger) = pending.remove(0);
            proof {
                assert(name@ == pvb[0].0@);
                assert(name@ == before_names[k]);
                assert forall|j: int| 0 <= j < pending@.len() implies (#[trigger] pending@[j].0)@
                    == before_names[k + 1 + j] by {
                    assert(pending@[j] == pvb.remove(0)[j]);
                    assert(pvb.remove(0)[j] == pvb[j + 1]);
                }
            }
            logger.flush();
            let ghost names_before = self.names();
            self.entries.push((name, logger));
            proof {
                assert(self.names() =~= names_before.push(name@));
                assert(before_names.take(k + 1) =~= before_names.take(k).push(before_names[k]));
                k = k + 1;
            }
        }
        proof {
            assert(before_names.take(k) =~= before_names);
        }
    }
}

} // verus!
