//! The activation set: which operator addresses deserve CPU.
//!
//! Operators form a tree, and an address is the path from the worker root to
//! one operator. The set is kept as a sequence of addresses; `tidy` sorts it
//! lexicographically and collapses duplicates so that a subtree's activations
//! form one contiguous range, and `take_extensions` drains exactly the
//! addresses that extend a given prefix.

use vstd::prelude::*;

verus! {

/// Strict lexicographic order on operator addresses: the empty address
/// precedes every other, and otherwise the first differing coordinate decides.
pub open spec fn lex_lt(a: Seq<usize>, b: Seq<usize>) -> bool
    decreases a.len(),
{
    if b.len() == 0 {
        false
    } else if a.len() == 0 {
        true
    } else if a[0] < b[0] {
        true
    } else if a[0] > b[0] {
        false
    } else {
        lex_lt(a.drop_first(), b.drop_first())
    }
}

/// An address `addr` extends `prefix` when `prefix` is a prefix of `addr`;
/// the activations of a subtree are exactly the extensions of its root.
pub open spec fn extends(addr: Seq<usize>, prefix: Seq<usize>) -> bool {
    prefix.is_prefix_of(addr)
}

/// A sequence of addresses in strictly increasing lexicographic order;
/// strictness means it also holds no duplicates.
pub open spec fn strictly_sorted(s: Seq<Seq<usize>>) -> bool {
    forall|i: int, j: int| 0 <= i < j < s.len() ==> lex_lt(s[i], s[j])
}

/// The order is irreflexive.
pub proof fn lemma_lex_irrefl(a: Seq<usize>)
    ensures
        !lex_lt(a, a),
    decreases a.len(),
{
    if a.len() > 0 {
        lemma_lex_irrefl(a.drop_first());
    }
}

/// Any two addresses are ordered or equal.
pub proof fn lemma_lex_total(a: Seq<usize>, b: Seq<usize>)
    ensures
        lex_lt(a, b) || lex_lt(b, a) || a == b,
    decreases a.len(),
{
    if a.len() == 0 && b.len() == 0 {
        assert(a =~= b);
    } else if a.len() > 0 && b.len() > 0 && a[0] == b[0] {
        lemma_lex_total(a.drop_first(), b.drop_first());
        if !lex_lt(a.drop_first(), b.drop_first()) && !lex_lt(b.drop_first(), a.drop_first()) {
            assert(a =~= b) by {
                assert(a.drop_first() =~= b.drop_first());
                assert(forall|i: int|
                    1 <= i < a.len() ==> a[i] == a.drop_first()[i - 1] && b[i] == b.drop_first()[i - 1]);
            }
        }
    }
}

/// The order is transitive.
pub proof fn lemma_lex_trans(a: Seq<usize>, b: Seq<usize>, c: Seq<usize>)
    ensures
        lex_lt(a, b) && lex_lt(b, c) ==> lex_lt(a, c),
    decreases a.len(),
{
    if a.len() > 0 && b.len() > 0 && c.len() > 0 {
        lemma_lex_trans(a.drop_first(), b.drop_first(), c.drop_first());
    }
}

/// Compares two addresses; the result decides `lex_lt` of the views.
fn lex_lt_exec(a: &Vec<usize>, b: &Vec<usize>) -> (r: bool)
    ensures
        r == lex_lt(a@, b@),
{
    let mut i: usize = 0;
    proof {
        assert(a@.skip(0) =~= a@);
        assert(b@.skip(0) =~= b@);
    }
    while i < a.len() && i < b.len()
        invariant
            i <= a@.len(),
            i <= b@.len(),
            lex_lt(a@, b@) == lex_lt(a@.skip(i as int), b@.skip(i as int)),
        decreases a@.len() - i,
    {
        assert(a@.skip(i as int).drop_first() =~= a@.skip(i + 1));
        assert(b@.skip(i as int).drop_first() =~= b@.skip(i + 1));
        if a[i] < b[i] {
            return true;
        }
        if a[i] > b[i] {
            return false;
        }
        i = i + 1;
    }
    assert(a@.skip(i as int).len() == 0 || b@.skip(i as int).len() == 0);
    i < b.len()
}

/// Decides whether `addr` extends `prefix`.
fn extends_exec(addr: &Vec<usize>, prefix: &[usize]) -> (r: bool)
    ensures
        r == extends(addr@, prefix@),
{
    if prefix.len() > addr.len() {
        return false;
    }
    let mut i: usize = 0;
    while i < prefix.len()
        invariant
            prefix@.len() <= addr@.len(),
            i <= prefix@.len(),
            forall|j: int| 0 <= j < i ==> prefix@[j] == addr@[j],
        decreases prefix@.len() - i,
    {
        if prefix[i] != addr[i] {
            assert(!prefix@.is_prefix_of(addr@));
            return false;
        }
        i = i + 1;
    }
    assert(prefix@ =~= addr@.subrange(0, prefix@.len() as int));
    true
}

/// Each position of a `Vec` of addresses describes the same address under
/// `deep_view` as the element's own view.
pub broadcast proof fn lemma_deep_view_index(v: Vec<Vec<usize>>, i: int)
    requires
        0 <= i < v@.len(),
    ensures
        #[trigger] v.deep_view()[i] == v@[i]@,
{
    assert(v@[i].deep_view() =~= v@[i]@);
}

/// Removing one position removes exactly that element, as sets: every other
/// occurrence keeps an index.
pub proof fn lemma_remove_to_set(s: Seq<Seq<usize>>, i: int)
    requires
        0 <= i < s.len(),
    ensures
        s.remove(i).to_set().insert(s[i]) == s.to_set(),
{
    let t = s.remove(i);
    assert forall|x: Seq<usize>| s.to_set().contains(x) implies t.to_set().insert(
        s[i],
    ).contains(x) by {
        let j = choose|j: int| 0 <= j < s.len() && s[j] == x;
        if j < i {
            assert(t[j] == s[j]);
            assert(t.contains(x));
        } else if j > i {
            assert(t[j - 1] == s[j]);
            assert(t.contains(x));
        }
    }
    assert forall|x: Seq<usize>| t.to_set().insert(s[i]).contains(x) implies s.to_set().contains(
        x,
    ) by {
        if x == s[i] {
            assert(s.contains(x));
        } else {
            let j = choose|j: int| 0 <= j < t.len() && t[j] == x;
            if j < i {
                assert(s[j] == x);
            } else {
                assert(s[j + 1] == x);
            }
            assert(s.contains(x));
        }
    }
    assert(t.to_set().insert(s[i]) =~= s.to_set());
}

/// `filter` looks at a pushed element last, so it distributes over `push`.
pub proof fn lemma_filter_push<T>(s: Seq<T>, pred: spec_fn(T) -> bool, x: T)
    ensures
        s.push(x).filter(pred) == (if pred(x) {
            s.filter(pred).push(x)
        } else {
            s.filter(pred)
        }),
{
    reveal(Seq::filter);
    assert(s.push(x).drop_last() =~= s);
    assert(s.push(x).last() == x);
}

/// An address unparked any number of times stands at exactly one position
/// once the set is tidied: a tidied set is strictly sorted, and a strictly
/// sorted sequence holds an address it contains at one position only.
pub proof fn lemma_tidied_unique(s: Seq<Seq<usize>>, a: Seq<usize>)
    requires
        strictly_sorted(s),
        s.to_set().contains(a),
    ensures
        exists|i: int| 0 <= i < s.len() && s[i] == a,
        forall|i: int, j: int|
            0 <= i < s.len() && 0 <= j < s.len() && s[i] == a && s[j] == a ==> i == j,
{
    assert(s.contains(a));
    let w = choose|w: int| 0 <= w < s.len() && s[w] == a;
    assert(0 <= w < s.len() && s[w] == a);
    assert forall|i: int, j: int|
        0 <= i < s.len() && 0 <= j < s.len() && s[i] == a && s[j] == a implies i == j by {
        lemma_lex_irrefl(a);
    }
}

/// Tracks the operator addresses that should be offered CPU on the next step.
pub struct Activations {
    active: Vec<Vec<usize>>,
}

impl View for Activations {
    type V = Seq<Seq<usize>>;

    closed spec fn view(&self) -> Seq<Seq<usize>> {
        self.active.deep_view()
    }
}

impl Activations {
    /// An empty activation set.
    pub fn new() -> (r: Activations)
        ensures
            r@ == Seq::<Seq<usize>>::empty(),
    {
        let r = Activations { active: Vec::new() };
        proof {
            assert(r@ =~= Seq::<Seq<usize>>::empty());
        }
        r
    }

    /// The number of recorded addresses, duplicates included until `tidy` runs.
    pub fn len(&self) -> (r: usize)
        ensures
            r == self@.len(),
    {
        self.active.len()
    }

    /// The address at position `i`.
    pub fn addr_at(&self, i: usize) -> (r: &Vec<usize>)
        requires
            i < self@.len(),
        ensures
            r@ == self@[i as int],
    {
        let r = &self.active[i];
        proof {
            assert(r@ =~= self@[i as int]);
        }
        r
    }

    /// Normalizes the set: sorts the addresses lexicographically and collapses
    /// exact duplicates, so that a subtree's activations form one range.
    /// Ancestors do not subsume descendants: both remain.
    pub fn tidy(&mut self)
        ensures
            strictly_sorted(final(self)@),
            final(self)@.to_set() == old(self)@.to_set(),
    {
        broadcast use lemma_deep_view_index;

        let mut pending: Vec<Vec<usize>> = Vec::new();
        core::mem::swap(&mut self.active, &mut pending);
        proof {
            assert(self@ =~= Seq::<Seq<usize>>::empty());
            assert(self@.to_set().union(pending.deep_view().to_set()) =~= old(
                self,
            )@.to_set());
        }
        while pending.len() > 0
            invariant
                strictly_sorted(self@),
                self@.to_set().union(pending.deep_view().to_set()) == old(self)@.to_set(),
                forall|i: int, j: int|
                    0 <= i < self@.len() && 0 <= j < pending.deep_view().len() ==> (lex_lt(
                        #[trigger] self@[i],
                        #[trigger] pending.deep_view()[j],
                    ) || self@[i] == pending.deep_view()[j]),
            decreases pending@.len(),
        {
            broadcast use lemma_deep_view_index;

            let ghost pdv = pending.deep_view();
            // find the least remaining address
            let mut min_idx: usize = 0;
            let mut k: usize = 1;
            proof {
                lemma_lex_irrefl(pdv[0]);
            }
            while k < pending.len()
                invariant
                    pending@.len() > 0,
                    (min_idx as int) < pending@.len(),
                    k <= pending@.len(),
                    pdv == pending.deep_view(),
                    forall|j: int|
                        0 <= j < k ==> !lex_lt(#[trigger] pdv[j], pdv[min_idx as int]),
                decreases pending@.len() - k,
            {
                broadcast use lemma_deep_view_index;

                let smaller = lex_lt_exec(&pending[k], &pending[min_idx]);
                proof {
                    assert(pdv[k as int] == pending@[k as int]@);
                    assert(pdv[min_idx as int] == pending@[min_idx as int]@);
                }
                if smaller {
                    proof {
                        assert(lex_lt(pdv[k as int], pdv[min_idx as int]));
                        assert forall|j: int| 0 <= j < k + 1 implies !lex_lt(
                            #[trigger] pdv[j],
                            pdv[k as int],
                        ) by {
                            if j < k {
                                if lex_lt(pdv[j], pdv[k as int]) {
                                    lemma_lex_trans(pdv[j], pdv[k as int], pdv[min_idx as int]);
                                }
                            } else {
                                lemma_lex_irrefl(pdv[k as int]);
                            }
                        }
                    }
                    min_idx = k;
                }
                k = k + 1;
            }
            let m = pending.remove(min_idx);
            proof {
                assert(pending.deep_view() =~= pdv.remove(min_idx as int));
                lemma_remove_to_set(pdv, min_idx as int);
                assert(m@ == pdv[min_idx as int]);
                // the removed address is least among what was pending
                assert forall|j: int| 0 <= j < pending.deep_view().len() implies (lex_lt(
                    m@,
                    #[trigger] pending.deep_view()[j],
                ) || m@ == pending.deep_view()[j]) by {
                    let p = pending.deep_view()[j];
                    assert(pdv.remove(min_idx as int)[j] == p);
                    assert(pdv.contains(p)) by {
                        if j < min_idx {
                            assert(pdv[j] == p);
                        } else {
                            assert(pdv[j + 1] == p);
                        }
                    }
                    let jj = choose|jj: int| 0 <= jj < pdv.len() && pdv[jj] == p;
                    assert(!lex_lt(p, m@));
                    lemma_lex_total(m@, p);
                }
            }
            let keep: bool = if self.active.len() == 0 {
                true
            } else {
                lex_lt_exec(&self.active[self.active.len() - 1], &m)
            };
            let ghost out_before = self@;
            if keep {
                proof {
                    let last = out_before.len() - 1;
                    assert forall|i: int| 0 <= i < out_before.len() implies lex_lt(
                        #[trigger] out_before[i],
                        m@,
                    ) by {
                        if i < last {
                            lemma_lex_trans(out_before[i], out_before[last], m@);
                        }
                    }
                }
                self.active.push(m);
                proof {
                    assert(self@ =~~= out_before.push(m@));
                    out_before.lemma_push_to_set_commute(m@);
                    assert(self@.to_set().union(pending.deep_view().to_set()) =~= old(
                        self,
                    )@.to_set());
                }
            } else {
                proof {
                    // the least remaining address equals the last one kept
                    let last = out_before.len() - 1;
                    assert(lex_lt(out_before[last], m@) || out_before[last] == m@);
                    assert(out_before[last] == m@);
                    assert(self@.to_set().contains(m@));
                    assert(self@.to_set().union(pending.deep_view().to_set()) =~= old(
                        self,
                    )@.to_set());
                }
            }
        }
        proof {
            assert(pending.deep_view() =~= Seq::<Seq<usize>>::empty());
            assert(self@.to_set().union(pending.deep_view().to_set()) =~= self@.to_set());
        }
    }

    /// Drains and returns, in order, exactly the addresses that extend
    /// `prefix`: the capability a subgraph uses to consume its own
    /// activations on one scheduling call without scanning unrelated entries.
    pub fn take_extensions(&mut self, prefix: &[usize]) -> (taken: Vec<Vec<usize>>)
        ensures
            final(self)@ == old(self)@.filter(|a: Seq<usize>| !extends(a, prefix@)),
            taken.deep_view() == old(self)@.filter(|a: Seq<usize>| extends(a, prefix@)),
    {
        broadcast use lemma_deep_view_index;

        let ghost all = self@;
        let ghost keep_pred = |a: Seq<usize>| !extends(a, prefix@);
        let ghost take_pred = |a: Seq<usize>| extends(a, prefix@);
        let mut pending: Vec<Vec<usize>> = Vec::new();
        core::mem::swap(&mut self.active, &mut pending);
        let mut taken: Vec<Vec<usize>> = Vec::new();
        let ghost k: int = 0;
        proof {
            assert(self@ =~= Seq::<Seq<usize>>::empty());
            assert(taken.deep_view() =~= Seq::<Seq<usize>>::empty());
            assert(all.take(0) =~= Seq::<Seq<usize>>::empty());
            reveal(Seq::filter);
            assert(pending.deep_view() =~= all.skip(0));
        }
        while pending.len() > 0
            invariant
                0 <= k <= all.len(),
                pending.deep_view() == all.skip(k),
                self@ == all.take(k).filter(keep_pred),
                taken.deep_view() == all.take(k).filter(take_pred),
                keep_pred == (|a: Seq<usize>| !extends(a, prefix@)),
                take_pred == (|a: Seq<usize>| extends(a, prefix@)),
            decreases pending@.len(),
        {
            broadcast use lemma_deep_view_index;

            let ghost pdvb = pending.deep_view();
            let ghost pvb = pending@;
            let a = pending.remove(0);
            proof {
                assert(pdvb[0] == pvb[0]@);
                vstd::seq_lib::lemma_seq_skip_len(all, k);
                vstd::seq_lib::lemma_seq_skip_len(all, k + 1);
                assert(k < all.len());
                assert(pdvb[0] == all.skip(k)[0]);
                vstd::seq_lib::lemma_seq_skip_index(all, k, 0);
                assert(all.skip(k)[0] == all[k]);
                assert(a@ == all[k]);
                assert forall|j: int| 0 <= j < pending.deep_view().len() implies #[trigger] pending.deep_view()[j]
                    == all.skip(k + 1)[j] by {
                    assert(pending@[j] == pvb.remove(0)[j]);
                    assert(pvb.remove(0)[j] == pvb[j + 1]);
                    assert(pending.deep_view()[j] == pending@[j]@);
                    assert(pdvb[j + 1] == pvb[j + 1]@);
                    assert(pdvb[j + 1] == all.skip(k)[j + 1]);
                    vstd::seq_lib::lemma_seq_skip_index(all, k, j + 1);
                    assert(all.skip(k)[j + 1] == all[k + 1 + j]);
                    vstd::seq_lib::lemma_seq_skip_index(all, k + 1, j);
                    assert(all.skip(k + 1)[j] == all[k + 1 + j]);
                }
                assert(pending.deep_view() =~= all.skip(k + 1));
                assert(all.take(k + 1) =~= all.take(k).push(all[k]));
                lemma_filter_push(all.take(k), keep_pred, all[k]);
                lemma_filter_push(all.take(k), take_pred, all[k]);
            }
            let ghost self_before = self@;
            let ghost taken_before = taken.deep_view();
            if extends_exec(&a, prefix) {
                taken.push(a);
                proof {
                    assert(taken.deep_view() =~~= taken_before.push(all[k]));
                }
            } else {
                self.active.push(a);
                proof {
                    assert(self@ =~~= self_before.push(all[k]));
                }
            }
            proof {
                k = k + 1;
            }
        }
        proof {
            assert(all.skip(k).len() == 0);
            assert(all.take(k) =~= all);
        }
        taken
    }

    /// Records that the operator at `address` should be offered CPU.
    pub fn unpark(&mut self, address: &[usize])
        ensures
            final(self)@ == old(self)@.push(address@),
    {
        self.active.push(vstd::slice::slice_to_vec(address));
        proof {
            assert(self@ =~~= old(self)@.push(address@));
        }
    }
}

} // verus!
