//! Mutators: the single changes that an action makes to the fact store.

use vstd::prelude::*;
use crate::datum::Datum;
use crate::localstate::{Facts, LocalState};

verus! {

/// One change to one fact.
#[derive(Debug)]
pub enum Mutator {
    /// Replaces the stored value.
    Assign(String, Datum),
    /// Adds to the stored number.
    Increment(String, Datum),
    /// Subtracts from the stored number.
    Decrement(String, Datum),
}

/// The mathematical model of a [`Mutator`].
pub enum MutatorView {
    Assign(Seq<char>, Datum),
    Increment(Seq<char>, Datum),
    Decrement(Seq<char>, Datum),
}

impl MutatorView {
    /// The key of the fact that is changed.
    pub open spec fn key(self) -> Seq<char> {
        match self {
            MutatorView::Assign(k, _) => k,
            MutatorView::Increment(k, _) => k,
            MutatorView::Decrement(k, _) => k,
        }
    }

    /// The value that is written, added or subtracted.
    pub open spec fn operand(self) -> Datum {
        match self {
            MutatorView::Assign(_, v) => v,
            MutatorView::Increment(_, v) => v,
            MutatorView::Decrement(_, v) => v,
        }
    }

    /// Whether this mutator adds or subtracts.
    pub open spec fn is_arithmetic(self) -> bool {
        !(self is Assign)
    }

    /// Whether the mutator can be applied to `facts`: an addition or a
    /// subtraction needs a number as operand and, where the fact is stored,
    /// a number in the store.
    pub open spec fn fits(self, facts: Facts) -> bool {
        self.is_arithmetic() ==> self.operand().is_numeric() && (facts.contains_key(self.key())
            ==> facts[self.key()].is_numeric())
    }

    /// The facts after the change. Adding to or subtracting from a fact that
    /// is not stored changes nothing.
    pub open spec fn apply(self, facts: Facts) -> Facts {
        match self {
            MutatorView::Assign(k, v) => facts.insert(k, v),
            MutatorView::Increment(k, v) => if facts.contains_key(k) {
                facts.insert(k, facts[k].plus(v))
            } else {
                facts
            },
            MutatorView::Decrement(k, v) => if facts.contains_key(k) {
                facts.insert(k, facts[k].minus(v))
            } else {
                facts
            },
        }
    }
}

impl View for Mutator {
    type V = MutatorView;

    open spec fn view(&self) -> MutatorView {
        match self {
            Mutator::Assign(k, v) => MutatorView::Assign(k@, *v),
            Mutator::Increment(k, v) => MutatorView::Increment(k@, *v),
            Mutator::Decrement(k, v) => MutatorView::Decrement(k@, *v),
        }
    }
}

/// The models of a list of mutators, in order.
pub open spec fn mutator_views(mutators: Seq<Mutator>) -> Seq<MutatorView> {
    Seq::new(mutators.len(), |i: int| mutators[i]@)
}

/// The facts after the changes of `mutators`, made in order.
pub open spec fn apply_all(mutators: Seq<MutatorView>, facts: Facts) -> Facts
    decreases mutators.len(),
{
    if mutators.len() == 0 {
        facts
    } else {
        mutators.last().apply(apply_all(mutators.drop_last(), facts))
    }
}

/// Whether each of `mutators` can be applied in turn, starting from `facts`.
pub open spec fn all_fit(mutators: Seq<MutatorView>, facts: Facts) -> bool
    decreases mutators.len(),
{
    mutators.len() == 0 || (all_fit(mutators.drop_last(), facts) && mutators.last().fits(
        apply_all(mutators.drop_last(), facts),
    ))
}

impl Mutator {
    /// The mutator that writes `value` under `key`.
    pub fn set(key: &str, value: Datum) -> (m: Mutator)
        ensures
            m@ == MutatorView::Assign(key@, value),
    {
        Mutator::Assign(key.to_owned(), value)
    }

    /// The mutator that adds `amount` to the number under `key`.
    pub fn increment(key: &str, amount: Datum) -> (m: Mutator)
        ensures
            m@ == MutatorView::Increment(key@, amount),
    {
        Mutator::Increment(key.to_owned(), amount)
    }

    /// The mutator that subtracts `amount` from the number under `key`.
    pub fn decrement(key: &str, amount: Datum) -> (m: Mutator)
        ensures
            m@ == MutatorView::Decrement(key@, amount),
    {
        Mutator::Decrement(key.to_owned(), amount)
    }

    /// The state after the change was made in `state`, which is left as it
    /// is.
    pub fn apply(&self, state: &LocalState) -> (next: LocalState)
        requires
            self@.fits(state@),
        ensures
            next@ == self@.apply(state@),
    {
        let mut next = state.clone();
        self.apply_to(&mut next);
        next
    }

    /// Makes the change in `state`.
    pub fn apply_to(&self, state: &mut LocalState)
        requires
            self@.fits(old(state)@),
        ensures
            final(state)@ == self@.apply(old(state)@),
    {
        match self {
            Mutator::Assign(k, v) => {
                state.insert(k.clone(), *v);
            },
            Mutator::Increment(k, v) => {
                match state.lookup(k) {
                    Some(stored) => {
                        state.insert(k.clone(), stored.increased_by(v));
                    },
                    None => {},
                }
            },
            Mutator::Decrement(k, v) => {
                match state.lookup(k) {
                    Some(stored) => {
                        state.insert(k.clone(), stored.decreased_by(v));
                    },
                    None => {},
                }
            },
        }
    }
}

impl Clone for Mutator {
    fn clone(&self) -> (copy: Mutator)
        ensures
            copy@ == self@,
    {
        match self {
            Mutator::Assign(k, v) => Mutator::Assign(k.clone(), *v),
            Mutator::Increment(k, v) => Mutator::Increment(k.clone(), *v),
            Mutator::Decrement(k, v) => Mutator::Decrement(k.clone(), *v),
        }
    }
}

/// A copy of a list of mutators.
pub fn clone_mutators(mutators: &Vec<Mutator>) -> (copy: Vec<Mutator>)
    ensures
        mutator_views(copy@) == mutator_views(mutators@),
{
    let n: usize = mutators.len();
    let mut copy: Vec<Mutator> = Vec::new();
    let mut i: usize = 0;
    while i < n
        invariant
            n == mutators@.len(),
            i <= n,
            copy@.len() == i,
            forall|j: int| 0 <= j < i ==> (#[trigger] copy@[j])@ == mutators@[j]@,
        decreases n - i,
    {
        copy.push(mutators[i].clone());
        i += 1;
    }
    assert(mutator_views(copy@) =~= mutator_views(mutators@));
    copy
}

/// Whether two lists of mutators are equal, entry by entry.
pub fn same_mutators(a: &Vec<Mutator>, b: &Vec<Mutator>) -> (same: bool)
    ensures
        same == (mutator_views(a@) == mutator_views(b@)),
{
    if a.len() != b.len() {
        assert(mutator_views(a@).len() != mutator_views(b@).len());
        return false;
    }
    let n: usize = a.len();
    let mut i: usize = 0;
    while i < n
        invariant
            n == a@.len(),
            n == b@.len(),
            i <= n,
            forall|j: int| 0 <= j < i ==> (#[trigger] a@[j])@ == b@[j]@,
        decreases n - i,
    {
        let equal = match (&a[i], &b[i]) {
            (Mutator::Assign(k, v), Mutator::Assign(l, w)) => *k == *l && *v == *w,
            (Mutator::Increment(k, v), Mutator::Increment(l, w)) => *k == *l && *v == *w,
            (Mutator::Decrement(k, v), Mutator::Decrement(l, w)) => *k == *l && *v == *w,
            _ => false,
        };
        if !equal {
            assert(mutator_views(a@)[i as int] != mutator_views(b@)[i as int]);
            return false;
        }
        i += 1;
    }
    assert(mutator_views(a@) =~= mutator_views(b@));
    true
}

/// Makes the changes of `mutators` in `state`, in order.
pub fn apply_mutators(mutators: &Vec<Mutator>, state: &mut LocalState)
    requires
        all_fit(mutator_views(mutators@), old(state)@),
    ensures
        final(state)@ == apply_all(mutator_views(mutators@), old(state)@),
{
    let ghost all = mutator_views(mutators@);
    let ghost start = state@;
    let n: usize = mutators.len();
    let mut i: usize = 0;
    while i < n
        invariant
            n == mutators@.len(),
            i <= n,
            all == mutator_views(mutators@),
            all_fit(all, start),
            state@ == apply_all(all.take(i as int), start),
        decreases n - i,
    {
        proof {
            lemma_fit_prefix(all, start, i as int + 1);
            assert(all.take(i as int + 1).drop_last() =~= all.take(i as int));
        }
        mutators[i].apply_to(state);
        i += 1;
    }
    assert(all.take(n as int) =~= all);
}

/// If all mutators of a list can be applied in turn, so can those of each
/// prefix of the list.
pub proof fn lemma_fit_prefix(mutators: Seq<MutatorView>, facts: Facts, n: int)
    requires
        all_fit(mutators, facts),
        0 <= n <= mutators.len(),
    ensures
        all_fit(mutators.take(n), facts),
    decreases mutators.len(),
{
    if n == mutators.len() {
        assert(mutators.take(n) =~= mutators);
    } else {
        lemma_fit_prefix(mutators.drop_last(), facts, n);
        assert(mutators.drop_last().take(n) =~= mutators.take(n));
    }
}

} // verus!
