//! Kinds of keys: a planning problem is well typed when each key can be
//! given one kind that every stored value, every operand compared with it
//! and every operand written to it has.

use vstd::prelude::*;
use crate::action::{action_views, Action, ActionView};
use crate::compare::Compare;
use crate::datum::{Datum, Kind};
use crate::goal::{goal_views, Goal};
use crate::localstate::{Facts, LocalState};
use crate::mutator::{all_fit, apply_all, mutator_views, Mutator, MutatorView};
use crate::path::{feasible, run, Path};
use crate::requirement::{requirement_fits, requirement_views, requirements_fit, Requirement};

verus! {

/// An assignment of a kind to every key.
pub type Signature = spec_fn(Seq<char>) -> Kind;

/// Every stored value is of the kind of its key.
pub open spec fn types_facts(sig: Signature, facts: Facts) -> bool {
    forall|k: Seq<char>| #[trigger] facts.contains_key(k) ==> facts[k].kind() == sig(k)
}

/// Every operand of a comparison is of the kind of the key it is compared
/// with.
pub open spec fn types_requirements(sig: Signature, requirements: Seq<Requirement>) -> bool {
    forall|j: int|
        0 <= j < requirements.len() ==> (#[trigger] requirements[j]).1.operand().kind() == sig(
            requirements[j].0,
        )
}

/// Every operand of a mutator is of the kind of the key it changes, and
/// what is added or subtracted is a number.
pub open spec fn types_mutators(sig: Signature, mutators: Seq<MutatorView>) -> bool {
    forall|j: int|
        0 <= j < mutators.len() ==> {
            &&& (#[trigger] mutators[j]).operand().kind() == sig(mutators[j].key())
            &&& mutators[j].is_arithmetic() ==> mutators[j].operand().is_numeric()
        }
}

/// The preconditions and the mutators of every action are typed by `sig`.
pub open spec fn types_actions(sig: Signature, actions: Seq<ActionView>) -> bool {
    forall|i: int|
        0 <= i < actions.len() ==> {
            &&& types_requirements(sig, (#[trigger] actions[i]).preconditions)
            &&& types_mutators(sig, actions[i].mutators)
        }
}

/// `sig` types the facts, the actions and the goal.
pub open spec fn typed_by(
    sig: Signature,
    facts: Facts,
    actions: Seq<ActionView>,
    goal: Seq<Requirement>,
) -> bool {
    &&& types_facts(sig, facts)
    &&& types_actions(sig, actions)
    &&& types_requirements(sig, goal)
}

/// Some assignment of kinds to keys types the facts, the actions and the
/// goal. In a well-typed problem no comparison ever meets a stored value of
/// another kind than its operand, and nothing is added to or subtracted
/// from a stored value that is no number, in whatever order actions are
/// taken.
pub open spec fn well_typed(
    facts: Facts,
    actions: Seq<ActionView>,
    goal: Seq<Requirement>,
) -> bool {
    exists|sig: Signature| typed_by(sig, facts, actions, goal)
}

/// Requirements typed by a signature can be tested against facts typed by
/// it.
pub proof fn lemma_typed_requirements_fit(
    sig: Signature,
    facts: Facts,
    requirements: Seq<Requirement>,
)
    requires
        types_facts(sig, facts),
        types_requirements(sig, requirements),
    ensures
        requirements_fit(facts, requirements),
{
}

/// A mutator typed by a signature can be applied to facts typed by it, and
/// leaves facts typed by it.
pub proof fn lemma_typed_mutator_applies(sig: Signature, facts: Facts, mutator: MutatorView)
    requires
        types_facts(sig, facts),
        mutator.operand().kind() == sig(mutator.key()),
        mutator.is_arithmetic() ==> mutator.operand().is_numeric(),
    ensures
        mutator.fits(facts),
        types_facts(sig, mutator.apply(facts)),
{
    let after = mutator.apply(facts);
    assert forall|k: Seq<char>| #[trigger] after.contains_key(k) implies after[k].kind() == sig(
        k,
    ) by {
        if k != mutator.key() {
            assert(facts.contains_key(k));
        }
    }
}

/// Mutators typed by a signature can be applied in turn to facts typed by
/// it, and leave facts typed by it.
pub proof fn lemma_typed_mutators_apply(sig: Signature, facts: Facts, mutators: Seq<MutatorView>)
    requires
        types_facts(sig, facts),
        types_mutators(sig, mutators),
    ensures
        all_fit(mutators, facts),
        types_facts(sig, apply_all(mutators, facts)),
    decreases mutators.len(),
{
    if mutators.len() > 0 {
        let front = mutators.drop_last();
        assert(types_mutators(sig, front)) by {
            assert forall|j: int| 0 <= j < front.len() implies {
                &&& (#[trigger] front[j]).operand().kind() == sig(front[j].key())
                &&& front[j].is_arithmetic() ==> front[j].operand().is_numeric()
            } by {
                assert(front[j] == mutators[j]);
            }
        }
        lemma_typed_mutators_apply(sig, facts, front);
        let last = mutators[mutators.len() - 1];
        lemma_typed_mutator_applies(sig, apply_all(front, facts), last);
    }
}

/// A well-typed problem stays well typed: the facts that a feasible path
/// leads to are typed by every signature that types the facts it starts
/// from and the actions. So the preconditions of every action and the goal
/// can be tested against them, and every action that may be taken can be
/// applied to them.
pub proof fn lemma_paths_keep_types(
    sig: Signature,
    actions: Seq<ActionView>,
    start: Facts,
    path: Path,
)
    requires
        types_facts(sig, start),
        types_actions(sig, actions),
        feasible(actions, start, path),
    ensures
        types_facts(sig, run(actions, start, path)),
        forall|i: int|
            0 <= i < actions.len() ==> requirements_fit(
                run(actions, start, path),
                (#[trigger] actions[i]).preconditions,
            ) && all_fit(actions[i].mutators, run(actions, start, path)),
    decreases path.len(),
{
    if path.len() > 0 {
        let front = path.drop_last();
        lemma_paths_keep_types(sig, actions, start, front);
        let last = actions[path.last() as int];
        lemma_typed_mutators_apply(sig, run(actions, start, front), last.mutators);
    }
    let facts = run(actions, start, path);
    assert forall|i: int| 0 <= i < actions.len() implies requirements_fit(
        facts,
        (#[trigger] actions[i]).preconditions,
    ) && all_fit(actions[i].mutators, facts) by {
        lemma_typed_requirements_fit(sig, facts, actions[i].preconditions);
        lemma_typed_mutators_apply(sig, facts, actions[i].mutators);
    }
}

/// Every fact of `before` is a fact of `after`, with the same value.
spec fn grows(before: Facts, after: Facts) -> bool {
    forall|k: Seq<char>| #[trigger]
        before.contains_key(k) ==> after.contains_key(k) && after[k] == before[k]
}

/// What grows twice has grown.
proof fn lemma_grows_transitive(a: Facts, b: Facts, c: Facts)
    requires
        grows(a, b),
        grows(b, c),
    ensures
        grows(a, c),
{
    assert forall|k: Seq<char>| #[trigger] a.contains_key(k) implies c.contains_key(k) && c[k]
        == a[k] by {
        assert(b.contains_key(k));
    }
}

/// `kinds` holds, under the key of each of the first `n` requirements, a
/// value of the kind of its operand.
spec fn records_requirements(kinds: Facts, requirements: Seq<Requirement>, n: int) -> bool {
    forall|j: int|
        0 <= j < n ==> kinds.contains_key((#[trigger] requirements[j]).0)
            && kinds[requirements[j].0].kind() == requirements[j].1.operand().kind()
}

/// `kinds` holds, under the key of each of the first `n` mutators, a value
/// of the kind of its operand, and what they add or subtract is a number.
spec fn records_mutators(kinds: Facts, mutators: Seq<MutatorView>, n: int) -> bool {
    forall|j: int|
        0 <= j < n ==> {
            &&& kinds.contains_key((#[trigger] mutators[j]).key())
            &&& kinds[mutators[j].key()].kind() == mutators[j].operand().kind()
            &&& mutators[j].is_arithmetic() ==> mutators[j].operand().is_numeric()
        }
}

/// `kinds` records the preconditions and the mutators of each of the first
/// `n` actions.
spec fn records_actions(kinds: Facts, actions: Seq<ActionView>, n: int) -> bool {
    forall|i: int|
        0 <= i < n ==> {
            &&& records_requirements(
                kinds,
                (#[trigger] actions[i]).preconditions,
                actions[i].preconditions.len() as int,
            )
            &&& records_mutators(kinds, actions[i].mutators, actions[i].mutators.len() as int)
        }
}

/// The signature that gives each key of `kinds` the kind of the value under
/// it.
spec fn signature_of(kinds: Facts) -> Signature {
    |k: Seq<char>|
        if kinds.contains_key(k) {
            kinds[k].kind()
        } else {
            Kind::Bool
        }
}

/// Notes that the values under `key` are of the kind of `operand`, unless
/// `kinds` holds a value of another kind under `key`.
fn note_kind(kinds: &mut LocalState, key: &String, operand: Datum) -> (consistent: bool)
    ensures
        consistent == (old(kinds)@.contains_key(key@) ==> old(kinds)@[key@].kind()
            == operand.kind()),
        grows(old(kinds)@, final(kinds)@),
        consistent ==> final(kinds)@.contains_key(key@) && final(kinds)@[key@].kind()
            == operand.kind(),
        forall|sig: Signature| #[trigger]
            types_facts(sig, old(kinds)@) && sig(key@) == operand.kind() ==> types_facts(
                sig,
                final(kinds)@,
            ),
{
    match kinds.lookup(key) {
        Some(known) => known.same_kind(&operand),
        None => {
            kinds.insert(key.clone(), operand);
            true
        },
    }
}

/// Notes the kinds of the operands of `requirements`, up to the first that
/// is of another kind than `kinds` holds under its key.
fn note_requirements(kinds: &mut LocalState, requirements: &Vec<(String, Compare)>) -> (consistent:
    bool)
    ensures
        grows(old(kinds)@, final(kinds)@),
        consistent ==> records_requirements(
            final(kinds)@,
            requirement_views(requirements@),
            requirements@.len() as int,
        ),
        consistent ==> forall|sig: Signature|
            types_facts(sig, old(kinds)@) && #[trigger] types_requirements(
                sig,
                requirement_views(requirements@),
            ) ==> types_facts(sig, final(kinds)@),
        !consistent ==> forall|sig: Signature| #[trigger]
            types_facts(sig, old(kinds)@) ==> !types_requirements(
                sig,
                requirement_views(requirements@),
            ),
{
    let ghost views = requirement_views(requirements@);
    let ghost before = kinds@;
    let n: usize = requirements.len();
    let mut j: usize = 0;
    while j < n
        invariant
            n == requirements@.len(),
            j <= n,
            views == requirement_views(requirements@),
            before == old(kinds)@,
            grows(before, kinds@),
            records_requirements(kinds@, views, j as int),
            forall|sig: Signature|
                types_facts(sig, before) && #[trigger] types_requirements(sig, views)
                    ==> types_facts(sig, kinds@),
        decreases n - j,
    {
        let ghost earlier = kinds@;
        let ghost this = views[j as int];
        if !note_kind(kinds, &requirements[j].0, requirements[j].1.value()) {
            proof {
                lemma_grows_transitive(before, earlier, kinds@);
                assert forall|sig: Signature| #[trigger] types_facts(sig, before) implies
                    !types_requirements(sig, views) by {
                    if types_requirements(sig, views) {
                        assert(types_facts(sig, earlier));
                        assert(earlier.contains_key(this.0));
                        assert(views[j as int].1.operand().kind() == sig(this.0));
                    }
                }
            }
            return false;
        }
        proof {
            lemma_grows_transitive(before, earlier, kinds@);
            assert forall|sig: Signature|
                types_facts(sig, before) && #[trigger] types_requirements(
                    sig,
                    views,
                ) implies types_facts(sig, kinds@) by {
                assert(types_facts(sig, earlier));
                assert(views[j as int].1.operand().kind() == sig(this.0));
            }
            assert forall|x: int| 0 <= x < j + 1 implies kinds@.contains_key(
                (#[trigger] views[x]).0,
            ) && kinds@[views[x].0].kind() == views[x].1.operand().kind() by {
                if x < j {
                    assert(earlier.contains_key(views[x].0));
                }
            }
        }
        j += 1;
    }
    true
}

/// Notes the kinds of the operands of `mutators`, up to the first that is
/// of another kind than `kinds` holds under its key or that adds or
/// subtracts what is no number.
fn note_mutators(kinds: &mut LocalState, mutators: &Vec<Mutator>) -> (consistent: bool)
    ensures
        grows(old(kinds)@, final(kinds)@),
        consistent ==> records_mutators(
            final(kinds)@,
            mutator_views(mutators@),
            mutators@.len() as int,
        ),
        consistent ==> forall|sig: Signature|
            types_facts(sig, old(kinds)@) && #[trigger] types_mutators(
                sig,
                mutator_views(mutators@),
            ) ==> types_facts(sig, final(kinds)@),
        !consistent ==> forall|sig: Signature| #[trigger]
            types_facts(sig, old(kinds)@) ==> !types_mutators(sig, mutator_views(mutators@)),
{
    let ghost views = mutator_views(mutators@);
    let ghost before = kinds@;
    let n: usize = mutators.len();
    let mut j: usize = 0;
    while j < n
        invariant
            n == mutators@.len(),
            j <= n,
            views == mutator_views(mutators@),
            before == old(kinds)@,
            grows(before, kinds@),
            records_mutators(kinds@, views, j as int),
            forall|sig: Signature|
                types_facts(sig, before) && #[trigger] types_mutators(sig, views) ==> types_facts(
                    sig,
                    kinds@,
                ),
        decreases n - j,
    {
        let ghost earlier = kinds@;
        let ghost this = views[j as int];
        assert(this == mutators@[j as int]@);
        let consistent = match &mutators[j] {
            Mutator::Assign(k, v) => note_kind(kinds, k, *v),
            Mutator::Increment(k, v) => v.same_kind(&Datum::I64(0)) && note_kind(kinds, k, *v),
            Mutator::Decrement(k, v) => v.same_kind(&Datum::I64(0)) && note_kind(kinds, k, *v),
        };
        if !consistent {
            proof {
                lemma_grows_transitive(before, earlier, kinds@);
                assert forall|sig: Signature| #[trigger] types_facts(sig, before) implies
                    !types_mutators(sig, views) by {
                    if types_mutators(sig, views) {
                        assert(types_facts(sig, earlier));
                        assert(views[j as int].operand().kind() == sig(this.key()));
                    }
                }
            }
            return false;
        }
        proof {
            lemma_grows_transitive(before, earlier, kinds@);
            assert forall|sig: Signature|
                types_facts(sig, before) && #[trigger] types_mutators(
                    sig,
                    views,
                ) implies types_facts(sig, kinds@) by {
                assert(types_facts(sig, earlier));
                assert(views[j as int].operand().kind() == sig(this.key()));
            }
            assert forall|x: int| 0 <= x < j + 1 implies {
                &&& kinds@.contains_key((#[trigger] views[x]).key())
                &&& kinds@[views[x].key()].kind() == views[x].operand().kind()
                &&& views[x].is_arithmetic() ==> views[x].operand().is_numeric()
            } by {
                if x < j {
                    assert(earlier.contains_key(views[x].key()));
                }
            }
        }
        j += 1;
    }
    true
}

/// What was recorded stays recorded when more is.
proof fn lemma_records_grow(before: Facts, after: Facts, actions: Seq<ActionView>, n: int)
    requires
        grows(before, after),
        records_actions(before, actions, n),
    ensures
        records_actions(after, actions, n),
{
    assert forall|i: int| 0 <= i < n implies {
        &&& records_requirements(
            after,
            (#[trigger] actions[i]).preconditions,
            actions[i].preconditions.len() as int,
        )
        &&& records_mutators(after, actions[i].mutators, actions[i].mutators.len() as int)
    } by {
        let pre = actions[i].preconditions;
        let muts = actions[i].mutators;
        assert(records_requirements(before, pre, pre.len() as int));
        assert(records_mutators(before, muts, muts.len() as int));
        assert forall|j: int| 0 <= j < pre.len() implies after.contains_key((#[trigger] pre[j]).0)
            && after[pre[j].0].kind() == pre[j].1.operand().kind() by {
            assert(before.contains_key(pre[j].0));
        }
        assert forall|j: int| 0 <= j < muts.len() implies {
            &&& after.contains_key((#[trigger] muts[j]).key())
            &&& after[muts[j].key()].kind() == muts[j].operand().kind()
            &&& muts[j].is_arithmetic() ==> muts[j].operand().is_numeric()
        } by {
            assert(before.contains_key(muts[j].key()));
        }
    }
}

/// Decides [`well_typed`].
pub fn is_well_typed(start: &LocalState, actions: &Vec<Action>, goal: &Goal) -> (typed: bool)
    ensures
        typed == well_typed(start@, action_views(actions@), goal@),
{
    let ghost catalogue = action_views(actions@);
    let mut kinds = start.clone();
    let n: usize = actions.len();
    let mut i: usize = 0;
    while i < n
        invariant
            n == actions@.len(),
            i <= n,
            catalogue == action_views(actions@),
            grows(start@, kinds@),
            records_actions(kinds@, catalogue, i as int),
            forall|sig: Signature| #[trigger]
                typed_by(sig, start@, catalogue, goal@) ==> types_facts(sig, kinds@),
        decreases n - i,
    {
        let ghost view = catalogue[i as int];
        assert(view == actions@[i as int]@);
        let ghost first = kinds@;
        if !note_requirements(&mut kinds, &actions[i].preconditions) {
            proof {
                assert forall|sig: Signature| !typed_by(sig, start@, catalogue, goal@) by {
                    if typed_by(sig, start@, catalogue, goal@) {
                        assert(types_facts(sig, first));
                        assert(types_requirements(sig, catalogue[i as int].preconditions));
                    }
                }
            }
            return false;
        }
        let ghost second = kinds@;
        if !note_mutators(&mut kinds, &actions[i].mutators) {
            proof {
                assert forall|sig: Signature| !typed_by(sig, start@, catalogue, goal@) by {
                    if typed_by(sig, start@, catalogue, goal@) {
                        assert(types_facts(sig, first));
                        assert(types_requirements(sig, catalogue[i as int].preconditions));
                        assert(types_facts(sig, second));
                        assert(types_mutators(sig, catalogue[i as int].mutators));
                    }
                }
            }
            return false;
        }
        proof {
            let third = kinds@;
            assert(grows(first, third));
            lemma_records_grow(first, third, catalogue, i as int);
            assert(records_requirements(third, view.preconditions, view.preconditions.len() as int))
                by {
                assert forall|j: int| 0 <= j < view.preconditions.len() implies third.contains_key(
                    (#[trigger] view.preconditions[j]).0,
                ) && third[view.preconditions[j].0].kind()
                    == view.preconditions[j].1.operand().kind() by {
                    assert(second.contains_key(view.preconditions[j].0));
                }
            }
            assert forall|sig: Signature| #[trigger]
                typed_by(sig, start@, catalogue, goal@) implies types_facts(sig, third) by {
                assert(types_facts(sig, first));
                assert(types_requirements(sig, catalogue[i as int].preconditions));
                assert(types_facts(sig, second));
                assert(types_mutators(sig, catalogue[i as int].mutators));
            }
        }
        i += 1;
    }
    let ghost noted = kinds@;
    if !note_requirements(&mut kinds, &goal.requirements) {
        proof {
            assert forall|sig: Signature| !typed_by(sig, start@, catalogue, goal@) by {
                if typed_by(sig, start@, catalogue, goal@) {
                    assert(types_facts(sig, noted));
                }
            }
        }
        return false;
    }
    proof {
        let all = kinds@;
        let sig = signature_of(all);
        lemma_records_grow(noted, all, catalogue, n as int);
        assert(types_facts(sig, start@)) by {
            assert forall|k: Seq<char>| #[trigger] start@.contains_key(k) implies start@[k].kind()
                == sig(k) by {
                assert(noted.contains_key(k));
                assert(all.contains_key(k));
            }
        }
        assert(types_actions(sig, catalogue)) by {
            assert forall|x: int| 0 <= x < catalogue.len() implies {
                &&& types_requirements(sig, (#[trigger] catalogue[x]).preconditions)
                &&& types_mutators(sig, catalogue[x].mutators)
            } by {
                let pre = catalogue[x].preconditions;
                let muts = catalogue[x].mutators;
                assert(records_requirements(all, pre, pre.len() as int));
                assert(records_mutators(all, muts, muts.len() as int));
            }
        }
        assert(types_requirements(sig, goal@));
        assert(typed_by(sig, start@, catalogue, goal@));
    }
    true
}

/// Whether each of `goals` makes a well-typed problem with the facts and
/// the actions.
pub open spec fn all_well_typed(
    actions: Seq<ActionView>,
    start: Facts,
    goals: Seq<Seq<Requirement>>,
) -> bool {
    forall|g: int| 0 <= g < goals.len() ==> well_typed(start, actions, #[trigger] goals[g])
}

/// Decides [`all_well_typed`].
pub fn are_well_typed(start: &LocalState, actions: &Vec<Action>, goals: &Vec<Goal>) -> (typed: bool)
    ensures
        typed == all_well_typed(action_views(actions@), start@, goal_views(goals@)),
{
    let ghost wanted = goal_views(goals@);
    let n: usize = goals.len();
    let mut g: usize = 0;
    while g < n
        invariant
            n == goals@.len(),
            g <= n,
            wanted == goal_views(goals@),
            forall|h: int|
                0 <= h < g ==> well_typed(start@, action_views(actions@), #[trigger] wanted[h]),
        decreases n - g,
    {
        assert(wanted[g as int] == goals@[g as int]@);
        if !is_well_typed(start, actions, &goals[g]) {
            return false;
        }
        g += 1;
    }
    true
}

} // verus!
