//! Requirements: a key and the comparison that the fact stored under it must
//! pass. Preconditions of actions and goals are lists of them, all of which
//! must hold.

use vstd::prelude::*;
use crate::compare::Compare;
use crate::localstate::{Facts, LocalState};

verus! {

/// The mathematical model of a requirement.
pub type Requirement = (Seq<char>, Compare);

/// The models of a list of requirements, in order.
pub open spec fn requirement_views(requirements: Seq<(String, Compare)>) -> Seq<Requirement> {
    Seq::new(requirements.len(), |i: int| (requirements[i].0@, requirements[i].1))
}

/// Whether `facts` meets the requirement. A fact that is not stored meets
/// none.
pub open spec fn holds(facts: Facts, requirement: Requirement) -> bool {
    facts.contains_key(requirement.0) && requirement.1.admits(facts[requirement.0])
}

/// Whether `facts` meets each of `requirements`.
pub open spec fn all_hold(facts: Facts, requirements: Seq<Requirement>) -> bool {
    forall|i: int| 0 <= i < requirements.len() ==> holds(facts, #[trigger] requirements[i])
}

/// Whether the requirement can be tested against `facts`: where the fact is
/// stored, it is of the kind of the comparison's operand.
pub open spec fn requirement_fits(facts: Facts, requirement: Requirement) -> bool {
    facts.contains_key(requirement.0) ==> facts[requirement.0].kind()
        == requirement.1.operand().kind()
}

/// Whether each of `requirements` can be tested against `facts`.
pub open spec fn requirements_fit(facts: Facts, requirements: Seq<Requirement>) -> bool {
    forall|i: int|
        0 <= i < requirements.len() ==> requirement_fits(facts, #[trigger] requirements[i])
}

/// Tests one requirement against `state`.
pub fn check_requirement(key: &String, test: &Compare, state: &LocalState) -> (met: bool)
    requires
        requirement_fits(state@, (key@, *test)),
    ensures
        met == holds(state@, (key@, *test)),
{
    match state.lookup(key) {
        Some(stored) => test.compare_values(&stored),
        None => false,
    }
}

/// Tests each of `requirements` against `state`.
pub fn check_requirements(requirements: &Vec<(String, Compare)>, state: &LocalState) -> (met: bool)
    requires
        requirements_fit(state@, requirement_views(requirements@)),
    ensures
        met == all_hold(state@, requirement_views(requirements@)),
{
    let ghost views = requirement_views(requirements@);
    let n: usize = requirements.len();
    let mut i: usize = 0;
    while i < n
        invariant
            n == requirements@.len(),
            i <= n,
            views == requirement_views(requirements@),
            requirements_fit(state@, views),
            forall|j: int| 0 <= j < i ==> holds(state@, #[trigger] views[j]),
        decreases n - i,
    {
        assert(requirement_fits(state@, views[i as int]));
        if !check_requirement(&requirements[i].0, &requirements[i].1, state) {
            assert(!holds(state@, views[i as int]));
            return false;
        }
        i += 1;
    }
    true
}

/// A copy of a list of requirements.
pub fn clone_requirements(requirements: &Vec<(String, Compare)>) -> (copy: Vec<(String, Compare)>)
    ensures
        requirement_views(copy@) == requirement_views(requirements@),
{
    let n: usize = requirements.len();
    let mut copy: Vec<(String, Compare)> = Vec::new();
    let mut i: usize = 0;
    while i < n
        invariant
            n == requirements@.len(),
            i <= n,
            copy@.len() == i,
            forall|j: int|
                0 <= j < i ==> (#[trigger] copy@[j]).0@ == requirements@[j].0@ && copy@[j].1
                    == requirements@[j].1,
        decreases n - i,
    {
        copy.push((requirements[i].0.clone(), requirements[i].1));
        i += 1;
    }
    assert(requirement_views(copy@) =~= requirement_views(requirements@));
    copy
}

/// Whether two lists of requirements are equal, entry by entry.
pub fn same_requirements(a: &Vec<(String, Compare)>, b: &Vec<(String, Compare)>) -> (same: bool)
    ensures
        same == (requirement_views(a@) == requirement_views(b@)),
{
    if a.len() != b.len() {
        assert(requirement_views(a@).len() != requirement_views(b@).len());
        return false;
    }
    let n: usize = a.len();
    let mut i: usize = 0;
    while i < n
        invariant
            n == a@.len(),
            n == b@.len(),
            i <= n,
            forall|j: int|
                0 <= j < i ==> (#[trigger] a@[j]).0@ == b@[j].0@ && a@[j].1 == b@[j].1,
        decreases n - i,
    {
        if !(a[i].0 == b[i].0 && a[i].1 == b[i].1) {
            assert(requirement_views(a@)[i as int] != requirement_views(b@)[i as int]);
            return false;
        }
        i += 1;
    }
    assert(requirement_views(a@) =~= requirement_views(b@));
    true
}

} // verus!
