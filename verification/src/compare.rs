//! Comparators: a test that a stored fact value must pass.

use vstd::prelude::*;
use crate::datum::Datum;

verus! {

/// A comparison against a fixed operand.
#[derive(Clone, Copy, Debug, PartialEq, Eq, Structural)]
pub enum Compare {
    Equals(Datum),
    NotEquals(Datum),
    GreaterThan(Datum),
    LessThan(Datum),
    GreaterThanEquals(Datum),
    LessThanEquals(Datum),
}

impl Compare {
    /// The value that stored values are compared with.
    pub open spec fn operand(self) -> Datum {
        match self {
            Compare::Equals(v) => v,
            Compare::NotEquals(v) => v,
            Compare::GreaterThan(v) => v,
            Compare::LessThan(v) => v,
            Compare::GreaterThanEquals(v) => v,
            Compare::LessThanEquals(v) => v,
        }
    }

    /// Whether the stored value `actual` passes this comparison.
    /// A value of another kind than the operand never does.
    pub open spec fn admits(self, actual: Datum) -> bool {
        &&& actual.kind() == self.operand().kind()
        &&& match self {
            Compare::Equals(v) => actual == v,
            Compare::NotEquals(v) => actual != v,
            Compare::GreaterThan(v) => actual.rank() > v.rank(),
            Compare::LessThan(v) => actual.rank() < v.rank(),
            Compare::GreaterThanEquals(v) => actual.rank() >= v.rank(),
            Compare::LessThanEquals(v) => actual.rank() <= v.rank(),
        }
    }

    /// The comparison "is equal to `value`".
    pub fn equals(value: Datum) -> (c: Compare)
        ensures
            c == Compare::Equals(value),
    {
        Compare::Equals(value)
    }

    /// The comparison "is not equal to `value`".
    pub fn not_equals(value: Datum) -> (c: Compare)
        ensures
            c == Compare::NotEquals(value),
    {
        Compare::NotEquals(value)
    }

    /// The comparison "is greater than `value`".
    pub fn greater_than(value: Datum) -> (c: Compare)
        ensures
            c == Compare::GreaterThan(value),
    {
        Compare::GreaterThan(value)
    }

    /// The comparison "is less than `value`".
    pub fn less_than(value: Datum) -> (c: Compare)
        ensures
            c == Compare::LessThan(value),
    {
        Compare::LessThan(value)
    }

    /// The comparison "is greater than or equal to `value`".
    pub fn greater_than_equals(value: Datum) -> (c: Compare)
        ensures
            c == Compare::GreaterThanEquals(value),
    {
        Compare::GreaterThanEquals(value)
    }

    /// The comparison "is less than or equal to `value`".
    pub fn less_than_equals(value: Datum) -> (c: Compare)
        ensures
            c == Compare::LessThanEquals(value),
    {
        Compare::LessThanEquals(value)
    }

    /// Computes [`Compare::operand`].
    pub fn value(&self) -> (v: Datum)
        ensures
            v == self.operand(),
    {
        match self {
            Compare::Equals(v) => *v,
            Compare::NotEquals(v) => *v,
            Compare::GreaterThan(v) => *v,
            Compare::LessThan(v) => *v,
            Compare::GreaterThanEquals(v) => *v,
            Compare::LessThanEquals(v) => *v,
        }
    }

    /// Tests a stored value of the operand's kind against this comparison.
    pub fn compare_values(&self, actual: &Datum) -> (passes: bool)
        requires
            actual.kind() == self.operand().kind(),
        ensures
            passes == self.admits(*actual),
    {
        match self {
            Compare::Equals(v) => *actual == *v,
            Compare::NotEquals(v) => !(*actual == *v),
            Compare::GreaterThan(v) => v.ranks_below(actual),
            Compare::LessThan(v) => actual.ranks_below(v),
            Compare::GreaterThanEquals(v) => !actual.ranks_below(v),
            Compare::LessThanEquals(v) => !v.ranks_below(actual),
        }
    }
}

} // verus!
