//! Fact values: a closed set of variants, each with its own carrier.

use vstd::prelude::*;

verus! {

/// Which variant a [`Datum`] is.
#[derive(Clone, Copy, Debug, PartialEq, Eq, Structural)]
pub enum Kind {
    Bool,
    I64,
    Enum,
}

/// The value of one fact.
///
/// Values are compared and changed only against values of the same [`Kind`].
#[derive(Clone, Copy, Debug, PartialEq, Eq, Structural)]
pub enum Datum {
    /// A truth value.
    Bool(bool),
    /// A signed 64-bit number.
    I64(i64),
    /// The position of a named enumerant in its enumeration.
    Enum(usize),
}

/// The 64-bit signed integer nearest to `v`.
pub open spec fn clamp_i64(v: int) -> i64 {
    if v > i64::MAX {
        i64::MAX
    } else if v < i64::MIN {
        i64::MIN
    } else {
        v as i64
    }
}

impl Datum {
    /// The variant of this value.
    pub open spec fn kind(self) -> Kind {
        match self {
            Datum::Bool(_) => Kind::Bool,
            Datum::I64(_) => Kind::I64,
            Datum::Enum(_) => Kind::Enum,
        }
    }

    /// The position of this value among the values of its kind:
    /// `false` before `true`, numbers by size, enumerants by position.
    pub open spec fn rank(self) -> int {
        match self {
            Datum::Bool(b) => if b { 1 } else { 0 },
            Datum::I64(v) => v as int,
            Datum::Enum(v) => v as int,
        }
    }

    /// Whether this value can be increased and decreased.
    pub open spec fn is_numeric(self) -> bool {
        self.kind() == Kind::I64
    }

    /// This value increased by `amount`, stopping at the largest and the
    /// smallest 64-bit number. Values that are not both numbers are left
    /// as they are.
    pub open spec fn plus(self, amount: Datum) -> Datum {
        match (self, amount) {
            (Datum::I64(a), Datum::I64(b)) => Datum::I64(clamp_i64(a + b)),
            _ => self,
        }
    }

    /// This value decreased by `amount`, stopping at the largest and the
    /// smallest 64-bit number. Values that are not both numbers are left
    /// as they are.
    pub open spec fn minus(self, amount: Datum) -> Datum {
        match (self, amount) {
            (Datum::I64(a), Datum::I64(b)) => Datum::I64(clamp_i64(a - b)),
            _ => self,
        }
    }

    /// Computes [`Datum::kind`].
    pub fn kind_of(&self) -> (k: Kind)
        ensures
            k == self.kind(),
    {
        match self {
            Datum::Bool(_) => Kind::Bool,
            Datum::I64(_) => Kind::I64,
            Datum::Enum(_) => Kind::Enum,
        }
    }

    /// Whether both values are of one kind.
    pub fn same_kind(&self, other: &Datum) -> (b: bool)
        ensures
            b == (self.kind() == other.kind()),
    {
        match (self, other) {
            (Datum::Bool(_), Datum::Bool(_)) => true,
            (Datum::I64(_), Datum::I64(_)) => true,
            (Datum::Enum(_), Datum::Enum(_)) => true,
            _ => false,
        }
    }

    /// Whether this value comes strictly before `other` among the values of
    /// their common kind.
    pub fn ranks_below(&self, other: &Datum) -> (b: bool)
        requires
            self.kind() == other.kind(),
        ensures
            b == (self.rank() < other.rank()),
    {
        match (self, other) {
            (Datum::Bool(a), Datum::Bool(b)) => !*a && *b,
            (Datum::I64(a), Datum::I64(b)) => *a < *b,
            (Datum::Enum(a), Datum::Enum(b)) => *a < *b,
            _ => false,
        }
    }

    /// Computes [`Datum::plus`] on two numbers.
    pub fn increased_by(&self, amount: &Datum) -> (sum: Datum)
        requires
            self.is_numeric(),
            amount.is_numeric(),
        ensures
            sum == self.plus(*amount),
    {
        match (self, amount) {
            (Datum::I64(a), Datum::I64(b)) => {
                match a.checked_add(*b) {
                    Some(v) => Datum::I64(v),
                    None => if *b > 0 {
                        Datum::I64(i64::MAX)
                    } else {
                        Datum::I64(i64::MIN)
                    },
                }
            },
            _ => *self,
        }
    }

    /// Computes [`Datum::minus`] on two numbers.
    pub fn decreased_by(&self, amount: &Datum) -> (difference: Datum)
        requires
            self.is_numeric(),
            amount.is_numeric(),
        ensures
            difference == self.minus(*amount),
    {
        match (self, amount) {
            (Datum::I64(a), Datum::I64(b)) => {
                match a.checked_sub(*b) {
                    Some(v) => Datum::I64(v),
                    None => if *b < 0 {
                        Datum::I64(i64::MAX)
                    } else {
                        Datum::I64(i64::MIN)
                    },
                }
            },
            _ => *self,
        }
    }
}

impl From<bool> for Datum {
    fn from(value: bool) -> (datum: Datum) {
        Datum::Bool(value)
    }
}

impl vstd::std_specs::convert::FromSpecImpl<bool> for Datum {
    open spec fn obeys_from_spec() -> bool {
        true
    }

    open spec fn from_spec(value: bool) -> Datum {
        Datum::Bool(value)
    }
}

impl From<i64> for Datum {
    fn from(value: i64) -> (datum: Datum) {
        Datum::I64(value)
    }
}

impl vstd::std_specs::convert::FromSpecImpl<i64> for Datum {
    open spec fn obeys_from_spec() -> bool {
        true
    }

    open spec fn from_spec(value: i64) -> Datum {
        Datum::I64(value)
    }
}

impl From<usize> for Datum {
    fn from(value: usize) -> (datum: Datum) {
        Datum::Enum(value)
    }
}

impl vstd::std_specs::convert::FromSpecImpl<usize> for Datum {
    open spec fn obeys_from_spec() -> bool {
        true
    }

    open spec fn from_spec(value: usize) -> Datum {
        Datum::Enum(value)
    }
}

} // verus!
