use bevy_dogoap::compare::Compare;
use bevy_dogoap::datum::{Datum, Kind};

#[test]
fn kinds_of_values() {
    assert_eq!(Datum::Bool(true).kind_of(), Kind::Bool);
    assert_eq!(Datum::I64(-4).kind_of(), Kind::I64);
    assert_eq!(Datum::Enum(2).kind_of(), Kind::Enum);
    assert!(Datum::I64(1).same_kind(&Datum::I64(9)));
    assert!(!Datum::I64(1).same_kind(&Datum::Enum(1)));
    assert!(!Datum::Bool(true).same_kind(&Datum::Enum(1)));
}

#[test]
fn values_from_plain_values() {
    assert_eq!(Datum::from(true), Datum::Bool(true));
    assert_eq!(Datum::from(-7i64), Datum::I64(-7));
    assert_eq!(Datum::from(3usize), Datum::Enum(3));
}

#[test]
fn ranks_within_a_kind() {
    assert!(Datum::Bool(false).ranks_below(&Datum::Bool(true)));
    assert!(!Datum::Bool(true).ranks_below(&Datum::Bool(true)));
    assert!(!Datum::Bool(true).ranks_below(&Datum::Bool(false)));
    assert!(Datum::I64(-3).ranks_below(&Datum::I64(2)));
    assert!(!Datum::I64(2).ranks_below(&Datum::I64(2)));
    assert!(Datum::Enum(0).ranks_below(&Datum::Enum(1)));
    assert!(!Datum::Enum(4).ranks_below(&Datum::Enum(1)));
}

#[test]
fn increase_and_decrease_are_exact() {
    assert_eq!(Datum::I64(40).increased_by(&Datum::I64(2)), Datum::I64(42));
    assert_eq!(Datum::I64(40).decreased_by(&Datum::I64(2)), Datum::I64(38));
    assert_eq!(Datum::I64(-5).increased_by(&Datum::I64(-6)), Datum::I64(-11));
    assert_eq!(Datum::I64(-5).decreased_by(&Datum::I64(-6)), Datum::I64(1));
}

#[test]
fn increase_and_decrease_stop_at_the_ends() {
    assert_eq!(Datum::I64(i64::MAX).increased_by(&Datum::I64(1)), Datum::I64(i64::MAX));
    assert_eq!(Datum::I64(i64::MAX - 1).increased_by(&Datum::I64(5)), Datum::I64(i64::MAX));
    assert_eq!(Datum::I64(i64::MIN).increased_by(&Datum::I64(-1)), Datum::I64(i64::MIN));
    assert_eq!(Datum::I64(i64::MIN).decreased_by(&Datum::I64(1)), Datum::I64(i64::MIN));
    assert_eq!(Datum::I64(i64::MAX).decreased_by(&Datum::I64(-1)), Datum::I64(i64::MAX));
    assert_eq!(Datum::I64(0).decreased_by(&Datum::I64(i64::MIN)), Datum::I64(i64::MAX));
    assert_eq!(Datum::I64(-1).decreased_by(&Datum::I64(i64::MIN)), Datum::I64(i64::MAX));
    assert_eq!(Datum::I64(-2).decreased_by(&Datum::I64(i64::MAX)), Datum::I64(i64::MIN));
}

#[test]
fn comparisons_on_numbers() {
    let five = Datum::I64(5);
    assert!(Compare::equals(five).compare_values(&Datum::I64(5)));
    assert!(!Compare::equals(five).compare_values(&Datum::I64(6)));
    assert!(Compare::not_equals(five).compare_values(&Datum::I64(6)));
    assert!(!Compare::not_equals(five).compare_values(&Datum::I64(5)));
    assert!(Compare::greater_than(five).compare_values(&Datum::I64(6)));
    assert!(!Compare::greater_than(five).compare_values(&Datum::I64(5)));
    assert!(Compare::less_than(five).compare_values(&Datum::I64(4)));
    assert!(!Compare::less_than(five).compare_values(&Datum::I64(5)));
    assert!(Compare::greater_than_equals(five).compare_values(&Datum::I64(5)));
    assert!(!Compare::greater_than_equals(five).compare_values(&Datum::I64(4)));
    assert!(Compare::less_than_equals(five).compare_values(&Datum::I64(5)));
    assert!(!Compare::less_than_equals(five).compare_values(&Datum::I64(6)));
}

#[test]
fn comparisons_on_truth_values_and_enumerants() {
    assert!(Compare::equals(Datum::Bool(false)).compare_values(&Datum::Bool(false)));
    assert!(!Compare::equals(Datum::Bool(false)).compare_values(&Datum::Bool(true)));
    assert!(Compare::greater_than(Datum::Bool(false)).compare_values(&Datum::Bool(true)));
    assert!(Compare::less_than_equals(Datum::Enum(2)).compare_values(&Datum::Enum(2)));
    assert!(!Compare::less_than(Datum::Enum(2)).compare_values(&Datum::Enum(2)));
    assert!(Compare::not_equals(Datum::Enum(2)).compare_values(&Datum::Enum(0)));
}

#[test]
fn comparison_keeps_its_operand() {
    assert_eq!(Compare::equals(Datum::I64(1)).value(), Datum::I64(1));
    assert_eq!(Compare::less_than(Datum::Enum(3)).value(), Datum::Enum(3));
    assert_eq!(Compare::equals(Datum::Bool(true)), Compare::Equals(Datum::Bool(true)));
    assert_eq!(Compare::greater_than_equals(Datum::I64(2)), Compare::GreaterThanEquals(Datum::I64(2)));
}
