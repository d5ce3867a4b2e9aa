//! Errors of an evaluation, each with the lookup or row it concerns.
use vstd::prelude::*;

verus! {

/// A lookup in the category and threshold tables that found no row.
#[derive(Clone, Copy, Debug, PartialEq, Eq, Structural)]
pub enum Lookup {
    /// No mandatory category for this age and gender.
    NeededCategories { age: i64, gender: char },
    /// No formula constants for this category and gender.
    FormVars { category: i64, gender: char },
    /// No point thresholds for this age and gender.
    PointThresholds { age: i64, gender: char },
    /// No medal thresholds for this category, age and gender.
    MedalThresholds { category: i64, age: i64, gender: char },
}

/// A row that was found but cannot be used.
#[derive(Clone, Copy, Debug, PartialEq, Eq, Structural)]
pub enum Fault {
    /// A running category without its distance.
    MissingDistance { category: i64 },
    /// Formula constants whose divisor `c` is zero.
    InvalidDivisor { category: i64 },
    /// A run whose time, with its supplement, is zero.
    InvalidTime { category: i64 },
}

#[derive(Clone, Copy, Debug, PartialEq, Eq, Structural)]
pub enum EvalError {
    NotFound(Lookup),
    Internal(Fault),
    /// The category is not asked of students of this age and gender
    /// under either scheme.
    Conflict { category: i64 },
}

} // verus!
