//! A total order that verified containers can compare values by.

use vstd::prelude::*;

verus! {

/// Outcome of a three-way comparison.
#[derive(Clone, Copy, Debug)]
pub enum Comparison {
    Less,
    Equal,
    Greater,
}

/// A type whose values stand in a total order.
///
/// `le` is the specification-level "less than or equal"; the proof methods
/// oblige every implementation to make it reflexive, transitive,
/// antisymmetric and total; and `compare` is the executable three-way test
/// that must agree with it.
pub trait TotalOrder: Sized {
    spec fn le(self, other: Self) -> bool;

    proof fn le_reflexive(x: Self)
        ensures
            Self::le(x, x),
    ;

    proof fn le_transitive(x: Self, y: Self, z: Self)
        requires
            Self::le(x, y),
            Self::le(y, z),
        ensures
            Self::le(x, z),
    ;

    proof fn le_antisymmetric(x: Self, y: Self)
        requires
            Self::le(x, y),
            Self::le(y, x),
        ensures
            x == y,
    ;

    proof fn le_total(x: Self, y: Self)
        ensures
            Self::le(x, y) || Self::le(y, x),
    ;

    fn compare(&self, other: &Self) -> (c: Comparison)
        ensures
            match c {
                Comparison::Less => self.le(*other) && *self != *other,
                Comparison::Equal => *self == *other,
                Comparison::Greater => other.le(*self) && *self != *other,
            },
    ;
}

impl TotalOrder for i32 {
    open spec fn le(self, other: Self) -> bool {
        self <= other
    }

    proof fn le_reflexive(x: Self) {
    }

    proof fn le_transitive(x: Self, y: Self, z: Self) {
    }

    proof fn le_antisymmetric(x: Self, y: Self) {
    }

    proof fn le_total(x: Self, y: Self) {
    }

    fn compare(&self, other: &Self) -> (c: Comparison) {
        if *self < *other {
            Comparison::Less
        } else if *other < *self {
            Comparison::Greater
        } else {
            Comparison::Equal
        }
    }
}

impl TotalOrder for u64 {
    open spec fn le(self, other: Self) -> bool {
        self <= other
    }

    proof fn le_reflexive(x: Self) {
    }

    proof fn le_transitive(x: Self, y: Self, z: Self) {
    }

    proof fn le_antisymmetric(x: Self, y: Self) {
    }

    proof fn le_total(x: Self, y: Self) {
    }

    fn compare(&self, other: &Self) -> (c: Comparison) {
        if *self < *other {
            Comparison::Less
        } else if *other < *self {
            Comparison::Greater
        } else {
            Comparison::Equal
        }
    }
}

} // verus!
