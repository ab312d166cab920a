//! Marker traits that gather the operators of a group element.

use core::ops::{Add, Mul, Sub};
use vstd::prelude::*;

verus! {

/// A type with a group operation: it can be added to and subtracted from.
pub trait GroupOps<Rhs = Self, Output = Self>:
    Add<Rhs, Output = Output> + Sub<Rhs, Output = Output> {
}

impl<T, Rhs, Output> GroupOps<Rhs, Output> for T where
    T: Add<Rhs, Output = Output> + Sub<Rhs, Output = Output>,
 {
}

/// A type whose group operation also takes its right operand by reference.
pub trait GroupOpsOwned<Rhs = Self, Output = Self>: for <'r>GroupOps<&'r Rhs, Output> {
}

impl<T, Rhs, Output> GroupOpsOwned<Rhs, Output> for T where T: for <'r>GroupOps<&'r Rhs, Output> {
}

/// A type that can be multiplied by a scalar.
pub trait ScalarMul<Rhs, Output = Self>: Mul<Rhs, Output = Output> {
}

impl<T, Rhs, Output> ScalarMul<Rhs, Output> for T where T: Mul<Rhs, Output = Output> {
}

/// A type that can also be multiplied by a scalar taken by reference.
pub trait ScalarMulOwned<Rhs, Output = Self>: for <'r>ScalarMul<&'r Rhs, Output> {
}

impl<T, Rhs, Output> ScalarMulOwned<Rhs, Output> for T where T: for <'r>ScalarMul<&'r Rhs, Output> {
}

} // verus!
