//! The roots of a quadratic: everything the solver decides, once the
//! arithmetic has been done.  All numbers are binary64 patterns.

use crate::binary64::{decode, equal, is_above_zero, is_below, is_below_zero, is_zero, less, ZERO};
use vstd::prelude::*;

verus! {

/// What the arithmetic finds of the quadratic `a t^2 + b t + c = 0`, with
/// `d` for its discriminant.  The solver computes every entry before it
/// decides which ones count.
#[derive(Clone, Copy, Debug, PartialEq, Eq)]
pub struct Quadratic {
    /// The coefficient `b`.
    pub b: u64,
    /// The discriminant `d`, which is `b^2 - 4 a c`.
    pub discriminant: u64,
    /// The root `-b / (2 a)`, which counts where the discriminant is zero.
    pub double_root: u64,
    /// The roots `q / a` and `c / q` for `q = -(b + sqrt(d)) / 2`, which
    /// count where `b` is above zero: nothing cancels in the sum.
    pub roots_by_sum: (u64, u64),
    /// The roots `q / a` and `c / q` for `q = -(b - sqrt(d)) / 2`, which
    /// count where `b` is not above zero: nothing cancels in the difference.
    pub roots_by_difference: (u64, u64),
}

/// The real roots of a quadratic.
#[derive(Clone, Copy, Debug, PartialEq, Eq)]
pub enum QuadraticRoots {
    /// No real root.
    NoRoot,
    /// One root, counted twice.
    Double(u64),
    /// Two roots, the second not below the first.
    Couple(u64, u64),
}

impl QuadraticRoots {
    /// The two roots in order: the smaller one first.
    pub open spec fn couple_spec(x0: u64, x1: u64) -> QuadraticRoots {
        if less(decode(x0), decode(x1)) {
            QuadraticRoots::Couple(x0, x1)
        } else {
            QuadraticRoots::Couple(x1, x0)
        }
    }

    /// The roots of a quadratic: none where the discriminant is below zero,
    /// the double root where it is zero, and else the two roots that the
    /// sign of `b` picks, in order.
    pub open spec fn solve_spec(quadratic: Quadratic) -> QuadraticRoots {
        if less(decode(quadratic.discriminant), decode(ZERO)) {
            QuadraticRoots::NoRoot
        } else if equal(decode(quadratic.discriminant), decode(ZERO)) {
            QuadraticRoots::Double(quadratic.double_root)
        } else if less(decode(ZERO), decode(quadratic.b)) {
            Self::couple_spec(quadratic.roots_by_sum.0, quadratic.roots_by_sum.1)
        } else {
            Self::couple_spec(quadratic.roots_by_difference.0, quadratic.roots_by_difference.1)
        }
    }

    /// The roots as the list of ray parameters that they are, in order.
    pub open spec fn list(self) -> Seq<u64> {
        match self {
            QuadraticRoots::NoRoot => seq![],
            QuadraticRoots::Double(x) => seq![x],
            QuadraticRoots::Couple(x1, x2) => seq![x1, x2],
        }
    }

    /// Puts two roots in order.
    pub fn couple(x0: u64, x1: u64) -> (roots: QuadraticRoots)
        ensures
            roots == Self::couple_spec(x0, x1),
            roots matches QuadraticRoots::Couple(first, second) && !less(
                decode(second),
                decode(first),
            ),
    {
        if is_below(x0, x1) {
            QuadraticRoots::Couple(x0, x1)
        } else {
            QuadraticRoots::Couple(x1, x0)
        }
    }

    /// Decides on the roots of a quadratic.
    pub fn solve(quadratic: &Quadratic) -> (roots: QuadraticRoots)
        ensures
            roots == Self::solve_spec(*quadratic),
            roots is NoRoot <==> less(decode(quadratic.discriminant), decode(ZERO)),
            roots is Double <==> equal(decode(quadratic.discriminant), decode(ZERO)),
            roots matches QuadraticRoots::Couple(first, second) ==> !less(
                decode(second),
                decode(first),
            ),
    {
        if is_below_zero(quadratic.discriminant) {
            QuadraticRoots::NoRoot
        } else if is_zero(quadratic.discriminant) {
            QuadraticRoots::Double(quadratic.double_root)
        } else if is_above_zero(quadratic.b) {
            Self::couple(quadratic.roots_by_sum.0, quadratic.roots_by_sum.1)
        } else {
            Self::couple(quadratic.roots_by_difference.0, quadratic.roots_by_difference.1)
        }
    }

    /// Appends the roots to a list of ray parameters.
    pub fn push_to(&self, v: &mut Vec<u64>)
        ensures
            final(v)@ == old(v)@ + self.list(),
    {
        match self {
            QuadraticRoots::NoRoot => {},
            QuadraticRoots::Double(x) => {
                v.push(*x);
            },
            QuadraticRoots::Couple(x1, x2) => {
                v.push(*x1);
                v.push(*x2);
            },
        }
    }
}

} // verus!
