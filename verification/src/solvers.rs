//! The decisions of the bisection that solves for the periastron of a
//! photon.
//!
//! The bisection looks for a zero of a function between two bounds. It only
//! ever asks for the sign of the function: at the two bounds to see whether
//! they bracket a zero, and at their midpoint to see which bound to move
//! there. Those decisions are stated here on signs alone; evaluating the
//! function is left to the caller.

use vstd::prelude::*;

verus! {

/// The maximum number of steps of the bisection.
pub const MAX_BISECTION_ITERS: usize = 100;

/// The sign of a value of the function. A value that is not a number has no
/// sign.
#[derive(Debug, Copy, Clone, PartialEq, Eq, Structural)]
pub enum Sign {
    Negative,
    Positive,
    NotANumber,
}

/// Which bound of the bracket moves to the midpoint.
#[derive(Debug, Copy, Clone, PartialEq, Eq, Structural)]
pub enum Narrowing {
    /// The upper bound moves: the zero lies in the lower half.
    Upper,
    /// The lower bound moves: the zero lies in the upper half.
    Lower,
    /// Neither bound moves.
    Neither,
}

/// Two signs differ. A value that is not a number differs in sign from every
/// value, itself included.
pub open spec fn signs_differ(a: Sign, b: Sign) -> bool {
    a == Sign::NotANumber || b == Sign::NotANumber || a != b
}

/// Whether two signs differ.
pub fn differ(a: Sign, b: Sign) -> (r: bool)
    ensures
        r == signs_differ(a, b),
{
    match (a, b) {
        (Sign::Negative, Sign::Negative) => false,
        (Sign::Positive, Sign::Positive) => false,
        _ => true,
    }
}

/// Whether the two bounds bracket a zero: the function has different signs
/// at them. Without a bracket there is no solution.
pub fn brackets_root(at_min: Sign, at_max: Sign) -> (r: bool)
    ensures
        r == signs_differ(at_min, at_max),
{
    differ(at_min, at_max)
}

/// The bound that moves to the midpoint, for the signs of the function at
/// the lower bound, the upper bound and the midpoint: the upper bound where
/// the signs at the lower bound and the midpoint differ; else the lower
/// bound where those at the upper bound and the midpoint differ; else
/// neither.
pub open spec fn narrowed(at_lower: Sign, at_upper: Sign, at_middle: Sign) -> Narrowing {
    if signs_differ(at_lower, at_middle) {
        Narrowing::Upper
    } else if signs_differ(at_upper, at_middle) {
        Narrowing::Lower
    } else {
        Narrowing::Neither
    }
}

/// The bound that moves to the midpoint in one step of the bisection.
pub fn narrow(at_lower: Sign, at_upper: Sign, at_middle: Sign) -> (r: Narrowing)
    ensures
        r == narrowed(at_lower, at_upper, at_middle),
{
    if differ(at_lower, at_middle) {
        Narrowing::Upper
    } else if differ(at_upper, at_middle) {
        Narrowing::Lower
    } else {
        Narrowing::Neither
    }
}

/// Whether the bisection takes another step: the bracket is still wider than
/// the tolerance, and fewer than `MAX_BISECTION_ITERS` steps were taken.
pub fn keeps_bisecting(wider_than_tolerance: bool, iter_count: usize) -> (r: bool)
    ensures
        r == (wider_than_tolerance && iter_count < MAX_BISECTION_ITERS),
{
    wider_than_tolerance && iter_count < MAX_BISECTION_ITERS
}

/// A bracket stays a bracket: where the signs at the two bounds differ, one
/// of the bounds moves in every step, and the signs at the two bounds differ
/// after the step as well.
pub proof fn lemma_bracket_is_kept(at_lower: Sign, at_upper: Sign, at_middle: Sign)
    requires
        signs_differ(at_lower, at_upper),
    ensures
        narrowed(at_lower, at_upper, at_middle) != Narrowing::Neither,
        narrowed(at_lower, at_upper, at_middle) == Narrowing::Upper ==> signs_differ(
            at_lower,
            at_middle,
        ),
        narrowed(at_lower, at_upper, at_middle) == Narrowing::Lower ==> signs_differ(
            at_middle,
            at_upper,
        ),
{
}

} // verus!
