//! Small helpers on pairs.
use vstd::prelude::*;

verus! {

/// The pair with its two components exchanged.
pub open spec fn swapped<A, B>(pair: (A, B)) -> (B, A) {
    (pair.1, pair.0)
}

/// The pair with its two components exchanged when `condition` holds.
pub open spec fn swapped_if<T>(condition: bool, pair: (T, T)) -> (T, T) {
    if condition {
        (pair.1, pair.0)
    } else {
        pair
    }
}

/// Exchange the two components of a pair.
pub fn swap<A, B>(pair: (A, B)) -> (result: (B, A))
    ensures
        result == swapped(pair),
{
    let (a, b) = pair;
    (b, a)
}

/// Exchange the two components of a pair when `condition` holds.
pub fn swap_if<T>(condition: bool, pair: (T, T)) -> (result: (T, T))
    ensures
        result == swapped_if(condition, pair),
{
    let (a, b) = pair;
    if condition {
        (b, a)
    } else {
        (a, b)
    }
}

/// Swapping twice gives the original pair back, and so does a conditional
/// swap done twice under the same condition.
pub proof fn law_swap_involution<A, B, T>(pair: (A, B), condition: bool, other: (T, T))
    ensures
        swapped(swapped(pair)) == pair,
        swapped_if(condition, swapped_if(condition, other)) == other,
{
}

} // verus!
