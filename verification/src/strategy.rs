//! A [`Strategy`] tells how a pixel is rewritten: either overwritten with a
//! value ([`Overwrite`]) or recomputed from its previous value ([`Apply`]).
use vstd::prelude::*;

verus! {

/// An action to be performed on a pixel.
pub trait Strategy<P> {
    /// Whether the action can be performed on every pixel value.
    spec fn ready(&self) -> bool;

    /// Whether `after` is a possible result of performing the action on
    /// `before`.
    spec fn spec_produces(&self, before: P, after: P) -> bool;

    /// Compute the new pixel value from the previous one.
    fn produce(&self, before: P) -> (after: P)
        requires
            self.ready(),
        ensures
            self.spec_produces(before, after),
    ;
}

/// This is a strategy to replace pixels without reading.
#[derive(Clone, Copy)]
pub struct Overwrite<P>(pub P);

/// This is a strategy to compute new pixel value using the previous one.
///
/// `P` is the type of the pixels it computes.
#[derive(Clone, Copy)]
pub struct Apply<'a, P, F>(pub &'a F, pub Ghost<P>);

impl<P: Copy> Strategy<P> for Overwrite<P> {
    open spec fn ready(&self) -> bool {
        true
    }

    open spec fn spec_produces(&self, before: P, after: P) -> bool {
        after == self.0
    }

    fn produce(&self, before: P) -> (after: P) {
        self.0
    }
}

impl<'a, P, F: Fn(P) -> P> Strategy<P> for Apply<'a, P, F> {
    open spec fn ready(&self) -> bool {
        forall|p: P| call_requires(*self.0, (p,))
    }

    open spec fn spec_produces(&self, before: P, after: P) -> bool {
        call_ensures(*self.0, (before,), after)
    }

    fn produce(&self, before: P) -> (after: P) {
        (self.0)(before)
    }
}

/// An [`Apply`] strategy is ready when its modifier can be called on every
/// pixel.
pub proof fn lemma_apply_ready<'a, P, F: Fn(P) -> P>(strategy: Apply<'a, P, F>)
    requires
        forall|p: P| call_requires(*strategy.0, (p,)),
    ensures
        strategy.ready(),
{
}

/// Create an [`Overwrite`] strategy.
pub fn overwrite<P>(value: P) -> (strategy: Overwrite<P>)
    ensures
        strategy.0 == value,
{
    Overwrite(value)
}

/// Create an [`Apply`] strategy.
pub fn apply<'a, P, F: Fn(P) -> P>(modifier: &'a F) -> (strategy: Apply<'a, P, F>)
    ensures
        *strategy.0 == *modifier,
{
    Apply(modifier, Ghost(arbitrary()))
}

} // verus!
