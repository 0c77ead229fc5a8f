//! The three roles of an artificial chemistry: particles, a collider that reacts two of
//! them, and the residue that a reaction leaves.
use vstd::prelude::*;

verus! {

/// An entity of the soup.
pub trait Particle: Sized {
    /// The particle standing for the application of `self` to `other`.
    fn compose(&self, other: &Self) -> Self;

    /// Whether the two particles carry the same expression.
    fn is_isomorphic_to(&self, other: &Self) -> bool;
}

/// Computes the outcome of a collision between two particles.
pub trait Collider<P: Particle, T, E> {
    fn collide(&self, left: P, right: P) -> Result<T, E>;
}

/// What a successful collision hands back to the soup.
pub trait Residue<P: Particle> {
    /// The particles to insert, in order.
    fn particles(&self) -> Vec<P>;

    /// How many particles `particles` returns.
    fn count(&self) -> usize;
}

} // verus!
