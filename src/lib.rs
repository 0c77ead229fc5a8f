//! An artificial chemistry of lambda terms: a soup of particles that react by bounded
//! β-reduction, with seeded generators of random terms and population analytics.
pub mod analysis;
pub mod collidable;
pub mod combinators;
pub mod config;
pub mod generators;
pub mod lambda;
pub mod rng;
pub mod soup;
pub mod term;
