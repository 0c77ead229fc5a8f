//! Configuration records for the soup, its collider and the generators.
use vstd::prelude::*;
use crate::generators::Standardization;
use crate::rng::random_seed;

verus! {

/// A seed for a generator: given, or drawn at random when absent.
#[derive(Clone, Copy, Debug)]
pub struct ConfigSeed(pub Option<[u8; 32]>);

impl ConfigSeed {
    pub fn new(seed: [u8; 32]) -> (r: ConfigSeed)
        ensures
            r.0 == Some(seed),
    {
        ConfigSeed(Some(seed))
    }

    pub fn unseeded() -> (r: ConfigSeed)
        ensures
            r.0 is None,
    {
        ConfigSeed(None)
    }

    /// The given seed, verbatim; a fresh random one when none was given.
    pub fn get(&self) -> (r: [u8; 32])
        ensures
            self.0 is Some ==> r == self.0->Some_0,
    {
        match self.0 {
            Some(seed) => seed,
            None => random_seed(),
        }
    }
}

/// Why a configuration cannot make a soup.
#[derive(Clone, Copy, Debug, PartialEq, Eq, Structural)]
pub enum ConfigError {
    /// The rule at this index does not parse in classic notation.
    UnparsableRule(usize),
}

/// Configuration of a soup and of its collider.
#[derive(Clone, Debug)]
pub struct Reactor {
    /// Reaction rules in classic notation, each a term of two or more arguments.
    pub rules: Vec<String>,
    /// Drop reactions whose product equals one of the parents.
    pub discard_copy_actions: bool,
    /// Drop reactions whose product is the identity.
    pub discard_identity: bool,
    /// Drop products with free variables.
    pub discard_free_variable_expressions: bool,
    /// After a reaction, remove as many particles as it added.
    pub maintain_constant_population_size: bool,
    /// Do not put the two reactants back after a reaction.
    pub discard_parents: bool,
    /// Step budget of a reduction.
    pub reduction_cutoff: usize,
    /// Size budget of every intermediate term of a reduction.
    pub size_cutoff: usize,
    pub seed: ConfigSeed,
}

impl Reactor {
    /// The default configuration: rule `\x.\y.x y`, identities and terms with free
    /// variables discarded, constant population, 8000 steps, size 1000, unseeded.
    pub fn new() -> (r: Reactor)
        ensures
            r.rules@.len() == 1,
            r.rules@[0]@ == "\\x.\\y.x y"@,
            !r.discard_copy_actions,
            r.discard_identity,
            r.discard_free_variable_expressions,
            r.maintain_constant_population_size,
            !r.discard_parents,
            r.reduction_cutoff == 8000,
            r.size_cutoff == 1000,
            r.seed.0 is None,
    {
        let mut rules: Vec<String> = Vec::new();
        rules.push(String::from_str("\\x.\\y.x y"));
        Reactor {
            rules,
            discard_copy_actions: false,
            discard_identity: true,
            discard_free_variable_expressions: true,
            maintain_constant_population_size: true,
            discard_parents: false,
            reduction_cutoff: 8000,
            size_cutoff: 1000,
            seed: ConfigSeed(None),
        }
    }
}

/// A probability as a ratio of two integers.
#[derive(Clone, Copy, Debug, PartialEq, Eq, Structural)]
pub struct Ratio {
    pub numerator: u32,
    pub denominator: u32,
}

/// Configuration of the binary-tree generator.
#[derive(Clone, Copy, Debug)]
pub struct BTreeGen {
    /// Number of nodes of the tree behind each term.
    pub size: u32,
    /// Probability that a leaf becomes a free variable.
    pub freevar_generation_probability: Ratio,
    /// Free variables are drawn from `1..=n_max_free_vars` above the binders.
    pub n_max_free_vars: u32,
    pub standardization: Standardization,
    pub seed: ConfigSeed,
}

impl BTreeGen {
    /// Trees of 20 nodes, free variables with probability 1/5 among 6, prefix
    /// standardization, unseeded.
    pub fn new() -> (r: BTreeGen)
        ensures
            r.size == 20,
            r.freevar_generation_probability == (Ratio { numerator: 1, denominator: 5 }),
            r.n_max_free_vars == 6,
            r.standardization == Standardization::Prefix,
            r.seed.0 is None,
    {
        BTreeGen {
            size: 20,
            freevar_generation_probability: Ratio { numerator: 1, denominator: 5 },
            n_max_free_vars: 6,
            standardization: Standardization::Prefix,
            seed: ConfigSeed(None),
        }
    }
}

/// Probabilities of the depth-first generator are counted in millionths.
pub const PROB_SCALE: u32 = 1_000_000;

/// Configuration of the depth-first generator. Probabilities are in millionths.
#[derive(Clone, Copy, Debug)]
pub struct FontanaGen {
    /// No variables are drawn above this depth.
    pub min_depth: u32,
    /// Every node at this depth is a variable.
    pub max_depth: u32,
    /// Probability of an abstraction at depth 0 and at the deepest level.
    pub abstraction_prob_range: (u32, u32),
    /// Probability of an application at depth 0 and at the deepest level.
    pub application_prob_range: (u32, u32),
    /// Probability that a variable is free.
    pub free_variable_probability: u32,
    /// Free variables are drawn from `1..=n_max_free_vars` above the binders.
    pub n_max_free_vars: u32,
    pub seed: ConfigSeed,
}

} // verus!
