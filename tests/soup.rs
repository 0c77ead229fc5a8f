use alchemy::config::{self, ConfigSeed, Ratio, Reactor};
use alchemy::generators::{BTreeGen, Standardization};
use alchemy::lambda::{LambdaCollisionError, LambdaParticle};
use alchemy::soup::{LambdaSoup, Soup};
use lambda_calculus::data::num::church::{eq, succ};
use lambda_calculus::{abs, app, parse, Classic, IntoChurchNum, Term, Var, HAP};

fn reactor(rule: &str, seed: u8) -> Reactor {
    Reactor {
        rules: vec![rule.to_string()],
        discard_copy_actions: false,
        discard_identity: false,
        discard_free_variable_expressions: false,
        maintain_constant_population_size: false,
        discard_parents: false,
        reduction_cutoff: 8000,
        size_cutoff: 1000,
        seed: ConfigSeed::new([seed; 32]),
    }
}

fn identity() -> Term {
    abs(Var(1))
}

fn k_comb() -> Term {
    abs(abs(Var(2)))
}

fn omega() -> Term {
    let w = abs(app(Var(1), Var(1)));
    app(w.clone(), w)
}

fn terms(soup: &Soup) -> Vec<Term> {
    soup.lambda_expressions()
}

fn btree_terms(seed: u8, n: usize) -> Vec<Term> {
    let mut gen = BTreeGen::from_config(&config::BTreeGen {
        size: 8,
        freevar_generation_probability: Ratio { numerator: 1, denominator: 5 },
        n_max_free_vars: 6,
        standardization: Standardization::Prefix,
        seed: ConfigSeed::new([seed; 32]),
    });
    gen.generate_n(n)
}

#[test]
fn identity_filter_keeps_parents() {
    let mut cfg = reactor(r"\x.\y. x y", 0);
    cfg.discard_identity = true;
    let mut soup = LambdaSoup::from_config(&cfg).unwrap();
    soup.add_lambda_expressions(vec![identity(), identity()]);
    let r = soup.react();
    assert_eq!(r.unwrap_err(), LambdaCollisionError::IsIdentity);
    assert_eq!(terms(&soup), vec![identity(), identity()]);
    assert_eq!(soup.collisions(), 1);
}

#[test]
fn copy_filter_in_a_soup() {
    let mut cfg = reactor(r"\x.\y. x", 0);
    cfg.discard_copy_actions = true;
    let mut soup = Soup::from_config(&cfg).unwrap();
    soup.add_lambda_expressions(vec![k_comb(), k_comb()]);
    assert_eq!(soup.react().unwrap_err(), LambdaCollisionError::IsParent);
}

#[test]
fn divergence_in_a_soup() {
    let mut cfg = reactor(r"\x.\y. x y", 0);
    cfg.reduction_cutoff = 100;
    cfg.size_cutoff = 10000;
    let mut soup = Soup::from_config(&cfg).unwrap();
    soup.add_lambda_expressions(vec![omega(), omega()]);
    assert_eq!(
        soup.react().unwrap_err(),
        LambdaCollisionError::ExceedsReductionLimit
    );
}

#[test]
fn successor_blooms_in_a_soup() {
    let mut test = parse(r"\eq. \a. \asucc. \f. (eq (f a) asucc)", Classic).unwrap();
    test = app(app(app(test, eq()), 3.into_church()), 4.into_church());
    test.reduce(HAP, 0);
    // Some seed draws the test first; its reaction hands back 100 copies of succ.
    let mut found = false;
    for seed in 0..16u8 {
        let mut soup = Soup::from_config(&reactor(r"\x.\y. x y", seed)).unwrap();
        soup.add_test_expressions(vec![test.clone()]);
        soup.add_lambda_expressions(vec![succ()]);
        if let Ok(residue) = soup.react() {
            if residue.results.len() == 100 {
                let n = residue
                    .results
                    .iter()
                    .filter(|p| p.expr.is_isomorphic_to(&succ()))
                    .count();
                assert_eq!(n, 100);
                assert_eq!(soup.population_of(&succ()), 101);
                found = true;
                break;
            }
        }
    }
    assert!(found);
}

#[test]
fn too_few_particles() {
    let mut soup = Soup::from_config(&reactor(r"\x.\y. x y", 0)).unwrap();
    assert_eq!(
        soup.react().unwrap_err(),
        LambdaCollisionError::NotEnoughExpressions
    );
    soup.add_lambda_expressions(vec![identity()]);
    assert_eq!(
        soup.react().unwrap_err(),
        LambdaCollisionError::NotEnoughExpressions
    );
    assert_eq!(soup.collisions(), 0);
    assert_eq!(terms(&soup), vec![identity()]);
}

#[test]
fn every_reaction_counts() {
    let mut soup = Soup::from_config(&reactor(r"\x.\y. x y", 1)).unwrap();
    soup.add_lambda_expressions(btree_terms(3, 10));
    for i in 0..20 {
        let _ = soup.react();
        assert_eq!(soup.collisions(), i + 1);
    }
}

#[test]
fn population_size_follows_the_policy() {
    // Parents kept, no trimming: residue of one per success.
    let mut soup = Soup::from_config(&reactor(r"\x.\y. x y", 2)).unwrap();
    soup.add_lambda_expressions(vec![k_comb(), identity(), k_comb(), identity()]);
    let before = soup.len();
    let r = soup.react();
    let inserted = r.as_ref().map(|t| t.results.len()).unwrap_or(0);
    assert_eq!(soup.len(), before + inserted);

    // Parents kept and a constant population: the size stays.
    let mut cfg = reactor(r"\x.\y. x y", 2);
    cfg.maintain_constant_population_size = true;
    let mut soup = Soup::from_config(&cfg).unwrap();
    soup.add_lambda_expressions(vec![k_comb(), identity(), k_comb(), identity()]);
    for _ in 0..10 {
        let _ = soup.react();
        assert_eq!(soup.len(), 4);
    }

    // Parents discarded: two out, the residue in.
    let mut cfg = reactor(r"\x.\y. x y", 2);
    cfg.discard_parents = true;
    let mut soup = Soup::from_config(&cfg).unwrap();
    soup.add_lambda_expressions(vec![k_comb(), identity(), k_comb(), identity()]);
    let r = soup.react();
    let inserted = r.as_ref().map(|t| t.results.len()).unwrap_or(0);
    assert_eq!(soup.len(), 4 - 2 + inserted);
}

#[test]
fn identical_soups_evolve_identically() {
    let sample = btree_terms(3, 100);
    let mut cfg = Reactor::new();
    cfg.seed = ConfigSeed::new([7; 32]);
    let mut a = Soup::from_config(&cfg).unwrap();
    let mut b = Soup::from_config(&cfg).unwrap();
    a.add_lambda_expressions(sample.clone());
    b.add_lambda_expressions(sample);
    let na = a.simulate_for(5000);
    let nb = b.simulate_for(5000);
    assert_eq!(na, nb);
    assert_eq!(a.expression_counts(), b.expression_counts());
    assert_eq!(a.collisions(), 5000);
}

#[test]
fn simulate_for_counts_successes() {
    let mut cfg = reactor(r"\x.\y. x y", 4);
    cfg.discard_identity = true;
    let mut soup = Soup::from_config(&cfg).unwrap();
    soup.add_lambda_expressions(vec![identity(), identity(), identity()]);
    assert_eq!(soup.simulate_for(10), 0);
    assert_eq!(soup.collisions(), 10);
    assert_eq!(soup.len(), 3);
}

#[test]
fn polling_every_third_reaction() {
    let mut soup = Soup::from_config(&reactor(r"\x.\y. x y", 5)).unwrap();
    soup.add_lambda_expressions(btree_terms(3, 10));
    let polled = soup.simulate_and_poll(10, 3, |s| s.collisions());
    assert_eq!(polled, vec![1, 4, 7, 10]);
}

#[test]
fn killer_stops_the_run() {
    let mut soup = Soup::from_config(&reactor(r"\x.\y. x y", 5)).unwrap();
    soup.add_lambda_expressions(btree_terms(3, 10));
    let polled = soup.simulate_and_poll_with_killer(100, 2, |s| (s.collisions(), s.collisions() >= 5));
    assert_eq!(polled, vec![1, 3, 5]);
    assert_eq!(soup.collisions(), 5);
}

#[test]
fn perturbation_replaces_particles() {
    let mut cfg = reactor(r"\x.\y. x y", 6);
    cfg.maintain_constant_population_size = true;
    let mut soup = Soup::from_config(&cfg).unwrap();
    soup.add_lambda_expressions(vec![identity(); 5]);
    soup.perturb_test_expressions(3, vec![k_comb()]);
    assert_eq!(soup.len(), 5);
    assert_eq!(soup.population_of(&identity()), 2);
    assert_eq!(soup.population_of(&k_comb()), 3);
    assert_eq!(soup.expressions().iter().filter(|p| p.is_recursive()).count(), 3);

    soup.perturb_lambda_expressions(4, vec![omega(), succ()]);
    assert_eq!(soup.len(), 5);
    assert_eq!(soup.population_of(&omega()), 2);
    assert_eq!(soup.population_of(&succ()), 2);

    let mut soup = Soup::from_config(&reactor(r"\x.\y. x y", 6)).unwrap();
    soup.perturb_lambda_expressions(3, vec![]);
    assert_eq!(soup.len(), 0);
    soup.perturb(vec![LambdaParticle::new(identity(), false)]);
    assert_eq!(soup.len(), 1);
}

#[test]
fn default_soup() {
    let soup = Soup::new();
    assert_eq!(soup.len(), 0);
    assert_eq!(soup.collisions(), 0);
}

#[test]
fn recording_keeps_snapshots() {
    let mut soup = Soup::from_config(&reactor(r"\x.\y. x y", 9)).unwrap();
    soup.add_lambda_expressions(btree_terms(3, 10));
    let tape = soup.simulate_and_record(7, 3);
    assert_eq!(tape.polling_interval(), 3);
    let counts: Vec<usize> = tape.history().iter().map(|s| s.collisions()).collect();
    assert_eq!(counts, vec![1, 4, 7]);
    assert_eq!(tape.final_state().collisions(), 7);
    assert_eq!(
        tape.final_state().lambda_expressions(),
        soup.lambda_expressions()
    );
}

#[test]
fn clones_evolve_alike() {
    let mut a = Soup::from_config(&reactor(r"\x.\y. x y", 10)).unwrap();
    a.add_lambda_expressions(btree_terms(4, 20));
    let mut b = a.clone();
    a.simulate_for(50);
    b.simulate_for(50);
    assert_eq!(a.lambda_expressions(), b.lambda_expressions());
    assert!(!a.maintains_constant_population());
}
