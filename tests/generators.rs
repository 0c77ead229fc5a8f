use alchemy::config::{self, ConfigSeed, Ratio};
use alchemy::generators::{BTree, BTreeGen, FontanaGen, Standardization};
use lambda_calculus::Term;

fn cfg(size: u32, seed: u8, std: Standardization) -> config::BTreeGen {
    config::BTreeGen {
        size,
        freevar_generation_probability: Ratio { numerator: 1, denominator: 5 },
        n_max_free_vars: 6,
        standardization: std,
        seed: ConfigSeed::new([seed; 32]),
    }
}

fn count_nodes(t: &Term) -> usize {
    match t {
        Term::Var(_) => 1,
        Term::Abs(b) => 1 + count_nodes(b),
        Term::App(p) => 1 + count_nodes(&p.0) + count_nodes(&p.1),
    }
}

#[test]
fn same_seed_same_terms() {
    let mut a = BTreeGen::from_config(&cfg(12, 9, Standardization::Prefix));
    let mut b = BTreeGen::from_config(&cfg(12, 9, Standardization::Prefix));
    let ta = a.generate_n(50);
    let tb = b.generate_n(50);
    assert_eq!(ta.len(), 50);
    for (x, y) in ta.iter().zip(tb.iter()) {
        assert!(x.is_isomorphic_to(y));
    }
    assert_eq!(a.seed(), [9; 32]);
}

#[test]
fn different_seeds_differ() {
    let mut a = BTreeGen::from_config(&cfg(12, 1, Standardization::Unchanged));
    let mut b = BTreeGen::from_config(&cfg(12, 2, Standardization::Unchanged));
    assert_ne!(a.generate_n(20), b.generate_n(20));
}

#[test]
fn prefix_standardization_closes_terms() {
    let mut g = BTreeGen::from_config(&cfg(10, 4, Standardization::Prefix));
    for t in g.generate_n(100) {
        assert!(!t.has_free_variables());
    }
}

#[test]
fn unstandardized_terms_keep_the_tree_size() {
    let mut g = BTreeGen::from_config(&cfg(10, 4, Standardization::Unchanged));
    for t in g.generate_n(100) {
        assert_eq!(count_nodes(&t), 10);
    }
}

#[test]
fn arguments_are_clamped() {
    let mut c = cfg(0, 3, Standardization::Prefix);
    c.freevar_generation_probability = Ratio { numerator: 3, denominator: 0 };
    c.n_max_free_vars = 0;
    let mut g = BTreeGen::from_config(&c);
    let t = g.generate();
    assert!(!t.has_free_variables());
    // A one-node tree is a single free variable, closed by one binder.
    assert_eq!(t, lambda_calculus::abs(Term::Var(1)));
}

#[test]
fn search_tree_insertion() {
    let mut t = BTree::new(5);
    for k in [3, 8, 3, 9, 1] {
        t.insert(k);
    }
    let left = t.left.as_ref().unwrap();
    assert_eq!(left.n, 3);
    assert_eq!(left.left.as_ref().unwrap().n, 3);
    assert_eq!(left.left.as_ref().unwrap().left.as_ref().unwrap().n, 1);
    let right = t.right.as_ref().unwrap();
    assert_eq!(right.n, 8);
    assert_eq!(right.right.as_ref().unwrap().n, 9);
    assert!(right.left.is_none());
}

#[test]
fn default_generator() {
    let mut g = BTreeGen::new();
    assert!(!g.generate().has_free_variables());
}

fn depth_of(t: &Term) -> usize {
    match t {
        Term::Var(_) => 0,
        Term::Abs(b) => 1 + depth_of(b),
        Term::App(p) => 1 + depth_of(&p.0).max(depth_of(&p.1)),
    }
}

fn fontana(min_depth: u32, max_depth: u32, seed: u8) -> FontanaGen {
    FontanaGen::from_config(&config::FontanaGen {
        min_depth,
        max_depth,
        abstraction_prob_range: (300_000, 500_000),
        application_prob_range: (400_000, 300_000),
        free_variable_probability: 100_000,
        n_max_free_vars: 3,
        seed: ConfigSeed::new([seed; 32]),
    })
}

#[test]
fn fontana_terms_respect_the_depths() {
    let mut g = fontana(2, 6, 1);
    for t in g.generate_n(200) {
        let d = depth_of(&t);
        assert!(d >= 2, "a leaf above the minimal depth");
        assert!(d <= 6, "deeper than the maximal depth");
    }
}

#[test]
fn fontana_same_seed_same_terms() {
    let mut a = fontana(1, 5, 8);
    let mut b = fontana(1, 5, 8);
    assert_eq!(a.generate_n(30), b.generate_n(30));
    assert_eq!(a.seed(), [8; 32]);
}

#[test]
fn fontana_only_variables_at_depth_zero_limit() {
    // Depth 1 allows one level of structure at most; a zero maximal depth is clamped to 1.
    let mut g = FontanaGen::new(5, 0, (2_000_000, 0), (0, 0), 0, 0, [2; 32]);
    for t in g.generate_n(20) {
        // Minimal depth is clamped to 0 and the abstraction probability to 1: one binder
        // over a variable.
        match t {
            Term::Abs(b) => assert!(matches!(*b, Term::Var(_))),
            other => panic!("unexpected term {:?}", other),
        }
    }
}

#[test]
fn fontana_variables_at_the_root_are_free() {
    let mut g = FontanaGen::new(0, 1, (0, 0), (0, 0), 0, 4, [3; 32]);
    for _ in 0..20 {
        // Under one binder and with no chance of a free variable, the only index is 1.
        match g.rand_lambda(1) {
            Term::Var(v) => assert_eq!(v, 1),
            other => panic!("unexpected term {:?}", other),
        }
        match g.rand_lambda(0) {
            Term::Var(v) => assert!((1..=4).contains(&v)),
            other => panic!("unexpected term {:?}", other),
        }
    }
}

fn binder_indices_ok(t: &Term, d: usize, max_vars: usize) -> bool {
    match t {
        Term::Var(v) => 1 <= *v && *v <= d + max_vars,
        Term::Abs(b) => binder_indices_ok(b, d + 1, max_vars),
        Term::App(p) => binder_indices_ok(&p.0, d, max_vars) && binder_indices_ok(&p.1, d, max_vars),
    }
}

fn node_indices_ok(t: &Term, d: usize, max_vars: usize) -> bool {
    match t {
        Term::Var(v) => 1 <= *v && *v <= d + max_vars,
        Term::Abs(b) => node_indices_ok(b, d + 1, max_vars),
        Term::App(p) => node_indices_ok(&p.0, d + 1, max_vars) && node_indices_ok(&p.1, d + 1, max_vars),
    }
}

#[test]
fn btree_indices_stay_within_bounds() {
    let mut g = BTreeGen::from_config(&cfg(15, 6, Standardization::Unchanged));
    for t in g.generate_n(200) {
        assert_eq!(count_nodes(&t), 15);
        assert!(binder_indices_ok(&t, 0, 6));
    }
}

#[test]
fn fontana_indices_stay_within_bounds() {
    let mut g = fontana(1, 7, 5);
    for t in g.generate_n(200) {
        assert!(node_indices_ok(&t, 0, 3));
    }
}
