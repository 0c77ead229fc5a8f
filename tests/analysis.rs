use alchemy::config::{ConfigSeed, Reactor};
use alchemy::soup::Soup;
use lambda_calculus::{abs, app, Term, Var};

fn empty_soup() -> Soup {
    let mut cfg = Reactor::new();
    cfg.seed = ConfigSeed::new([0; 32]);
    Soup::from_config(&cfg).unwrap()
}

fn soup_of(terms: Vec<Term>) -> Soup {
    let mut s = empty_soup();
    s.add_lambda_expressions(terms);
    s
}

fn i() -> Term {
    abs(Var(1))
}

fn k() -> Term {
    abs(abs(Var(2)))
}

fn s() -> Term {
    abs(abs(abs(app(app(Var(3), Var(1)), app(Var(2), Var(1))))))
}

#[test]
fn jaccard_of_a_soup_with_itself_is_one() {
    let a = soup_of(vec![i(), k(), k(), s()]);
    let (num, den) = a.jacard_index(&a);
    assert_eq!(num, den);
    assert_eq!(den, 4);
}

#[test]
fn jaccard_of_empty_soups_is_one() {
    let a = empty_soup();
    let b = empty_soup();
    assert_eq!(a.jacard_index(&b), (1, 1));
}

#[test]
fn jaccard_with_duplicates_is_one_half() {
    let a = soup_of(vec![i(), i()]);
    let b = soup_of(vec![i()]);
    assert_eq!(a.jacard_index(&b), (1, 2));
    assert_eq!(b.jacard_index(&a), (1, 2));
}

#[test]
fn jaccard_is_symmetric_and_zero_against_empty() {
    let a = soup_of(vec![i(), k(), k(), s()]);
    let b = soup_of(vec![k(), s(), s()]);
    assert_eq!(a.jacard_index(&b), (2, 5));
    assert_eq!(b.jacard_index(&a), (2, 5));
    assert_eq!(a.jacard_index(&empty_soup()), (0, 4));
    assert_eq!(empty_soup().jacard_index(&a), (0, 4));
}

#[test]
fn unique_expressions_in_order_of_first_occurrence() {
    let a = soup_of(vec![k(), i(), k(), s(), i()]);
    assert_eq!(a.unique_expressions(), vec![k(), i(), s()]);
    assert!(empty_soup().unique_expressions().is_empty());
}

#[test]
fn expression_counts_per_term() {
    let a = soup_of(vec![k(), i(), k(), s(), k()]);
    assert_eq!(a.expression_counts(), vec![(k(), 3), (i(), 1), (s(), 1)]);
    assert_eq!(a.population_of(&k()), 3);
    assert_eq!(a.population_of(&abs(Var(2))), 0);
}

#[test]
fn most_frequent_first_ties_by_first_occurrence() {
    let a = soup_of(vec![s(), i(), k(), k(), i(), s(), k()]);
    assert_eq!(a.k_most_frequent_exprs(1), vec![k()]);
    assert_eq!(a.k_most_frequent_exprs(2), vec![k(), s()]);
    assert_eq!(a.k_most_frequent_exprs(3), vec![k(), s(), i()]);
    assert_eq!(a.k_most_frequent_exprs(10), vec![k(), s(), i()]);
    assert!(a.k_most_frequent_exprs(0).is_empty());
}

#[test]
fn test_particles_count_by_their_term() {
    let mut a = soup_of(vec![i()]);
    a.add_test_expressions(vec![i()]);
    assert_eq!(a.expression_counts(), vec![(i(), 2)]);
}
