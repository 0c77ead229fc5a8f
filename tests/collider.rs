use alchemy::collidable::{Collider, Particle, Residue};
use alchemy::config::{ConfigError, ConfigSeed, Reactor};
use alchemy::lambda::{
    reduce_with_limit, AlchemyCollider, LambdaCollisionError, LambdaParticle, AMPLIFICATION,
};
use alchemy::term::{
    has_two_args, is_alpha_equivalent, is_normal_form, is_truthy, term_size, uses_both_arguments,
};
use lambda_calculus::data::num::church::{eq, succ};
use lambda_calculus::{abs, app, parse, Classic, IntoChurchNum, Term, Var, HAP};

fn config(rule: &str) -> Reactor {
    Reactor {
        rules: vec![rule.to_string()],
        discard_copy_actions: false,
        discard_identity: false,
        discard_free_variable_expressions: false,
        maintain_constant_population_size: false,
        discard_parents: false,
        reduction_cutoff: 8000,
        size_cutoff: 1000,
        seed: ConfigSeed::new([0; 32]),
    }
}

fn identity() -> Term {
    abs(Var(1))
}

fn k_comb() -> Term {
    abs(abs(Var(2)))
}

fn omega() -> Term {
    let w = abs(app(Var(1), Var(1)));
    app(w.clone(), w)
}

fn inert(t: Term) -> LambdaParticle {
    LambdaParticle::new(t, false)
}

fn test_particle(t: Term) -> LambdaParticle {
    LambdaParticle::new(t, true)
}

fn succ_test() -> Term {
    let mut t = parse(r"\eq. \a. \asucc. \f. (eq (f a) asucc)", Classic).unwrap();
    t = app(app(app(t, eq()), 3.into_church()), 4.into_church());
    t.reduce(HAP, 0);
    t
}

#[test]
fn successor_passes_its_test() {
    let collider = AlchemyCollider::from_config(&config(r"\x.\y. x y")).unwrap();
    let residue = collider
        .collide(test_particle(succ_test()), inert(succ()))
        .unwrap();
    assert_eq!(residue.count(), AMPLIFICATION);
    let copies = residue
        .particles()
        .iter()
        .filter(|p| p.expr.is_isomorphic_to(&succ()) && !p.is_recursive())
        .count();
    assert_eq!(copies, 100);
    assert_eq!(residue.reductions.len(), 1);
    assert_eq!(residue.sizes.len(), 1);
}

#[test]
fn failed_test_returns_the_test() {
    let collider = AlchemyCollider::from_config(&config(r"\x.\y. x y")).unwrap();
    // Adds two: \n.\f.\x. f (f (n f x)).
    let candidate = abs(abs(abs(app(
        Var(2),
        app(Var(2), app(app(Var(3), Var(2)), Var(1))),
    ))));
    let residue = collider
        .collide(test_particle(succ_test()), inert(candidate))
        .unwrap();
    assert_eq!(residue.count(), 1);
    assert!(residue.results[0].is_recursive());
    assert_eq!(residue.results[0].expr, succ_test());
}

#[test]
fn truthy_candidate_is_a_bad_argument() {
    let collider = AlchemyCollider::from_config(&config(r"\x.\y. x y")).unwrap();
    let r = collider.collide(test_particle(succ_test()), inert(k_comb()));
    assert_eq!(r.unwrap_err(), LambdaCollisionError::BadArgument);
}

#[test]
fn test_on_the_right_is_a_recursive_argument() {
    let collider = AlchemyCollider::from_config(&config(r"\x.\y. x y")).unwrap();
    let r = collider.collide(inert(identity()), test_particle(identity()));
    assert_eq!(r.unwrap_err(), LambdaCollisionError::RecursiveArgument);
}

#[test]
fn identity_filter() {
    let mut cfg = config(r"\x.\y. x y");
    cfg.discard_identity = true;
    let collider = AlchemyCollider::from_config(&cfg).unwrap();
    let r = collider.collide(inert(identity()), inert(identity()));
    assert_eq!(r.unwrap_err(), LambdaCollisionError::IsIdentity);
}

#[test]
fn copy_filter() {
    let mut cfg = config(r"\x.\y. x");
    cfg.discard_copy_actions = true;
    let collider = AlchemyCollider::from_config(&cfg).unwrap();
    let r = collider.collide(inert(k_comb()), inert(k_comb()));
    assert_eq!(r.unwrap_err(), LambdaCollisionError::IsParent);
}

#[test]
fn free_variable_filter() {
    let mut cfg = config(r"\x.\y. x y");
    cfg.discard_free_variable_expressions = true;
    let collider = AlchemyCollider::from_config(&cfg).unwrap();
    // (\. 2) applied to I leaves the free variable 1.
    let r = collider.collide(inert(abs(Var(2))), inert(identity()));
    assert_eq!(r.unwrap_err(), LambdaCollisionError::HasFreeVariables);
}

#[test]
fn product_of_a_rule() {
    let collider = AlchemyCollider::from_config(&config(r"\x.\y. x y")).unwrap();
    let residue = collider.collide(inert(k_comb()), inert(identity())).unwrap();
    // K I reduces to \y. I, in two steps.
    assert_eq!(residue.count(), 1);
    assert_eq!(residue.results[0].expr, abs(abs(Var(1))));
    assert!(!residue.results[0].is_recursive());
    assert_eq!(residue.reductions, vec![3]);
    assert_eq!(residue.sizes, vec![3]);
    assert_eq!(residue.left_size, 3);
    assert_eq!(residue.right_size, 2);
}

#[test]
fn bounded_divergence() {
    let mut cfg = config(r"\x.\y. x y");
    cfg.reduction_cutoff = 100;
    cfg.size_cutoff = 10000;
    let collider = AlchemyCollider::from_config(&cfg).unwrap();
    let r = collider.collide(inert(omega()), inert(omega()));
    assert_eq!(r.unwrap_err(), LambdaCollisionError::ExceedsReductionLimit);
}

#[test]
fn exactly_hitting_the_step_budget_fails() {
    let mut cfg = config(r"\x.\y. x y");
    cfg.reduction_cutoff = 1;
    let collider = AlchemyCollider::from_config(&cfg).unwrap();
    // Two steps are needed: the rule, then I I.
    let r = collider.collide(inert(identity()), inert(identity()));
    assert_eq!(r.unwrap_err(), LambdaCollisionError::ExceedsReductionLimit);
    let mut cfg = config(r"\x.\y. x y");
    cfg.reduction_cutoff = 3;
    let collider = AlchemyCollider::from_config(&cfg).unwrap();
    let residue = collider.collide(inert(identity()), inert(identity())).unwrap();
    assert_eq!(residue.reductions, vec![3]);
}

#[test]
fn oversized_intermediate_fails() {
    let mut cfg = config(r"\x.\y. x y");
    cfg.size_cutoff = 4;
    let collider = AlchemyCollider::from_config(&cfg).unwrap();
    let r = collider.collide(inert(identity()), inert(omega()));
    assert_eq!(r.unwrap_err(), LambdaCollisionError::ExceedsDepthLimit);
}

#[test]
fn unparsable_rule_is_reported() {
    let mut cfg = config(r"\x.\y. x y");
    cfg.rules.push("\\x. (".to_string());
    let r = AlchemyCollider::from_config(&cfg);
    assert_eq!(r.unwrap_err(), ConfigError::UnparsableRule(1));
}

#[test]
fn reduce_with_limit_counts_steps() {
    let mut t = app(identity(), app(identity(), k_comb()));
    assert_eq!(reduce_with_limit(&mut t, 10, 100), Ok(2));
    assert_eq!(t, k_comb());
}

#[test]
fn reducing_a_normal_form_changes_nothing() {
    let mut t = succ();
    assert!(is_normal_form(&t));
    for budget in [1usize, 5, 1000] {
        assert_eq!(reduce_with_limit(&mut t, budget, 1000), Ok(0));
        assert_eq!(t, succ());
    }
}

#[test]
fn reduce_with_limit_stops_at_the_budget() {
    let mut t = omega();
    assert_eq!(reduce_with_limit(&mut t, 7, 1000), Ok(7));
    assert!(!is_normal_form(&t));
    let mut t = app(identity(), omega());
    assert_eq!(
        reduce_with_limit(&mut t, 7, 3),
        Err(LambdaCollisionError::ExceedsDepthLimit)
    );
}

#[test]
fn shape_queries() {
    assert!(has_two_args(&succ()));
    assert!(!has_two_args(&identity()));
    assert!(is_truthy(&k_comb()));
    assert!(is_truthy(&abs(abs(abs(Var(1))))));
    assert!(!is_truthy(&identity()));
    assert!(!is_truthy(&succ()));
    assert!(uses_both_arguments(&succ()));
    assert!(!uses_both_arguments(&k_comb()));
    assert!(uses_both_arguments(&abs(abs(app(Var(1), Var(2))))));
    assert!(!uses_both_arguments(&Var(1)));
    assert_eq!(term_size(&succ()), 10);
    assert!(is_alpha_equivalent(&succ(), &succ()));
    assert!(!is_alpha_equivalent(&succ(), &k_comb()));
}

#[test]
fn particles_compose_and_compare() {
    let a = inert(k_comb());
    let b = test_particle(identity());
    let c = a.compose(&b);
    assert_eq!(c.expr, app(k_comb(), identity()));
    assert!(!c.is_recursive());
    assert!(b.is_isomorphic_to(&inert(identity())));
    assert!(!a.is_isomorphic_to(&b));
    assert_eq!(b.get_underlying_term(), &identity());
}

#[test]
fn error_messages() {
    assert_eq!(
        LambdaCollisionError::IsIdentity.message(),
        "collision result is identity function"
    );
    assert_eq!(
        LambdaCollisionError::NotEnoughExpressions.message(),
        "not enough expressions for further reactions"
    );
}
