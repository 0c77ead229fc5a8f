//! Lambda particles and the alchemy collider, which reacts two particles by bounded
//! β-reduction under the configured reaction rules.
use vstd::prelude::*;
use lambda_calculus::reduction::Order;
use lambda_calculus::term::Notation;
use lambda_calculus::Term;
use crate::collidable::{Collider, Particle, Residue};
use crate::config::{ConfigError, Reactor};
use crate::term::{
    app, church_true, has_free_at, has_two_args, has_two_args_spec, identity, is_alpha_equivalent, identity_term,
    is_normal, is_normal_form, is_truthy, is_truthy_spec, mk_app, parsed, reduced, size_of,
    term_size, true_term, uses_both_arguments, uses_both_arguments_spec,
};

verus! {

/// Step budget of the reduction that applies a test particle to its candidate.
pub const TEST_REDUCTION_LIMIT: usize = 32000;

/// Size budget of the reduction that applies a test particle to its candidate.
pub const TEST_SIZE_LIMIT: usize = 16000;

/// How many copies of a candidate a passed test hands back.
pub const AMPLIFICATION: usize = 100;

/// Why a collision produced nothing.
#[derive(Clone, Copy, Debug, PartialEq, Eq, Structural)]
pub enum LambdaCollisionError {
    ExceedsReductionLimit,
    NotEnoughExpressions,
    IsIdentity,
    IsParent,
    HasFreeVariables,
    ExceedsDepthLimit,
    RecursiveArgument,
    BadArgument,
}

impl LambdaCollisionError {
    /// A sentence describing the failure.
    pub fn message(&self) -> (r: &'static str) {
        match self {
            LambdaCollisionError::IsIdentity => "collision result is identity function",
            LambdaCollisionError::IsParent => "collision result is isomorphic to parent",
            LambdaCollisionError::ExceedsReductionLimit => "collision exceeds reduction limit",
            LambdaCollisionError::NotEnoughExpressions => "not enough expressions for further reactions",
            LambdaCollisionError::HasFreeVariables => "collision result has free variables",
            LambdaCollisionError::ExceedsDepthLimit => "expression exceeds depth limit during reduction",
            LambdaCollisionError::RecursiveArgument => "argument is recursive",
            LambdaCollisionError::BadArgument => "argument is truth-like or doesn't use all of own arguments",
        }
    }
}

/// A term in the soup, tagged as inert or as a test.
#[derive(Debug)]
pub struct LambdaParticle {
    pub expr: Term,
    /// A test particle checks the particle it collides with instead of reacting with it.
    pub recursive: bool,
}

impl Clone for LambdaParticle {
    fn clone(&self) -> (r: Self)
        ensures
            r == *self,
    {
        LambdaParticle { expr: self.expr.clone(), recursive: self.recursive }
    }
}

impl LambdaParticle {
    pub fn new(expr: Term, recursive: bool) -> (r: LambdaParticle)
        ensures
            r == (LambdaParticle { expr, recursive }),
    {
        LambdaParticle { expr, recursive }
    }

    pub fn get_underlying_term(&self) -> (r: &Term)
        ensures
            *r == self.expr,
    {
        &self.expr
    }

    pub fn is_recursive(&self) -> (r: bool)
        ensures
            r == self.recursive,
    {
        self.recursive
    }
}

impl Particle for LambdaParticle {
    fn compose(&self, other: &Self) -> (r: Self)
        ensures
            r == (LambdaParticle { expr: mk_app(self.expr, other.expr), recursive: false }),
    {
        LambdaParticle { expr: app(self.expr.clone(), other.expr.clone()), recursive: false }
    }

    fn is_isomorphic_to(&self, other: &Self) -> (r: bool)
        ensures
            r == (self.expr == other.expr),
    {
        is_alpha_equivalent(&self.expr, &other.expr)
    }
}

/// The collider: reaction rules, budgets and the filters applied to products.
#[derive(Debug)]
pub struct AlchemyCollider {
    /// Step budget of a reduction.
    pub rlimit: usize,
    /// Size budget of every intermediate term.
    pub slimit: usize,
    /// Reject every collision whose left operand is a test.
    pub disallow_recursive: bool,
    pub reaction_rules: Vec<Term>,
    pub discard_copy_actions: bool,
    pub discard_identity: bool,
    pub discard_free_variable_expressions: bool,
}

/// The contents of an `AlchemyCollider`.
pub struct ColliderModel {
    pub rlimit: usize,
    pub slimit: usize,
    pub disallow_recursive: bool,
    pub rules: Seq<Term>,
    pub discard_copy_actions: bool,
    pub discard_identity: bool,
    pub discard_free_variable_expressions: bool,
}

impl View for AlchemyCollider {
    type V = ColliderModel;

    open spec fn view(&self) -> ColliderModel {
        ColliderModel {
            rlimit: self.rlimit,
            slimit: self.slimit,
            disallow_recursive: self.disallow_recursive,
            rules: self.reaction_rules@,
            discard_copy_actions: self.discard_copy_actions,
            discard_identity: self.discard_identity,
            discard_free_variable_expressions: self.discard_free_variable_expressions,
        }
    }
}

impl Clone for AlchemyCollider {
    fn clone(&self) -> (r: Self)
        ensures
            r@ == self@,
    {
        let mut rules: Vec<Term> = Vec::new();
        let mut i: usize = 0;
        while i < self.reaction_rules.len()
            invariant
                i <= self.reaction_rules@.len(),
                rules@ == self.reaction_rules@.take(i as int),
            decreases self.reaction_rules@.len() - i,
        {
            rules.push(self.reaction_rules[i].clone());
            proof {
                assert(rules@ =~= self.reaction_rules@.take(i + 1));
            }
            i += 1;
        }
        proof {
            assert(rules@ =~= self.reaction_rules@);
        }
        AlchemyCollider {
            rlimit: self.rlimit,
            slimit: self.slimit,
            disallow_recursive: self.disallow_recursive,
            reaction_rules: rules,
            discard_copy_actions: self.discard_copy_actions,
            discard_identity: self.discard_identity,
            discard_free_variable_expressions: self.discard_free_variable_expressions,
        }
    }
}

/// The particles a successful collision produced, with its bookkeeping.
#[derive(Debug)]
pub struct LambdaCollisionOk {
    pub results: Vec<LambdaParticle>,
    /// Reduction steps, one entry per rule applied.
    pub reductions: Vec<usize>,
    /// Size of each reduced product, one entry per rule applied.
    pub sizes: Vec<usize>,
    /// Size of the left operand.
    pub left_size: usize,
    /// Size of the right operand.
    pub right_size: usize,
}

/// The contents of a `LambdaCollisionOk`.
pub struct ResidueModel {
    pub results: Seq<LambdaParticle>,
    pub reductions: Seq<usize>,
    pub sizes: Seq<usize>,
    pub left_size: usize,
    pub right_size: usize,
}

impl View for LambdaCollisionOk {
    type V = ResidueModel;

    open spec fn view(&self) -> ResidueModel {
        ResidueModel {
            results: self.results@,
            reductions: self.reductions@,
            sizes: self.sizes@,
            left_size: self.left_size,
            right_size: self.right_size,
        }
    }
}

impl Residue<LambdaParticle> for LambdaCollisionOk {
    fn particles(&self) -> (r: Vec<LambdaParticle>)
        ensures
            r@ == self.results@,
    {
        let mut r: Vec<LambdaParticle> = Vec::new();
        let mut i: usize = 0;
        while i < self.results.len()
            invariant
                i <= self.results@.len(),
                r@ == self.results@.take(i as int),
            decreases self.results@.len() - i,
        {
            r.push(self.results[i].clone());
            proof {
                assert(self.results@.take(i + 1) =~= self.results@.take(i as int).push(
                    self.results@[i as int],
                ));
            }
            i += 1;
        }
        proof {
            assert(self.results@.take(i as int) =~= self.results@);
        }
        r
    }

    fn count(&self) -> (r: usize)
        ensures
            r == self.results@.len(),
    {
        self.results.len()
    }
}

/// A size as a `usize`, saturated.
pub open spec fn sat(n: nat) -> usize {
    if n <= usize::MAX {
        n as usize
    } else {
        usize::MAX
    }
}

/// Reduce `t` step by step under hybrid applicative order, at most `fuel` steps, failing
/// as soon as an intermediate term is larger than `slimit`. On success: the term reached
/// and the number of steps taken (below `fuel` exactly when a normal form was reached).
pub open spec fn bounded_reduce(t: Term, fuel: nat, slimit: usize) -> Result<
    (Term, nat),
    LambdaCollisionError,
>
    decreases fuel,
{
    if fuel == 0 || is_normal(t) {
        Ok((t, 0))
    } else {
        let t1 = reduced(t, Order::HAP, 1);
        if sat(size_of(t1)) > slimit {
            Err(LambdaCollisionError::ExceedsDepthLimit)
        } else {
            match bounded_reduce(t1, (fuel - 1) as nat, slimit) {
                Ok((u, k)) => Ok((u, k + 1)),
                Err(e) => Err(e),
            }
        }
    }
}

pub open spec fn shift_steps(r: Result<(Term, nat), LambdaCollisionError>, n: nat) -> Result<
    (Term, nat),
    LambdaCollisionError,
> {
    match r {
        Ok((u, k)) => Ok((u, k + n)),
        Err(e) => Err(e),
    }
}

proof fn lemma_bounded_reduce_steps(t: Term, fuel: nat, slimit: usize)
    ensures
        bounded_reduce(t, fuel, slimit) matches Ok((u, k)) ==> k <= fuel && (k < fuel ==> is_normal(u)),
    decreases fuel,
{
    if fuel > 0 && !is_normal(t) {
        lemma_bounded_reduce_steps(reduced(t, Order::HAP, 1), (fuel - 1) as nat, slimit);
    }
}

/// `k` reduction steps from `t`, each as `Term::reduce` performs one.
pub open spec fn steps_from(t: Term, k: nat) -> Term
    decreases k,
{
    if k == 0 {
        t
    } else {
        steps_from(reduced(t, Order::HAP, 1), (k - 1) as nat)
    }
}

/// A normal form stays as it is, whatever the budget.
pub proof fn lemma_normal_form_is_fixed(t: Term, fuel: nat, slimit: usize)
    requires
        is_normal(t),
    ensures
        bounded_reduce(t, fuel, slimit) == Ok::<(Term, nat), LambdaCollisionError>((t, 0)),
{
}

/// What a successful budgeted reduction returns is a normal form, so reducing it again,
/// with any budget, returns it unchanged after no step.
pub proof fn lemma_result_is_fixed(t: Term, rlimit: usize, slimit: usize, fuel: nat, slimit2: usize)
    requires
        budgeted_reduce(t, rlimit, slimit) is Ok,
    ensures
        ({
            let u = budgeted_reduce(t, rlimit, slimit)->Ok_0.0;
            &&& is_normal(u)
            &&& bounded_reduce(u, fuel, slimit2) == Ok::<(Term, nat), LambdaCollisionError>((u, 0))
        }),
{
    lemma_bounded_reduce_steps(t, rlimit as nat, slimit);
}

/// Using up the step budget short of a normal form is `ExceedsReductionLimit`, not
/// success.
pub proof fn lemma_budget_exhausted(t: Term, rlimit: usize, slimit: usize)
    requires
        bounded_reduce(t, rlimit as nat, slimit) matches Ok((u, n)) && n == rlimit && !is_normal(u),
    ensures
        budgeted_reduce(t, rlimit, slimit) == Err::<(Term, nat), LambdaCollisionError>(
            LambdaCollisionError::ExceedsReductionLimit,
        ),
{
}

/// An intermediate term larger than the size budget, reached within the step budget,
/// makes the reduction fail with `ExceedsDepthLimit`.
pub proof fn lemma_oversized_intermediate(t: Term, k: nat, fuel: nat, slimit: usize)
    requires
        k < fuel,
        forall|j: nat| j <= k ==> !is_normal(#[trigger] steps_from(t, j)),
        sat(size_of(steps_from(t, k + 1))) > slimit,
    ensures
        bounded_reduce(t, fuel, slimit) == Err::<(Term, nat), LambdaCollisionError>(
            LambdaCollisionError::ExceedsDepthLimit,
        ),
    decreases k,
{
    assert(!is_normal(steps_from(t, 0)));
    let t1 = reduced(t, Order::HAP, 1);
    if k > 0 && sat(size_of(t1)) <= slimit {
        assert forall|j: nat| j <= (k - 1) as nat implies !is_normal(#[trigger] steps_from(t1, j)) by {
            assert(steps_from(t, j + 1) == steps_from(t1, j));
            assert(!is_normal(steps_from(t, j + 1)));
        }
        assert(steps_from(t, k + 1) == steps_from(t1, k));
        lemma_oversized_intermediate(t1, (k - 1) as nat, (fuel - 1) as nat, slimit);
    } else if k == 0 {
        assert(steps_from(t, 1) == steps_from(t1, 0));
    }
}

/// Bounded reduction followed by the step-budget check: the budget is exceeded when it
/// was used up and the term is still not in normal form.
pub open spec fn budgeted_reduce(t: Term, rlimit: usize, slimit: usize) -> Result<
    (Term, nat),
    LambdaCollisionError,
> {
    match bounded_reduce(t, rlimit as nat, slimit) {
        Err(e) => Err(e),
        Ok((u, n)) => if n == rlimit && !is_normal(u) {
            Err(LambdaCollisionError::ExceedsReductionLimit)
        } else {
            Ok((u, n))
        },
    }
}

/// The product of one rule applied to two inert terms, or why it is rejected.
pub open spec fn rule_outcome(
    c: ColliderModel,
    rule: Term,
    l: Term,
    r: Term,
    right_is_test: bool,
) -> Result<(Term, nat), LambdaCollisionError> {
    match budgeted_reduce(mk_app(mk_app(rule, l), r), c.rlimit, c.slimit) {
        Err(e) => Err(e),
        Ok((u, n)) => if right_is_test {
            Err(LambdaCollisionError::RecursiveArgument)
        } else if c.discard_identity && u == identity_term() {
            Err(LambdaCollisionError::IsIdentity)
        } else if c.discard_copy_actions && (u == l || u == r) {
            Err(LambdaCollisionError::IsParent)
        } else if c.discard_free_variable_expressions && has_free_at(u, 0) {
            Err(LambdaCollisionError::HasFreeVariables)
        } else {
            Ok((u, n))
        },
    }
}

/// The products of the first `i` rules, or the first rejection among them.
pub open spec fn rule_outcomes(
    c: ColliderModel,
    l: Term,
    r: Term,
    right_is_test: bool,
    i: nat,
) -> Result<Seq<(Term, nat)>, LambdaCollisionError>
    decreases i,
{
    if i == 0 {
        Ok(seq![])
    } else {
        match rule_outcomes(c, l, r, right_is_test, (i - 1) as nat) {
            Err(e) => Err(e),
            Ok(s) => match rule_outcome(c, c.rules[i - 1], l, r, right_is_test) {
                Err(e) => Err(e),
                Ok(x) => Ok(s.push(x)),
            },
        }
    }
}

proof fn lemma_rule_outcomes_err_persists(
    c: ColliderModel,
    l: Term,
    r: Term,
    right_is_test: bool,
    i: nat,
    n: nat,
)
    requires
        i <= n,
        rule_outcomes(c, l, r, right_is_test, i) is Err,
    ensures
        rule_outcomes(c, l, r, right_is_test, n) == rule_outcomes(c, l, r, right_is_test, i),
    decreases n - i,
{
    if i < n {
        lemma_rule_outcomes_err_persists(c, l, r, right_is_test, i, (n - 1) as nat);
    }
}

proof fn lemma_inert_outcome_err(
    c: ColliderModel,
    left: LambdaParticle,
    right: LambdaParticle,
    i: nat,
    e: LambdaCollisionError,
)
    requires
        i <= c.rules.len(),
        rule_outcomes(c, left.expr, right.expr, right.recursive, i) == Err::<
            Seq<(Term, nat)>,
            LambdaCollisionError,
        >(e),
    ensures
        inert_outcome(c, left, right) == Err::<ResidueModel, LambdaCollisionError>(e),
{
    lemma_rule_outcomes_err_persists(
        c,
        left.expr,
        right.expr,
        right.recursive,
        i,
        c.rules.len(),
    );
}

pub open spec fn products_of(s: Seq<(Term, nat)>) -> Seq<LambdaParticle> {
    s.map_values(|x: (Term, nat)| LambdaParticle { expr: x.0, recursive: false })
}

pub open spec fn steps_of(s: Seq<(Term, nat)>) -> Seq<usize> {
    s.map_values(|x: (Term, nat)| x.1 as usize)
}

pub open spec fn sizes_of(s: Seq<(Term, nat)>) -> Seq<usize> {
    s.map_values(|x: (Term, nat)| sat(size_of(x.0)))
}

/// Outcome of a collision whose left operand is inert: one product per rule.
pub open spec fn inert_outcome(c: ColliderModel, left: LambdaParticle, right: LambdaParticle) -> Result<
    ResidueModel,
    LambdaCollisionError,
> {
    match rule_outcomes(c, left.expr, right.expr, right.recursive, c.rules.len()) {
        Err(e) => Err(e),
        Ok(s) => Ok(
            ResidueModel {
                results: products_of(s),
                reductions: steps_of(s),
                sizes: sizes_of(s),
                left_size: sat(size_of(left.expr)),
                right_size: sat(size_of(right.expr)),
            },
        ),
    }
}

/// Whether a candidate may face a test: two arguments, both used, and not truth-like.
pub open spec fn is_testable(t: Term) -> bool {
    !is_truthy_spec(t) && uses_both_arguments_spec(t) && has_two_args_spec(t)
}

/// Outcome of a collision whose left operand is a test: the candidate, amplified, when
/// the test reduces to `true`; otherwise the test alone.
pub open spec fn test_outcome(left: LambdaParticle, right: LambdaParticle) -> Result<
    ResidueModel,
    LambdaCollisionError,
> {
    if !is_testable(right.expr) {
        Err(LambdaCollisionError::BadArgument)
    } else {
        match budgeted_reduce(mk_app(left.expr, right.expr), TEST_REDUCTION_LIMIT, TEST_SIZE_LIMIT) {
            Err(e) => Err(e),
            Ok((u, n)) => Ok(
                ResidueModel {
                    results: if u == true_term() {
                        Seq::new(AMPLIFICATION as nat, |i: int| right)
                    } else {
                        seq![left]
                    },
                    reductions: seq![n as usize],
                    sizes: seq![sat(size_of(u))],
                    left_size: sat(size_of(left.expr)),
                    right_size: sat(size_of(right.expr)),
                },
            ),
        }
    }
}

pub open spec fn collide_spec(c: ColliderModel, left: LambdaParticle, right: LambdaParticle) -> Result<
    ResidueModel,
    LambdaCollisionError,
> {
    if left.recursive {
        if c.disallow_recursive {
            Err(LambdaCollisionError::RecursiveArgument)
        } else {
            test_outcome(left, right)
        }
    } else {
        inert_outcome(c, left, right)
    }
}

pub open spec fn result_view(r: Result<LambdaCollisionOk, LambdaCollisionError>) -> Result<
    ResidueModel,
    LambdaCollisionError,
> {
    match r {
        Ok(ok) => Ok(ok@),
        Err(e) => Err(e),
    }
}

/// Reduce `expr` in place under hybrid applicative order, one step at a time, at most
/// `rlimit` steps; fail with `ExceedsDepthLimit` as soon as the term grows beyond
/// `slimit` nodes. Returns the number of steps taken.
pub fn reduce_with_limit(expr: &mut Term, rlimit: usize, slimit: usize) -> (r: Result<
    usize,
    LambdaCollisionError,
>)
    ensures
        match bounded_reduce(*old(expr), rlimit as nat, slimit) {
            Ok((u, k)) => r == Ok::<usize, LambdaCollisionError>(k as usize) && *final(expr) == u,
            Err(e) => r == Err::<usize, LambdaCollisionError>(e),
        },
{
    let ghost start = *expr;
    let mut n: usize = 0;
    while n < rlimit
        invariant
            n <= rlimit,
            start == *old(expr),
            bounded_reduce(start, rlimit as nat, slimit) == shift_steps(
                bounded_reduce(*expr, (rlimit - n) as nat, slimit),
                n as nat,
            ),
        ensures
            n == rlimit || is_normal(*expr),
        decreases rlimit - n,
    {
        let ghost before = *expr;
        let steps = expr.reduce(Order::HAP, 1);
        if steps == 0 {
            break ;
        }
        proof {
            assert(bounded_reduce(before, (rlimit - n) as nat, slimit) == (if sat(size_of(*expr))
                > slimit {
                Err(LambdaCollisionError::ExceedsDepthLimit)
            } else {
                shift_steps(bounded_reduce(*expr, (rlimit - n - 1) as nat, slimit), 1)
            }));
        }
        let size = term_size(expr);
        if size > slimit {
            return Err(LambdaCollisionError::ExceedsDepthLimit);
        }
        n += 1;
    }
    Ok(n)
}

/// Reduce within the budgets, then fail with `ExceedsReductionLimit` when the step budget
/// was used up short of a normal form.
fn reduce_within_budget(expr: &mut Term, rlimit: usize, slimit: usize) -> (r: Result<
    usize,
    LambdaCollisionError,
>)
    ensures
        match budgeted_reduce(*old(expr), rlimit, slimit) {
            Ok((u, k)) => r == Ok::<usize, LambdaCollisionError>(k as usize) && *final(expr) == u,
            Err(e) => r == Err::<usize, LambdaCollisionError>(e),
        },
{
    proof {
        lemma_bounded_reduce_steps(*expr, rlimit as nat, slimit);
    }
    let n = match reduce_with_limit(expr, rlimit, slimit) {
        Ok(n) => n,
        Err(e) => return Err(e),
    };
    if n == rlimit && !is_normal_form(expr) {
        return Err(LambdaCollisionError::ExceedsReductionLimit);
    }
    Ok(n)
}

/// The collider that a configuration describes, its rules parsed in classic notation.
pub open spec fn configured_collider(cfg: Reactor) -> ColliderModel {
    ColliderModel {
        rlimit: cfg.reduction_cutoff,
        slimit: cfg.size_cutoff,
        disallow_recursive: false,
        rules: Seq::new(
            cfg.rules@.len(),
            |i: int| parsed(cfg.rules@[i]@, Notation::Classic)->Some_0,
        ),
        discard_copy_actions: cfg.discard_copy_actions,
        discard_identity: cfg.discard_identity,
        discard_free_variable_expressions: cfg.discard_free_variable_expressions,
    }
}

impl AlchemyCollider {
    /// Build the collider of a configuration, parsing its rules in classic notation.
    pub fn from_config(cfg: &Reactor) -> (r: Result<AlchemyCollider, ConfigError>)
        ensures
            match r {
                Ok(c) => {
                    &&& forall|i: int|
                        0 <= i < cfg.rules@.len() ==> #[trigger] parsed(cfg.rules@[i]@, Notation::Classic) is Some
                    &&& c@ == configured_collider(*cfg)
                },
                Err(ConfigError::UnparsableRule(k)) => {
                    &&& k < cfg.rules@.len()
                    &&& parsed(cfg.rules@[k as int]@, Notation::Classic) is None
                    &&& forall|i: int|
                        0 <= i < k ==> #[trigger] parsed(cfg.rules@[i]@, Notation::Classic) is Some
                },
            },
    {
        let mut rules: Vec<Term> = Vec::new();
        let mut i: usize = 0;
        while i < cfg.rules.len()
            invariant
                i <= cfg.rules@.len(),
                rules@.len() == i,
                forall|j: int| 0 <= j < i ==> #[trigger] parsed(cfg.rules@[j]@, Notation::Classic) is Some,
                forall|j: int|
                    0 <= j < i ==> #[trigger] rules@[j] == parsed(cfg.rules@[j]@, Notation::Classic)->Some_0,
            decreases cfg.rules@.len() - i,
        {
            match lambda_calculus::parse(cfg.rules[i].as_str(), Notation::Classic) {
                Ok(t) => rules.push(t),
                Err(_) => return Err(ConfigError::UnparsableRule(i)),
            }
            i += 1;
        }
        proof {
            assert(rules@ =~= configured_collider(*cfg).rules);
        }
        Ok(
            AlchemyCollider {
                rlimit: cfg.reduction_cutoff,
                slimit: cfg.size_cutoff,
                disallow_recursive: false,
                reaction_rules: rules,
                discard_copy_actions: cfg.discard_copy_actions,
                discard_identity: cfg.discard_identity,
                discard_free_variable_expressions: cfg.discard_free_variable_expressions,
            },
        )
    }

    fn recursive_collide(&self, left: LambdaParticle, right: LambdaParticle) -> (r: Result<
        LambdaCollisionOk,
        LambdaCollisionError,
    >)
        ensures
            result_view(r) == test_outcome(left, right),
    {
        let good_signature = uses_both_arguments(&right.expr) && has_two_args(&right.expr);
        if is_truthy(&right.expr) || !good_signature {
            return Err(LambdaCollisionError::BadArgument);
        }
        let left_size = term_size(&left.expr);
        let right_size = term_size(&right.expr);
        let mut expr = app(left.expr.clone(), right.expr.clone());
        let n = match reduce_within_budget(&mut expr, TEST_REDUCTION_LIMIT, TEST_SIZE_LIMIT) {
            Ok(n) => n,
            Err(e) => return Err(e),
        };
        let mut reductions: Vec<usize> = Vec::new();
        reductions.push(n);
        let mut sizes: Vec<usize> = Vec::new();
        sizes.push(term_size(&expr));
        let mut results: Vec<LambdaParticle> = Vec::new();
        if is_alpha_equivalent(&expr, &church_true()) {
            let mut k: usize = 0;
            while k < AMPLIFICATION
                invariant
                    k <= AMPLIFICATION,
                    results@ == Seq::new(k as nat, |i: int| right),
                decreases AMPLIFICATION - k,
            {
                results.push(right.clone());
                proof {
                    assert(results@ =~= Seq::new((k + 1) as nat, |i: int| right));
                }
                k += 1;
            }
        } else {
            results.push(left);
            proof {
                assert(results@ =~= seq![left]);
            }
        }
        proof {
            assert(reductions@ =~= seq![n]);
            assert(sizes@ =~= seq![sizes@[0]]);
        }
        Ok(LambdaCollisionOk { results, reductions, sizes, left_size, right_size })
    }

    /// One rule applied to two inert terms: the reduced product and its step count.
    fn apply_rule(&self, rule: &Term, lt: &Term, rt: &Term, right_is_test: bool) -> (r: Result<
        (Term, usize),
        LambdaCollisionError,
    >)
        ensures
            match rule_outcome(self@, *rule, *lt, *rt, right_is_test) {
                Ok((u, k)) => r == Ok::<(Term, usize), LambdaCollisionError>((u, k as usize)) && k
                    <= usize::MAX,
                Err(e) => r == Err::<(Term, usize), LambdaCollisionError>(e),
            },
    {
        let mut expr = app(app(rule.clone(), lt.clone()), rt.clone());
        proof {
            lemma_bounded_reduce_steps(expr, self.rlimit as nat, self.slimit);
        }
        let n = match reduce_within_budget(&mut expr, self.rlimit, self.slimit) {
            Ok(n) => n,
            Err(e) => return Err(e),
        };
        if right_is_test {
            return Err(LambdaCollisionError::RecursiveArgument);
        }
        if self.discard_identity && is_alpha_equivalent(&expr, &identity()) {
            return Err(LambdaCollisionError::IsIdentity);
        }
        if self.discard_copy_actions && (is_alpha_equivalent(&expr, lt) || is_alpha_equivalent(
            &expr,
            rt,
        )) {
            return Err(LambdaCollisionError::IsParent);
        }
        if self.discard_free_variable_expressions && expr.has_free_variables() {
            return Err(LambdaCollisionError::HasFreeVariables);
        }
        Ok((expr, n))
    }

    fn nonrecursive_collide(&self, left: LambdaParticle, right: LambdaParticle) -> (r: Result<
        LambdaCollisionOk,
        LambdaCollisionError,
    >)
        ensures
            result_view(r) == inert_outcome(self@, left, right),
    {
        let ghost c = self@;
        let mut results: Vec<LambdaParticle> = Vec::new();
        let mut reductions: Vec<usize> = Vec::new();
        let mut sizes: Vec<usize> = Vec::new();
        let mut i: usize = 0;
        while i < self.reaction_rules.len()
            invariant
                c == self@,
                i <= self.reaction_rules@.len(),
                rule_outcomes(c, left.expr, right.expr, right.recursive, i as nat) is Ok,
                results@ == products_of(
                    rule_outcomes(c, left.expr, right.expr, right.recursive, i as nat)->Ok_0,
                ),
                reductions@ == steps_of(
                    rule_outcomes(c, left.expr, right.expr, right.recursive, i as nat)->Ok_0,
                ),
                sizes@ == sizes_of(
                    rule_outcomes(c, left.expr, right.expr, right.recursive, i as nat)->Ok_0,
                ),
            decreases self.reaction_rules@.len() - i,
        {
            let ghost prev = rule_outcomes(c, left.expr, right.expr, right.recursive, i as nat)->Ok_0;
            let outcome = self.apply_rule(&self.reaction_rules[i], &left.expr, &right.expr, right.recursive);
            match outcome {
                Ok((expr, n)) => {
                    let size = term_size(&expr);
                    let ghost x = (expr, n as nat);
                    results.push(LambdaParticle { expr, recursive: false });
                    reductions.push(n);
                    sizes.push(size);
                    proof {
                        let s = rule_outcomes(c, left.expr, right.expr, right.recursive, (i + 1) as nat)->Ok_0;
                        assert(s == prev.push(x));
                        assert(results@ =~= products_of(s));
                        assert(reductions@ =~= steps_of(s));
                        assert(sizes@ =~= sizes_of(s));
                    }
                },
                Err(e) => {
                    proof {
                        lemma_inert_outcome_err(c, left, right, (i + 1) as nat, e);
                    }
                    return Err(e);
                },
            }
            i += 1;
        }
        let left_size = term_size(&left.expr);
        let right_size = term_size(&right.expr);
        Ok(LambdaCollisionOk { results, reductions, sizes, left_size, right_size })
    }
}

impl Collider<LambdaParticle, LambdaCollisionOk, LambdaCollisionError> for AlchemyCollider {
    /// Apply every rule to the two operands, `((rule left) right)`, or, when the left one
    /// is a test, apply it to the right one.
    fn collide(&self, left: LambdaParticle, right: LambdaParticle) -> (r: Result<
        LambdaCollisionOk,
        LambdaCollisionError,
    >)
        ensures
            result_view(r) == collide_spec(self@, left, right),
    {
        if left.recursive {
            if self.disallow_recursive {
                return Err(LambdaCollisionError::RecursiveArgument);
            }
            self.recursive_collide(left, right)
        } else {
            self.nonrecursive_collide(left, right)
        }
    }
}

} // verus!
