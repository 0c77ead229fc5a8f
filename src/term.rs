//! Lambda terms as lambda_calculus represents them (de Bruijn indices, starting at 1),
//! with the structural queries that the collider and the generators rely on.
use vstd::prelude::*;
use lambda_calculus::parser::ParseError;
use lambda_calculus::reduction::Order;
use lambda_calculus::term::Notation;
use lambda_calculus::Term;

verus! {

/// Relies on lambda_calculus's `Term`: a de Bruijn-indexed lambda term with the public
/// variants `Var(usize)`, `Abs(Box<Term>)` and `App(Box<(Term, Term)>)`.
#[verifier::external_type_specification]
pub struct ExTerm(Term);

/// Relies on lambda_calculus's `Order`: a field-less enum of reduction strategies.
#[verifier::external_type_specification]
pub struct ExOrder(Order);

/// Relies on lambda_calculus's `Notation`: a field-less enum (`Classic`, `DeBruijn`).
#[verifier::external_type_specification]
pub struct ExNotation(Notation);

/// Relies on lambda_calculus's `ParseError`, carried through unread.
#[verifier::external_type_specification]
#[verifier::external_body]
pub struct ExParseError(ParseError);

/// Number of nodes of a term.
pub open spec fn size_of(t: Term) -> nat
    decreases t,
{
    match t {
        Term::Var(_) => 1,
        Term::Abs(b) => 1 + size_of(*b),
        Term::App(p) => 1 + size_of(p.0) + size_of(p.1),
    }
}

/// Whether `t`, seen under `depth` binders, holds an index that none of them binds
/// (or the undefined index 0).
pub open spec fn has_free_at(t: Term, depth: nat) -> bool
    decreases t,
{
    match t {
        Term::Var(x) => x > depth || x == 0,
        Term::Abs(b) => has_free_at(*b, depth + 1),
        Term::App(p) => has_free_at(p.0, depth) || has_free_at(p.1, depth),
    }
}

pub open spec fn is_closed(t: Term) -> bool {
    !has_free_at(t, 0)
}

/// A term is in normal form when no subterm is a redex `(λ. b) a`.
pub open spec fn is_normal(t: Term) -> bool
    decreases t,
{
    match t {
        Term::Var(_) => true,
        Term::Abs(b) => is_normal(*b),
        Term::App(p) => !(p.0 is Abs) && is_normal(p.0) && is_normal(p.1),
    }
}

pub open spec fn mk_abs(b: Term) -> Term {
    Term::Abs(Box::new(b))
}

pub open spec fn mk_app(f: Term, a: Term) -> Term {
    Term::App(Box::new((f, a)))
}

/// The identity `λx. x`.
pub open spec fn identity_term() -> Term {
    mk_abs(Term::Var(1))
}

/// Church's `true`, `λt. λf. t`.
pub open spec fn true_term() -> Term {
    mk_abs(mk_abs(Term::Var(2)))
}

/// `λ^k. v` with `k >= 2`: an abstraction chain of at least two binders that ends in a
/// variable, which answers every test alike.
pub open spec fn is_truthy_spec(t: Term) -> bool
    decreases t,
{
    match t {
        Term::Abs(b) => match *b {
            Term::Abs(v) => (*v is Var) || is_truthy_spec(mk_abs(*v)),
            _ => false,
        },
        _ => false,
    }
}

/// Whether `t` starts with two binders.
pub open spec fn has_two_args_spec(t: Term) -> bool {
    match t {
        Term::Abs(b) => *b is Abs,
        _ => false,
    }
}

/// Seen under `depth` binders, whether `t` refers to the binder whose index is `depth`
/// (the outermost) and to the binder whose index is `depth - 1` (the next one).
pub open spec fn refs_outer_two(t: Term, depth: nat) -> (bool, bool)
    decreases t,
{
    match t {
        Term::Var(n) => (n == depth, n + 1 == depth),
        Term::Abs(b) => refs_outer_two(*b, depth + 1),
        Term::App(p) => {
            let l = refs_outer_two(p.0, depth);
            let r = refs_outer_two(p.1, depth);
            (l.0 || r.0, l.1 || r.1)
        },
    }
}

pub open spec fn uses_both_arguments_spec(t: Term) -> bool {
    refs_outer_two(t, 0).0 && refs_outer_two(t, 0).1
}

/// What `Term::reduce` leaves behind for a term, an order and a step limit.
pub uninterp spec fn reduced(t: Term, order: Order, limit: usize) -> Term;

/// What `lambda_calculus::parse` reads from a text in a notation (`None` on a parse error).
pub uninterp spec fn parsed(s: Seq<char>, notation: Notation) -> Option<Term>;

/// Relies on `Term::reduce`: it performs at most `limit` β-steps in place and returns how
/// many it performed; the term only changes through a step; under `HAP` a step is
/// taken exactly when the term holds a redex.
pub assume_specification[ Term::reduce ](t: &mut Term, order: Order, limit: usize) -> (r: usize)
    requires
        limit > 0,
    ensures
        *final(t) == reduced(*old(t), order, limit),
        r <= limit,
        r == 0 ==> *final(t) == *old(t),
        order == Order::HAP ==> (r == 0 <==> is_normal(*old(t))),
;

/// Relies on `Term::has_free_variables`: some index is not bound by an enclosing binder.
pub assume_specification[ Term::has_free_variables ](t: &Term) -> (r: bool)
    ensures
        r == has_free_at(*t, 0),
;

/// Relies on the derived `Clone` of `Term`: a deep copy.
pub assume_specification[ <Term as Clone>::clone ](t: &Term) -> (r: Term)
    ensures
        r == *t,
;

/// Relies on `lambda_calculus::parse`: the result depends on the text and the notation alone.
pub assume_specification[ lambda_calculus::parse ](input: &str, notation: Notation) -> (r: Result<
    Term,
    ParseError,
>)
    ensures
        r is Ok <==> parsed(input@, notation) is Some,
        r is Ok ==> r->Ok_0 == parsed(input@, notation)->Some_0,
;

pub fn abs(b: Term) -> (r: Term)
    ensures
        r == mk_abs(b),
{
    Term::Abs(Box::new(b))
}

pub fn app(f: Term, a: Term) -> (r: Term)
    ensures
        r == mk_app(f, a),
{
    Term::App(Box::new((f, a)))
}

/// The identity combinator `λx. x`.
pub fn identity() -> (r: Term)
    ensures
        r == identity_term(),
{
    abs(Term::Var(1))
}

/// Church's `true`, `λt. λf. t`.
pub fn church_true() -> (r: Term)
    ensures
        r == true_term(),
{
    abs(abs(Term::Var(2)))
}

/// Number of nodes of `t`, saturated at `usize::MAX`.
pub fn term_size(t: &Term) -> (r: usize)
    ensures
        r as nat == if size_of(*t) <= usize::MAX { size_of(*t) } else { usize::MAX as nat },
    decreases t,
{
    match t {
        Term::Var(_) => 1,
        Term::Abs(b) => {
            let s = term_size(b);
            if s == usize::MAX {
                usize::MAX
            } else {
                s + 1
            }
        },
        Term::App(p) => {
            let a = term_size(&p.0);
            let b = term_size(&p.1);
            if a >= usize::MAX - b {
                usize::MAX
            } else {
                a + b + 1
            }
        },
    }
}

/// Structural equality of two terms, which for de Bruijn terms is α-equivalence.
pub fn is_alpha_equivalent(a: &Term, b: &Term) -> (r: bool)
    ensures
        r == (*a == *b),
    decreases a,
{
    match (a, b) {
        (Term::Var(x), Term::Var(y)) => *x == *y,
        (Term::Abs(p), Term::Abs(q)) => is_alpha_equivalent(p, q),
        (Term::App(p), Term::App(q)) => is_alpha_equivalent(&p.0, &q.0) && is_alpha_equivalent(
            &p.1,
            &q.1,
        ),
        _ => false,
    }
}

/// Whether `t` holds no redex.
pub fn is_normal_form(t: &Term) -> (r: bool)
    ensures
        r == is_normal(*t),
    decreases t,
{
    match t {
        Term::Var(_) => true,
        Term::Abs(b) => is_normal_form(b),
        Term::App(p) => {
            let head_is_abs = match &p.0 {
                Term::Abs(_) => true,
                _ => false,
            };
            !head_is_abs && is_normal_form(&p.0) && is_normal_form(&p.1)
        },
    }
}

/// Whether `expr` starts with two binders, `λ. λ. ...`.
pub fn has_two_args(expr: &Term) -> (r: bool)
    ensures
        r == has_two_args_spec(*expr),
{
    match expr {
        Term::Abs(body) => match &**body {
            Term::Abs(_) => true,
            _ => false,
        },
        _ => false,
    }
}

/// Whether `expr` has the shape `λx1. ... λxn. v` for some `n >= 2`.
pub fn is_truthy(expr: &Term) -> (r: bool)
    ensures
        r == is_truthy_spec(*expr),
    decreases expr,
{
    match expr {
        Term::Abs(body) => match &**body {
            Term::Abs(inner) => match &**inner {
                Term::Var(_) => true,
                _ => is_truthy(body),
            },
            _ => false,
        },
        _ => false,
    }
}

proof fn lemma_refs_beyond_indices(t: Term, depth: nat)
    requires
        depth > usize::MAX + 1,
    ensures
        refs_outer_two(t, depth) == (false, false),
    decreases t,
{
    match t {
        Term::Var(_) => {},
        Term::Abs(b) => lemma_refs_beyond_indices(*b, depth + 1),
        Term::App(p) => {
            lemma_refs_beyond_indices(p.0, depth);
            lemma_refs_beyond_indices(p.1, depth);
        },
    }
}

fn uses_both_arguments_helper(expr: &Term, depth: u128) -> (r: (bool, bool))
    ensures
        r == refs_outer_two(*expr, depth as nat),
    decreases expr,
{
    if depth > usize::MAX as u128 + 1 {
        proof {
            lemma_refs_beyond_indices(*expr, depth as nat);
        }
        return (false, false);
    }
    match expr {
        Term::Abs(b) => uses_both_arguments_helper(b, depth + 1),
        Term::App(p) => {
            let l = uses_both_arguments_helper(&p.0, depth);
            let r = uses_both_arguments_helper(&p.1, depth);
            (l.0 || r.0, l.1 || r.1)
        },
        Term::Var(n) => (*n as u128 == depth, *n as u128 + 1 == depth),
    }
}

/// Whether the body of `expr` refers to both of its two outermost binders.
pub fn uses_both_arguments(expr: &Term) -> (r: bool)
    ensures
        r == uses_both_arguments_spec(*expr),
{
    let (left, right) = uses_both_arguments_helper(expr, 0);
    left && right
}

} // verus!
