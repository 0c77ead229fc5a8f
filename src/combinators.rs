//! Named terms used to seed and probe soups.
use vstd::prelude::*;
use lambda_calculus::Term;
use crate::term::{abs, app, mk_abs, mk_app};

verus! {

/// Church's successor, `λn. λf. λx. f (n f x)`, as lambda_calculus builds it.
pub open spec fn succ_term() -> Term {
    mk_abs(
        mk_abs(mk_abs(mk_app(Term::Var(2), mk_app(mk_app(Term::Var(3), Term::Var(2)), Term::Var(1))))),
    )
}

/// Relies on `lambda_calculus::data::num::church::succ`: the constant term
/// `λ λ λ 2 (3 2 1)`.
pub assume_specification[ lambda_calculus::data::num::church::succ ]() -> (r: Term)
    ensures
        r == succ_term(),
;

/// `λ λ λ. a b c` for the three de Bruijn indices given.
pub open spec fn triple(a: usize, b: usize, c: usize) -> Term {
    mk_abs(mk_abs(mk_abs(mk_app(mk_app(Term::Var(a), Term::Var(b)), Term::Var(c)))))
}

fn permutation(a: usize, b: usize, c: usize) -> (r: Term)
    ensures
        r == triple(a, b, c),
{
    abs(abs(abs(app(app(Term::Var(a), Term::Var(b)), Term::Var(c)))))
}

/// Addition with its arguments swapped, `λm. λn. m succ n`.
pub fn coadd() -> (r: Term)
    ensures
        r == mk_abs(mk_abs(mk_app(mk_app(Term::Var(2), succ_term()), Term::Var(1)))),
{
    abs(abs(app(app(Term::Var(2), lambda_calculus::data::num::church::succ()), Term::Var(1))))
}

/// `λ λ λ. 1 2 3`.
pub fn p123() -> (r: Term)
    ensures
        r == triple(1, 2, 3),
{
    permutation(1, 2, 3)
}

/// `λ λ λ. 1 3 2`.
pub fn p132() -> (r: Term)
    ensures
        r == triple(1, 3, 2),
{
    permutation(1, 3, 2)
}

/// `λ λ λ. 2 1 3`.
pub fn p213() -> (r: Term)
    ensures
        r == triple(2, 1, 3),
{
    permutation(2, 1, 3)
}

/// `λ λ λ. 2 3 1`.
pub fn p231() -> (r: Term)
    ensures
        r == triple(2, 3, 1),
{
    permutation(2, 3, 1)
}

/// `λ λ λ. 3 1 2`.
pub fn p312() -> (r: Term)
    ensures
        r == triple(3, 1, 2),
{
    permutation(3, 1, 2)
}

/// `λ λ λ. 3 2 1`.
pub fn p321() -> (r: Term)
    ensures
        r == triple(3, 2, 1),
{
    permutation(3, 2, 1)
}

} // verus!
