use alchemy::combinators::{coadd, p123, p132, p213, p231, p312, p321};
use lambda_calculus::data::num::church::{add, succ};
use lambda_calculus::{abs, app, IntoChurchNum, Term, Var, HAP};

fn triple(a: usize, b: usize, c: usize) -> Term {
    abs(abs(abs(app(app(Var(a), Var(b)), Var(c)))))
}

#[test]
fn permutations() {
    assert_eq!(p123(), triple(1, 2, 3));
    assert_eq!(p132(), triple(1, 3, 2));
    assert_eq!(p213(), triple(2, 1, 3));
    assert_eq!(p231(), triple(2, 3, 1));
    assert_eq!(p312(), triple(3, 1, 2));
    assert_eq!(p321(), triple(3, 2, 1));
}

#[test]
fn coadd_adds() {
    assert_eq!(coadd(), abs(abs(app(app(Var(2), succ()), Var(1)))));
    let mut t = app(app(coadd(), 2.into_church()), 3.into_church());
    t.reduce(HAP, 0);
    assert_eq!(t, 5.into_church());
    let mut u = app(app(add(), 2.into_church()), 3.into_church());
    u.reduce(HAP, 0);
    assert_eq!(t, u);
}
