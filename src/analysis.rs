//! Population analytics over the terms of a soup, which ignore whether a particle is a test.
use vstd::prelude::*;
use vstd::multiset::Multiset;
use lambda_calculus::Term;
use crate::soup::{occurrences, terms_of, Soup};
use crate::term::is_alpha_equivalent;

verus! {

broadcast use {vstd::seq_lib::group_to_multiset_ensures, vstd::multiset::group_multiset_axioms};

/// The distinct terms of `s`, in order of first occurrence.
pub open spec fn uniq(s: Seq<Term>) -> Seq<Term>
    decreases s.len(),
{
    if s.len() == 0 {
        seq![]
    } else {
        let u = uniq(s.drop_last());
        if u.contains(s.last()) {
            u
        } else {
            u.push(s.last())
        }
    }
}

/// Each distinct term of `s`, in order of first occurrence, with how often it occurs.
pub open spec fn count_table(s: Seq<Term>) -> Seq<(Term, nat)> {
    uniq(s).map_values(|t: Term| (t, occurrences(s, t)))
}

/// Index of the first entry with the largest count.
pub open spec fn best_index(c: Seq<(Term, nat)>) -> int
    decreases c.len(),
{
    if c.len() <= 1 {
        0
    } else {
        let b = best_index(c.drop_last());
        if c.last().1 > c[b].1 {
            c.len() - 1
        } else {
            b
        }
    }
}

/// The `k` terms of the table with the largest counts, largest first; of equal counts, the
/// one that comes first in the table first.
pub open spec fn top_k(c: Seq<(Term, nat)>, k: nat) -> Seq<Term>
    decreases k,
{
    if k == 0 || c.len() == 0 {
        seq![]
    } else {
        let b = best_index(c);
        seq![c[b].0] + top_k(c.remove(b), (k - 1) as nat)
    }
}

/// Multiset Jaccard index of two populations as a fraction `(numerator, denominator)`: the
/// size of their multiset intersection over the size of their multiset union; two empty
/// populations count as identical, `1 / 1`.
pub open spec fn jaccard(a: Seq<Term>, b: Seq<Term>) -> (nat, nat) {
    let common = a.to_multiset().intersection_with(b.to_multiset()).len();
    if a.len() + b.len() == 0 {
        (1, 1)
    } else {
        (common, (a.len() + b.len() - common) as nat)
    }
}

/// How many elements of `a` can be matched, one for one, with elements of `m`.
pub open spec fn matched(a: Seq<Term>, m: Multiset<Term>) -> nat
    decreases a.len(),
{
    if a.len() == 0 {
        0
    } else if m.count(a[0]) > 0 {
        1 + matched(a.drop_first(), m.remove(a[0]))
    } else {
        matched(a.drop_first(), m)
    }
}

proof fn lemma_matched_is_intersection(a: Seq<Term>, m: Multiset<Term>)
    ensures
        matched(a, m) == a.to_multiset().intersection_with(m).len(),
    decreases a.len(),
{
    broadcast use vstd::multiset::group_multiset_properties;

    if a.len() == 0 {
        assert(a.to_multiset().intersection_with(m) =~= Multiset::empty());
    } else {
        let x = a[0];
        let rest = a.drop_first();
        assert(a =~= seq![x] + rest);
        vstd::seq_lib::lemma_seq_union_to_multiset_commutative(seq![x], rest);
        vstd::seq_lib::lemma_multiset_commutative(seq![x], rest);
        assert(seq![x].to_multiset() =~= Multiset::singleton(x)) by {
            assert(seq![x] =~= Seq::<Term>::empty().push(x));
        }
        let ar = rest.to_multiset();
        assert(a.to_multiset() =~= ar.insert(x));
        if m.count(x) > 0 {
            lemma_matched_is_intersection(rest, m.remove(x));
            let lhs = ar.insert(x).intersection_with(m);
            let rhs = ar.intersection_with(m.remove(x)).insert(x);
            assert(lhs =~= rhs);
        } else {
            lemma_matched_is_intersection(rest, m);
            assert(ar.insert(x).intersection_with(m) =~= ar.intersection_with(m));
        }
    }
}

/// A population is identical to itself: its Jaccard index is 1.
pub proof fn lemma_jaccard_self(a: Seq<Term>)
    ensures
        jaccard(a, a).0 == jaccard(a, a).1,
        jaccard(a, a).1 > 0,
{
    broadcast use vstd::multiset::group_multiset_properties;

    assert(a.to_multiset().intersection_with(a.to_multiset()) =~= a.to_multiset());
}

/// The Jaccard index does not depend on the order of its arguments.
pub proof fn lemma_jaccard_symmetric(a: Seq<Term>, b: Seq<Term>)
    ensures
        jaccard(a, b) == jaccard(b, a),
{
    broadcast use vstd::multiset::group_multiset_properties;

    assert(a.to_multiset().intersection_with(b.to_multiset()) =~= b.to_multiset().intersection_with(
        a.to_multiset(),
    ));
}

/// A non-empty population shares nothing with an empty one: its Jaccard index is 0.
pub proof fn lemma_jaccard_empty(a: Seq<Term>, b: Seq<Term>)
    requires
        a.len() > 0,
        b.len() == 0,
    ensures
        jaccard(a, b).0 == 0,
        jaccard(a, b).1 == a.len(),
{
    broadcast use vstd::multiset::group_multiset_properties;

    assert(b.to_multiset() =~= Multiset::empty());
    assert(a.to_multiset().intersection_with(b.to_multiset()) =~= Multiset::empty());
}

/// Position of `x` in `v`, if any.
fn position_of(v: &Vec<Term>, x: &Term) -> (r: Option<usize>)
    ensures
        r matches Some(j) ==> j < v@.len() && v@[j as int] == *x,
        r is None ==> !v@.contains(*x),
{
    let mut j: usize = 0;
    while j < v.len()
        invariant
            j <= v@.len(),
            forall|q: int| 0 <= q < j ==> v@[q] != *x,
        decreases v@.len() - j,
    {
        if is_alpha_equivalent(&v[j], x) {
            return Some(j);
        }
        j += 1;
    }
    None
}

proof fn lemma_uniq_step(s: Seq<Term>, i: int)
    requires
        0 <= i < s.len(),
    ensures
        uniq(s.take(i + 1)) == if uniq(s.take(i)).contains(s[i]) {
            uniq(s.take(i))
        } else {
            uniq(s.take(i)).push(s[i])
        },
{
    assert(s.take(i + 1).drop_last() =~= s.take(i));
}

proof fn lemma_occurrences_step(s: Seq<Term>, i: int, x: Term)
    requires
        0 <= i < s.len(),
    ensures
        occurrences(s.take(i + 1), x) == occurrences(s.take(i), x) + if s[i] == x {
            1nat
        } else {
            0nat
        },
{
    assert(s.take(i + 1) =~= s.take(i).push(s[i]));
}

proof fn lemma_uniq_distinct(s: Seq<Term>)
    ensures
        uniq(s).no_duplicates(),
        forall|x: Term| uniq(s).contains(x) <==> s.contains(x),
    decreases s.len(),
{
    if s.len() > 0 {
        lemma_uniq_distinct(s.drop_last());
        assert(s =~= s.drop_last().push(s.last()));
        assert forall|x: Term| uniq(s).contains(x) <==> s.contains(x) by {
            if s.contains(x) && x != s.last() {
                let q = choose|q: int| 0 <= q < s.len() && s[q] == x;
                assert(s.drop_last()[q] == x);
            }
            let u = uniq(s.drop_last());
            if x == s.last() {
                assert(s[s.len() - 1] == x);
                if !u.contains(x) {
                    assert(uniq(s)[u.len() as int] == x);
                }
            }
            if s.drop_last().contains(x) {
                let q = choose|q: int| 0 <= q < s.drop_last().len() && s.drop_last()[q] == x;
                assert(s[q] == x);
            }
            if u.contains(x) {
                let q = choose|q: int| 0 <= q < u.len() && u[q] == x;
                assert(uniq(s)[q] == x);
            }
        }
    }
}

/// The distinct terms of `s` with their counts, in order of first occurrence.
fn tabulate(s: &Vec<Term>) -> (r: Vec<(Term, usize)>)
    ensures
        r@.len() == uniq(s@).len(),
        forall|j: int|
            0 <= j < r@.len() ==> #[trigger] r@[j].0 == uniq(s@)[j] && r@[j].1 == occurrences(
                s@,
                uniq(s@)[j],
            ),
{
    let mut keys: Vec<Term> = Vec::new();
    let mut counts: Vec<usize> = Vec::new();
    let mut i: usize = 0;
    assert(s@.take(0) =~= Seq::<Term>::empty());
    while i < s.len()
        invariant
            i <= s@.len(),
            keys@ == uniq(s@.take(i as int)),
            counts@.len() == keys@.len(),
            forall|j: int|
                0 <= j < counts@.len() ==> #[trigger] counts@[j] == occurrences(
                    s@.take(i as int),
                    keys@[j],
                ) && counts@[j] <= i,
        decreases s@.len() - i,
    {
        proof {
            lemma_uniq_step(s@, i as int);
            lemma_uniq_distinct(s@.take(i as int));
            assert forall|x: Term| #[trigger] occurrences(s@.take(i + 1), x) == occurrences(
                s@.take(i as int),
                x,
            ) + if s@[i as int] == x {
                1nat
            } else {
                0nat
            } by {
                lemma_occurrences_step(s@, i as int, x);
            }
        }
        match position_of(&keys, &s[i]) {
            Some(j) => {
                counts.set(j, counts[j] + 1);
                proof {
                    assert forall|q: int| 0 <= q < counts@.len() implies #[trigger] counts@[q]
                        == occurrences(s@.take(i + 1), keys@[q]) && counts@[q] <= i + 1 by {
                        if q != j {
                            assert(keys@[q] != keys@[j as int]) by {
                                assert(uniq(s@.take(i as int)).no_duplicates());
                            }
                        }
                    }
                }
            },
            None => {
                keys.push(s[i].clone());
                counts.push(1);
                proof {
                    assert(occurrences(s@.take(i as int), s@[i as int]) == 0) by {
                        assert(!s@.take(i as int).contains(s@[i as int]));
                    }
                    assert forall|q: int| 0 <= q < counts@.len() implies #[trigger] counts@[q]
                        == occurrences(s@.take(i + 1), keys@[q]) && counts@[q] <= i + 1 by {
                        if q < counts@.len() - 1 {
                            assert(keys@[q] != s@[i as int]);
                        }
                    }
                }
            },
        }
        i += 1;
    }
    assert(s@.take(i as int) =~= s@);
    let mut r: Vec<(Term, usize)> = Vec::new();
    let mut j: usize = 0;
    while j < keys.len()
        invariant
            j <= keys@.len(),
            keys@ == uniq(s@),
            counts@.len() == keys@.len(),
            forall|q: int| 0 <= q < counts@.len() ==> #[trigger] counts@[q] == occurrences(s@, keys@[q]),
            r@.len() == j,
            forall|q: int|
                0 <= q < j ==> #[trigger] r@[q].0 == uniq(s@)[q] && r@[q].1 == occurrences(
                    s@,
                    uniq(s@)[q],
                ),
        decreases keys@.len() - j,
    {
        r.push((keys[j].clone(), counts[j]));
        j += 1;
    }
    r
}

/// Index of the first entry with the largest count.
fn best_entry(c: &Vec<(Term, usize)>) -> (r: usize)
    requires
        c@.len() > 0,
    ensures
        r as int == best_index(as_table(c@)),
        r < c@.len(),
{
    let mut b: usize = 0;
    let mut j: usize = 1;
    while j < c.len()
        invariant
            1 <= j <= c@.len(),
            b < j,
            b as int == best_index(as_table(c@).take(j as int)),
        decreases c@.len() - j,
    {
        proof {
            assert(as_table(c@).take(j + 1).drop_last() =~= as_table(c@).take(j as int));
        }
        if c[j].1 > c[b].1 {
            b = j;
        }
        j += 1;
    }
    assert(as_table(c@).take(j as int) =~= as_table(c@));
    b
}

/// A table with its counts as natural numbers.
pub open spec fn as_table(c: Seq<(Term, usize)>) -> Seq<(Term, nat)> {
    c.map_values(|e: (Term, usize)| (e.0, e.1 as nat))
}

impl Soup {
    /// The distinct terms of the soup, in order of first occurrence.
    pub fn unique_expressions(&self) -> (r: Vec<Term>)
        ensures
            r@ == uniq(terms_of(self@.particles)),
            r@.no_duplicates(),
            forall|t: Term| r@.contains(t) <==> terms_of(self@.particles).contains(t),
    {
        let table = tabulate(&self.lambda_expressions());
        let mut r: Vec<Term> = Vec::new();
        let mut j: usize = 0;
        while j < table.len()
            invariant
                j <= table@.len(),
                r@ == uniq(terms_of(self@.particles)).take(j as int),
                table@.len() == uniq(terms_of(self@.particles)).len(),
                forall|q: int|
                    0 <= q < table@.len() ==> #[trigger] table@[q].0 == uniq(
                        terms_of(self@.particles),
                    )[q],
            decreases table@.len() - j,
        {
            r.push(table[j].0.clone());
            proof {
                assert(r@ =~= uniq(terms_of(self@.particles)).take(j + 1));
            }
            j += 1;
        }
        proof {
            assert(r@ =~= uniq(terms_of(self@.particles)));
            lemma_uniq_distinct(terms_of(self@.particles));
        }
        r
    }

    /// Each distinct term of the soup with how many particles carry it, in order of first
    /// occurrence.
    pub fn expression_counts(&self) -> (r: Vec<(Term, usize)>)
        ensures
            as_table(r@) == count_table(terms_of(self@.particles)),
    {
        let r = tabulate(&self.lambda_expressions());
        proof {
            assert(as_table(r@) =~= count_table(terms_of(self@.particles)));
        }
        r
    }

    /// The `k` most frequent terms, most frequent first; of equally frequent terms, the one
    /// that occurs first in the soup comes first. Fewer when the soup holds fewer
    /// distinct terms.
    pub fn k_most_frequent_exprs(&self, k: usize) -> (r: Vec<Term>)
        ensures
            r@ == top_k(count_table(terms_of(self@.particles)), k as nat),
    {
        let mut table = self.expression_counts();
        let ghost full = as_table(table@);
        let mut r: Vec<Term> = Vec::new();
        while r.len() < k && table.len() > 0
            invariant
                r@.len() <= k,
                r@ + top_k(as_table(table@), (k - r@.len()) as nat) == top_k(full, k as nat),
            decreases table@.len(),
        {
            let b = best_entry(&table);
            let ghost before = as_table(table@);
            let (t, _) = table.remove(b);
            proof {
                assert(as_table(table@) =~= before.remove(b as int));
                assert(r@.push(t) + top_k(as_table(table@), (k - r@.len() - 1) as nat) =~= r@ + top_k(
                    before,
                    (k - r@.len()) as nat,
                ));
            }
            r.push(t);
        }
        proof {
            assert(top_k(as_table(table@), (k - r@.len()) as nat) =~= Seq::<Term>::empty());
            assert(r@ + Seq::<Term>::empty() =~= r@);
        }
        r
    }

    /// Multiset Jaccard index of the terms of the two soups, as a fraction
    /// `(numerator, denominator)`.
    pub fn jacard_index(&self, other: &Soup) -> (r: (usize, usize))
        requires
            self@.particles.len() + other@.particles.len() <= usize::MAX,
        ensures
            (r.0 as nat, r.1 as nat) == jaccard(terms_of(self@.particles), terms_of(other@.particles)),
    {
        let a = self.lambda_expressions();
        let mut rest = other.lambda_expressions();
        let ghost b = rest@;
        let mut common: usize = 0;
        let mut i: usize = 0;
        assert(a@.skip(0) =~= a@);
        while i < a.len()
            invariant
                i <= a@.len(),
                common <= i,
                common + matched(a@.skip(i as int), rest@.to_multiset()) == matched(
                    a@,
                    b.to_multiset(),
                ),
            decreases a@.len() - i,
        {
            proof {
                assert(a@.skip(i as int).drop_first() =~= a@.skip(i + 1));
            }
            match position_of(&rest, &a[i]) {
                Some(j) => {
                    proof {
                        assert(rest@.remove(j as int).to_multiset() =~= rest@.to_multiset().remove(
                            a@[i as int],
                        ));
                    }
                    rest.remove(j);
                    common += 1;
                },
                None => {},
            }
            i += 1;
        }
        proof {
            assert(a@.skip(i as int) =~= Seq::<Term>::empty());
            lemma_matched_is_intersection(a@, b.to_multiset());
            assert(a@.to_multiset().intersection_with(b.to_multiset()).len() <= a@.len()) by {
                broadcast use vstd::multiset::group_multiset_properties;

                lemma_matched_le(a@, b.to_multiset());
            }
        }
        if a.len() == 0 && self.len() + other.len() == 0 {
            return (1, 1);
        }
        (common, a.len() - common + other.len())
    }
}

proof fn lemma_matched_le(a: Seq<Term>, m: Multiset<Term>)
    ensures
        matched(a, m) <= a.len(),
    decreases a.len(),
{
    if a.len() > 0 {
        lemma_matched_le(a.drop_first(), m.remove(a[0]));
        lemma_matched_le(a.drop_first(), m);
    }
}

} // verus!
