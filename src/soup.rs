//! The soup: a population of particles, a seeded generator and a collider, evolved by
//! random pairwise collisions.
use vstd::prelude::*;
use lambda_calculus::Term;
use rand_chacha::ChaCha8Rng;
use crate::collidable::{Collider, Residue};
use crate::config::{ConfigError, Reactor};
use crate::lambda::{
    collide_spec, configured_collider, result_view, AlchemyCollider, ColliderModel,
    LambdaCollisionError, LambdaCollisionOk, LambdaParticle, ResidueModel,
};
use crate::term::{abs, app, is_alpha_equivalent, mk_abs, mk_app};
use crate::rng::{draw_below, gen_below, rng_from_seed, seeded};

verus! {

/// The principal object: a population of lambda particles with the rules that react them.
pub struct Soup {
    expressions: Vec<LambdaParticle>,
    n_collisions: usize,
    collider: AlchemyCollider,
    maintain_constant_population_size: bool,
    discard_parents: bool,
    rng: ChaCha8Rng,
}

pub type LambdaSoup = Soup;

impl Clone for Soup {
    fn clone(&self) -> (r: Self)
        ensures
            r@ == self@,
    {
        let mut expressions: Vec<LambdaParticle> = Vec::new();
        let mut i: usize = 0;
        while i < self.expressions.len()
            invariant
                i <= self.expressions@.len(),
                expressions@ == self.expressions@.take(i as int),
            decreases self.expressions@.len() - i,
        {
            expressions.push(self.expressions[i].clone());
            proof {
                assert(expressions@ =~= self.expressions@.take(i + 1));
            }
            i += 1;
        }
        proof {
            assert(expressions@ =~= self.expressions@);
        }
        Soup {
            expressions,
            n_collisions: self.n_collisions,
            collider: self.collider.clone(),
            maintain_constant_population_size: self.maintain_constant_population_size,
            discard_parents: self.discard_parents,
            rng: self.rng.clone(),
        }
    }
}

/// A recording of a run: the soup at its end and snapshots taken while it ran.
pub struct Tape {
    soup: Soup,
    history: Vec<Soup>,
    polling_interval: usize,
}

/// The contents of a `Tape`.
pub struct TapeModel {
    pub soup: SoupModel,
    pub history: Seq<SoupModel>,
    pub polling_interval: usize,
}

impl View for Tape {
    type V = TapeModel;

    closed spec fn view(&self) -> TapeModel {
        TapeModel {
            soup: self.soup@,
            history: self.history@.map_values(|s: Soup| s@),
            polling_interval: self.polling_interval,
        }
    }
}

impl Tape {
    /// The soup at the end of the run.
    pub fn final_state(&self) -> (r: &Soup)
        ensures
            r@ == self@.soup,
    {
        &self.soup
    }

    /// The snapshots, in the order they were taken.
    pub fn history(&self) -> (r: &Vec<Soup>)
        ensures
            r@.map_values(|s: Soup| s@) == self@.history,
    {
        &self.history
    }

    pub fn polling_interval(&self) -> (r: usize)
        ensures
            r == self@.polling_interval,
    {
        self.polling_interval
    }
}

/// The state of a soup.
pub struct SoupModel {
    pub particles: Seq<LambdaParticle>,
    pub n_collisions: nat,
    pub collider: ColliderModel,
    pub keep_constant: bool,
    pub discard_parents: bool,
    pub rng: ChaCha8Rng,
}

impl View for Soup {
    type V = SoupModel;

    closed spec fn view(&self) -> SoupModel {
        SoupModel {
            particles: self.expressions@,
            n_collisions: self.n_collisions as nat,
            collider: self.collider@,
            keep_constant: self.maintain_constant_population_size,
            discard_parents: self.discard_parents,
            rng: self.rng,
        }
    }
}

/// `p` without its element at `i`, the last element taking its place.
pub open spec fn swap_removed<A>(p: Seq<A>, i: int) -> Seq<A> {
    p.update(i, p.last()).drop_last()
}

/// An index drawn uniformly below `n`, and the next generator state.
pub open spec fn draw_index(rng: ChaCha8Rng, n: nat) -> (ChaCha8Rng, int) {
    let (r, x) = draw_below(rng, n as u64);
    (r, if x < n { x as int } else { 0 })
}

/// Remove `k` particles, each drawn uniformly from those left.
pub open spec fn trim(p: Seq<LambdaParticle>, rng: ChaCha8Rng, k: nat) -> (
    Seq<LambdaParticle>,
    ChaCha8Rng,
)
    decreases k,
{
    if k == 0 || p.len() == 0 {
        (p, rng)
    } else {
        let (r1, x) = draw_index(rng, p.len());
        trim(swap_removed(p, x), r1, (k - 1) as nat)
    }
}

/// One reaction: draw two particles, collide them, insert what the collision produced
/// (trimming as many others under a constant population), put the parents back unless
/// they are discarded, and count the collision. Fewer than two particles: nothing
/// happens and `NotEnoughExpressions` is returned.
pub open spec fn react_spec(s: SoupModel) -> (SoupModel, Result<ResidueModel, LambdaCollisionError>) {
    let n = s.particles.len();
    if n < 2 {
        (s, Err(LambdaCollisionError::NotEnoughExpressions))
    } else {
        let (r1, i) = draw_index(s.rng, n);
        let left = s.particles[i];
        let p1 = swap_removed(s.particles, i);
        let (r2, j) = draw_index(r1, (n - 1) as nat);
        let right = p1[j];
        let p2 = swap_removed(p1, j);
        let res = collide_spec(s.collider, left, right);
        let (p3, r3) = match res {
            Ok(m) => if s.keep_constant {
                trim(p2 + m.results, r2, m.results.len())
            } else {
                (p2 + m.results, r2)
            },
            Err(_) => (p2, r2),
        };
        let p4 = if s.discard_parents {
            p3
        } else {
            p3.push(left).push(right)
        };
        (SoupModel { particles: p4, n_collisions: s.n_collisions + 1, rng: r3, ..s }, res)
    }
}

/// The particles `src` repeated to make `n`: none when `src` is empty.
pub open spec fn cycled(src: Seq<Term>, n: nat, recursive: bool) -> Seq<LambdaParticle> {
    if src.len() == 0 {
        seq![]
    } else {
        Seq::new(n, |i: int| LambdaParticle { expr: src[i % (src.len() as int)], recursive })
    }
}

pub open spec fn tagged(src: Seq<Term>, recursive: bool) -> Seq<LambdaParticle> {
    src.map_values(|t: Term| LambdaParticle { expr: t, recursive })
}

pub open spec fn terms_of(p: Seq<LambdaParticle>) -> Seq<Term> {
    p.map_values(|x: LambdaParticle| x.expr)
}


/// The state after `n` reactions and how many of them succeeded.
pub open spec fn run(s: SoupModel, n: nat) -> (SoupModel, nat)
    decreases n,
{
    if n == 0 {
        (s, 0)
    } else {
        let (s1, r) = react_spec(s);
        let (s2, k) = run(s1, (n - 1) as nat);
        (s2, k + if r is Ok { 1nat } else { 0nat })
    }
}

/// How many of the iterations `0..n` are polled when polling every `period` of them.
pub open spec fn polls(n: nat, period: nat) -> nat
    recommends
        period > 0,
{
    if n == 0 {
        0
    } else {
        ((n - 1) as nat / period) + 1
    }
}

/// `datum` is what `poller` returned on some soup in state `s`.
pub open spec fn polled<F: Fn(&Soup) -> R, R>(poller: F, s: SoupModel, datum: R) -> bool {
    exists|x: Soup| x@ == s && #[trigger] poller.ensures((&x,), datum)
}

/// `datum` and `stop` are what `killpoller` returned on some soup in state `s`.
pub open spec fn kill_polled<F: Fn(&Soup) -> (R, bool), R>(
    killpoller: F,
    s: SoupModel,
    datum: R,
    stop: bool,
) -> bool {
    exists|x: Soup| x@ == s && #[trigger] killpoller.ensures((&x,), (datum, stop))
}

/// A run with a killing poller from state `s0`: `m` of the `n` reactions took place,
/// ending in `end` with the polled `data`. The run was cut short (`killed`) exactly when
/// the last poll asked to stop, and then it ended with the reaction of that poll; every
/// earlier poll asked to go on.
pub open spec fn killer_run<F: Fn(&Soup) -> (R, bool), R>(
    killpoller: F,
    s0: SoupModel,
    n: nat,
    period: nat,
    m: nat,
    killed: bool,
    end: SoupModel,
    data: Seq<R>,
) -> bool {
    &&& m <= n
    &&& (!killed ==> m == n)
    &&& (killed ==> data.len() > 0 && m == (data.len() - 1) * period + 1)
    &&& end == run(s0, m).0
    &&& data.len() == polls(m, period)
    &&& forall|k: int|
        0 <= k < data.len() ==> kill_polled(
            killpoller,
            run(s0, (k * period + 1) as nat).0,
            #[trigger] data[k],
            killed && k == data.len() - 1,
        )
}

/// How often `x` occurs in `s`.
pub open spec fn occurrences(s: Seq<Term>, x: Term) -> nat {
    s.to_multiset().count(x)
}

/// A reaction counts as a collision exactly when the soup holds two particles or more.
pub proof fn lemma_react_counts_collision(s: SoupModel)
    ensures
        react_spec(s).0.n_collisions == if s.particles.len() >= 2 {
            s.n_collisions + 1
        } else {
            s.n_collisions
        },
{
}

/// With fewer than two particles a reaction fails with `NotEnoughExpressions` and leaves
/// the soup, its generator and its collision count as they were.
pub proof fn lemma_react_needs_two(s: SoupModel)
    requires
        s.particles.len() < 2,
    ensures
        react_spec(s) == (s, Err::<ResidueModel, LambdaCollisionError>(
            LambdaCollisionError::NotEnoughExpressions,
        )),
{
}

/// Size after a reaction: two parents out, the residue in, as many trimmed under a
/// constant population, the parents back unless discarded. Keeping parents under a
/// constant population leaves the size unchanged.
pub proof fn lemma_react_population(s: SoupModel)
    requires
        s.particles.len() >= 2,
    ensures
        ({
            let (t, r) = react_spec(s);
            let inserted: int = match r {
                Ok(m) => m.results.len() as int,
                Err(_) => 0,
            };
            let trimmed: int = if s.keep_constant { inserted } else { 0 };
            let returned: int = if s.discard_parents { 0 } else { 2 };
            &&& t.particles.len() == s.particles.len() - 2 + inserted - trimmed + returned
            &&& (s.keep_constant && !s.discard_parents ==> t.particles.len() == s.particles.len())
        }),
{
    let n = s.particles.len();
    let (r1, i) = draw_index(s.rng, n);
    let p1 = swap_removed(s.particles, i);
    let (r2, j) = draw_index(r1, (n - 1) as nat);
    let p2 = swap_removed(p1, j);
    let res = collide_spec(s.collider, s.particles[i], p1[j]);
    if let Ok(m) = res {
        if s.keep_constant {
            lemma_trim_len(p2 + m.results, r2, m.results.len());
        }
    }
}

/// Two soups in the same state react alike: the same result and the same next state,
/// and the same states and success counts after any number of reactions.
pub proof fn lemma_react_deterministic(a: SoupModel, b: SoupModel, n: nat)
    requires
        a == b,
    ensures
        react_spec(a) == react_spec(b),
        run(a, n) == run(b, n),
{
}

/// Soups built from one configuration with a given seed start in the same state, and
/// after the same particles are added they react alike, reaction after reaction.
pub proof fn lemma_seeded_soups_agree(
    cfg: Reactor,
    seed: [u8; 32],
    a: SoupModel,
    b: SoupModel,
    added: Seq<LambdaParticle>,
    n: nat,
)
    requires
        cfg.seed.0 == Some(seed),
        fresh_soup(cfg, a),
        fresh_soup(cfg, b),
    ensures
        a == b,
        run(SoupModel { particles: a.particles + added, ..a }, n) == run(
            SoupModel { particles: b.particles + added, ..b },
            n,
        ),
{
    assert(a.particles =~= b.particles);
}

proof fn lemma_react_collisions_bound(s: SoupModel)
    ensures
        react_spec(s).0.n_collisions <= s.n_collisions + 1,
{
}

proof fn lemma_run_step(s: SoupModel, n: nat)
    requires
        n > 0,
    ensures
        run(s, n) == ({
            let (s1, r) = react_spec(s);
            let (s2, k) = run(s1, (n - 1) as nat);
            (s2, k + if r is Ok { 1nat } else { 0nat })
        }),
{
}

/// The state `from_config` promises for a configuration with a given seed.
pub open spec fn fresh_soup(cfg: Reactor, s: SoupModel) -> bool {
    &&& s.particles.len() == 0
    &&& s.n_collisions == 0
    &&& s.collider == configured_collider(cfg)
    &&& s.keep_constant == cfg.maintain_constant_population_size
    &&& s.discard_parents == cfg.discard_parents
    &&& (cfg.seed.0 matches Some(seed) ==> s.rng == seeded(seed@))
}

proof fn lemma_run_split(s: SoupModel, i: nat)
    ensures
        run(s, i + 1).0 == react_spec(run(s, i).0).0,
    decreases i,
{
    lemma_run_step(s, i + 1);
    if i > 0 {
        lemma_run_step(s, i);
        lemma_run_split(react_spec(s).0, (i - 1) as nat);
    }
}

proof fn lemma_polls_step(i: nat, p: nat)
    requires
        p > 0,
    ensures
        polls(i + 1, p) == polls(i, p) + if i % p == 0 { 1nat } else { 0nat },
        i % p == 0 ==> polls(i, p) == i / p,
{
    if i > 0 {
        assert(((i as int) / (p as int)) == ((i - 1) as int) / (p as int) + if (i as int) % (p as int)
            == 0 { 1int } else { 0int }) by (nonlinear_arith)
            requires
                p > 0,
                i > 0,
        {
            vstd::arithmetic::div_mod::lemma_fundamental_div_mod(i as int, p as int);
            vstd::arithmetic::div_mod::lemma_fundamental_div_mod((i - 1) as int, p as int);
        }
    }
}

proof fn lemma_swap_removed_multiset(p: Seq<LambdaParticle>, i: int)
    requires
        0 <= i < p.len(),
    ensures
        swap_removed(p, i).to_multiset() =~= p.to_multiset().remove(p[i]),
{
    broadcast use vstd::multiset::group_multiset_axioms;

    let u = p.update(i, p.last());
    vstd::seq_lib::to_multiset_update(p, i, p.last());
    assert(u.drop_last() =~= u.remove(u.len() - 1));
    vstd::seq_lib::to_multiset_remove(u, u.len() - 1);
    assert(u[u.len() - 1] == p.last());
    vstd::seq_lib::to_multiset_contains(p, p.last());
    assert(p[p.len() - 1] == p.last());
}

/// What a reaction does to the population as a multiset when the parents go back: on a
/// collider error nothing changes; on success without trimming the residue is added.
pub proof fn lemma_react_multiset(s: SoupModel)
    requires
        s.particles.len() >= 2,
        !s.discard_parents,
    ensures
        ({
            let (t, r) = react_spec(s);
            match r {
                Ok(m) => !s.keep_constant ==> t.particles.to_multiset() =~= s.particles.to_multiset().add(
                    m.results.to_multiset(),
                ),
                Err(_) => t.particles.to_multiset() =~= s.particles.to_multiset(),
            }
        }),
{
    broadcast use vstd::multiset::group_multiset_axioms;
    broadcast use vstd::seq_lib::group_to_multiset_ensures;

    let n = s.particles.len();
    let (r1, i) = draw_index(s.rng, n);
    let left = s.particles[i];
    let p1 = swap_removed(s.particles, i);
    let (r2, j) = draw_index(r1, (n - 1) as nat);
    let right = p1[j];
    let p2 = swap_removed(p1, j);
    lemma_swap_removed_multiset(s.particles, i);
    lemma_swap_removed_multiset(p1, j);
    assert(s.particles.to_multiset().count(left) > 0) by {
        assert(s.particles.contains(left));
    }
    assert(p1.to_multiset().count(right) > 0) by {
        assert(p1.contains(right));
    }
    let res = collide_spec(s.collider, left, right);
    match res {
        Ok(m) => {
            if !s.keep_constant {
                vstd::seq_lib::lemma_multiset_commutative(p2, m.results);
                let p3 = p2 + m.results;
                assert(p3.push(left).push(right).to_multiset() =~= p3.to_multiset().insert(left).insert(
                    right,
                ));
            }
        },
        Err(_) => {
            assert(p2.push(left).push(right).to_multiset() =~= p2.to_multiset().insert(left).insert(
                right,
            ));
        },
    }
}

/// While parents go back, a soup of two particles or more stays so, and every reaction of
/// a run counts: after `n` reactions the counter has grown by `n`.
pub proof fn lemma_run_counts(s: SoupModel, n: nat)
    requires
        s.particles.len() >= 2,
        !s.discard_parents,
    ensures
        run(s, n).0.n_collisions == s.n_collisions + n,
        run(s, n).0.particles.len() >= 2,
        !run(s, n).0.discard_parents,
    decreases n,
{
    if n > 0 {
        lemma_react_population(s);
        let s1 = react_spec(s).0;
        lemma_run_counts(s1, (n - 1) as nat);
        lemma_run_step(s, n);
    }
}

proof fn lemma_trim_len(p: Seq<LambdaParticle>, rng: ChaCha8Rng, k: nat)
    requires
        k <= p.len(),
    ensures
        trim(p, rng, k).0.len() == p.len() - k,
    decreases k,
{
    if k > 0 {
        let (r1, x) = draw_index(rng, p.len());
        lemma_trim_len(swap_removed(p, x), r1, (k - 1) as nat);
    }
}

impl Soup {
    /// An empty soup with the default configuration: the rule `\\x.\\y.x y`, identities
    /// and terms with free variables discarded, constant population, unseeded.
    pub fn new() -> (r: Soup)
        ensures
            r@.particles.len() == 0,
            r@.n_collisions == 0,
            r@.keep_constant,
            !r@.discard_parents,
            r@.collider.rlimit == 8000,
            r@.collider.slimit == 1000,
            r@.collider.rules == seq![mk_abs(mk_abs(mk_app(Term::Var(2), Term::Var(1))))],
            !r@.collider.disallow_recursive,
            !r@.collider.discard_copy_actions,
            r@.collider.discard_identity,
            r@.collider.discard_free_variable_expressions,
    {
        let cfg = Reactor::new();
        let seed = cfg.seed.get();
        let mut rules: Vec<Term> = Vec::new();
        rules.push(abs(abs(app(Term::Var(2), Term::Var(1)))));
        Soup {
            expressions: Vec::new(),
            n_collisions: 0,
            collider: AlchemyCollider {
                rlimit: cfg.reduction_cutoff,
                slimit: cfg.size_cutoff,
                disallow_recursive: false,
                reaction_rules: rules,
                discard_copy_actions: cfg.discard_copy_actions,
                discard_identity: cfg.discard_identity,
                discard_free_variable_expressions: cfg.discard_free_variable_expressions,
            },
            maintain_constant_population_size: cfg.maintain_constant_population_size,
            discard_parents: cfg.discard_parents,
            rng: rng_from_seed(seed),
        }
    }

    /// An empty soup from a configuration; fails when one of its rules does not parse.
    pub fn from_config(cfg: &Reactor) -> (r: Result<Soup, ConfigError>)
        ensures
            r is Ok <==> forall|i: int|
                0 <= i < cfg.rules@.len() ==> #[trigger] crate::term::parsed(
                    cfg.rules@[i]@,
                    lambda_calculus::term::Notation::Classic,
                ) is Some,
            r matches Ok(s) ==> fresh_soup(*cfg, s@),
            r matches Err(ConfigError::UnparsableRule(k)) ==> k < cfg.rules@.len()
                && crate::term::parsed(cfg.rules@[k as int]@, lambda_calculus::term::Notation::Classic) is None,
    {
        let collider = match AlchemyCollider::from_config(cfg) {
            Ok(c) => c,
            Err(e) => return Err(e),
        };
        let seed = cfg.seed.get();
        Ok(
            Soup {
                expressions: Vec::new(),
                n_collisions: 0,
                collider,
                maintain_constant_population_size: cfg.maintain_constant_population_size,
                discard_parents: cfg.discard_parents,
                rng: rng_from_seed(seed),
            },
        )
    }

    /// Introduce particles into the soup, without reduction.
    pub fn perturb(&mut self, expressions: Vec<LambdaParticle>)
        ensures
            final(self)@ == (SoupModel { particles: old(self)@.particles + expressions@, ..old(self)@ }),
    {
        let mut expressions = expressions;
        self.expressions.append(&mut expressions);
    }

    /// Produce one reaction on the soup.
    pub fn react(&mut self) -> (r: Result<LambdaCollisionOk, LambdaCollisionError>)
        requires
            old(self)@.n_collisions < usize::MAX,
        ensures
            (final(self)@, result_view(r)) == react_spec(old(self)@),
    {
        let ghost s0 = self@;
        let n = self.expressions.len();
        if n < 2 {
            return Err(LambdaCollisionError::NotEnoughExpressions);
        }
        let i = gen_below(&mut self.rng, n as u64) as usize;
        assert(draw_index(s0.rng, n as nat) == (self.rng, i as int));
        let left = self.expressions.swap_remove(i);
        let ghost r1 = self.rng;
        let ghost p1 = self.expressions@;
        let j = gen_below(&mut self.rng, (n - 1) as u64) as usize;
        assert(draw_index(r1, (n - 1) as nat) == (self.rng, j as int));
        let right = self.expressions.swap_remove(j);
        let ghost p2 = self.expressions@;
        let ghost r2 = self.rng;
        assert(p1 == swap_removed(s0.particles, i as int));
        assert(p2 == swap_removed(p1, j as int));
        let result = self.collider.collide(left.clone(), right.clone());
        let ghost mut p3 = p2;
        let ghost mut r3 = r2;
        match &result {
            Ok(t) => {
                let mut produced = t.particles();
                let count = t.count();
                self.expressions.append(&mut produced);
                assert(self.expressions@ == p2 + t@.results);
                if self.maintain_constant_population_size {
                    let ghost p0 = self.expressions@;
                    let ghost r0 = self.rng;
                    let mut m: usize = 0;
                    while m < count
                        invariant
                            m <= count,
                            count <= p0.len(),
                            self.expressions@.len() == p0.len() - m,
                            trim(p0, r0, count as nat) == trim(
                                self.expressions@,
                                self.rng,
                                (count - m) as nat,
                            ),
                            self.n_collisions == s0.n_collisions,
                            self.collider@ == s0.collider,
                            self.discard_parents == s0.discard_parents,
                            self.maintain_constant_population_size == s0.keep_constant,
                        decreases count - m,
                    {
                        let k = gen_below(&mut self.rng, self.expressions.len() as u64) as usize;
                        self.expressions.swap_remove(k);
                        m += 1;
                    }
                    assert(trim(p0, r0, count as nat) == (self.expressions@, self.rng));
                }
                proof {
                    p3 = self.expressions@;
                    r3 = self.rng;
                }
            },
            Err(_) => {},
        }
        if !self.discard_parents {
            self.expressions.push(left);
            self.expressions.push(right);
        }
        self.n_collisions = self.n_collisions + 1;
        assert(result_view(result) == collide_spec(s0.collider, left, right));
        assert((p3, r3) == match collide_spec(s0.collider, left, right) {
            Ok(m) => if s0.keep_constant {
                trim(p2 + m.results, r2, m.results.len())
            } else {
                (p2 + m.results, r2)
            },
            Err(_) => (p2, r2),
        });
        assert(self.expressions@ == if s0.discard_parents {
            p3
        } else {
            p3.push(left).push(right)
        });
        assert(self@ == react_spec(s0).0);
        result
    }


    /// Run `n` reactions; returns how many succeeded. Failed reactions do not stop the run.
    pub fn simulate_for(&mut self, n: usize) -> (r: usize)
        requires
            old(self)@.n_collisions + n <= usize::MAX,
        ensures
            (final(self)@, r as nat) == run(old(self)@, n as nat),
    {
        let ghost s0 = self@;
        let mut n_successes: usize = 0;
        let mut i: usize = 0;
        while i < n
            invariant
                i <= n,
                n_successes <= i,
                self@.n_collisions <= s0.n_collisions + i,
                s0.n_collisions + n <= usize::MAX,
                run(s0, n as nat) == (run(self@, (n - i) as nat).0, (n_successes + run(
                    self@,
                    (n - i) as nat,
                ).1) as nat),
            decreases n - i,
        {
            let ghost before = self@;
            proof {
                lemma_run_step(before, (n - i) as nat);
                lemma_react_collisions_bound(before);
            }
            let reaction = self.react();
            if reaction.is_ok() {
                n_successes += 1;
            }
            i += 1;
        }
        n_successes
    }

    /// Run `n` reactions, calling `poller` on the soup after every `polling_interval`-th of
    /// them (the first included) and collecting what it returns.
    pub fn simulate_and_poll<F, R>(&mut self, n: usize, polling_interval: usize, poller: F) -> (r:
        Vec<R>) where F: Fn(&Soup) -> R
        requires
            polling_interval > 0,
            old(self)@.n_collisions + n <= usize::MAX,
            forall|s: &Soup| poller.requires((s,)),
        ensures
            final(self)@ == run(old(self)@, n as nat).0,
            r@.len() == polls(n as nat, polling_interval as nat),
            forall|k: int|
                0 <= k < r@.len() ==> polled(
                    poller,
                    run(old(self)@, (k * polling_interval + 1) as nat).0,
                    #[trigger] r@[k],
                ),
    {
        let ghost s0 = self@;
        let mut data: Vec<R> = Vec::new();
        let mut i: usize = 0;
        while i < n
            invariant
                i <= n,
                polling_interval > 0,
                self@ == run(s0, i as nat).0,
                self@.n_collisions <= s0.n_collisions + i,
                s0.n_collisions + n <= usize::MAX,
                forall|s: &Soup| poller.requires((s,)),
                data@.len() == polls(i as nat, polling_interval as nat),
                forall|k: int|
                    0 <= k < data@.len() ==> polled(
                        poller,
                        run(s0, (k * polling_interval + 1) as nat).0,
                        #[trigger] data@[k],
                    ),
            decreases n - i,
        {
            proof {
                lemma_react_collisions_bound(self@);
                lemma_run_split(s0, i as nat);
                lemma_polls_step(i as nat, polling_interval as nat);
            }
            let _reaction = self.react();
            if i % polling_interval == 0 {
                let ghost snapshot = *self;
                let datum = poller(&*self);
                let ghost old_data = data@;
                proof {
                    let k = data@.len() as int;
                    assert(k * polling_interval == i) by (nonlinear_arith)
                        requires
                            k == (i as int) / (polling_interval as int),
                            (i as int) % (polling_interval as int) == 0,
                            polling_interval > 0,
                    ;
                    assert(polled(poller, run(s0, (k * polling_interval + 1) as nat).0, datum));
                }
                data.push(datum);
                proof {
                    assert forall|q: int| 0 <= q < data@.len() implies polled(
                        poller,
                        run(s0, (q * polling_interval + 1) as nat).0,
                        #[trigger] data@[q],
                    ) by {
                        if q < old_data.len() {
                            assert(data@[q] == old_data[q]);
                        }
                    }
                }
            }
            i += 1;
        }
        data
    }

    /// As `simulate_and_poll`, with a poller that also says when to stop: the run ends
    /// right after a poll that asks for it, returning what was collected so far.
    pub fn simulate_and_poll_with_killer<F, R>(
        &mut self,
        n: usize,
        polling_interval: usize,
        killpoller: F,
    ) -> (r: Vec<R>) where F: Fn(&Soup) -> (R, bool)
        requires
            polling_interval > 0,
            old(self)@.n_collisions + n <= usize::MAX,
            forall|s: &Soup| killpoller.requires((s,)),
        ensures
            exists|m: nat, killed: bool|
                #[trigger] killer_run(
                    killpoller,
                    old(self)@,
                    n as nat,
                    polling_interval as nat,
                    m,
                    killed,
                    final(self)@,
                    r@,
                ),
    {
        let ghost s0 = self@;
        let mut data: Vec<R> = Vec::new();
        let mut i: usize = 0;
        while i < n
            invariant
                i <= n,
                s0 == old(self)@,
                polling_interval > 0,
                self@ == run(s0, i as nat).0,
                self@.n_collisions <= s0.n_collisions + i,
                s0.n_collisions + n <= usize::MAX,
                forall|s: &Soup| killpoller.requires((s,)),
                data@.len() == polls(i as nat, polling_interval as nat),
                forall|k: int|
                    0 <= k < data@.len() ==> kill_polled(
                        killpoller,
                        run(s0, (k * polling_interval + 1) as nat).0,
                        #[trigger] data@[k],
                        false,
                    ),
            decreases n - i,
        {
            proof {
                lemma_react_collisions_bound(self@);
                lemma_run_split(s0, i as nat);
                lemma_polls_step(i as nat, polling_interval as nat);
            }
            let _reaction = self.react();
            if i % polling_interval == 0 {
                let ghost snapshot = *self;
                let (datum, should_kill) = killpoller(&*self);
                let ghost old_data = data@;
                proof {
                    let k = data@.len() as int;
                    assert(k * polling_interval == i) by (nonlinear_arith)
                        requires
                            k == (i as int) / (polling_interval as int),
                            (i as int) % (polling_interval as int) == 0,
                            polling_interval > 0,
                    ;
                    assert(kill_polled(
                        killpoller,
                        run(s0, (k * polling_interval + 1) as nat).0,
                        datum,
                        should_kill,
                    ));
                }
                data.push(datum);
                if should_kill {
                    proof {
                        let m = (i + 1) as nat;
                        assert forall|q: int| 0 <= q < data@.len() implies kill_polled(
                            killpoller,
                            run(s0, (q * polling_interval + 1) as nat).0,
                            #[trigger] data@[q],
                            true && q == data@.len() - 1,
                        ) by {
                            if q < old_data.len() {
                                assert(data@[q] == old_data[q]);
                            }
                        }
                        assert(data@.len() == polls(m, polling_interval as nat));
                        assert((data@.len() - 1) * polling_interval == i);
                        assert(self@ == run(s0, m).0);
                        assert(killer_run(killpoller, s0, n as nat, polling_interval as nat, m, true, self@, data@));
                    }
                    return data;
                }
                proof {
                    assert forall|q: int| 0 <= q < data@.len() implies kill_polled(
                        killpoller,
                        run(s0, (q * polling_interval + 1) as nat).0,
                        #[trigger] data@[q],
                        false,
                    ) by {
                        if q < old_data.len() {
                            assert(data@[q] == old_data[q]);
                        }
                    }
                }
            }
            i += 1;
        }
        proof {
            assert forall|q: int| 0 <= q < data@.len() implies kill_polled(
                killpoller,
                run(s0, (q * polling_interval + 1) as nat).0,
                #[trigger] data@[q],
                false && q == data@.len() - 1,
            ) by {}
            assert(killer_run(killpoller, s0, n as nat, polling_interval as nat, n as nat, false, self@, data@));
        }
        data
    }

    /// Run `n` reactions, keeping a copy of the soup after every `polling_interval`-th of
    /// them (the first included).
    pub fn simulate_and_record(&mut self, n: usize, polling_interval: usize) -> (r: Tape)
        requires
            polling_interval > 0,
            old(self)@.n_collisions + n <= usize::MAX,
        ensures
            final(self)@ == run(old(self)@, n as nat).0,
            r@.soup == final(self)@,
            r@.polling_interval == polling_interval,
            r@.history.len() == polls(n as nat, polling_interval as nat),
            forall|k: int|
                0 <= k < r@.history.len() ==> #[trigger] r@.history[k] == run(
                    old(self)@,
                    (k * polling_interval + 1) as nat,
                ).0,
    {
        let ghost s0 = self@;
        let mut history: Vec<Soup> = Vec::new();
        let mut i: usize = 0;
        while i < n
            invariant
                i <= n,
                polling_interval > 0,
                self@ == run(s0, i as nat).0,
                self@.n_collisions <= s0.n_collisions + i,
                s0.n_collisions + n <= usize::MAX,
                history@.len() == polls(i as nat, polling_interval as nat),
                forall|k: int|
                    0 <= k < history@.len() ==> #[trigger] history@[k]@ == run(
                        s0,
                        (k * polling_interval + 1) as nat,
                    ).0,
            decreases n - i,
        {
            proof {
                lemma_react_collisions_bound(self@);
                lemma_run_split(s0, i as nat);
                lemma_polls_step(i as nat, polling_interval as nat);
            }
            let _reaction = self.react();
            if i % polling_interval == 0 {
                proof {
                    let k = history@.len() as int;
                    assert(k * polling_interval == i) by (nonlinear_arith)
                        requires
                            k == (i as int) / (polling_interval as int),
                            (i as int) % (polling_interval as int) == 0,
                            polling_interval > 0,
                    ;
                }
                history.push(self.clone());
            }
            i += 1;
        }
        let tape = Tape { soup: self.clone(), history, polling_interval };
        proof {
            assert forall|k: int| 0 <= k < tape@.history.len() implies #[trigger] tape@.history[k]
                == run(s0, (k * polling_interval + 1) as nat).0 by {
                assert(tape@.history[k] == tape.history@[k]@);
            }
        }
        tape
    }

    /// Add inert particles, one per term.
    pub fn add_lambda_expressions(&mut self, expressions: Vec<Term>)
        ensures
            final(self)@ == (SoupModel {
                particles: old(self)@.particles + tagged(expressions@, false),
                ..old(self)@
            }),
    {
        self.add_tagged(expressions, false)
    }

    /// Add test particles, one per term.
    pub fn add_test_expressions(&mut self, expressions: Vec<Term>)
        ensures
            final(self)@ == (SoupModel {
                particles: old(self)@.particles + tagged(expressions@, true),
                ..old(self)@
            }),
    {
        self.add_tagged(expressions, true)
    }

    fn add_tagged(&mut self, expressions: Vec<Term>, recursive: bool)
        ensures
            final(self)@ == (SoupModel {
                particles: old(self)@.particles + tagged(expressions@, recursive),
                ..old(self)@
            }),
    {
        let ghost s0 = self@;
        let mut i: usize = 0;
        while i < expressions.len()
            invariant
                i <= expressions@.len(),
                self@ == (SoupModel {
                    particles: s0.particles + tagged(expressions@.take(i as int), recursive),
                    ..s0
                }),
            decreases expressions@.len() - i,
        {
            self.expressions.push(LambdaParticle { expr: expressions[i].clone(), recursive });
            proof {
                assert(tagged(expressions@.take(i + 1), recursive) =~= tagged(
                    expressions@.take(i as int),
                    recursive,
                ).push(LambdaParticle { expr: expressions@[i as int], recursive }));
                assert(s0.particles + tagged(expressions@.take(i + 1), recursive) =~= (s0.particles
                    + tagged(expressions@.take(i as int), recursive)).push(
                    LambdaParticle { expr: expressions@[i as int], recursive },
                ));
            }
            i += 1;
        }
        proof {
            assert(expressions@.take(i as int) =~= expressions@);
        }
    }

    /// Under a constant population, first remove `nterms` particles drawn at random; then
    /// add `nterms` inert particles from `expressions`, cycled (none if it is empty).
    pub fn perturb_lambda_expressions(&mut self, nterms: usize, expressions: Vec<Term>)
        requires
            old(self)@.keep_constant ==> nterms <= old(self)@.particles.len(),
        ensures
            ({
                let (p, rng) = if old(self)@.keep_constant {
                    trim(old(self)@.particles, old(self)@.rng, nterms as nat)
                } else {
                    (old(self)@.particles, old(self)@.rng)
                };
                final(self)@ == SoupModel {
                    particles: p + cycled(expressions@, nterms as nat, false),
                    rng,
                    ..old(self)@
                }
            }),
    {
        self.perturb_tagged(nterms, expressions, false)
    }

    /// Under a constant population, first remove `nterms` particles drawn at random; then
    /// add `nterms` test particles from `expressions`, cycled (none if it is empty).
    pub fn perturb_test_expressions(&mut self, nterms: usize, expressions: Vec<Term>)
        requires
            old(self)@.keep_constant ==> nterms <= old(self)@.particles.len(),
        ensures
            ({
                let (p, rng) = if old(self)@.keep_constant {
                    trim(old(self)@.particles, old(self)@.rng, nterms as nat)
                } else {
                    (old(self)@.particles, old(self)@.rng)
                };
                final(self)@ == SoupModel {
                    particles: p + cycled(expressions@, nterms as nat, true),
                    rng,
                    ..old(self)@
                }
            }),
    {
        self.perturb_tagged(nterms, expressions, true)
    }

    fn perturb_tagged(&mut self, nterms: usize, expressions: Vec<Term>, recursive: bool)
        requires
            old(self)@.keep_constant ==> nterms <= old(self)@.particles.len(),
        ensures
            ({
                let (p, rng) = if old(self)@.keep_constant {
                    trim(old(self)@.particles, old(self)@.rng, nterms as nat)
                } else {
                    (old(self)@.particles, old(self)@.rng)
                };
                final(self)@ == SoupModel {
                    particles: p + cycled(expressions@, nterms as nat, recursive),
                    rng,
                    ..old(self)@
                }
            }),
    {
        let ghost s0 = self@;
        if self.maintain_constant_population_size {
            let mut m: usize = 0;
            while m < nterms
                invariant
                    m <= nterms,
                    nterms <= s0.particles.len(),
                    self.expressions@.len() == s0.particles.len() - m,
                    trim(s0.particles, s0.rng, nterms as nat) == trim(
                        self.expressions@,
                        self.rng,
                        (nterms - m) as nat,
                    ),
                    self@ == (SoupModel { particles: self.expressions@, rng: self.rng, ..s0 }),
                decreases nterms - m,
            {
                let k = gen_below(&mut self.rng, self.expressions.len() as u64) as usize;
                self.expressions.swap_remove(k);
                m += 1;
            }
        }
        let ghost s1 = self@;
        if expressions.len() > 0 {
            let mut i: usize = 0;
            while i < nterms
                invariant
                    i <= nterms,
                    expressions@.len() > 0,
                    self@ == (SoupModel {
                        particles: s1.particles + cycled(expressions@, i as nat, recursive),
                        ..s1
                    }),
                decreases nterms - i,
            {
                let t = expressions[i % expressions.len()].clone();
                self.expressions.push(LambdaParticle { expr: t, recursive });
                proof {
                    assert(s1.particles + cycled(expressions@, (i + 1) as nat, recursive) =~= (
                    s1.particles + cycled(expressions@, i as nat, recursive)).push(
                        LambdaParticle { expr: expressions@[(i as int) % (expressions@.len() as int)], recursive },
                    ));
                }
                i += 1;
            }
        } else {
            proof {
                assert(s1.particles + cycled(expressions@, nterms as nat, recursive) =~= s1.particles);
            }
        }
    }

    /// The terms of all particles, in order.
    pub fn lambda_expressions(&self) -> (r: Vec<Term>)
        ensures
            r@ == terms_of(self@.particles),
    {
        let mut r: Vec<Term> = Vec::new();
        let mut i: usize = 0;
        while i < self.expressions.len()
            invariant
                i <= self.expressions@.len(),
                r@ == terms_of(self.expressions@.take(i as int)),
            decreases self.expressions@.len() - i,
        {
            r.push(self.expressions[i].expr.clone());
            proof {
                assert(terms_of(self.expressions@.take(i + 1)) =~= terms_of(
                    self.expressions@.take(i as int),
                ).push(self.expressions@[i as int].expr));
            }
            i += 1;
        }
        proof {
            assert(self.expressions@.take(i as int) =~= self.expressions@);
        }
        r
    }

    /// How many particles carry `item`.
    pub fn population_of(&self, item: &Term) -> (r: usize)
        ensures
            r == occurrences(terms_of(self@.particles), *item),
    {
        let ghost terms = terms_of(self.expressions@);
        proof {
            broadcast use vstd::seq_lib::group_to_multiset_ensures;

            assert(terms.take(0) =~= Seq::<Term>::empty());
        }
        let mut count: usize = 0;
        let mut i: usize = 0;
        while i < self.expressions.len()
            invariant
                i <= self.expressions@.len(),
                terms == terms_of(self.expressions@),
                count <= i,
                count == occurrences(terms.take(i as int), *item),
            decreases self.expressions@.len() - i,
        {
            proof {
                broadcast use vstd::seq_lib::group_to_multiset_ensures;

                assert(terms.take(i + 1) =~= terms.take(i as int).push(terms[i as int]));
            }
            if is_alpha_equivalent(&self.expressions[i].expr, item) {
                count += 1;
            }
            i += 1;
        }
        proof {
            assert(terms.take(i as int) =~= terms);
        }
        count
    }

    /// Get the particles of the soup.
    pub fn expressions(&self) -> (r: &Vec<LambdaParticle>)
        ensures
            r@ == self@.particles,
    {
        &self.expressions
    }

    /// Get the number of particles in the soup.
    pub fn len(&self) -> (r: usize)
        ensures
            r == self@.particles.len(),
    {
        self.expressions.len()
    }

    /// Whether reactions and perturbations keep the population size constant.
    pub fn maintains_constant_population(&self) -> (r: bool)
        ensures
            r == self@.keep_constant,
    {
        self.maintain_constant_population_size
    }

    /// Get the number of reactions so far.
    pub fn collisions(&self) -> (r: usize)
        ensures
            r == self@.n_collisions,
    {
        self.n_collisions
    }
}

} // verus!
