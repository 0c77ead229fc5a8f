//! Seeded generators of random lambda terms.
use vstd::prelude::*;
use vstd::multiset::Multiset;
use lambda_calculus::Term;
use rand_chacha::ChaCha8Rng;
use crate::config::{self, Ratio};
use crate::rng::{draw_below, draw_ratio, gen_below, gen_ratio, rng_from_seed, seeded, shuffle_keys, shuffled};
use crate::term::{abs, app, has_free_at, is_closed, mk_abs, mk_app, size_of};

verus! {

/// How a generated term with free variables is closed.
#[derive(Clone, Copy, Debug, PartialEq, Eq, Structural)]
pub enum Standardization {
    /// Wrap the term in binders until no variable is free.
    Prefix,
    /// Reserved; leaves the term as generated.
    Postfix,
    /// Leave the term as generated.
    Unchanged,
}

/// A binary search tree of keys; its shape becomes the shape of a term.
pub struct BTree {
    pub n: u32,
    pub left: Option<Box<BTree>>,
    pub right: Option<Box<BTree>>,
}

pub open spec fn leaf(k: u32) -> BTree {
    BTree { n: k, left: None, right: None }
}

/// Insert `k` below the first missing child on its side: left when `k <= t.n`, else right.
pub open spec fn bst_insert(t: BTree, k: u32) -> BTree
    decreases t,
{
    if k <= t.n {
        match t.left {
            None => BTree { left: Some(Box::new(leaf(k))), ..t },
            Some(l) => BTree { left: Some(Box::new(bst_insert(*l, k))), ..t },
        }
    } else {
        match t.right {
            None => BTree { right: Some(Box::new(leaf(k))), ..t },
            Some(r) => BTree { right: Some(Box::new(bst_insert(*r, k))), ..t },
        }
    }
}

pub open spec fn node_count(t: BTree) -> nat
    decreases t,
{
    1 + match t.left {
        None => 0,
        Some(l) => node_count(*l),
    } + match t.right {
        None => 0,
        Some(r) => node_count(*r),
    }
}

/// The keys of the tree, with multiplicity.
pub open spec fn keys(t: BTree) -> Multiset<u32>
    decreases t,
{
    Multiset::singleton(t.n).add(
        match t.left {
            None => Multiset::empty(),
            Some(l) => keys(*l),
        },
    ).add(
        match t.right {
            None => Multiset::empty(),
            Some(r) => keys(*r),
        },
    )
}

/// Every key of the left subtree is at most the node's key, every key of the right one
/// above it, and so on down.
pub open spec fn is_search_tree(t: BTree) -> bool
    decreases t,
{
    &&& (t.left matches Some(l) ==> is_search_tree(*l) && forall|k: u32|
        keys(*l).count(k) > 0 ==> k <= t.n)
    &&& (t.right matches Some(r) ==> is_search_tree(*r) && forall|k: u32|
        keys(*r).count(k) > 0 ==> k > t.n)
}

/// Insertion adds one node and one key, and keeps the search-tree order.
pub proof fn lemma_insert_keeps_order(t: BTree, k: u32)
    ensures
        node_count(bst_insert(t, k)) == node_count(t) + 1,
        keys(bst_insert(t, k)) =~= keys(t).insert(k),
        is_search_tree(t) ==> is_search_tree(bst_insert(t, k)),
    decreases t,
{
    broadcast use vstd::multiset::group_multiset_axioms;

    assert(node_count(leaf(k)) == 1);
    assert(keys(leaf(k)) =~= Multiset::singleton(k));
    assert(is_search_tree(leaf(k)));
    let u = bst_insert(t, k);
    if k <= t.n {
        match t.left {
            None => {},
            Some(l) => {
                lemma_insert_keeps_order(*l, k);
                assert(u.left == Some(Box::new(bst_insert(*l, k))));
            },
        }
        assert(u.right == t.right);
    } else {
        match t.right {
            None => {},
            Some(r) => {
                lemma_insert_keeps_order(*r, k);
                assert(u.right == Some(Box::new(bst_insert(*r, k))));
            },
        }
        assert(u.left == t.left);
    }
    if is_search_tree(t) {
        if let Some(l) = u.left {
            assert(is_search_tree(*l));
        }
        if let Some(r) = u.right {
            assert(is_search_tree(*r));
        }
    }
}

impl BTree {
    pub fn new(n: u32) -> (r: BTree)
        ensures
            r == leaf(n),
    {
        BTree { n, left: None, right: None }
    }

    fn insert_into(child: &mut Option<Box<BTree>>, n: u32)
        ensures
            *final(child) == match *old(child) {
                None => Some(Box::new(leaf(n))),
                Some(c) => Some(Box::new(bst_insert(*c, n))),
            },
        decreases *old(child),
    {
        match child.take() {
            None => {
                *child = Some(Box::new(BTree::new(n)));
            },
            Some(mut boxed) => {
                (&mut *boxed).insert(n);
                *child = Some(boxed);
            },
        }
    }

    /// Insert a key: below the first missing child on its side, left when it is at most
    /// the node's key.
    pub fn insert(&mut self, n: u32)
        ensures
            *final(self) == bst_insert(*old(self), n),
        decreases *old(self),
    {
        if n <= self.n {
            BTree::insert_into(&mut self.left, n);
        } else {
            BTree::insert_into(&mut self.right, n);
        }
    }
}

/// The term of a tree whose root sits under `depth` binders, and the generator state after
/// the draws: a leaf is a variable, free with the given probability (always at depth 0)
/// and then `depth + U(1, max_free_vars)`, else bound, `U(1, depth)`; one child is a
/// binder over it; two children are their application.
pub open spec fn lambda_of(t: BTree, rng: ChaCha8Rng, p: Ratio, max_free_vars: u32, depth: nat) -> (
    Term,
    ChaCha8Rng,
)
    decreases t,
{
    match t.left {
        None => match t.right {
            None => {
                let (r1, coin) = draw_ratio(rng, p.numerator, p.denominator);
                if coin || depth == 0 {
                    let (r2, x) = draw_below(r1, max_free_vars as u64);
                    let x = if x < max_free_vars { x as nat } else { 0 };
                    (Term::Var((depth + 1 + x) as usize), r2)
                } else {
                    let (r2, x) = draw_below(r1, depth as u64);
                    let x = if x < depth { x as nat } else { 0 };
                    (Term::Var((1 + x) as usize), r2)
                }
            },
            Some(c) => {
                let (b, r1) = lambda_of(*c, rng, p, max_free_vars, depth + 1);
                (mk_abs(b), r1)
            },
        },
        Some(l) => match t.right {
            None => {
                let (b, r1) = lambda_of(*l, rng, p, max_free_vars, depth + 1);
                (mk_abs(b), r1)
            },
            Some(r) => {
                let (a, r1) = lambda_of(*l, rng, p, max_free_vars, depth);
                let (b, r2) = lambda_of(*r, r1, p, max_free_vars, depth);
                (mk_app(a, b), r2)
            },
        },
    }
}

/// Every variable, seen under the binders above it plus `depth`, has an index from 1 to
/// that number of binders plus `max_vars`; at binder depth 0 it is therefore free.
pub open spec fn indices_within(t: Term, depth: nat, max_vars: nat) -> bool
    decreases t,
{
    match t {
        Term::Var(v) => 1 <= v <= depth + max_vars,
        Term::Abs(b) => indices_within(*b, depth + 1, max_vars),
        Term::App(p) => indices_within(p.0, depth, max_vars) && indices_within(p.1, depth, max_vars),
    }
}

/// Every variable at node depth `d` (counting every node above it, plus `depth`) has an
/// index from 1 to `d + max_vars`.
pub open spec fn node_indices_within(t: Term, depth: nat, max_vars: nat) -> bool
    decreases t,
{
    match t {
        Term::Var(v) => 1 <= v <= depth + max_vars,
        Term::Abs(b) => node_indices_within(*b, depth + 1, max_vars),
        Term::App(p) => node_indices_within(p.0, depth + 1, max_vars) && node_indices_within(
            p.1,
            depth + 1,
            max_vars,
        ),
    }
}

/// The term of a tree has one node per tree node, and its indices stay within the bounds
/// of its binders and `max_free_vars`.
pub proof fn lemma_lambda_of_shape(t: BTree, rng: ChaCha8Rng, p: Ratio, maxv: u32, depth: nat)
    requires
        maxv >= 1,
        depth + node_count(t) + maxv <= u32::MAX,
    ensures
        size_of(lambda_of(t, rng, p, maxv, depth).0) == node_count(t),
        indices_within(lambda_of(t, rng, p, maxv, depth).0, depth, maxv as nat),
    decreases t,
{
    match t.left {
        None => match t.right {
            None => {},
            Some(c) => lemma_lambda_of_shape(*c, rng, p, maxv, depth + 1),
        },
        Some(l) => match t.right {
            None => lemma_lambda_of_shape(*l, rng, p, maxv, depth + 1),
            Some(r) => {
                let (a, r1) = lambda_of(*l, rng, p, maxv, depth);
                lemma_lambda_of_shape(*l, rng, p, maxv, depth);
                lemma_lambda_of_shape(*r, r1, p, maxv, depth);
            },
        },
    }
}

/// Whether the term holds the undefined index 0.
pub open spec fn has_zero(t: Term) -> bool
    decreases t,
{
    match t {
        Term::Var(x) => x == 0,
        Term::Abs(b) => has_zero(*b),
        Term::App(p) => has_zero(p.0) || has_zero(p.1),
    }
}

/// How many binders the term lacks to be closed, seen under `depth` binders.
pub open spec fn max_free(t: Term, depth: nat) -> nat
    decreases t,
{
    match t {
        Term::Var(x) => if x > depth {
            (x - depth) as nat
        } else {
            0
        },
        Term::Abs(b) => max_free(*b, depth + 1),
        Term::App(p) => {
            let a = max_free(p.0, depth);
            let b = max_free(p.1, depth);
            if a >= b {
                a
            } else {
                b
            }
        },
    }
}

/// `t` under `k` more binders.
pub open spec fn wrap(t: Term, k: nat) -> Term
    decreases k,
{
    if k == 0 {
        t
    } else {
        mk_abs(wrap(t, (k - 1) as nat))
    }
}

/// The generated term after standardization.
pub open spec fn standardize(t: Term, std: Standardization) -> Term {
    match std {
        Standardization::Prefix => wrap(t, max_free(t, 0)),
        _ => t,
    }
}

proof fn lemma_free_iff_max_free(t: Term, depth: nat)
    requires
        !has_zero(t),
    ensures
        has_free_at(t, depth) <==> max_free(t, depth) > 0,
        max_free(t, depth + 1) == if max_free(t, depth) > 0 {
            (max_free(t, depth) - 1) as nat
        } else {
            0
        },
    decreases t,
{
    match t {
        Term::Var(_) => {},
        Term::Abs(b) => lemma_free_iff_max_free(*b, depth + 1),
        Term::App(p) => {
            lemma_free_iff_max_free(p.0, depth);
            lemma_free_iff_max_free(p.1, depth);
        },
    }
}

proof fn lemma_wrap_max_free(t: Term, k: nat)
    requires
        !has_zero(t),
    ensures
        !has_zero(wrap(t, k)),
        max_free(wrap(t, k), 0) == if max_free(t, 0) >= k {
            (max_free(t, 0) - k) as nat
        } else {
            0
        },
    decreases k,
{
    if k > 0 {
        lemma_wrap_max_free(t, (k - 1) as nat);
        lemma_free_iff_max_free(wrap(t, (k - 1) as nat), 0);
    }
}

/// Wrap `t` in binders until no variable is free.
fn prefix_standardize(t: Term) -> (r: Term)
    requires
        !has_zero(t),
    ensures
        r == wrap(t, max_free(t, 0)),
        is_closed(r),
{
    let ghost t0 = t;
    let ghost goal = max_free(t0, 0);
    let mut t = t;
    let ghost mut k: nat = 0;
    proof {
        lemma_wrap_max_free(t0, 0);
    }
    while t.has_free_variables()
        invariant
            k <= goal,
            !has_zero(t0),
            t == wrap(t0, k),
            !has_zero(t),
            max_free(t, 0) == goal - k,
        decreases goal - k,
    {
        proof {
            lemma_free_iff_max_free(t, 0);
        }
        t = abs(t);
        proof {
            k = k + 1;
            lemma_wrap_max_free(t0, k);
        }
    }
    proof {
        lemma_free_iff_max_free(t, 0);
    }
    t
}

impl BTree {
    fn to_lambda_h(&self, rng: &mut ChaCha8Rng, p: Ratio, max_free_vars: u32, depth: u32) -> (r:
        Term)
        requires
            0 < p.denominator,
            p.numerator <= p.denominator,
            max_free_vars >= 1,
            depth + node_count(*self) + max_free_vars <= u32::MAX,
        ensures
            (r, *final(rng)) == lambda_of(*self, *old(rng), p, max_free_vars, depth as nat),
            !has_zero(r),
            size_of(r) == node_count(*self),
            indices_within(r, depth as nat, max_free_vars as nat),
        decreases self,
    {
        proof {
            lemma_lambda_of_shape(*self, *rng, p, max_free_vars, depth as nat);
        }
        match (&self.left, &self.right) {
            (None, None) => {
                let coin = gen_ratio(rng, p.numerator, p.denominator);
                if coin || depth == 0 {
                    let x = gen_below(rng, max_free_vars as u64);
                    Term::Var((depth as u64 + 1 + x) as usize)
                } else {
                    let x = gen_below(rng, depth as u64);
                    Term::Var((1 + x) as usize)
                }
            },
            (Some(t), None) | (None, Some(t)) => abs(t.to_lambda_h(rng, p, max_free_vars, depth + 1)),
            (Some(l), Some(r)) => {
                let left = l.to_lambda_h(rng, p, max_free_vars, depth);
                let right = r.to_lambda_h(rng, p, max_free_vars, depth);
                app(left, right)
            },
        }
    }
}

/// The tree of the first `i` keys, inserted in order into a tree of the first one.
pub open spec fn tree_of(keys: Seq<u32>, i: nat) -> BTree
    decreases i,
{
    if i <= 1 {
        leaf(keys[0])
    } else {
        bst_insert(tree_of(keys, (i - 1) as nat), keys[i - 1])
    }
}

proof fn lemma_tree_of_count(keys: Seq<u32>, i: nat)
    requires
        i >= 1,
    ensures
        node_count(tree_of(keys, i)) == i,
    decreases i,
{
    if i > 1 {
        lemma_tree_of_count(keys, (i - 1) as nat);
        lemma_insert_keeps_order(tree_of(keys, (i - 1) as nat), keys[i - 1]);
    }
}

/// The state of a binary-tree generator.
pub struct BTreeGenModel {
    pub n: u32,
    pub freevar_p: Ratio,
    pub max_free_vars: u32,
    pub std: Standardization,
    pub seed: Seq<u8>,
    pub rng: ChaCha8Rng,
}

/// `0..n` as keys.
pub open spec fn key_range(n: u32) -> Seq<u32> {
    Seq::new(n as nat, |i: int| i as u32)
}

/// One term of the generator and its next generator state: shuffle the keys `0..n`,
/// build their search tree, turn it into a term and standardize it.
pub open spec fn generate_spec(g: BTreeGenModel) -> (Term, ChaCha8Rng) {
    let (ks, r1) = shuffled(key_range(g.n), g.rng);
    let tree = tree_of(ks, ks.len());
    let (t, r2) = lambda_of(tree, r1, g.freevar_p, g.max_free_vars, 0);
    (standardize(t, g.std), r2)
}

/// The first `k` terms of the generator and its state after them.
pub open spec fn generated(g: BTreeGenModel, k: nat) -> (Seq<Term>, ChaCha8Rng)
    decreases k,
{
    if k == 0 {
        (seq![], g.rng)
    } else {
        let (s, r) = generated(g, (k - 1) as nat);
        let (t, r2) = generate_spec(BTreeGenModel { rng: r, ..g });
        (s.push(t), r2)
    }
}

/// Largest tree size and number of free variables a generator takes; larger ones are
/// clamped so that every variable index fits.
pub const MAX_GEN_PARAM: u32 = 0x7fff_ffff;

/// A generator of random terms shaped as binary search trees of `n` nodes.
pub struct BTreeGen {
    n: u32,
    freevar_p: Ratio,
    max_free_vars: u32,
    std: Standardization,
    seed: [u8; 32],
    rng: ChaCha8Rng,
}

impl View for BTreeGen {
    type V = BTreeGenModel;

    closed spec fn view(&self) -> BTreeGenModel {
        BTreeGenModel {
            n: self.n,
            freevar_p: self.freevar_p,
            max_free_vars: self.max_free_vars,
            std: self.std,
            seed: self.seed@,
            rng: self.rng,
        }
    }
}

pub open spec fn clamp_u32(x: u32, lo: u32, hi: u32) -> u32 {
    if x < lo {
        lo
    } else if x > hi {
        hi
    } else {
        x
    }
}

/// A probability clamped to `[0, 1]`: a zero denominator reads as 0, a numerator above
/// the denominator as 1.
pub open spec fn clamp_ratio(p: Ratio) -> Ratio {
    if p.denominator == 0 {
        Ratio { numerator: 0, denominator: 1 }
    } else if p.numerator > p.denominator {
        Ratio { numerator: p.denominator, denominator: p.denominator }
    } else {
        p
    }
}

/// Two generators in the same state produce the same terms and end in the same state.
pub proof fn lemma_generators_agree(a: BTreeGenModel, b: BTreeGenModel, k: nat)
    requires
        a == b,
    ensures
        generated(a, k) == generated(b, k),
{
}

/// Generators built from one configuration with a given seed start in the same state.
pub proof fn lemma_seeded_generators_agree(
    cfg: config::BTreeGen,
    seed: [u8; 32],
    a: BTreeGenModel,
    b: BTreeGenModel,
)
    requires
        cfg.seed.0 == Some(seed),
        fresh_generator(cfg, a),
        fresh_generator(cfg, b),
    ensures
        a == b,
{
}

/// The state `BTreeGen::from_config` promises for a configuration.
pub open spec fn fresh_generator(cfg: config::BTreeGen, g: BTreeGenModel) -> bool {
    &&& g.n == clamp_u32(cfg.size, 1, MAX_GEN_PARAM)
    &&& g.freevar_p == clamp_ratio(cfg.freevar_generation_probability)
    &&& g.max_free_vars == clamp_u32(cfg.n_max_free_vars, 1, MAX_GEN_PARAM)
    &&& g.std == cfg.standardization
    &&& g.rng == seeded(g.seed)
    &&& (cfg.seed.0 matches Some(s) ==> g.seed == s@)
}

impl BTreeGen {
    /// A generator with the default configuration.
    pub fn new() -> (r: BTreeGen)
        ensures
            r.wf(),
            r@.n == 20,
            r@.freevar_p == (Ratio { numerator: 1, denominator: 5 }),
            r@.max_free_vars == 6,
            r@.std == Standardization::Prefix,
            r@.rng == seeded(r@.seed),
    {
        BTreeGen::from_config(&config::BTreeGen::new())
    }

    pub closed spec fn wf(&self) -> bool {
        &&& 1 <= self.n <= MAX_GEN_PARAM
        &&& 0 < self.freevar_p.denominator
        &&& self.freevar_p.numerator <= self.freevar_p.denominator
        &&& 1 <= self.max_free_vars <= MAX_GEN_PARAM
    }

    /// A generator from a configuration, its arguments clamped so that generation never
    /// fails: size and number of free variables into `1..=MAX_GEN_PARAM`, the
    /// probability into `[0, 1]`.
    pub fn from_config(cfg: &config::BTreeGen) -> (r: BTreeGen)
        ensures
            r.wf(),
            fresh_generator(*cfg, r@),
    {
        let seed = cfg.seed.get();
        let n = if cfg.size < 1 {
            1
        } else if cfg.size > MAX_GEN_PARAM {
            MAX_GEN_PARAM
        } else {
            cfg.size
        };
        let max_free_vars = if cfg.n_max_free_vars < 1 {
            1
        } else if cfg.n_max_free_vars > MAX_GEN_PARAM {
            MAX_GEN_PARAM
        } else {
            cfg.n_max_free_vars
        };
        let p = cfg.freevar_generation_probability;
        let freevar_p = if p.denominator == 0 {
            Ratio { numerator: 0, denominator: 1 }
        } else if p.numerator > p.denominator {
            Ratio { numerator: p.denominator, denominator: p.denominator }
        } else {
            p
        };
        BTreeGen {
            n,
            freevar_p,
            max_free_vars,
            std: cfg.standardization,
            seed,
            rng: rng_from_seed(seed),
        }
    }

    /// Generate one term.
    pub fn generate(&mut self) -> (r: Term)
        requires
            old(self).wf(),
        ensures
            final(self).wf(),
            (r, final(self)@.rng) == generate_spec(old(self)@),
            final(self)@ == (BTreeGenModel { rng: final(self)@.rng, ..old(self)@ }),
            old(self)@.std == Standardization::Prefix ==> is_closed(r),
            exists|t: Term, k: nat|
                {
                    &&& r == #[trigger] wrap(t, k)
                    &&& size_of(t) == old(self)@.n
                    &&& indices_within(t, 0, old(self)@.max_free_vars as nat)
                    &&& (old(self)@.std != Standardization::Prefix ==> k == 0)
                },
    {
        let ghost g = self@;
        let n = self.n;
        let mut permutation: Vec<u32> = Vec::new();
        let mut i: u32 = 0;
        while i < n
            invariant
                i <= n,
                permutation@ == key_range(i),
            decreases n - i,
        {
            permutation.push(i);
            proof {
                assert(permutation@ =~= key_range((i + 1) as u32));
            }
            i += 1;
        }
        shuffle_keys(&mut permutation, &mut self.rng);
        let ghost ks = permutation@;
        proof {
            vstd::seq_lib::to_multiset_len(ks);
            vstd::seq_lib::to_multiset_len(key_range(n));
            assert(ks.len() == n);
        }
        let mut tree = BTree::new(permutation[0]);
        let mut j: usize = 1;
        while j < permutation.len()
            invariant
                1 <= j <= permutation@.len(),
                permutation@ == ks,
                tree == tree_of(ks, j as nat),
            decreases permutation@.len() - j,
        {
            tree.insert(permutation[j]);
            j += 1;
        }
        proof {
            lemma_tree_of_count(ks, ks.len());
        }
        let lambda = tree.to_lambda_h(&mut self.rng, self.freevar_p, self.max_free_vars, 0);
        let ghost t = lambda;
        let r = match self.std {
            Standardization::Prefix => prefix_standardize(lambda),
            _ => lambda,
        };
        proof {
            let k: nat = if g.std == Standardization::Prefix { max_free(t, 0) } else { 0 };
            assert(wrap(t, 0) == t);
            assert(r == wrap(t, k));
        }
        r
    }

    /// Generate `n` terms.
    pub fn generate_n(&mut self, n: usize) -> (r: Vec<Term>)
        requires
            old(self).wf(),
        ensures
            final(self).wf(),
            (r@, final(self)@.rng) == generated(old(self)@, n as nat),
            final(self)@ == (BTreeGenModel { rng: final(self)@.rng, ..old(self)@ }),
    {
        let ghost g = self@;
        let mut v: Vec<Term> = Vec::new();
        let mut i: usize = 0;
        while i < n
            invariant
                i <= n,
                self.wf(),
                self@ == (BTreeGenModel { rng: self@.rng, ..g }),
                (v@, self@.rng) == generated(g, i as nat),
            decreases n - i,
        {
            v.push(self.generate());
            i += 1;
        }
        v
    }

    /// The seed the generator was built with.
    pub fn seed(&self) -> (r: [u8; 32])
        ensures
            r@ == self@.seed,
    {
        self.seed
    }
}


/// The parameters of a depth-first generator.
pub struct FontanaParams {
    pub min_depth: u32,
    pub max_depth: u32,
    pub abs_prob: (u32, u32),
    pub app_prob: (u32, u32),
    pub free_prob: u32,
    pub max_vars: u32,
}

/// The state of a depth-first generator.
pub struct FontanaGenModel {
    pub params: FontanaParams,
    pub seed: Seq<u8>,
    pub rng: ChaCha8Rng,
}

/// Number of interpolation steps between depth 0 and the deepest level.
pub open spec fn fontana_steps(g: FontanaParams) -> nat {
    if g.max_depth >= 2 {
        (g.max_depth - 1) as nat
    } else {
        1
    }
}

/// A probability interpolated linearly from `p.0` at depth 0 towards `p.1` at the deepest
/// level, as a numerator over `steps * PROB_SCALE`.
pub open spec fn interpolated(p: (u32, u32), steps: nat, depth: nat) -> int {
    p.0 * steps + depth * (p.1 - p.0)
}

pub open spec fn clamp_int(x: int, lo: int, hi: int) -> int {
    if x < lo {
        lo
    } else if x > hi {
        hi
    } else {
        x
    }
}

/// A variable under `depth` binders: free with the configured probability (always at depth
/// 0) and then `depth + U(1, max_vars)`, else bound, `U(1, max(depth, 1))`.
pub open spec fn fontana_variable(g: FontanaParams, rng: ChaCha8Rng, depth: nat) -> (
    Term,
    ChaCha8Rng,
) {
    let (r1, coin) = draw_ratio(rng, g.free_prob, config::PROB_SCALE);
    if coin || depth == 0 {
        let (r2, x) = draw_below(r1, g.max_vars as u64);
        let x = if x < g.max_vars { x as nat } else { 0 };
        let v = depth + 1 + x;
        (Term::Var((if v > u32::MAX { u32::MAX as int } else { v as int }) as usize), r2)
    } else {
        let upper: nat = if depth >= 1 { depth } else { 1 };
        let (r2, x) = draw_below(r1, upper as u64);
        let x = if x < upper { x as nat } else { 0 };
        (Term::Var((1 + x) as usize), r2)
    }
}

/// The term generated at `depth`: a variable at the deepest level; above `min_depth` a fair
/// coin between an abstraction and an application; otherwise an abstraction with the
/// interpolated probability, else an application with its own (so that both add up to at
/// most 1), else a variable.
pub open spec fn fontana_term(g: FontanaParams, rng: ChaCha8Rng, depth: nat) -> (
    Term,
    ChaCha8Rng,
)
    decreases g.max_depth - depth,
{
    if depth >= g.max_depth {
        fontana_variable(g, rng, depth)
    } else if depth < g.min_depth {
        let (r1, coin) = draw_ratio(rng, 1, 2);
        if coin {
            let (b, r2) = fontana_term(g, r1, depth + 1);
            (mk_abs(b), r2)
        } else {
            let (a, r2) = fontana_term(g, r1, depth + 1);
            let (b, r3) = fontana_term(g, r2, depth + 1);
            (mk_app(a, b), r3)
        }
    } else {
        let steps = fontana_steps(g);
        let denom = steps * config::PROB_SCALE;
        let p_abs = clamp_int(interpolated(g.abs_prob, steps, depth), 0, denom);
        let p_app = clamp_int(interpolated(g.app_prob, steps, depth), 0, denom - p_abs);
        let (r1, u) = draw_below(rng, denom as u64);
        if u < p_abs {
            let (b, r2) = fontana_term(g, r1, depth + 1);
            (mk_abs(b), r2)
        } else if u < p_abs + p_app {
            let (a, r2) = fontana_term(g, r1, depth + 1);
            let (b, r3) = fontana_term(g, r2, depth + 1);
            (mk_app(a, b), r3)
        } else {
            fontana_variable(g, r1, depth)
        }
    }
}

/// The first `k` terms of a depth-first generator and its state after them.
pub open spec fn fontana_generated(g: FontanaParams, rng: ChaCha8Rng, k: nat) -> (
    Seq<Term>,
    ChaCha8Rng,
)
    decreases k,
{
    if k == 0 {
        (seq![], rng)
    } else {
        let (s, r) = fontana_generated(g, rng, (k - 1) as nat);
        let (t, r2) = fontana_term(g, r, 0);
        (s.push(t), r2)
    }
}

/// Every variable of a generated term at node depth `d` has an index from 1 to
/// `d + max_vars`.
pub proof fn lemma_fontana_indices(g: FontanaParams, rng: ChaCha8Rng, depth: nat)
    requires
        g.max_vars >= 1,
        depth <= u32::MAX,
    ensures
        node_indices_within(fontana_term(g, rng, depth).0, depth, g.max_vars as nat),
    decreases g.max_depth - depth,
{
    if depth >= g.max_depth {
    } else if depth < g.min_depth {
        let (r1, coin) = draw_ratio(rng, 1, 2);
        lemma_fontana_indices(g, r1, depth + 1);
        let (a, r2) = fontana_term(g, r1, depth + 1);
        lemma_fontana_indices(g, r2, depth + 1);
    } else {
        let steps = fontana_steps(g);
        let denom = steps * config::PROB_SCALE;
        let (r1, u) = draw_below(rng, denom as u64);
        lemma_fontana_indices(g, r1, depth + 1);
        let (a, r2) = fontana_term(g, r1, depth + 1);
        lemma_fontana_indices(g, r2, depth + 1);
    }
}

/// A generator of random terms built top-down, with depth-dependent probabilities.
pub struct FontanaGen {
    min_depth: u32,
    max_depth: u32,
    abs_prob: (u32, u32),
    app_prob: (u32, u32),
    free_prob: u32,
    max_vars: u32,
    seed: [u8; 32],
    rng: ChaCha8Rng,
}

impl View for FontanaGen {
    type V = FontanaGenModel;

    closed spec fn view(&self) -> FontanaGenModel {
        FontanaGenModel {
            params: FontanaParams {
                min_depth: self.min_depth,
                max_depth: self.max_depth,
                abs_prob: self.abs_prob,
                app_prob: self.app_prob,
                free_prob: self.free_prob,
                max_vars: self.max_vars,
            },
            seed: self.seed@,
            rng: self.rng,
        }
    }
}

fn clamp_prob(p: u32) -> (r: u32)
    ensures
        r == if p > config::PROB_SCALE { config::PROB_SCALE } else { p },
{
    if p > config::PROB_SCALE {
        config::PROB_SCALE
    } else {
        p
    }
}

/// The parameters `FontanaGen::new` sets for its arguments, clamped.
pub open spec fn fontana_params_configured(
    g: FontanaParams,
    min_depth: u32,
    max_depth: u32,
    abs_prob: (u32, u32),
    app_prob: (u32, u32),
    free_prob: u32,
    max_vars: u32,
) -> bool {
    let max_d: u32 = if max_depth >= 1 { max_depth } else { 1 };
    let s = config::PROB_SCALE;
    &&& g.max_depth == max_d
    &&& g.min_depth == if min_depth <= max_d - 1 { min_depth } else { (max_d - 1) as u32 }
    &&& g.abs_prob == (clamp_u32(abs_prob.0, 0, s), clamp_u32(abs_prob.1, 0, s))
    &&& g.app_prob == (clamp_u32(app_prob.0, 0, s), clamp_u32(app_prob.1, 0, s))
    &&& g.free_prob == clamp_u32(free_prob, 0, s)
    &&& g.max_vars == if max_vars >= 1 { max_vars } else { 1 }
}

/// The state `FontanaGen::new` promises for its arguments.
pub open spec fn fontana_configured(
    m: FontanaGenModel,
    min_depth: u32,
    max_depth: u32,
    abs_prob: (u32, u32),
    app_prob: (u32, u32),
    free_prob: u32,
    max_vars: u32,
    seed: [u8; 32],
) -> bool {
    &&& fontana_params_configured(m.params, min_depth, max_depth, abs_prob, app_prob, free_prob, max_vars)
    &&& m.seed == seed@
    &&& m.rng == seeded(seed@)
}

impl FontanaGen {
    pub closed spec fn wf(&self) -> bool {
        &&& self.max_depth >= 1
        &&& self.min_depth < self.max_depth
        &&& self.abs_prob.0 <= config::PROB_SCALE
        &&& self.abs_prob.1 <= config::PROB_SCALE
        &&& self.app_prob.0 <= config::PROB_SCALE
        &&& self.app_prob.1 <= config::PROB_SCALE
        &&& self.free_prob <= config::PROB_SCALE
        &&& self.max_vars >= 1
    }

    /// A generator whose arguments are clamped so that generation never fails: the maximal
    /// depth and the number of free variables to at least 1, the minimal depth below the
    /// maximal one, probabilities to at most one.
    pub fn new(
        min_depth: u32,
        max_depth: u32,
        abs_prob: (u32, u32),
        app_prob: (u32, u32),
        free_prob: u32,
        max_vars: u32,
        seed: [u8; 32],
    ) -> (r: FontanaGen)
        ensures
            r.wf(),
            fontana_configured(r@, min_depth, max_depth, abs_prob, app_prob, free_prob, max_vars, seed),
    {
        let max_depth = if max_depth >= 1 {
            max_depth
        } else {
            1
        };
        let min_depth = if min_depth <= max_depth - 1 {
            min_depth
        } else {
            max_depth - 1
        };
        FontanaGen {
            min_depth,
            max_depth,
            abs_prob: (clamp_prob(abs_prob.0), clamp_prob(abs_prob.1)),
            app_prob: (clamp_prob(app_prob.0), clamp_prob(app_prob.1)),
            free_prob: clamp_prob(free_prob),
            max_vars: if max_vars >= 1 {
                max_vars
            } else {
                1
            },
            seed,
            rng: rng_from_seed(seed),
        }
    }

    /// A generator from a configuration, clamped as `new` does.
    pub fn from_config(cfg: &config::FontanaGen) -> (r: FontanaGen)
        ensures
            r.wf(),
            fontana_params_configured(
                r@.params,
                cfg.min_depth,
                cfg.max_depth,
                cfg.abstraction_prob_range,
                cfg.application_prob_range,
                cfg.free_variable_probability,
                cfg.n_max_free_vars,
            ),
            r@.rng == seeded(r@.seed),
            cfg.seed.0 matches Some(seed) ==> r@.seed == seed@,
    {
        let seed = cfg.seed.get();
        FontanaGen::new(
            cfg.min_depth,
            cfg.max_depth,
            cfg.abstraction_prob_range,
            cfg.application_prob_range,
            cfg.free_variable_probability,
            cfg.n_max_free_vars,
            seed,
        )
    }

    fn sample_variable(&mut self, depth: u32) -> (r: Term)
        requires
            old(self).wf(),
        ensures
            final(self)@ == (FontanaGenModel { rng: final(self)@.rng, ..old(self)@ }),
            (r, final(self)@.rng) == fontana_variable(old(self)@.params, old(self)@.rng, depth as nat),
            !has_zero(r),
    {
        let coin = gen_ratio(&mut self.rng, self.free_prob, config::PROB_SCALE);
        if coin || depth == 0 {
            let x = gen_below(&mut self.rng, self.max_vars as u64);
            let v: u64 = depth as u64 + 1 + x;
            let v32: u32 = if v > u32::MAX as u64 {
                u32::MAX
            } else {
                v as u32
            };
            Term::Var(v32 as usize)
        } else {
            let upper: u32 = if depth >= 1 {
                depth
            } else {
                1
            };
            let x = gen_below(&mut self.rng, upper as u64);
            Term::Var((1 + x) as usize)
        }
    }

    /// A term whose root sits at `depth`.
    pub fn rand_lambda(&mut self, depth: u32) -> (r: Term)
        requires
            old(self).wf(),
        ensures
            final(self).wf(),
            final(self)@ == (FontanaGenModel { rng: final(self)@.rng, ..old(self)@ }),
            (r, final(self)@.rng) == fontana_term(old(self)@.params, old(self)@.rng, depth as nat),
            !has_zero(r),
            node_indices_within(r, depth as nat, old(self)@.params.max_vars as nat),
        decreases old(self)@.params.max_depth - depth,
    {
        proof {
            lemma_fontana_indices(self@.params, self@.rng, depth as nat);
        }
        if depth >= self.max_depth {
            return self.sample_variable(depth);
        }
        if depth < self.min_depth {
            if gen_ratio(&mut self.rng, 1, 2) {
                return abs(self.rand_lambda(depth + 1));
            }
            let a = self.rand_lambda(depth + 1);
            let b = self.rand_lambda(depth + 1);
            return app(a, b);
        }
        let steps: u64 = if self.max_depth >= 2 {
            (self.max_depth - 1) as u64
        } else {
            1
        };
        let denom: u64 = steps * config::PROB_SCALE as u64;
        let p_abs = Self::clamped(self.abs_prob, steps, depth, 0, denom);
        let p_app = Self::clamped(self.app_prob, steps, depth, 0, denom - p_abs);
        let u = gen_below(&mut self.rng, denom);
        if u < p_abs {
            abs(self.rand_lambda(depth + 1))
        } else if u < p_abs + p_app {
            let a = self.rand_lambda(depth + 1);
            let b = self.rand_lambda(depth + 1);
            app(a, b)
        } else {
            self.sample_variable(depth)
        }
    }

    /// The interpolated numerator at `depth`, clamped into `lo..=hi`.
    fn clamped(p: (u32, u32), steps: u64, depth: u32, lo: u64, hi: u64) -> (r: u64)
        requires
            1 <= steps <= u32::MAX,
            p.0 <= config::PROB_SCALE,
            p.1 <= config::PROB_SCALE,
            lo <= hi,
        ensures
            r as int == clamp_int(interpolated(p, steps as nat, depth as nat), lo as int, hi as int),
    {
        assert(p.0 as int * steps as int <= (config::PROB_SCALE as int) * (u32::MAX as int)) by (nonlinear_arith)
            requires
                p.0 <= config::PROB_SCALE,
                steps <= u32::MAX,
        ;
        assert(0 <= p.0 as int * steps as int) by (nonlinear_arith)
            requires
                0 <= p.0,
                0 <= steps,
        ;
        let base: i128 = p.0 as i128 * steps as i128;
        let slope: i128 = p.1 as i128 - p.0 as i128;
        assert(-(config::PROB_SCALE as int) <= slope <= config::PROB_SCALE as int);
        assert(0 <= depth as int * slope + (config::PROB_SCALE as int) * (u32::MAX as int)) by (nonlinear_arith)
            requires
                -(config::PROB_SCALE as int) <= slope <= config::PROB_SCALE as int,
                0 <= depth <= u32::MAX,
        ;
        assert(depth as int * slope <= (config::PROB_SCALE as int) * (u32::MAX as int)) by (nonlinear_arith)
            requires
                -(config::PROB_SCALE as int) <= slope <= config::PROB_SCALE as int,
                0 <= depth <= u32::MAX,
        ;
        assert(base <= (config::PROB_SCALE as int) * (u32::MAX as int)) by (nonlinear_arith)
            requires
                base == p.0 as int * steps as int,
                p.0 <= config::PROB_SCALE,
                steps <= u32::MAX,
        ;
        let x: i128 = base + depth as i128 * slope;
        if x < lo as i128 {
            lo
        } else if x > hi as i128 {
            hi
        } else {
            x as u64
        }
    }

    /// Generate one term.
    pub fn generate(&mut self) -> (r: Term)
        requires
            old(self).wf(),
        ensures
            final(self).wf(),
            final(self)@ == (FontanaGenModel { rng: final(self)@.rng, ..old(self)@ }),
            (r, final(self)@.rng) == fontana_term(old(self)@.params, old(self)@.rng, 0),
            node_indices_within(r, 0, old(self)@.params.max_vars as nat),
    {
        self.rand_lambda(0)
    }

    /// Generate `n` terms.
    pub fn generate_n(&mut self, n: usize) -> (r: Vec<Term>)
        requires
            old(self).wf(),
        ensures
            final(self).wf(),
            final(self)@ == (FontanaGenModel { rng: final(self)@.rng, ..old(self)@ }),
            (r@, final(self)@.rng) == fontana_generated(old(self)@.params, old(self)@.rng, n as nat),
    {
        let ghost g = self@;
        let mut v: Vec<Term> = Vec::new();
        let mut i: usize = 0;
        while i < n
            invariant
                i <= n,
                (v@, self@.rng) == fontana_generated(g.params, g.rng, i as nat),
                self.wf(),
                self@ == (FontanaGenModel { rng: self@.rng, ..g }),
            decreases n - i,
        {
            v.push(self.generate());
            i += 1;
        }
        v
    }

    /// The seed the generator was built with.
    pub fn seed(&self) -> (r: [u8; 32])
        ensures
            r@ == self@.seed,
    {
        self.seed
    }
}

} // verus!
