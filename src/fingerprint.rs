//! Reed-Solomon fingerprints: two parties compare files by evaluating, at one
//! random point, the polynomials whose coefficients are the files' entries.
use vstd::prelude::*;
use vstd::arithmetic::div_mod::{lemma_add_mod_noop, lemma_mul_mod_noop_left, lemma_mod_bound, lemma_small_mod};
use rand::rngs::StdRng;
use crate::fields::{FrConfig, bool_to_field, random_elem};
use crate::freivalds::power;
use crate::sums::sum;

verus! {

/// The summand of a fingerprint for index `i`.
pub open spec fn fingerprint_term(evals: Seq<u64>, x: int) -> spec_fn(int) -> int {
    |i: int| power(x, i as nat) * evals[i]
}

/// The fingerprint over the first `n` entries, as an integer.
pub open spec fn fingerprint_prefix(evals: Seq<u64>, x: int, n: int) -> int {
    sum(n, fingerprint_term(evals, x))
}

/// The value at `x` of the polynomial with coefficients `evals`, as an integer.
pub open spec fn fingerprint(evals: Seq<u64>, x: int) -> int {
    fingerprint_prefix(evals, x, evals.len() as int)
}

/// A member of the family of hash functions `H_r`, fixed by its evaluation point `r`.
#[derive(Debug, Clone, Copy)]
pub struct HashFn {
    field: FrConfig,
    eval_point: u64,
}

impl HashFn {
    pub closed spec fn config(&self) -> FrConfig {
        self.field
    }

    pub closed spec fn point(&self) -> u64 {
        self.eval_point
    }

    pub open spec fn wf(&self) -> bool {
        self.config().wf() && self.point() < self.config().modulus
    }

    /// A hash function with a uniformly drawn evaluation point.
    pub fn new(f: FrConfig, rng: &mut StdRng) -> (h: HashFn)
        requires
            f.wf(),
        ensures
            h.wf(),
            h.config() == f,
    {
        let random_element = random_elem(&f, rng);
        HashFn { field: f, eval_point: random_element }
    }

    /// The hash function with the given evaluation point.
    pub fn new_from_eval(f: FrConfig, eval_point: u64) -> (h: HashFn)
        requires
            f.wf(),
            eval_point < f.modulus,
        ensures
            h.wf(),
            h.config() == f,
            h.point() == eval_point,
    {
        HashFn { field: f, eval_point }
    }

    /// The fingerprint of `evals`: `sum of r^i * evals[i]` in the field.
    pub fn hash(&self, evals: Vec<u64>) -> (res: u64)
        requires
            self.wf(),
            self.config().all_elems(evals@),
        ensures
            res == fingerprint(evals@, self.point() as int) % self.config().p(),
    {
        let f = self.field;
        let x = self.eval_point;
        let ghost p = f.p();
        let mut res: u64 = 0;
        let mut cur: u64 = bool_to_field(true);
        let mut i: usize = 0;
        proof {
            lemma_small_mod(0, p as nat);
            lemma_small_mod(1, p as nat);
        }
        while i < evals.len()
            invariant
                f.wf(),
                x < f.modulus,
                p == f.p(),
                f.all_elems(evals@),
                i <= evals@.len(),
                cur == power(x as int, i as nat) % p,
                res == fingerprint_prefix(evals@, x as int, i as int) % p,
            decreases evals@.len() - i,
        {
            let t = f.mul(cur, evals[i]);
            proof {
                let pw = power(x as int, i as nat);
                let e = evals@[i as int] as int;
                let acc = fingerprint_prefix(evals@, x as int, i as int);
                lemma_mul_mod_noop_left(pw, e, p);
                lemma_mod_bound(pw, p);
                lemma_mod_bound(acc, p);
                lemma_mod_bound(pw * e, p);
                lemma_add_mod_noop(acc, pw * e, p);
                lemma_mul_mod_noop_left(pw, x as int, p);
                assert(fingerprint_prefix(evals@, x as int, i + 1) == acc + fingerprint_term(evals@, x as int)(i as int));
            }
            res = f.add(res, t);
            cur = f.mul(cur, x);
            i += 1;
        }
        res
    }

    pub fn get_eval_point(&self) -> (r: u64)
        ensures
            r == self.point(),
    {
        self.eval_point
    }
}

/// Bob's check of his file against Alice's, at the evaluation point `eval_point`
/// that Alice drew: the files have the same length and their fingerprints agree.
pub fn fingerprints_match(f: FrConfig, eval_point: u64, bob_file: Vec<u64>, alice_file: Vec<u64>) -> (r: bool)
    requires
        f.wf(),
        eval_point < f.modulus,
        f.all_elems(bob_file@),
        f.all_elems(alice_file@),
    ensures
        r == (bob_file@.len() == alice_file@.len() && fingerprint(bob_file@, eval_point as int) % f.p()
            == fingerprint(alice_file@, eval_point as int) % f.p()),
{
    if bob_file.len() != alice_file.len() {
        return false;
    }
    let alice_hash = HashFn::new_from_eval(f, eval_point);
    let alice_fingerprint = alice_hash.hash(alice_file);
    let alice_eval_point = alice_hash.get_eval_point();
    let bob_hash = HashFn::new_from_eval(f, alice_eval_point);
    let bob_fingerprint = bob_hash.hash(bob_file);
    bob_fingerprint == alice_fingerprint
}

/// The fingerprint protocol between Alice and Bob: Alice draws a hash function
/// and sends its point and her fingerprint; Bob accepts when his own agrees.
/// Equal files are always accepted, and files of different lengths never.
pub fn run_reed_solomon_communication_protocol(f: FrConfig, rng: &mut StdRng, bob_file: Vec<u64>, alice_file: Vec<u64>) -> (r: bool)
    requires
        f.wf(),
        f.all_elems(bob_file@),
        f.all_elems(alice_file@),
    ensures
        r ==> bob_file@.len() == alice_file@.len(),
        bob_file@ == alice_file@ ==> r,
{
    let alice_hash = HashFn::new(f, rng);
    fingerprints_match(f, alice_hash.get_eval_point(), bob_file, alice_file)
}

} // verus!
