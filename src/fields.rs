//! Arithmetic in the field of integers modulo a prime, with elements held as
//! their least non-negative residues, and uniform sampling of elements.
use vstd::prelude::*;
use vstd::arithmetic::div_mod::{lemma_add_mod_noop, lemma_mod_bound, lemma_small_mod, lemma_mod_add_multiples_vanish};
use rand::rngs::StdRng;
use rand::Rng;

verus! {

/// The largest modulus accepted: a product of two residues then fits in `u64`.
pub const MAX_MODULUS: u64 = 4294967296;

/// rand's `StdRng`, the seedable generator that every draw of the protocols
/// takes explicitly; its state is opaque here.
#[verifier::external_type_specification]
#[verifier::external_body]
pub struct ExStdRng(StdRng);

/// The parameters of a prime field: its modulus. Soundness of the protocols
/// rests on the modulus being prime; their completeness does not.
#[derive(Clone, Copy, Debug, PartialEq, Eq)]
pub struct FrConfig {
    pub modulus: u64,
}

/// The sum of the first `n` entries of `s`, as an integer.
pub open spec fn prefix_total(s: Seq<u64>, n: int) -> int
    decreases n,
{
    if n <= 0 {
        0
    } else {
        prefix_total(s, n - 1) + s[n - 1]
    }
}

/// The sum of a sequence of field elements, as an integer.
pub open spec fn seq_total(s: Seq<u64>) -> int {
    prefix_total(s, s.len() as int)
}

/// The integer `1` if `b` holds, else `0`.
pub open spec fn bool_int(b: bool) -> int {
    if b {
        1
    } else {
        0
    }
}

impl FrConfig {
    pub open spec fn wf(&self) -> bool {
        2 <= self.modulus <= MAX_MODULUS
    }

    /// The modulus as an integer.
    pub open spec fn p(&self) -> int {
        self.modulus as int
    }

    /// Every entry of `s` is a residue of this field.
    pub open spec fn all_elems(&self, s: Seq<u64>) -> bool {
        forall|i: int| 0 <= i < s.len() ==> s[i] < self.modulus
    }

    /// The field with the given modulus, if that modulus is in range.
    pub fn new(modulus: u64) -> (r: Option<FrConfig>)
        ensures
            r is Some <==> 2 <= modulus <= MAX_MODULUS,
            r is Some ==> r->0.modulus == modulus,
    {
        if 2 <= modulus && modulus <= MAX_MODULUS {
            Some(FrConfig { modulus })
        } else {
            None
        }
    }

    /// The element that an integer stands for.
    pub fn from_u64(&self, x: u64) -> (r: u64)
        requires
            self.wf(),
        ensures
            r == x as int % self.p(),
    {
        x % self.modulus
    }

    pub fn add(&self, a: u64, b: u64) -> (r: u64)
        requires
            self.wf(),
            a < self.modulus,
            b < self.modulus,
        ensures
            r == (a + b) as int % self.p(),
    {
        ((a as u128 + b as u128) % (self.modulus as u128)) as u64
    }

    pub fn sub(&self, a: u64, b: u64) -> (r: u64)
        requires
            self.wf(),
            a < self.modulus,
            b < self.modulus,
        ensures
            r == (a - b) as int % self.p(),
    {
        proof {
            lemma_mod_add_multiples_vanish(a - b, self.p());
        }
        ((a as u128 + self.modulus as u128 - b as u128) % (self.modulus as u128)) as u64
    }

    pub fn mul(&self, a: u64, b: u64) -> (r: u64)
        requires
            self.wf(),
            a < self.modulus,
            b < self.modulus,
        ensures
            r == (a * b) as int % self.p(),
    {
        proof {
            assert((a as int) * (b as int) < 0x1_0000_0000 * 0x1_0000_0000) by (nonlinear_arith)
                requires
                    0 <= a < 0x1_0000_0000,
                    0 <= b < 0x1_0000_0000,
            ;
        }
        ((a as u128 * b as u128) % (self.modulus as u128)) as u64
    }
}

/// Relies on rand's `Rng::gen_range` on `0..bound`: it asserts that the range is
/// non-empty and returns a value `x` with `0 <= x < bound`.
#[verifier::external_body]
fn gen_below(rng: &mut StdRng, bound: u64) -> (r: u64)
    requires
        0 < bound,
    ensures
        r < bound,
{
    rng.gen_range(0..bound)
}

/// A uniformly drawn element of the field.
pub fn random_elem(f: &FrConfig, rng: &mut StdRng) -> (r: u64)
    requires
        f.wf(),
    ensures
        r < f.modulus,
{
    gen_below(rng, f.modulus)
}

/// `v` uniformly drawn elements of the field.
pub fn random_vec(f: &FrConfig, rng: &mut StdRng, v: usize) -> (r: Vec<u64>)
    requires
        f.wf(),
    ensures
        r@.len() == v,
        f.all_elems(r@),
{
    let mut out: Vec<u64> = Vec::new();
    let mut i: usize = 0;
    while i < v
        invariant
            f.wf(),
            i <= v,
            out@.len() == i,
            f.all_elems(out@),
        decreases v - i,
    {
        let x = random_elem(f, rng);
        out.push(x);
        i += 1;
    }
    out
}

/// The field's one for `true`, its zero for `false`.
pub fn bool_to_field(b: bool) -> (r: u64)
    ensures
        r == bool_int(b),
{
    if b {
        1
    } else {
        0
    }
}

/// The sum of the given elements in the field.
pub fn evals_sum(f: &FrConfig, evals: &[u64]) -> (r: u64)
    requires
        f.wf(),
        f.all_elems(evals@),
    ensures
        r == seq_total(evals@) % f.p(),
{
    let ghost s = evals@;
    let mut acc: u64 = 0;
    let mut i: usize = 0;
    while i < evals.len()
        invariant
            f.wf(),
            f.all_elems(s),
            s == evals@,
            i <= s.len(),
            acc == prefix_total(s, i as int) % f.p(),
        decreases s.len() - i,
    {
        proof {
            lemma_mod_bound(prefix_total(s, i as int), f.p());
            lemma_add_mod_noop(prefix_total(s, i as int), s[i as int] as int, f.p());
            lemma_small_mod(s[i as int] as nat, f.p() as nat);
        }
        acc = f.add(acc, evals[i]);
        i += 1;
    }
    acc
}

} // verus!
