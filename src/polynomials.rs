//! Evaluation of a round slice, known by its samples, at a further point.
use vstd::prelude::*;
use vstd::arithmetic::div_mod::{lemma_add_mod_noop, lemma_mul_mod_noop, lemma_small_mod, lemma_mod_bound};
use crate::fields::FrConfig;

verus! {

/// The value at `r` of the line through `(0, y0)` and `(1, y1)`, as an integer.
pub open spec fn line_at(y0: int, y1: int, r: int) -> int {
    (1 - r) * y0 + r * y1
}

/// The coefficients `[c0, c1]` of the polynomial `c0 + c1 * X` of degree at most 1
/// through `(0, y_values[0])` and `(1, y_values[1])`. The two sample points are
/// distinct by construction, so the interpolation always exists.
fn interpolate_degree_1(f: &FrConfig, y_values: &[u64]) -> (c: (u64, u64))
    requires
        f.wf(),
        y_values@.len() >= 2,
        y_values@[0] < f.modulus,
        y_values@[1] < f.modulus,
    ensures
        c.0 == y_values@[0],
        c.1 == (y_values@[1] - y_values@[0]) % f.p(),
{
    (y_values[0], f.sub(y_values[1], y_values[0]))
}

/// The value at `r` of the polynomial of degree at most 1 whose values at 0 and 1
/// are `evals[0]` and `evals[1]`.
pub fn eval_poly(f: &FrConfig, evals: &[u64], r: u64) -> (res: u64)
    requires
        f.wf(),
        evals@.len() >= 2,
        evals@[0] < f.modulus,
        evals@[1] < f.modulus,
        r < f.modulus,
    ensures
        res == line_at(evals@[0] as int, evals@[1] as int, r as int) % f.p(),
{
    let c = interpolate_degree_1(f, evals);
    let t = f.mul(c.1, r);
    let res = f.add(c.0, t);
    proof {
        let p = f.p();
        let y0 = evals@[0] as int;
        let y1 = evals@[1] as int;
        let ri = r as int;
        lemma_small_mod(ri as nat, p as nat);
        lemma_small_mod(y0 as nat, p as nat);
        lemma_mul_mod_noop(y1 - y0, ri, p);
        lemma_mod_bound((y1 - y0) * ri, p);
        lemma_add_mod_noop(y0, (y1 - y0) * ri, p);
        assert(y0 + (y1 - y0) * ri == line_at(y0, y1, ri)) by (nonlinear_arith);
    }
    res
}

} // verus!
