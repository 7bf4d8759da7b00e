//! Finite sums over integer-valued spec functions, and the facts about them
//! that the protocols' proofs use.
use vstd::prelude::*;
use vstd::arithmetic::div_mod::lemma_add_mod_noop;

verus! {

/// `f(0) + f(1) + ... + f(n - 1)`, and 0 for `n <= 0`.
pub open spec fn sum(n: int, f: spec_fn(int) -> int) -> int
    decreases n,
{
    if n <= 0 {
        0
    } else {
        sum(n - 1, f) + f(n - 1)
    }
}

/// Sums of functions that agree on the range are equal.
pub proof fn lemma_sum_ext(n: int, f: spec_fn(int) -> int, g: spec_fn(int) -> int)
    requires
        forall|i: int| 0 <= i < n ==> #[trigger] f(i) == g(i),
    ensures
        sum(n, f) == sum(n, g),
    decreases n,
{
    if n > 0 {
        lemma_sum_ext(n - 1, f, g);
    }
}

/// A sum of a linear combination is the linear combination of the sums.
pub proof fn lemma_sum_linear(n: int, h: spec_fn(int) -> int, f: spec_fn(int) -> int, g: spec_fn(int) -> int, a: int, b: int)
    requires
        forall|i: int| 0 <= i < n ==> #[trigger] h(i) == a * f(i) + b * g(i),
    ensures
        sum(n, h) == a * sum(n, f) + b * sum(n, g),
    decreases n,
{
    if n > 0 {
        lemma_sum_linear(n - 1, h, f, g, a, b);
        let s = sum(n - 1, f);
        let t = sum(n - 1, g);
        let x = f(n - 1);
        let y = g(n - 1);
        assert(a * (s + x) + b * (t + y) == (a * s + b * t) + (a * x + b * y)) by (nonlinear_arith);
    }
}

/// A sum over `2n` terms, taken in pairs of an even and the following odd index.
pub proof fn lemma_sum_pairs(n: int, f: spec_fn(int) -> int, g: spec_fn(int) -> int)
    requires
        0 <= n,
        forall|j: int| 0 <= j < n ==> #[trigger] g(j) == f(2 * j) + f(2 * j + 1),
    ensures
        sum(2 * n, f) == sum(n, g),
    decreases n,
{
    if n > 0 {
        lemma_sum_pairs(n - 1, f, g);
        assert(sum(2 * n, f) == sum(2 * n - 1, f) + f(2 * n - 1));
        assert(sum(2 * n - 1, f) == sum(2 * n - 2, f) + f(2 * n - 2));
        assert(2 * (n - 1) == 2 * n - 2);
    }
}

/// Sums of terms that agree modulo `p` agree modulo `p`.
pub proof fn lemma_sum_mod(n: int, f: spec_fn(int) -> int, g: spec_fn(int) -> int, p: int)
    requires
        p > 0,
        forall|i: int| 0 <= i < n ==> #[trigger] f(i) % p == g(i) % p,
    ensures
        sum(n, f) % p == sum(n, g) % p,
    decreases n,
{
    if n > 0 {
        lemma_sum_mod(n - 1, f, g, p);
        lemma_add_mod_noop(sum(n - 1, f), f(n - 1), p);
        lemma_add_mod_noop(sum(n - 1, g), g(n - 1), p);
    }
}

/// A constant factor comes out of a sum.
pub proof fn lemma_sum_scale(n: int, h: spec_fn(int) -> int, f: spec_fn(int) -> int, c: int)
    requires
        forall|i: int| 0 <= i < n ==> #[trigger] h(i) == c * f(i),
    ensures
        sum(n, h) == c * sum(n, f),
{
    assert forall|i: int| 0 <= i < n implies #[trigger] h(i) == c * f(i) + 0 * f(i) by {}
    lemma_sum_linear(n, h, f, f, c, 0);
}

/// The terms `t(j, l)` for a fixed `l`, as a function of `j`.
pub open spec fn fix_second(t: spec_fn(int, int) -> int, l: int) -> spec_fn(int) -> int {
    |j: int| t(j, l)
}

/// The terms `t(j, l)` for a fixed `j`, as a function of `l`.
pub open spec fn fix_first(t: spec_fn(int, int) -> int, j: int) -> spec_fn(int) -> int {
    |l: int| t(j, l)
}

/// A double sum may be taken in either order.
pub proof fn lemma_sum_swap(n: int, k: int, t: spec_fn(int, int) -> int, by_l: spec_fn(int) -> int, by_j: spec_fn(int) -> int)
    requires
        0 <= n,
        0 <= k,
        forall|l: int| 0 <= l < n ==> #[trigger] by_l(l) == sum(k, fix_second(t, l)),
        forall|j: int| 0 <= j < k ==> #[trigger] by_j(j) == sum(n, fix_first(t, j)),
    ensures
        sum(n, by_l) == sum(k, by_j),
    decreases n,
{
    if n == 0 {
        assert forall|j: int| 0 <= j < k implies #[trigger] by_j(j) == 0 * by_j(j) + 0 * by_j(j) by {}
        lemma_sum_linear(k, by_j, by_j, by_j, 0, 0);
    } else {
        let fewer = |j: int| sum(n - 1, fix_first(t, j));
        lemma_sum_swap(n - 1, k, t, by_l, fewer);
        let last = fix_second(t, n - 1);
        assert forall|j: int| 0 <= j < k implies #[trigger] by_j(j) == 1 * fewer(j) + 1 * last(j) by {
            assert(sum(n, fix_first(t, j)) == sum(n - 1, fix_first(t, j)) + fix_first(t, j)(n - 1));
        }
        lemma_sum_linear(k, by_j, fewer, last, 1, 1);
    }
}

} // verus!
