//! The multilinear extension of a table of values indexed by the corners of the
//! boolean hypercube, and the univariate slices of it that sum-check uses.
//!
//! Corner `c` of the `v`-dimensional hypercube has coordinate `k` equal to bit `k`
//! of `c` (least significant bit first).
use vstd::prelude::*;
use crate::sums::{sum, lemma_sum_ext, lemma_sum_linear, lemma_sum_pairs};
use vstd::arithmetic::div_mod::{lemma_add_mod_noop, lemma_mul_mod_noop, lemma_mul_mod_noop_left, lemma_small_mod, lemma_mod_bound};
use rand::rngs::StdRng;
use crate::fields::{FrConfig, prefix_total, seq_total, bool_to_field, random_vec};

verus! {

/// The number of points at which the prover samples each round slice. Slices of a
/// multilinear extension have degree at most 1, so two of them already fix it; a
/// slice of higher degree than four could not be reconstructed from them.
pub const NUM_SAMPLES: u64 = 5;

/// The number of corners of the `m`-dimensional boolean hypercube, `2^m`.
pub open spec fn cube_size(m: nat) -> nat
    decreases m,
{
    if m == 0 {
        1
    } else {
        2 * cube_size((m - 1) as nat)
    }
}

/// Corner `c` of the `m`-dimensional hypercube, as a sequence of 0/1 coordinates.
pub open spec fn corner(c: int, m: nat) -> Seq<u64>
    decreases m,
{
    if m == 0 {
        Seq::empty()
    } else {
        seq![(c % 2) as u64].add(corner(c / 2, (m - 1) as nat))
    }
}

/// The factor of a basis weight contributed by one coordinate: `x` where the
/// corner's bit is 1, `1 - x` where it is 0.
pub open spec fn term(bit: bool, x: int) -> int {
    if bit {
        x
    } else {
        1 - x
    }
}

/// The product over all coordinates `k` of `term(bits[k] == 1, x[k])`.
pub open spec fn weight(x: Seq<u64>, bits: Seq<u64>) -> int
    decreases x.len(),
{
    if x.len() == 0 {
        1
    } else {
        term(bits[0] == 1, x[0] as int) * weight(x.drop_first(), bits.drop_first())
    }
}

/// The Lagrange basis weight of corner `c` at the point `x`.
pub open spec fn basis(x: Seq<u64>, c: int) -> int {
    weight(x, corner(c, x.len()))
}

/// The summand of the extension for corner `c`.
pub open spec fn mle_term(e: Seq<u64>, x: Seq<u64>) -> spec_fn(int) -> int {
    |c: int| e[c] * basis(x, c)
}

/// The extension's sum taken over the first `n` corners.
pub open spec fn mle_prefix(e: Seq<u64>, x: Seq<u64>, n: int) -> int {
    sum(n, mle_term(e, x))
}

/// The value at `x` of the multilinear extension of `e`, as an integer: the sum over
/// all corners `c` of `e[c] * basis(x, c)`.
pub open spec fn mle(e: Seq<u64>, x: Seq<u64>) -> int {
    mle_prefix(e, x, e.len() as int)
}

/// The summand of a slice for the free corner `b`.
pub open spec fn slice_term(e: Seq<u64>, prefix: Seq<u64>, s: u64, m: nat) -> spec_fn(int) -> int {
    |b: int| mle(e, prefix.push(s).add(corner(b, m)))
}

/// The round slice at `s`, as an integer: the extension summed over every boolean
/// assignment of the `m` coordinates that follow the fixed `prefix` and `s`.
pub open spec fn slice(e: Seq<u64>, prefix: Seq<u64>, s: u64, m: nat) -> int {
    sum(cube_size(m) as int, slice_term(e, prefix, s, m))
}

/// The summand of a hypercube sum for the free corner `b`.
pub open spec fn cube_term(e: Seq<u64>, prefix: Seq<u64>, m: nat) -> spec_fn(int) -> int {
    |b: int| mle(e, prefix.add(corner(b, m)))
}

/// The extension summed over every boolean assignment of the `m` coordinates after `prefix`.
pub open spec fn cube_sum(e: Seq<u64>, prefix: Seq<u64>, m: nat) -> int {
    sum(cube_size(m) as int, cube_term(e, prefix, m))
}

/// The entries of `e` at even indices.
pub open spec fn evens(e: Seq<u64>) -> Seq<u64> {
    Seq::new(e.len() / 2, |j: int| e[2 * j])
}

/// The entries of `e` at odd indices.
pub open spec fn odds(e: Seq<u64>) -> Seq<u64> {
    Seq::new(e.len() / 2, |j: int| e[2 * j + 1])
}

pub proof fn lemma_cube_size_pos(m: nat)
    ensures
        cube_size(m) >= 1,
    decreases m,
{
    if m > 0 {
        lemma_cube_size_pos((m - 1) as nat);
    }
}

pub proof fn lemma_cube_size_mono(a: nat, b: nat)
    requires
        a <= b,
    ensures
        cube_size(a) <= cube_size(b),
    decreases b,
{
    if a < b {
        lemma_cube_size_mono(a, (b - 1) as nat);
    }
}

/// The hypercube has at least twice as many corners as dimensions.
pub proof fn lemma_cube_size_double(m: nat)
    ensures
        cube_size(m) >= 2 * m,
    decreases m,
{
    if m > 0 {
        lemma_cube_size_double((m - 1) as nat);
        lemma_cube_size_pos((m - 1) as nat);
    }
}

/// Every coordinate of a corner is 0 or 1, and it has `m` of them.
pub proof fn lemma_corner_bits(c: int, m: nat)
    ensures
        corner(c, m).len() == m,
        forall|k: int| 0 <= k < m ==> #[trigger] corner(c, m)[k] <= 1,
    decreases m,
{
    if m > 0 {
        lemma_corner_bits(c / 2, (m - 1) as nat);
        let t = corner(c / 2, (m - 1) as nat);
        assert forall|k: int| 0 <= k < m implies #[trigger] corner(c, m)[k] <= 1 by {
            if k > 0 {
                assert(corner(c, m)[k] == t[k - 1]);
            }
        }
    }
}

/// The basis weight of a corner splits off its first coordinate.
pub proof fn lemma_basis_unfold(x: Seq<u64>, c: int)
    requires
        x.len() > 0,
        c >= 0,
    ensures
        basis(x, c) == term(c % 2 == 1, x[0] as int) * basis(x.drop_first(), c / 2),
{
    let bits = corner(c, x.len());
    assert(bits.drop_first() =~= corner(c / 2, (x.len() - 1) as nat));
}

/// The extension at a point splits along its first coordinate into the extensions
/// of the even-indexed and odd-indexed entries.
pub proof fn lemma_mle_split(e: Seq<u64>, x: Seq<u64>)
    requires
        x.len() > 0,
        e.len() == cube_size(x.len()),
    ensures
        mle(e, x) == (1 - x[0]) * mle(evens(e), x.drop_first()) + x[0] * mle(odds(e), x.drop_first()),
{
    let n = cube_size((x.len() - 1) as nat) as int;
    let y = x.drop_first();
    let a = 1 - x[0];
    let b = x[0] as int;
    let f = mle_term(e, x);
    let g0 = mle_term(evens(e), y);
    let g1 = mle_term(odds(e), y);
    let h = |j: int| a * g0(j) + b * g1(j);
    assert forall|j: int| 0 <= j < n implies #[trigger] h(j) == f(2 * j) + f(2 * j + 1) by {
        lemma_basis_unfold(x, 2 * j);
        lemma_basis_unfold(x, 2 * j + 1);
        assert((2 * j) / 2 == j && (2 * j) % 2 == 0);
        assert((2 * j + 1) / 2 == j && (2 * j + 1) % 2 == 1);
        let w = basis(y, j);
        assert(f(2 * j) == e[2 * j] * (a * w));
        assert(f(2 * j + 1) == e[2 * j + 1] * (b * w));
        assert(g0(j) == e[2 * j] * w);
        assert(g1(j) == e[2 * j + 1] * w);
        assert(e[2 * j] * (a * w) + e[2 * j + 1] * (b * w) == a * (e[2 * j] * w) + b * (e[2 * j + 1] * w)) by (nonlinear_arith);
    }
    lemma_sum_pairs(n, f, h);
    lemma_sum_linear(n, h, g0, g1, a, b);
}

/// At a corner of the hypercube the extension takes the stored value there.
pub proof fn lemma_mle_at_corner(e: Seq<u64>, c: int, v: nat)
    requires
        e.len() == cube_size(v),
        0 <= c < cube_size(v),
    ensures
        mle(e, corner(c, v)) == e[c] as int,
    decreases v,
{
    let x = corner(c, v);
    lemma_corner_bits(c, v);
    if v == 0 {
        assert(c == 0);
        assert(e.len() == 1);
        assert(basis(x, 0) == 1);
        assert(mle_prefix(e, x, 1) == mle_prefix(e, x, 0) + e[0] * basis(x, 0));
    } else {
        lemma_mle_split(e, x);
        let y = x.drop_first();
        assert(y =~= corner(c / 2, (v - 1) as nat));
        assert(x[0] == (c % 2) as u64);
        assert(evens(e).len() == cube_size((v - 1) as nat));
        assert(odds(e).len() == cube_size((v - 1) as nat));
        assert(c / 2 < cube_size((v - 1) as nat));
        lemma_mle_at_corner(evens(e), c / 2, (v - 1) as nat);
        lemma_mle_at_corner(odds(e), c / 2, (v - 1) as nat);
        let a = mle(evens(e), y);
        let b = mle(odds(e), y);
        if c % 2 == 0 {
            assert(evens(e)[c / 2] == e[c]);
            assert(x[0] == 0);
            assert(mle(e, x) == (1 - 0) * a + 0 * b);
        } else {
            assert(odds(e)[c / 2] == e[c]);
            assert(x[0] == 1);
            assert(mle(e, x) == (1 - 1) * a + 1 * b);
        }
    }
}

/// The extension is affine in each coordinate.
pub proof fn lemma_mle_affine(e: Seq<u64>, x: Seq<u64>, k: int, s: u64)
    requires
        0 <= k < x.len(),
        e.len() == cube_size(x.len()),
    ensures
        mle(e, x.update(k, s)) == (1 - s) * mle(e, x.update(k, 0)) + s * mle(e, x.update(k, 1)),
    decreases x.len(),
{
    let xs = x.update(k, s);
    let x0 = x.update(k, 0);
    let x1 = x.update(k, 1);
    lemma_mle_split(e, xs);
    lemma_mle_split(e, x0);
    lemma_mle_split(e, x1);
    let y = x.drop_first();
    if k == 0 {
        assert(xs.drop_first() =~= y);
        assert(x0.drop_first() =~= y);
        assert(x1.drop_first() =~= y);
        let a = mle(evens(e), y);
        let b = mle(odds(e), y);
        assert((1 - s) * a + s * b == (1 - s) * ((1 - 0) * a + 0 * b) + s * ((1 - 1) * a + 1 * b)) by (nonlinear_arith);
    } else {
        assert(xs.drop_first() =~= y.update(k - 1, s));
        assert(x0.drop_first() =~= y.update(k - 1, 0));
        assert(x1.drop_first() =~= y.update(k - 1, 1));
        lemma_mle_affine(evens(e), y, k - 1, s);
        lemma_mle_affine(odds(e), y, k - 1, s);
        let t = x[0] as int;
        let a0 = mle(evens(e), y.update(k - 1, 0));
        let a1 = mle(evens(e), y.update(k - 1, 1));
        let b0 = mle(odds(e), y.update(k - 1, 0));
        let b1 = mle(odds(e), y.update(k - 1, 1));
        let si = s as int;
        assert((1 - t) * ((1 - si) * a0 + si * a1) + t * ((1 - si) * b0 + si * b1)
            == (1 - si) * ((1 - t) * a0 + t * b0) + si * ((1 - t) * a1 + t * b1)) by (nonlinear_arith);
    }
}

/// A round slice is affine in its sample point.
pub proof fn lemma_slice_affine(e: Seq<u64>, prefix: Seq<u64>, s: u64, m: nat)
    requires
        e.len() == cube_size(prefix.len() + 1 + m),
    ensures
        slice(e, prefix, s, m) == (1 - s) * slice(e, prefix, 0, m) + s * slice(e, prefix, 1, m),
{
    let n = cube_size(m) as int;
    let k = prefix.len() as int;
    let fs = slice_term(e, prefix, s, m);
    let f0 = slice_term(e, prefix, 0, m);
    let f1 = slice_term(e, prefix, 1, m);
    assert forall|b: int| 0 <= b < n implies #[trigger] fs(b) == (1 - s) * f0(b) + s * f1(b) by {
        let pt = prefix.push(s).add(corner(b, m));
        lemma_corner_bits(b, m);
        assert(pt.update(k, s) =~= pt);
        assert(pt.update(k, 0) =~= prefix.push(0).add(corner(b, m)));
        assert(pt.update(k, 1) =~= prefix.push(1).add(corner(b, m)));
        lemma_mle_affine(e, pt, k, s);
    }
    lemma_sum_linear(n, fs, f0, f1, 1 - s, s as int);
}

/// The slices at 0 and at 1 together sum the extension over one more free coordinate.
pub proof fn lemma_slice_pair(e: Seq<u64>, prefix: Seq<u64>, m: nat)
    ensures
        slice(e, prefix, 0, m) + slice(e, prefix, 1, m) == cube_sum(e, prefix, m + 1),
{
    let n = cube_size(m) as int;
    lemma_cube_size_pos(m);
    let f = cube_term(e, prefix, m + 1);
    let f0 = slice_term(e, prefix, 0, m);
    let f1 = slice_term(e, prefix, 1, m);
    let g = |j: int| 1 * f0(j) + 1 * f1(j);
    assert forall|j: int| 0 <= j < n implies #[trigger] g(j) == f(2 * j) + f(2 * j + 1) by {
        assert((2 * j) / 2 == j && (2 * j) % 2 == 0);
        assert((2 * j + 1) / 2 == j && (2 * j + 1) % 2 == 1);
        assert(prefix.add(corner(2 * j, m + 1)) =~= prefix.push(0).add(corner(j, m)));
        assert(prefix.add(corner(2 * j + 1, m + 1)) =~= prefix.push(1).add(corner(j, m)));
    }
    assert(cube_size(m + 1) == 2 * n);
    lemma_sum_pairs(n, f, g);
    lemma_sum_linear(n, g, f0, f1, 1, 1);
}

/// Summing the free coordinates after `prefix` and `r` is the slice at `r`.
pub proof fn lemma_cube_sum_push(e: Seq<u64>, prefix: Seq<u64>, r: u64, m: nat)
    ensures
        cube_sum(e, prefix.push(r), m) == slice(e, prefix, r, m),
{
    let n = cube_size(m) as int;
    let f = cube_term(e, prefix.push(r), m);
    let g = slice_term(e, prefix, r, m);
    assert forall|b: int| 0 <= b < n implies #[trigger] f(b) == g(b) by {}
    lemma_sum_ext(n, f, g);
}

/// With no free coordinate left, the slice is the extension at the full point.
pub proof fn lemma_slice_last(e: Seq<u64>, prefix: Seq<u64>, s: u64)
    ensures
        slice(e, prefix, s, 0) == mle(e, prefix.push(s)),
{
    let f = slice_term(e, prefix, s, 0);
    assert(prefix.push(s).add(corner(0, 0)) =~= prefix.push(s));
    assert(sum(1, f) == sum(0, f) + f(0));
}

/// A sum whose terms are the entries of `e` is the running total of `e`.
pub proof fn lemma_sum_entries(e: Seq<u64>, n: int, f: spec_fn(int) -> int)
    requires
        0 <= n <= e.len(),
        forall|i: int| 0 <= i < n ==> #[trigger] f(i) == e[i] as int,
    ensures
        sum(n, f) == prefix_total(e, n),
    decreases n,
{
    if n > 0 {
        lemma_sum_entries(e, n - 1, f);
    }
}

/// The extension summed over the whole hypercube is the sum of the stored values.
pub proof fn lemma_cube_sum_total(e: Seq<u64>, v: nat)
    requires
        e.len() == cube_size(v),
    ensures
        cube_sum(e, Seq::empty(), v) == seq_total(e),
{
    let f = cube_term(e, Seq::empty(), v);
    assert forall|b: int| 0 <= b < cube_size(v) implies #[trigger] f(b) == e[b] as int by {
        assert(Seq::<u64>::empty().add(corner(b, v)) =~= corner(b, v));
        lemma_mle_at_corner(e, b, v);
    }
    lemma_sum_entries(e, cube_size(v) as int, f);
}

/// The all-zero corner.
pub proof fn lemma_corner_zero(m: nat)
    ensures
        corner(0, m) =~= Seq::new(m, |k: int| 0u64),
    decreases m,
{
    if m > 0 {
        lemma_corner_zero((m - 1) as nat);
    }
}

/// `2^m`, for an `m` whose power fits in `usize`.
pub fn cube_len(m: usize) -> (r: usize)
    requires
        cube_size(m as nat) <= usize::MAX,
    ensures
        r == cube_size(m as nat),
{
    let mut n: usize = 1;
    let mut i: usize = 0;
    while i < m
        invariant
            i <= m,
            n == cube_size(i as nat),
            cube_size(m as nat) <= usize::MAX,
        decreases m - i,
    {
        proof {
            lemma_cube_size_mono((i + 1) as nat, m as nat);
        }
        n = n * 2;
        i += 1;
    }
    n
}

/// The coordinates of corner `index` of the `v`-dimensional hypercube, bit `k` of
/// `index` at position `k`.
pub fn index_to_vars(index: usize, v: usize) -> (r: Vec<u64>)
    requires
        index < cube_size(v as nat),
    ensures
        r@ == corner(index as int, v as nat),
{
    let mut vars_vec: Vec<u64> = Vec::new();
    let mut k: usize = 0;
    while k < v
        invariant
            k <= v,
            vars_vec@ =~= Seq::new(k as nat, |j: int| 0u64),
        decreases v - k,
    {
        vars_vec.push(0);
        k += 1;
    }
    let mut idx: usize = index;
    let mut place: usize = 0;
    while idx > 0
        invariant
            vars_vec@.len() == v,
            place <= v,
            idx < cube_size((v - place) as nat),
            corner(index as int, v as nat) == vars_vec@.take(place as int).add(corner(idx as int, (v - place) as nat)),
            forall|j: int| place <= j < v ==> vars_vec@[j] == 0,
        decreases idx,
    {
        let ghost m: nat = (v - place) as nat;
        assert(m > 0);
        let ghost before = vars_vec@;
        let bit = bool_to_field(idx % 2 == 1);
        vars_vec.set(place, bit);
        assert(vars_vec@.take(place + 1) =~= before.take(place as int).push((idx % 2) as u64));
        assert(corner(idx as int, m) =~= seq![(idx % 2) as u64].add(corner(idx as int / 2, (m - 1) as nat)));
        assert(vars_vec@.take(place + 1).add(corner(idx as int / 2, (m - 1) as nat)) =~= before.take(place as int).add(corner(idx as int, m)));
        place += 1;
        idx = idx / 2;
    }
    proof {
        lemma_corner_zero((v - place) as nat);
        assert(vars_vec@ =~= vars_vec@.take(place as int).add(corner(0, (v - place) as nat)));
    }
    vars_vec
}

/// A table of `2^v` uniformly drawn field elements.
pub fn random_evals(f: &FrConfig, rng: &mut StdRng, v: usize) -> (r: Vec<u64>)
    requires
        f.wf(),
        cube_size(v as nat) <= usize::MAX,
    ensures
        r@.len() == cube_size(v as nat),
        f.all_elems(r@),
{
    let n = cube_len(v);
    random_vec(f, rng, n)
}

/// The basis factor of one coordinate, computed as `x * bit + (1 - bit) * (1 - x)`.
fn basis_factor(f: &FrConfig, x: u64, bit: u64) -> (r: u64)
    requires
        f.wf(),
        x < f.modulus,
        bit <= 1,
    ensures
        r == term(bit == 1, x as int) % f.p(),
{
    let one = bool_to_field(true);
    let a = f.mul(x, bit);
    let b = f.mul(f.sub(one, bit), f.sub(one, x));
    let r = f.add(a, b);
    proof {
        let p = f.p();
        lemma_small_mod(x as nat, p as nat);
        lemma_small_mod(1, p as nat);
        lemma_small_mod(0, p as nat);
        lemma_mod_bound(1 - x, p);
        lemma_small_mod(((1 - x) % p) as nat, p as nat);
    }
    r
}

/// The Lagrange basis weight of corner `eval.0` at the point `r`; the value
/// `eval.1` stored at that corner plays no part in it.
pub fn w_basis_eval(f: &FrConfig, r: &[u64], eval: (usize, u64), v: usize) -> (res: u64)
    requires
        f.wf(),
        r@.len() == v,
        f.all_elems(r@),
        eval.0 < cube_size(v as nat),
    ensures
        res == basis(r@, eval.0 as int) % f.p(),
{
    let vars = index_to_vars(eval.0, v);
    proof {
        lemma_corner_bits(eval.0 as int, v as nat);
        lemma_small_mod(1, f.p() as nat);
    }
    let mut prod: u64 = bool_to_field(true);
    let mut i: usize = v;
    while i > 0
        invariant
            f.wf(),
            i <= v,
            r@.len() == v,
            f.all_elems(r@),
            vars@ == corner(eval.0 as int, v as nat),
            vars@.len() == v,
            forall|k: int| 0 <= k < v ==> #[trigger] vars@[k] <= 1,
            prod == weight(r@.skip(i as int), vars@.skip(i as int)) % f.p(),
        decreases i,
    {
        let t = basis_factor(f, r[i - 1], vars[i - 1]);
        proof {
            let w = weight(r@.skip(i as int), vars@.skip(i as int));
            let tt = term(vars@[i - 1] == 1, r@[i - 1] as int);
            assert(r@.skip(i - 1).drop_first() =~= r@.skip(i as int));
            assert(vars@.skip(i - 1).drop_first() =~= vars@.skip(i as int));
            assert(weight(r@.skip(i - 1), vars@.skip(i - 1)) == tt * w);
            lemma_mul_mod_noop(tt, w, f.p());
            lemma_mod_bound(w, f.p());
        }
        prod = f.mul(t, prod);
        i -= 1;
    }
    proof {
        assert(r@.skip(0) =~= r@);
        assert(vars@.skip(0) =~= vars@);
    }
    prod
}

/// The value at `r` of the multilinear extension of `evals`.
pub fn stream_eval(f: &FrConfig, r: &[u64], evals: &[u64], v: usize) -> (res: u64)
    requires
        f.wf(),
        r@.len() == v,
        f.all_elems(r@),
        f.all_elems(evals@),
        evals@.len() <= cube_size(v as nat),
    ensures
        res == mle(evals@, r@) % f.p(),
{
    let mut res: u64 = 0;
    let mut i: usize = 0;
    proof {
        lemma_small_mod(0, f.p() as nat);
    }
    while i < evals.len()
        invariant
            f.wf(),
            r@.len() == v,
            f.all_elems(r@),
            f.all_elems(evals@),
            evals@.len() <= cube_size(v as nat),
            i <= evals@.len(),
            res == mle_prefix(evals@, r@, i as int) % f.p(),
        decreases evals@.len() - i,
    {
        let w = w_basis_eval(f, r, (i, evals[i]), v);
        let t = f.mul(evals[i], w);
        proof {
            let e = evals@[i as int] as int;
            let b = basis(r@, i as int);
            let acc = mle_prefix(evals@, r@, i as int);
            lemma_small_mod(e as nat, f.p() as nat);
            lemma_mul_mod_noop(e, b, f.p());
            lemma_mod_bound(b, f.p());
            lemma_mod_bound(acc, f.p());
            lemma_mod_bound(e * b, f.p());
            lemma_add_mod_noop(acc, e * b, f.p());
            assert(mle_prefix(evals@, r@, i + 1) == acc + mle_term(evals@, r@)(i as int));
        }
        res = f.add(res, t);
        i += 1;
    }
    res
}

/// The point `prefix ++ [s] ++ vars`.
fn join_point(prefix: &[u64], s: u64, vars: &Vec<u64>) -> (r: Vec<u64>)
    ensures
        r@ == prefix@.push(s).add(vars@),
{
    let mut out: Vec<u64> = Vec::new();
    let mut i: usize = 0;
    while i < prefix.len()
        invariant
            i <= prefix@.len(),
            out@ =~= prefix@.take(i as int),
        decreases prefix@.len() - i,
    {
        out.push(prefix[i]);
        i += 1;
    }
    out.push(s);
    let mut j: usize = 0;
    while j < vars.len()
        invariant
            j <= vars@.len(),
            out@ =~= prefix@.push(s).add(vars@.take(j as int)),
        decreases vars@.len() - j,
    {
        out.push(vars[j]);
        j += 1;
    }
    assert(vars@.take(vars@.len() as int) =~= vars@);
    out
}

/// The sample values of the round slice after the fixed coordinates `randoms`: for
/// each sample point `s` in `0, 1, ..., NUM_SAMPLES - 1`, the extension of `evals`
/// summed over every boolean assignment of the coordinates after `randoms ++ [s]`.
pub fn calculate_g_i(f: &FrConfig, randoms: &[u64], evals: &[u64], v: usize) -> (res: Vec<u64>)
    requires
        f.wf(),
        randoms@.len() < v,
        f.all_elems(randoms@),
        f.all_elems(evals@),
        evals@.len() == cube_size(v as nat),
    ensures
        res@.len() == NUM_SAMPLES,
        forall|j: int| 0 <= j < NUM_SAMPLES ==> #[trigger] res@[j] == slice(evals@, randoms@, (j % f.p()) as u64, (v - randoms@.len() - 1) as nat) % f.p(),
{
    let m: usize = v - randoms.len() - 1;
    let total: usize = evals.len();
    proof {
        lemma_cube_size_mono(m as nat, v as nat);
    }
    let n = cube_len(m);
    let mut res: Vec<u64> = Vec::new();
    let mut i: u64 = 0;
    while i < NUM_SAMPLES
        invariant
            f.wf(),
            randoms@.len() < v,
            m == v - randoms@.len() - 1,
            n == cube_size(m as nat),
            f.all_elems(randoms@),
            f.all_elems(evals@),
            evals@.len() == cube_size(v as nat),
            i <= NUM_SAMPLES,
            res@.len() == i,
            forall|j: int| 0 <= j < i ==> #[trigger] res@[j] == slice(evals@, randoms@, (j % f.p()) as u64, m as nat) % f.p(),
        decreases NUM_SAMPLES - i,
    {
        let s = f.from_u64(i);
        let ghost term_s = slice_term(evals@, randoms@, s, m as nat);
        let mut partial: u64 = 0;
        let mut index: usize = 0;
        proof {
            lemma_small_mod(0, f.p() as nat);
        }
        while index < n
            invariant
                f.wf(),
                randoms@.len() < v,
                m == v - randoms@.len() - 1,
                n == cube_size(m as nat),
                f.all_elems(randoms@),
                f.all_elems(evals@),
                evals@.len() == cube_size(v as nat),
                s < f.modulus,
                term_s == slice_term(evals@, randoms@, s, m as nat),
                index <= n,
                partial == sum(index as int, term_s) % f.p(),
            decreases n - index,
        {
            let vars = index_to_vars(index, m);
            proof {
                lemma_corner_bits(index as int, m as nat);
            }
            let point = join_point(randoms, s, &vars);
            assert(f.all_elems(point@)) by {
                assert forall|k: int| 0 <= k < point@.len() implies point@[k] < f.modulus by {
                    if k > randoms@.len() {
                        assert(point@[k] == vars@[k - randoms@.len() - 1]);
                    }
                }
            }
            let eval = stream_eval(f, &point, evals, v);
            proof {
                let acc = sum(index as int, term_s);
                let t = term_s(index as int);
                lemma_mod_bound(acc, f.p());
                lemma_mod_bound(t, f.p());
                lemma_add_mod_noop(acc, t, f.p());
            }
            partial = f.add(partial, eval);
            index += 1;
        }
        res.push(partial);
        i += 1;
    }
    res
}

/// The fixed three-variable polynomial `2 * X1^3 + X2 * X3 + X2 * X3`, as an integer.
pub open spec fn g_poly_value(x: Seq<u64>) -> int {
    2 * (x[0] * x[0] * x[0]) + x[1] * x[2] + x[1] * x[2]
}

/// The fixed polynomial `2 * X1^3 + X2 * X3 + X2 * X3` at a point of three coordinates.
pub fn g_poly(f: &FrConfig, input: &[u64]) -> (r: u64)
    requires
        f.wf(),
        input@.len() == 3,
        f.all_elems(input@),
    ensures
        r == g_poly_value(input@) % f.p(),
{
    let ghost p = f.p();
    let x0 = input[0];
    let x1 = input[1];
    let x2 = input[2];
    let two = f.from_u64(2);
    let sq = f.mul(x0, x0);
    let cube = f.mul(sq, x0);
    let t = f.mul(two, cube);
    let u = f.mul(x1, x2);
    let s = f.add(t, u);
    let r = f.add(s, u);
    proof {
        let c = x0 * x0 * x0;
        lemma_mul_mod_noop_left(x0 * x0, x0 as int, p);
        lemma_mul_mod_noop(2, c, p);
        lemma_mod_bound(c, p);
        lemma_add_mod_noop(2 * c, x1 * x2, p);
        lemma_add_mod_noop(2 * c + x1 * x2, x1 * x2, p);
        lemma_mod_bound(x1 * x2, p);
        lemma_mod_bound(2 * c, p);
        lemma_mod_bound(2 * c + x1 * x2, p);
        lemma_small_mod((x1 * x2 % p) as nat, p as nat);
        lemma_small_mod((2 * c % p) as nat, p as nat);
        lemma_small_mod(((2 * c + x1 * x2) % p) as nat, p as nat);
        lemma_small_mod((c % p) as nat, p as nat);
    }
    r
}

/// At every corner of the hypercube the extension, reduced into the field, is the
/// value stored at that corner.
pub proof fn lemma_extension_at_corner(f: FrConfig, e: Seq<u64>, c: int, v: nat)
    requires
        f.wf(),
        f.all_elems(e),
        e.len() == cube_size(v),
        0 <= c < cube_size(v),
    ensures
        mle(e, corner(c, v)) % f.p() == e[c],
{
    lemma_mle_at_corner(e, c, v);
    lemma_small_mod(e[c] as nat, f.p() as nat);
}

} // verus!
