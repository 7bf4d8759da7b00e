//! The matrix-product check: the prover claims `C = A * B`, and the verifier tests
//! the claim on the vector of powers of one random field element.
use vstd::prelude::*;
use vstd::arithmetic::div_mod::{lemma_add_mod_noop, lemma_mul_mod_noop_left, lemma_mul_mod_noop_right, lemma_mod_bound, lemma_small_mod};
use rand::rngs::StdRng;
use crate::fields::{FrConfig, bool_to_field, random_elem};
use crate::ip::{IP, ProverMode, Status, step_taken, is_run};
use crate::sums::{sum, lemma_sum_mod, lemma_sum_scale, lemma_sum_swap, fix_first, fix_second};

verus! {

/// A matrix over the field, as its rows.
pub type Matrix = Vec<Vec<u64>>;

/// The summand of a dot product for index `j`.
pub open spec fn dot_term(row: Seq<u64>, x: Seq<u64>) -> spec_fn(int) -> int {
    |j: int| row[j] * x[j]
}

/// The dot product of `row` and `x` over the first `n` indices, as an integer.
pub open spec fn dot_prefix(row: Seq<u64>, x: Seq<u64>, n: int) -> int {
    sum(n, dot_term(row, x))
}

/// The dot product of `row` and `x`, as an integer.
pub open spec fn dot(row: Seq<u64>, x: Seq<u64>) -> int {
    dot_prefix(row, x, row.len() as int)
}

/// `r` to the power `l`, as an integer.
pub open spec fn power(r: int, l: nat) -> int
    decreases l,
{
    if l == 0 {
        1
    } else {
        power(r, (l - 1) as nat) * r
    }
}

/// The view of a matrix: its rows' views.
pub open spec fn rows(m: Seq<Vec<u64>>) -> Seq<Seq<u64>> {
    m.map_values(|row: Vec<u64>| row@)
}

/// Every row of `m` has `w` entries, each a field element.
pub open spec fn shaped(f: FrConfig, m: Seq<Seq<u64>>, w: nat) -> bool {
    forall|i: int| 0 <= i < m.len() ==> (#[trigger] m[i]).len() == w && f.all_elems(m[i])
}

/// Column `l` of `b`.
pub open spec fn column(b: Seq<Seq<u64>>, l: int) -> Seq<u64> {
    Seq::new(b.len(), |j: int| b[j][l])
}

/// The product `a * b`, reduced into the field.
pub open spec fn product(f: FrConfig, a: Seq<Seq<u64>>, b: Seq<Seq<u64>>, w: nat) -> Seq<Seq<u64>> {
    Seq::new(a.len(), |i: int| Seq::new(w, |l: int| (dot(a[i], column(b, l)) % f.p()) as u64))
}

/// The product `m * x`, reduced into the field.
pub open spec fn apply(f: FrConfig, m: Seq<Seq<u64>>, x: Seq<u64>) -> Seq<u64> {
    Seq::new(m.len(), |i: int| (dot(m[i], x) % f.p()) as u64)
}

/// `1, r, r^2, ...`, `w` of them, reduced into the field.
pub open spec fn powers(f: FrConfig, r: u64, w: nat) -> Seq<u64> {
    Seq::new(w, |l: int| (power(r as int, l as nat) % f.p()) as u64)
}

/// The verifier's test of the claim `c` with the challenge `r`: `c` has the shape
/// of `a * b` and `c * x == a * (b * x)` for the vector `x` of powers of `r`.
pub open spec fn claim_holds(f: FrConfig, a: Seq<Seq<u64>>, b: Seq<Seq<u64>>, w: nat, c: Seq<Seq<u64>>, r: u64) -> bool {
    let x = powers(f, r, w);
    &&& c.len() == a.len()
    &&& shaped(f, c, w)
    &&& apply(f, c, x) == apply(f, a, apply(f, b, x))
}

/// The dot product of `row` and `x` in the field.
fn dot_mod(f: &FrConfig, row: &Vec<u64>, x: &Vec<u64>) -> (r: u64)
    requires
        f.wf(),
        row@.len() == x@.len(),
        f.all_elems(row@),
        f.all_elems(x@),
    ensures
        r == dot(row@, x@) % f.p(),
{
    let mut acc: u64 = 0;
    let mut j: usize = 0;
    proof {
        lemma_small_mod(0, f.p() as nat);
    }
    while j < row.len()
        invariant
            f.wf(),
            row@.len() == x@.len(),
            f.all_elems(row@),
            f.all_elems(x@),
            j <= row@.len(),
            acc == dot_prefix(row@, x@, j as int) % f.p(),
        decreases row@.len() - j,
    {
        let t = f.mul(row[j], x[j]);
        proof {
            let s = dot_prefix(row@, x@, j as int);
            let u = row@[j as int] * x@[j as int];
            lemma_mod_bound(s, f.p());
            lemma_add_mod_noop(s, u, f.p());
        }
        acc = f.add(acc, t);
        j += 1;
    }
    acc
}

/// The product `m * x` in the field.
pub fn mat_vec_mul(f: &FrConfig, m: &Matrix, x: &Vec<u64>) -> (r: Vec<u64>)
    requires
        f.wf(),
        shaped(*f, rows(m@), x@.len()),
        f.all_elems(x@),
    ensures
        r@ == apply(*f, rows(m@), x@),
        f.all_elems(r@),
{
    let mut out: Vec<u64> = Vec::new();
    let mut i: usize = 0;
    while i < m.len()
        invariant
            f.wf(),
            shaped(*f, rows(m@), x@.len()),
            f.all_elems(x@),
            i <= m@.len(),
            out@ =~= apply(*f, rows(m@), x@).take(i as int),
            f.all_elems(out@),
        decreases m@.len() - i,
    {
        assert(rows(m@)[i as int] == m@[i as int]@);
        let d = dot_mod(f, &m[i], x);
        proof {
            lemma_mod_bound(dot(m@[i as int]@, x@), f.p());
        }
        out.push(d);
        i += 1;
    }
    assert(apply(*f, rows(m@), x@).take(m@.len() as int) =~= apply(*f, rows(m@), x@));
    out
}

/// Column `l` of `b`.
fn column_of(b: &Matrix, l: usize) -> (r: Vec<u64>)
    requires
        forall|j: int| 0 <= j < b@.len() ==> l < (#[trigger] b@[j])@.len(),
    ensures
        r@ == column(rows(b@), l as int),
{
    let mut out: Vec<u64> = Vec::new();
    let mut j: usize = 0;
    while j < b.len()
        invariant
            forall|j: int| 0 <= j < b@.len() ==> l < (#[trigger] b@[j])@.len(),
            j <= b@.len(),
            out@ =~= column(rows(b@), l as int).take(j as int),
        decreases b@.len() - j,
    {
        out.push(b[j][l]);
        j += 1;
    }
    assert(column(rows(b@), l as int).take(b@.len() as int) =~= column(rows(b@), l as int));
    out
}

/// The product `a * b` in the field, `b` having `w` columns.
pub fn mat_mul(f: &FrConfig, a: &Matrix, b: &Matrix, w: usize) -> (r: Matrix)
    requires
        f.wf(),
        shaped(*f, rows(a@), b@.len()),
        shaped(*f, rows(b@), w as nat),
    ensures
        rows(r@) == product(*f, rows(a@), rows(b@), w as nat),
        shaped(*f, rows(r@), w as nat),
{
    let ghost pr = product(*f, rows(a@), rows(b@), w as nat);
    let mut out: Matrix = Vec::new();
    let mut i: usize = 0;
    while i < a.len()
        invariant
            f.wf(),
            shaped(*f, rows(a@), b@.len()),
            shaped(*f, rows(b@), w as nat),
            pr == product(*f, rows(a@), rows(b@), w as nat),
            i <= a@.len(),
            out@.len() == i,
            forall|k: int| 0 <= k < i ==> (#[trigger] out@[k])@ == pr[k],
        decreases a@.len() - i,
    {
        let mut row: Vec<u64> = Vec::new();
        let mut l: usize = 0;
        assert(rows(a@)[i as int] == a@[i as int]@);
        while l < w
            invariant
                f.wf(),
                shaped(*f, rows(a@), b@.len()),
                shaped(*f, rows(b@), w as nat),
                pr == product(*f, rows(a@), rows(b@), w as nat),
                i < a@.len(),
                l <= w,
                row@ =~= pr[i as int].take(l as int),
            decreases w - l,
        {
            assert forall|j: int| 0 <= j < b@.len() implies l < (#[trigger] b@[j])@.len() by {
                assert(rows(b@)[j] == b@[j]@);
            }
            let col = column_of(b, l);
            assert(f.all_elems(col@)) by {
                assert forall|j: int| 0 <= j < col@.len() implies col@[j] < f.modulus by {
                    assert(rows(b@)[j] == b@[j]@);
                }
            }
            let d = dot_mod(f, &a[i], &col);
            row.push(d);
            l += 1;
        }
        assert(pr[i as int].take(w as int) =~= pr[i as int]);
        out.push(row);
        i += 1;
    }
    assert(rows(out@) =~= pr);
    assert(shaped(*f, rows(out@), w as nat)) by {
        assert forall|i: int| 0 <= i < rows(out@).len() implies (#[trigger] rows(out@)[i]).len() == w && f.all_elems(rows(out@)[i]) by {
            assert forall|l: int| 0 <= l < w implies rows(out@)[i][l] < f.modulus by {
                lemma_mod_bound(dot(rows(a@)[i], column(rows(b@), l)), f.p());
            }
        }
    }
    out
}

/// `1, r, r^2, ...`, `w` of them, in the field.
pub fn power_vec(f: &FrConfig, r: u64, w: usize) -> (res: Vec<u64>)
    requires
        f.wf(),
        r < f.modulus,
    ensures
        res@ == powers(*f, r, w as nat),
        f.all_elems(res@),
{
    let mut out: Vec<u64> = Vec::new();
    let mut cur: u64 = bool_to_field(true);
    let mut l: usize = 0;
    proof {
        lemma_small_mod(1, f.p() as nat);
    }
    while l < w
        invariant
            f.wf(),
            r < f.modulus,
            l <= w,
            cur == power(r as int, l as nat) % f.p(),
            out@ =~= powers(*f, r, w as nat).take(l as int),
        decreases w - l,
    {
        out.push(cur);
        proof {
            lemma_mod_bound(power(r as int, l as nat), f.p());
            lemma_mul_mod_noop_left(power(r as int, l as nat), r as int, f.p());
        }
        cur = f.mul(cur, r);
        l += 1;
    }
    assert(powers(*f, r, w as nat).take(w as int) =~= powers(*f, r, w as nat));
    assert(f.all_elems(out@)) by {
        assert forall|l: int| 0 <= l < out@.len() implies out@[l] < f.modulus by {
            lemma_mod_bound(power(r as int, l as nat), f.p());
        }
    }
    out
}

/// Whether `a` and `b` can be multiplied: `a` is `n x k` and `b` is `k x w`,
/// all three at least 1.
pub fn is_conforming(a: &Matrix, b: &Matrix) -> (r: bool)
    ensures
        r == conforming(rows(a@), rows(b@)),
{
    if a.len() == 0 || b.len() == 0 || b[0].len() == 0 {
        assert(rows(a@).len() == a@.len() && rows(b@).len() == b@.len());
        return false;
    }
    assert(rows(b@)[0] == b@[0]@);
    let k = b.len();
    let w = b[0].len();
    let mut i: usize = 0;
    while i < a.len()
        invariant
            k == b@.len(),
            i <= a@.len(),
            forall|q: int| 0 <= q < i ==> (#[trigger] a@[q])@.len() == k,
        decreases a@.len() - i,
    {
        if a[i].len() != k {
            assert(rows(a@)[i as int] == a@[i as int]@);
            return false;
        }
        i += 1;
    }
    let mut j: usize = 0;
    while j < b.len()
        invariant
            w == b@[0]@.len(),
            j <= b@.len(),
            forall|q: int| 0 <= q < j ==> (#[trigger] b@[q])@.len() == w,
        decreases b@.len() - j,
    {
        if b[j].len() != w {
            assert(rows(b@)[j as int] == b@[j as int]@);
            return false;
        }
        j += 1;
    }
    assert(has_width(rows(a@), k as nat)) by {
        assert forall|q: int| 0 <= q < rows(a@).len() implies (#[trigger] rows(a@)[q]).len() == k by {
            assert(rows(a@)[q] == a@[q]@);
        }
    }
    assert(has_width(rows(b@), w as nat)) by {
        assert forall|q: int| 0 <= q < rows(b@).len() implies (#[trigger] rows(b@)[q]).len() == w by {
            assert(rows(b@)[q] == b@[q]@);
        }
    }
    true
}

/// The claimed product with one added to its first entry.
pub open spec fn tamper_first(f: FrConfig, c: Seq<Seq<u64>>) -> Seq<Seq<u64>> {
    c.update(0, c[0].update(0, ((c[0][0] + 1) % f.p()) as u64))
}

/// An instance of the matrix-product check on `A` and `B`.
#[derive(Debug)]
pub struct MatMulIP {
    status: Status,
    field: FrConfig,
    a_array: Matrix,
    b_array: Matrix,
    c_array: Option<Matrix>,
    challenge: Option<u64>,
    prover_mode: ProverMode,
}

/// Every entry of `m` is a field element.
pub open spec fn in_field(f: FrConfig, m: Seq<Seq<u64>>) -> bool {
    forall|i: int| 0 <= i < m.len() ==> f.all_elems(#[trigger] m[i])
}

/// Every row of `m` has `w` entries.
pub open spec fn has_width(m: Seq<Seq<u64>>, w: nat) -> bool {
    forall|i: int| 0 <= i < m.len() ==> (#[trigger] m[i]).len() == w
}

/// `a` is `n x k` and `b` is `k x w`, all three at least 1.
pub open spec fn conforming(a: Seq<Seq<u64>>, b: Seq<Seq<u64>>) -> bool {
    &&& a.len() >= 1
    &&& b.len() >= 1
    &&& b[0].len() >= 1
    &&& has_width(a, b.len())
    &&& has_width(b, b[0].len())
}

/// A matrix of the given width with entries in the field is shaped.
pub proof fn lemma_shaped(f: FrConfig, m: Seq<Seq<u64>>, w: nat)
    requires
        has_width(m, w),
        in_field(f, m),
    ensures
        shaped(f, m, w),
{
    assert forall|i: int| 0 <= i < m.len() implies (#[trigger] m[i]).len() == w && f.all_elems(m[i]) by {}
}

impl MatMulIP {
    pub closed spec fn config(&self) -> FrConfig {
        self.field
    }

    pub closed spec fn left(&self) -> Seq<Seq<u64>> {
        rows(self.a_array@)
    }

    pub closed spec fn right(&self) -> Seq<Seq<u64>> {
        rows(self.b_array@)
    }

    /// The number of columns of `B`, and of the product.
    pub open spec fn width(&self) -> nat {
        self.right()[0].len()
    }

    /// `A` and `B` can be multiplied.
    pub open spec fn shapes_ok(&self) -> bool {
        conforming(self.left(), self.right())
    }

    /// The product that the prover has claimed, if it has.
    pub closed spec fn claim(&self) -> Option<Seq<Seq<u64>>> {
        match self.c_array {
            Some(c) => Some(rows(c@)),
            None => None,
        }
    }

    pub closed spec fn challenge_of(&self) -> Option<u64> {
        self.challenge
    }

    pub closed spec fn status_field(&self) -> Status {
        self.status
    }

    pub closed spec fn mode_field(&self) -> ProverMode {
        self.prover_mode
    }

    /// `o` has the same matrices, field and mode.
    pub open spec fn same_setup(&self, o: &MatMulIP) -> bool {
        &&& o.config() == self.config()
        &&& o.left() == self.left()
        &&& o.right() == self.right()
        &&& o.mode_field() == self.mode_field()
    }

    /// What the prover claims under the given mode: nothing where `A` and `B`
    /// cannot be multiplied.
    pub open spec fn expected_claim(&self, mode: ProverMode) -> Seq<Seq<u64>> {
        let c = product(self.config(), self.left(), self.right(), self.width());
        if !self.shapes_ok() {
            Seq::empty()
        } else {
            match mode {
                ProverMode::Honest => c,
                ProverMode::Malicious => tamper_first(self.config(), c),
            }
        }
    }

    /// The verifier's decision on the claim with the challenge `r`: matrices that
    /// cannot be multiplied are rejected.
    pub open spec fn verdict(&self, r: u64) -> Status {
        if self.shapes_ok() && claim_holds(self.config(), self.left(), self.right(), self.width(), self.claim().unwrap(), r) {
            Status::Accepted
        } else {
            Status::Rejected
        }
    }

    pub closed spec fn wf(&self) -> bool {
        &&& self.field.wf()
        &&& in_field(self.field, rows(self.a_array@))
        &&& in_field(self.field, rows(self.b_array@))
        &&& self.challenge is Some ==> self.c_array is Some
        &&& self.status == Status::Running ==> self.challenge is None
    }

    /// The verifier's check of the claimed product with the challenge `r`: the
    /// status becomes `verdict(r)`, and nothing else changes.
    pub fn check_claim(&mut self, r: u64)
        requires
            old(self).inv(),
            old(self).status_of() == Status::Running,
            old(self).count() % 2 == 1,
            r < old(self).config().modulus,
        ensures
            old(self).verifier_moves(r, final(self)),
            final(self).inv(),
            final(self).count() == old(self).count(),
            final(self).mode_of() == old(self).mode_of(),
            final(self).accepts_verifier_message(r),
    {
        let f = self.field;
        if !is_conforming(&self.a_array, &self.b_array) {
            self.status = Status::Rejected;
            return;
        }
        proof {
            lemma_shaped(self.field, rows(self.a_array@), self.b_array@.len() as nat);
            lemma_shaped(self.field, rows(self.b_array@), self.b_array@[0]@.len() as nat);
        }
        let w = self.b_array[0].len();
        assert(rows(self.b_array@)[0] == self.b_array@[0]@);
        let c = match &self.c_array {
            Some(c) => c,
            None => {
                return;
            },
        };
        let ghost cv = rows(c@);
        let x = power_vec(&f, r, w);
        let mut ok = c.len() == self.a_array.len();
        let mut i: usize = 0;
        while ok && i < c.len()
            invariant
                f.wf(),
                cv == rows(c@),
                ok ==> forall|k: int| 0 <= k < i ==> (#[trigger] cv[k]).len() == w && f.all_elems(cv[k]),
                !ok ==> !(cv.len() == rows(self.a_array@).len() && shaped(f, cv, w as nat)),
                ok ==> c@.len() == self.a_array@.len(),
                i <= c@.len(),
            decreases c@.len() - i,
        {
            assert(cv[i as int] == c@[i as int]@);
            let row = &c[i];
            if row.len() != w {
                ok = false;
            } else {
                let mut j: usize = 0;
                while ok && j < w
                    invariant
                        f.wf(),
                        row@.len() == w,
                        ok ==> forall|l: int| 0 <= l < j ==> row@[l] < f.modulus,
                        !ok ==> exists|l: int| 0 <= l < j && row@[l] >= f.modulus,
                        j <= w,
                    decreases w - j,
                {
                    if row[j] >= f.modulus {
                        ok = false;
                    }
                    j += 1;
                }
                assert(!ok ==> !f.all_elems(cv[i as int]));
            }
            i += 1;
        }
        let new_status = if !ok {
            Status::Rejected
        } else {
            let bx = mat_vec_mul(&f, &self.b_array, &x);
            let lhs = mat_vec_mul(&f, c, &x);
            let rhs = mat_vec_mul(&f, &self.a_array, &bx);
            let mut same = true;
            let mut k: usize = 0;
            while k < lhs.len()
                invariant
                    lhs@.len() == rhs@.len(),
                    k <= lhs@.len(),
                    same <==> forall|q: int| 0 <= q < k ==> lhs@[q] == rhs@[q],
                decreases lhs@.len() - k,
            {
                if lhs[k] != rhs[k] {
                    same = false;
                }
                k += 1;
            }
            assert(same <==> lhs@ == rhs@) by {
                if same {
                    assert(lhs@ =~= rhs@);
                }
            }
            if same {
                Status::Accepted
            } else {
                Status::Rejected
            }
        };
        self.status = new_status;
    }
}

impl IP for MatMulIP {
    type ProverMessage = Matrix;
    type VerifierMessage = u64;
    /// The field and the two matrices.
    type Input = (FrConfig, Matrix, Matrix);

    closed spec fn inv(&self) -> bool {
        self.wf()
    }

    open spec fn input_ok(input: &(FrConfig, Matrix, Matrix)) -> bool {
        input.0.wf() && in_field(input.0, rows(input.1@)) && in_field(input.0, rows(input.2@))
    }

    open spec fn built_from(&self, input: &(FrConfig, Matrix, Matrix)) -> bool {
        &&& self.config() == input.0
        &&& self.left() == rows(input.1@)
        &&& self.right() == rows(input.2@)
    }

    open spec fn status_of(&self) -> Status {
        self.status_field()
    }

    open spec fn mode_of(&self) -> ProverMode {
        self.mode_field()
    }

    open spec fn count(&self) -> nat {
        (if self.claim() is Some { 1nat } else { 0nat }) + (if self.challenge_of() is Some { 1nat } else { 0nat })
    }

    open spec fn prover_sends(&self, mode: ProverMode, m: Matrix) -> bool {
        rows(m@) == self.expected_claim(mode)
    }

    open spec fn records_prover(&self, m: Matrix, post: &MatMulIP) -> bool {
        &&& self.same_setup(post)
        &&& post.status_of() == self.status_of()
        &&& post.challenge_of() == self.challenge_of()
        &&& post.claim() == Some(rows(m@))
    }

    open spec fn verifier_moves(&self, m: u64, post: &MatMulIP) -> bool {
        &&& m < self.config().modulus
        &&& self.same_setup(post)
        &&& post.status_of() == self.verdict(m)
        &&& post.challenge_of() == self.challenge_of()
        &&& post.claim() == self.claim()
    }

    open spec fn records_verifier(&self, m: u64, post: &MatMulIP) -> bool {
        &&& self.same_setup(post)
        &&& post.status_of() == self.status_of()
        &&& post.challenge_of() == Some(m)
        &&& post.claim() == self.claim()
    }

    open spec fn accepts_verifier_message(&self, m: u64) -> bool {
        &&& self.claim() is Some
        &&& self.challenge_of() is None
        &&& self.status_of() != Status::Running
    }

    open spec fn has_prover_message(&self) -> bool {
        self.claim() is Some
    }

    open spec fn is_last_prover_message(&self, m: Matrix) -> bool {
        self.claim() == Some(rows(m@))
    }

    open spec fn has_verifier_message(&self) -> bool {
        self.challenge_of() is Some
    }

    open spec fn last_verifier_message(&self) -> u64 {
        self.challenge_of().unwrap()
    }

    fn initialize(input: (FrConfig, Matrix, Matrix), prover_mode: ProverMode, rng: &mut StdRng) -> (r: MatMulIP) {
        MatMulIP {
            status: Status::Running,
            field: input.0,
            a_array: input.1,
            b_array: input.2,
            c_array: None,
            challenge: None,
            prover_mode,
        }
    }

    fn run_honest_prover_logic(&mut self) -> (m: Matrix) {
        if !is_conforming(&self.a_array, &self.b_array) {
            let empty: Matrix = Vec::new();
            assert(rows(empty@) =~= Seq::<Seq<u64>>::empty());
            return empty;
        }
        let w = self.b_array[0].len();
        assert(rows(self.b_array@)[0] == self.b_array@[0]@);
        proof {
            lemma_shaped(self.field, rows(self.a_array@), self.b_array@.len() as nat);
            lemma_shaped(self.field, rows(self.b_array@), w as nat);
        }
        let c = mat_mul(&self.field, &self.a_array, &self.b_array, w);
        c
    }

    fn run_malicious_prover_logic(&mut self) -> (m: Matrix) {
        if !is_conforming(&self.a_array, &self.b_array) {
            let empty: Matrix = Vec::new();
            assert(rows(empty@) =~= Seq::<Seq<u64>>::empty());
            return empty;
        }
        let w = self.b_array[0].len();
        assert(rows(self.b_array@)[0] == self.b_array@[0]@);
        proof {
            lemma_shaped(self.field, rows(self.a_array@), self.b_array@.len() as nat);
            lemma_shaped(self.field, rows(self.b_array@), w as nat);
        }
        let mut c_array = mat_mul(&self.field, &self.a_array, &self.b_array, w);
        let ghost c = rows(c_array@);
        assert(rows(self.a_array@).len() >= 1);
        assert(c.len() == c_array@.len());
        assert(c_array@.len() >= 1);
        assert(c[0] == c_array@[0]@);
        let mut first = c_array[0].clone();
        assert(first@ == c[0]);
        let one = bool_to_field(true);
        let bumped = self.field.add(first[0], one);
        first.set(0, bumped);
        c_array.set(0, first);
        assert(rows(c_array@) =~= tamper_first(self.field, c));
        c_array
    }

    fn get_status(&self) -> (s: Status) {
        self.status
    }

    fn run_verifier_logic(&mut self, rng: &mut StdRng) -> (m: u64) {
        let r = random_elem(&self.field, rng);
        self.check_claim(r);
        r
    }

    fn add_prover_message(&mut self, message: Matrix) {
        self.c_array = Some(message);
    }

    fn add_verifier_message(&mut self, message: u64) {
        self.challenge = Some(message);
    }

    fn total_messages(&self) -> (r: usize) {
        let claimed: usize = if self.c_array.is_some() { 1 } else { 0 };
        let challenged: usize = if self.challenge.is_some() { 1 } else { 0 };
        claimed + challenged
    }

    fn get_last_prover_message(&self) -> (r: Matrix) {
        let c = self.c_array.as_ref().unwrap();
        let mut out: Matrix = Vec::new();
        let mut i: usize = 0;
        while i < c.len()
            invariant
                i <= c@.len(),
                out@.len() == i,
                forall|k: int| 0 <= k < i ==> (#[trigger] out@[k])@ == c@[k]@,
            decreases c@.len() - i,
        {
            let row = c[i].clone();
            out.push(row);
            i += 1;
        }
        assert(rows(out@) =~= rows(c@));
        out
    }

    fn get_last_verifier_message(&self) -> (r: u64) {
        self.challenge.unwrap()
    }

    fn get_prover_mode(&self) -> (m: ProverMode) {
        self.prover_mode
    }
}

/// One row of the honest product passes the test: `(a * B) . x` and `a . (B * x)`
/// agree in the field, for the row `a` of the product reduced entry by entry.
proof fn lemma_row_identity(f: FrConfig, a: Seq<u64>, b: Seq<Seq<u64>>, w: nat, x: Seq<u64>)
    requires
        f.wf(),
        b.len() == a.len(),
        shaped(f, b, w),
        x.len() == w,
    ensures
        dot(Seq::new(w, |l: int| (dot(a, column(b, l)) % f.p()) as u64), x) % f.p() == dot(a, apply(f, b, x)) % f.p(),
{
    let p = f.p();
    let k = a.len() as int;
    let crow = Seq::new(w, |l: int| (dot(a, column(b, l)) % f.p()) as u64);
    let bx = apply(f, b, x);
    let t = |j: int, l: int| a[j] * b[j][l] * x[l];
    let by_l = |l: int| dot(a, column(b, l)) * x[l];
    let by_j = |j: int| a[j] * dot(b[j], x);
    assert forall|l: int| 0 <= l < w implies #[trigger] dot_term(crow, x)(l) % p == by_l(l) % p by {
        let tl = dot(a, column(b, l));
        lemma_mod_bound(tl, p);
        lemma_mul_mod_noop_left(tl, x[l] as int, p);
    }
    lemma_sum_mod(w as int, dot_term(crow, x), by_l, p);
    assert forall|l: int| 0 <= l < w implies #[trigger] by_l(l) == sum(k, fix_second(t, l)) by {
        let col = column(b, l);
        assert forall|j: int| 0 <= j < k implies #[trigger] fix_second(t, l)(j) == x[l] * dot_term(a, col)(j) by {
            let (aj, bj, xl) = (a[j] as int, b[j][l] as int, x[l] as int);
            assert(aj * bj * xl == xl * (aj * bj)) by (nonlinear_arith);
        }
        lemma_sum_scale(k, fix_second(t, l), dot_term(a, col), x[l] as int);
        let d = dot(a, col);
        let xl = x[l] as int;
        assert(d * xl == xl * d) by (nonlinear_arith);
    }
    assert forall|j: int| 0 <= j < k implies #[trigger] by_j(j) == sum(w as int, fix_first(t, j)) by {
        assert forall|l: int| 0 <= l < w implies #[trigger] fix_first(t, j)(l) == a[j] * dot_term(b[j], x)(l) by {
            let (aj, bj, xl) = (a[j] as int, b[j][l] as int, x[l] as int);
            assert(aj * bj * xl == aj * (bj * xl)) by (nonlinear_arith);
        }
        lemma_sum_scale(w as int, fix_first(t, j), dot_term(b[j], x), a[j] as int);
    }
    lemma_sum_swap(w as int, k, t, by_l, by_j);
    assert forall|j: int| 0 <= j < k implies #[trigger] dot_term(a, bx)(j) % p == by_j(j) % p by {
        lemma_mul_mod_noop_right(a[j] as int, dot(b[j], x), p);
        lemma_mod_bound(dot(b[j], x), p);
    }
    lemma_sum_mod(k, dot_term(a, bx), by_j, p);
}

/// The honest product passes the verifier's test for every challenge.
pub proof fn lemma_honest_claim_holds(f: FrConfig, a: Seq<Seq<u64>>, b: Seq<Seq<u64>>, w: nat, r: u64)
    requires
        f.wf(),
        shaped(f, a, b.len()),
        shaped(f, b, w),
        r < f.modulus,
    ensures
        claim_holds(f, a, b, w, product(f, a, b, w), r),
{
    let x = powers(f, r, w);
    let c = product(f, a, b, w);
    assert forall|i: int| 0 <= i < c.len() implies (#[trigger] c[i]).len() == w && f.all_elems(c[i]) by {
        assert forall|l: int| 0 <= l < w implies c[i][l] < f.modulus by {
            lemma_mod_bound(dot(a[i], column(b, l)), f.p());
        }
    }
    assert forall|i: int| 0 <= i < a.len() implies #[trigger] apply(f, c, x)[i] == apply(f, a, apply(f, b, x))[i] by {
        lemma_row_identity(f, a[i], b, w, x);
        assert(c[i] == Seq::new(w, |l: int| (dot(a[i], column(b, l)) % f.p()) as u64));
    }
    assert(apply(f, c, x) =~= apply(f, a, apply(f, b, x)));
}

/// Completeness: an honest run of the matrix-product check ends accepted after its
/// two steps, whatever challenge the verifier draws.
pub proof fn lemma_honest_matmul_accepted(run: Seq<MatMulIP>)
    requires
        run.len() == 3,
        run[0].inv(),
        run[0].status_of() == Status::Running,
        run[0].count() == 0,
        run[0].mode_of() == ProverMode::Honest,
        conforming(run[0].left(), run[0].right()),
        is_run(run),
    ensures
        run[2].status_of() == Status::Accepted,
{
    let (s0, s1, s2) = (run[0], run[1], run[2]);
    assert(step_taken(s0, s1));
    assert(step_taken(s1, s2));
    let m = choose|m: Matrix| s0.prover_sends(s0.mode_of(), m) && #[trigger] s0.records_prover(m, &s1);
    assert(s1.status_of() == Status::Running);
    let (r, mid) = choose|r: u64, mid: MatMulIP| #[trigger] s1.verifier_moves(r, &mid) && #[trigger] mid.records_verifier(r, &s2);
    assert(rows(s0.b_array@)[0] == s0.b_array@[0]@);
    lemma_shaped(s1.config(), s1.left(), s1.right().len());
    lemma_shaped(s1.config(), s1.right(), s1.width());
    lemma_honest_claim_holds(s1.config(), s1.left(), s1.right(), s1.width(), r);
}

} // verus!
