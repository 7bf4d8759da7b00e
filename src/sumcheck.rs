//! The sum-check protocol: the prover convinces the verifier of the sum of a table
//! of `2^v` field elements over the boolean hypercube, one variable per round,
//! and the verifier ends with one evaluation of the table's multilinear extension.
use vstd::prelude::*;
use vstd::arithmetic::div_mod::{lemma_add_mod_noop, lemma_mul_mod_noop_right, lemma_mod_bound, lemma_small_mod, lemma_fundamental_div_mod, lemma_fundamental_div_mod_converse};
use rand::rngs::StdRng;
use crate::fields::{FrConfig, seq_total, bool_to_field, evals_sum, random_elem};
use crate::ip::{IP, ProverMode, Status, step_taken, is_run};
use crate::mle::{NUM_SAMPLES, cube_size, lemma_cube_size_double, mle, slice, lemma_slice_affine, lemma_slice_pair, lemma_slice_last, lemma_cube_sum_push, lemma_cube_sum_total, calculate_g_i, random_evals, stream_eval};
use crate::polynomials::{line_at, eval_poly};

verus! {

/// A sum-check instance over the multilinear extension of a table of evaluations.
#[derive(Debug)]
pub struct SumCheck {
    status: Status,
    prover_mode: ProverMode,
    field: FrConfig,
    r: Vec<u64>,
    univariate_evals: Vec<Vec<u64>>,
    hypercube_evals: Vec<u64>,
    g_sum: u64,
    v: usize,
}

/// The samples that an honest prover sends in the round after the challenges `r`.
pub open spec fn honest_samples(f: FrConfig, e: Seq<u64>, r: Seq<u64>, v: nat) -> Seq<u64> {
    Seq::new(NUM_SAMPLES as nat, |j: int| (slice(e, r, (j % f.p()) as u64, (v - r.len() - 1) as nat) % f.p()) as u64)
}

/// The samples with one added to the first of them.
pub open spec fn tampered(f: FrConfig, s: Seq<u64>) -> Seq<u64> {
    s.update(0, ((s[0] + 1) % f.p()) as u64)
}

/// A prover message that the verifier can read: two samples, both field elements.
pub open spec fn readable(f: FrConfig, m: Seq<u64>) -> bool {
    m.len() >= 2 && m[0] < f.modulus && m[1] < f.modulus
}

impl SumCheck {
    pub closed spec fn config(&self) -> FrConfig {
        self.field
    }

    /// The table whose sum is claimed.
    pub closed spec fn evals_of(&self) -> Seq<u64> {
        self.hypercube_evals@
    }

    /// The verifier's challenges so far.
    pub closed spec fn challenges(&self) -> Seq<u64> {
        self.r@
    }

    /// The prover's messages so far.
    pub closed spec fn msgs(&self) -> Seq<Seq<u64>> {
        self.univariate_evals@.map_values(|m: Vec<u64>| m@)
    }

    pub closed spec fn num_vars(&self) -> nat {
        self.v as nat
    }

    /// The sum of the table, reduced into the field.
    pub closed spec fn claimed_total(&self) -> u64 {
        self.g_sum
    }

    pub closed spec fn status_field(&self) -> Status {
        self.status
    }

    pub closed spec fn mode_field(&self) -> ProverMode {
        self.prover_mode
    }

    /// `o` has the same table, field, mode and number of variables.
    pub open spec fn same_setup(&self, o: &SumCheck) -> bool {
        &&& o.config() == self.config()
        &&& o.evals_of() == self.evals_of()
        &&& o.num_vars() == self.num_vars()
        &&& o.claimed_total() == self.claimed_total()
        &&& o.mode_field() == self.mode_field()
    }

    /// What the prover sends in this state under the given mode.
    pub open spec fn expected_message(&self, mode: ProverMode) -> Seq<u64> {
        let s = honest_samples(self.config(), self.evals_of(), self.challenges(), self.num_vars());
        match mode {
            ProverMode::Honest => s,
            ProverMode::Malicious => tampered(self.config(), s),
        }
    }

    /// The status that the verifier's check of the latest prover message gives,
    /// drawing `c` as its challenge. Round 0 compares the sum of the first two
    /// samples with the table's sum; the last round evaluates the slice at `c` and
    /// compares it with the extension at the full challenge point; each round in
    /// between compares the sum with the previous slice at the previous challenge.
    /// An unreadable message is rejected.
    pub open spec fn verdict(&self, c: u64) -> Status {
        let f = self.config();
        let p = f.p();
        let i = self.challenges().len();
        let m = self.msgs()[i as int];
        let total = (m[0] + m[1]) % p;
        if !readable(f, m) {
            Status::Rejected
        } else if i == 0 && total != self.claimed_total() {
            Status::Rejected
        } else if i + 1 == self.num_vars() {
            if line_at(m[0] as int, m[1] as int, c as int) % p == mle(self.evals_of(), self.challenges().push(c)) % p {
                Status::Accepted
            } else {
                Status::Rejected
            }
        } else if i >= 1 {
            let prev = self.msgs()[i - 1];
            if !readable(f, prev) {
                Status::Rejected
            } else if total != line_at(prev[0] as int, prev[1] as int, self.challenges()[i - 1] as int) % p {
                Status::Rejected
            } else {
                Status::Running
            }
        } else {
            Status::Running
        }
    }

    pub closed spec fn wf(&self) -> bool {
        &&& self.field.wf()
        &&& self.v >= 1
        &&& self.hypercube_evals@.len() == cube_size(self.v as nat)
        &&& cube_size(self.v as nat) <= usize::MAX
        &&& self.field.all_elems(self.hypercube_evals@)
        &&& self.g_sum == seq_total(self.hypercube_evals@) % self.field.p()
        &&& self.field.all_elems(self.r@)
        &&& self.r@.len() <= self.v
        &&& self.univariate_evals@.len() <= self.v
        &&& (self.univariate_evals@.len() == self.r@.len() || self.univariate_evals@.len() == self.r@.len() + 1)
        &&& self.status == Status::Running ==> self.r@.len() < self.v
    }

    /// An instance over the given table, with no message exchanged yet.
    pub fn from_evals(f: FrConfig, evals: Vec<u64>, v: usize, prover_mode: ProverMode) -> (r: SumCheck)
        requires
            f.wf(),
            v >= 1,
            evals@.len() == cube_size(v as nat),
            f.all_elems(evals@),
        ensures
            r.inv(),
            r.status_of() == Status::Running,
            r.mode_of() == prover_mode,
            r.count() == 0,
            r.config() == f,
            r.evals_of() == evals@,
            r.num_vars() == v,
    {
        let sum = evals_sum(&f, evals.as_slice());
        let n: usize = evals.len();
        SumCheck {
            status: Status::Running,
            prover_mode,
            field: f,
            r: Vec::new(),
            univariate_evals: Vec::new(),
            hypercube_evals: evals,
            g_sum: sum,
            v,
        }
    }

    /// The verifier's check of the latest prover message with the challenge `c`:
    /// the status becomes `verdict(c)`, and nothing else changes.
    pub fn verify_round(&mut self, c: u64)
        requires
            old(self).inv(),
            old(self).status_of() == Status::Running,
            old(self).count() % 2 == 1,
            c < old(self).config().modulus,
        ensures
            old(self).verifier_moves(c, final(self)),
            final(self).inv(),
            final(self).count() == old(self).count(),
            final(self).mode_of() == old(self).mode_of(),
            final(self).accepts_verifier_message(c),
    {
        let i = self.r.len();
        let ghost ms = self.msgs();
        assert(ms[i as int] == self.univariate_evals@[i as int]@);
        let p = self.field.modulus;
        let m = &self.univariate_evals[i];
        let new_status = if m.len() < 2 || m[0] >= p || m[1] >= p {
            Status::Rejected
        } else {
            let total = self.field.add(m[0], m[1]);
            if i == 0 && total != self.g_sum {
                Status::Rejected
            } else if i + 1 == self.v {
                let mut point: Vec<u64> = self.r.clone();
                assert(point@ == self.r@);
                point.push(c);
                let lhs = eval_poly(&self.field, m.as_slice(), c);
                let rhs = stream_eval(&self.field, point.as_slice(), self.hypercube_evals.as_slice(), self.v);
                if lhs == rhs {
                    Status::Accepted
                } else {
                    Status::Rejected
                }
            } else if i >= 1 {
                let prev = &self.univariate_evals[i - 1];
                assert(ms[i - 1] == prev@);
                if prev.len() < 2 || prev[0] >= p || prev[1] >= p {
                    Status::Rejected
                } else if total != eval_poly(&self.field, prev.as_slice(), self.r[i - 1]) {
                    Status::Rejected
                } else {
                    Status::Running
                }
            } else {
                Status::Running
            }
        };
        self.status = new_status;
        assert(self.msgs() =~= ms);
    }
}

impl IP for SumCheck {
    type ProverMessage = Vec<u64>;
    type VerifierMessage = u64;
    /// The field and the number of variables.
    type Input = (FrConfig, usize);

    closed spec fn inv(&self) -> bool {
        self.wf()
    }

    open spec fn input_ok(input: &(FrConfig, usize)) -> bool {
        input.0.wf() && input.1 >= 1 && cube_size(input.1 as nat) <= usize::MAX
    }

    open spec fn built_from(&self, input: &(FrConfig, usize)) -> bool {
        self.config() == input.0 && self.num_vars() == input.1
    }

    open spec fn status_of(&self) -> Status {
        self.status_field()
    }

    open spec fn mode_of(&self) -> ProverMode {
        self.mode_field()
    }

    open spec fn count(&self) -> nat {
        self.challenges().len() + self.msgs().len()
    }

    open spec fn prover_sends(&self, mode: ProverMode, m: Vec<u64>) -> bool {
        m@ == self.expected_message(mode)
    }

    open spec fn records_prover(&self, m: Vec<u64>, post: &SumCheck) -> bool {
        &&& self.same_setup(post)
        &&& post.status_of() == self.status_of()
        &&& post.challenges() == self.challenges()
        &&& post.msgs() == self.msgs().push(m@)
    }

    open spec fn verifier_moves(&self, m: u64, post: &SumCheck) -> bool {
        &&& m < self.config().modulus
        &&& self.same_setup(post)
        &&& post.status_of() == self.verdict(m)
        &&& post.challenges() == self.challenges()
        &&& post.msgs() == self.msgs()
    }

    open spec fn records_verifier(&self, m: u64, post: &SumCheck) -> bool {
        &&& self.same_setup(post)
        &&& post.status_of() == self.status_of()
        &&& post.challenges() == self.challenges().push(m)
        &&& post.msgs() == self.msgs()
    }

    open spec fn accepts_verifier_message(&self, m: u64) -> bool {
        &&& m < self.config().modulus
        &&& self.msgs().len() == self.challenges().len() + 1
        &&& self.status_of() == Status::Running ==> self.challenges().len() + 1 < self.num_vars()
    }

    open spec fn has_prover_message(&self) -> bool {
        self.msgs().len() > 0
    }

    open spec fn is_last_prover_message(&self, m: Vec<u64>) -> bool {
        m@ == self.msgs().last()
    }

    open spec fn has_verifier_message(&self) -> bool {
        self.challenges().len() > 0
    }

    open spec fn last_verifier_message(&self) -> u64 {
        self.challenges().last()
    }

    fn initialize(input: (FrConfig, usize), prover_mode: ProverMode, rng: &mut StdRng) -> (r: SumCheck) {
        let evals = random_evals(&input.0, rng, input.1);
        SumCheck::from_evals(input.0, evals, input.1, prover_mode)
    }

    fn run_honest_prover_logic(&mut self) -> (m: Vec<u64>) {
        let g_i_evals = calculate_g_i(&self.field, self.r.as_slice(), self.hypercube_evals.as_slice(), self.v);
        assert(g_i_evals@ =~= self.expected_message(ProverMode::Honest));
        g_i_evals
    }

    fn run_malicious_prover_logic(&mut self) -> (m: Vec<u64>) {
        let mut g_i_evals = calculate_g_i(&self.field, self.r.as_slice(), self.hypercube_evals.as_slice(), self.v);
        assert(g_i_evals@ =~= self.expected_message(ProverMode::Honest));
        let one = bool_to_field(true);
        let tampered_first = self.field.add(g_i_evals[0], one);
        g_i_evals.set(0, tampered_first);
        assert(g_i_evals@ =~= self.expected_message(ProverMode::Malicious));
        g_i_evals
    }

    fn get_status(&self) -> (s: Status) {
        self.status
    }

    fn run_verifier_logic(&mut self, rng: &mut StdRng) -> (m: u64) {
        let rand_response = random_elem(&self.field, rng);
        self.verify_round(rand_response);
        rand_response
    }

    fn add_prover_message(&mut self, message: Vec<u64>) {
        let ghost ms = self.msgs();
        self.univariate_evals.push(message);
        assert(self.msgs() =~= ms.push(message@));
    }

    fn add_verifier_message(&mut self, message: u64) {
        let ghost before = self.r@;
        self.r.push(message);
        assert(self.field.all_elems(self.r@)) by {
            assert forall|k: int| 0 <= k < self.r@.len() implies self.r@[k] < self.field.modulus by {
                if k < before.len() {
                    assert(self.r@[k] == before[k]);
                }
            }
        }
    }

    fn total_messages(&self) -> (r: usize) {
        proof {
            lemma_cube_size_double(self.v as nat);
        }
        self.r.len() + self.univariate_evals.len()
    }

    fn get_last_prover_message(&self) -> (r: Vec<u64>) {
        let last = self.univariate_evals[self.univariate_evals.len() - 1].clone();
        assert(self.msgs().last() == self.univariate_evals@.last()@);
        last
    }

    fn get_last_verifier_message(&self) -> (r: u64) {
        self.r[self.r.len() - 1]
    }

    fn get_prover_mode(&self) -> (m: ProverMode) {
        self.prover_mode
    }
}

/// The line through two residues agrees, in the field, with the line through the
/// integers they reduce from.
proof fn lemma_line_mod(a: int, b: int, c: int, p: int)
    requires
        p > 0,
    ensures
        line_at(a % p, b % p, c) % p == line_at(a, b, c) % p,
{
    lemma_mul_mod_noop_right(1 - c, a, p);
    lemma_mul_mod_noop_right(c, b, p);
    lemma_add_mod_noop((1 - c) * (a % p), c * (b % p), p);
    lemma_add_mod_noop((1 - c) * a, c * b, p);
}

/// Adding one changes a residue when the modulus is at least 2.
proof fn lemma_succ_mod_differs(x: int, p: int)
    requires
        p >= 2,
    ensures
        (x + 1) % p != x % p,
{
    lemma_fundamental_div_mod(x, p);
    let q = x / p;
    let r = x % p;
    lemma_mod_bound(x, p);
    if r + 1 < p {
        assert(x + 1 == q * p + (r + 1)) by (nonlinear_arith)
            requires
                x == p * q + r,
        ;
        lemma_fundamental_div_mod_converse(x + 1, p, q, r + 1);
    } else {
        assert(x + 1 == (q + 1) * p + 0) by (nonlinear_arith)
            requires
                x == p * q + r,
                r + 1 == p,
        ;
        lemma_fundamental_div_mod_converse(x + 1, p, q + 1, 0);
    }
}

impl SumCheck {
    /// Every prover message so far is what an honest prover sends after the
    /// challenges that preceded it.
    pub open spec fn honest_so_far(&self) -> bool {
        forall|j: int| 0 <= j < self.msgs().len() ==> #[trigger] self.msgs()[j] == honest_samples(
            self.config(), self.evals_of(), self.challenges().take(j), self.num_vars())
    }

    /// The state in which a run starts: nothing exchanged yet, still running.
    pub open spec fn is_fresh(&self) -> bool {
        &&& self.inv()
        &&& self.status_of() == Status::Running
        &&& self.count() == 0
    }
}

/// Facts about the honest samples of a round: they are readable, and the first two
/// are the slice at 0 and at 1, reduced into the field.
proof fn lemma_honest_samples(f: FrConfig, e: Seq<u64>, r: Seq<u64>, v: nat)
    requires
        f.wf(),
        r.len() < v,
    ensures
        readable(f, honest_samples(f, e, r, v)),
        honest_samples(f, e, r, v).len() == NUM_SAMPLES,
        honest_samples(f, e, r, v)[0] == slice(e, r, 0, (v - r.len() - 1) as nat) % f.p(),
        honest_samples(f, e, r, v)[1] == slice(e, r, 1, (v - r.len() - 1) as nat) % f.p(),
{
    let m = (v - r.len() - 1) as nat;
    lemma_small_mod(0, f.p() as nat);
    lemma_small_mod(1, f.p() as nat);
    lemma_mod_bound(slice(e, r, 0, m), f.p());
    lemma_mod_bound(slice(e, r, 1, m), f.p());
}

/// On an instance whose prover has been honest, the verifier's check of the latest
/// round passes for every challenge: the last round accepts, every other continues.
pub proof fn lemma_honest_verdict(s: SumCheck, c: u64)
    requires
        s.inv(),
        s.status_of() == Status::Running,
        s.msgs().len() == s.challenges().len() + 1,
        s.honest_so_far(),
        c < s.config().modulus,
    ensures
        s.verdict(c) == if s.challenges().len() + 1 == s.num_vars() {
            Status::Accepted
        } else {
            Status::Running
        },
{
    let f = s.config();
    let p = f.p();
    let e = s.evals_of();
    let r = s.challenges();
    let v = s.num_vars();
    let i = r.len();
    let mm = (v - i - 1) as nat;
    assert(r.take(i as int) =~= r);
    let m = s.msgs()[i as int];
    assert(m == honest_samples(f, e, r, v));
    lemma_honest_samples(f, e, r, v);
    let s0 = slice(e, r, 0, mm);
    let s1 = slice(e, r, 1, mm);
    lemma_add_mod_noop(s0, s1, p);
    lemma_slice_pair(e, r, mm);
    if i == 0 {
        assert(r =~= Seq::<u64>::empty());
        assert(mm + 1 == v);
        lemma_cube_sum_total(e, v);
    }
    if i + 1 == v {
        lemma_slice_affine(e, r, c, mm);
        lemma_slice_last(e, r, c);
        lemma_line_mod(s0, s1, c as int, p);
        assert(line_at(s0, s1, c as int) == (1 - c) * s0 + c * s1);
    } else if i >= 1 {
        let rp = r.take(i - 1);
        assert(rp.push(r[i - 1]) =~= r);
        let mp = (v - rp.len() - 1) as nat;
        assert(mp == mm + 1);
        let prev = s.msgs()[i - 1];
        assert(prev == honest_samples(f, e, rp, v));
        lemma_honest_samples(f, e, rp, v);
        let t0 = slice(e, rp, 0, mp);
        let t1 = slice(e, rp, 1, mp);
        let ri = r[i - 1];
        lemma_slice_affine(e, rp, ri, mp);
        lemma_line_mod(t0, t1, ri as int, p);
        assert(line_at(t0, t1, ri as int) == (1 - ri) * t0 + ri * t1);
        lemma_cube_sum_push(e, rp, ri, mp);
    }
}

/// The states of an honest run up to its `2v`-th step: all running but the last,
/// which is accepted, and every prover message honest.
proof fn lemma_honest_prefix(run: Seq<SumCheck>, k: int)
    requires
        run.len() >= 1,
        run[0].is_fresh(),
        run[0].mode_of() == ProverMode::Honest,
        is_run(run),
        0 <= k < run.len(),
        k <= 2 * run[0].num_vars(),
    ensures
        run[k].inv(),
        run[0].same_setup(&run[k]),
        run[k].count() == k,
        run[k].honest_so_far(),
        k < 2 * run[0].num_vars() ==> run[k].status_of() == Status::Running,
        k == 2 * run[0].num_vars() ==> run[k].status_of() == Status::Accepted,
    decreases k,
{
    if k > 0 {
        lemma_honest_prefix(run, k - 1);
        let pre = run[k - 1];
        let post = run[k];
        assert(step_taken(pre, post));
        let r = pre.challenges();
        if pre.count() % 2 == 0 {
            let m = choose|m: Vec<u64>| pre.prover_sends(pre.mode_of(), m) && #[trigger] pre.records_prover(m, &post);
            assert(pre.msgs().len() == r.len());
            assert(r.take(r.len() as int) =~= r);
            assert forall|j: int| 0 <= j < post.msgs().len() implies #[trigger] post.msgs()[j] == honest_samples(
                post.config(), post.evals_of(), post.challenges().take(j), post.num_vars()) by {
                if j < pre.msgs().len() {
                    assert(post.msgs()[j] == pre.msgs()[j]);
                }
            }
        } else {
            let (c, mid) = choose|c: u64, mid: SumCheck| #[trigger] pre.verifier_moves(c, &mid) && #[trigger] mid.records_verifier(c, &post);
            lemma_honest_verdict(pre, c);
            assert forall|j: int| 0 <= j < post.msgs().len() implies #[trigger] post.msgs()[j] == honest_samples(
                post.config(), post.evals_of(), post.challenges().take(j), post.num_vars()) by {
                assert(post.challenges().take(j) =~= pre.challenges().take(j));
                assert(post.msgs()[j] == pre.msgs()[j]);
            }
        }
    }
}

/// Completeness: an honest run of exactly `2v` steps, `v` the number of variables,
/// ends accepted, whatever challenges the verifier draws.
pub proof fn lemma_honest_run_accepted(run: Seq<SumCheck>)
    requires
        run.len() >= 1,
        run.len() == 2 * run[0].num_vars() + 1,
        run[0].is_fresh(),
        run[0].mode_of() == ProverMode::Honest,
        is_run(run),
    ensures
        run.last().status_of() == Status::Accepted,
{
    lemma_honest_prefix(run, run.len() - 1);
}

/// The states of a malicious run: running for the first two, rejected from the
/// verifier's first check on.
proof fn lemma_malicious_prefix(run: Seq<SumCheck>, k: int)
    requires
        run.len() >= 1,
        run[0].is_fresh(),
        run[0].mode_of() == ProverMode::Malicious,
        is_run(run),
        0 <= k < run.len(),
    ensures
        run[k].inv(),
        run[0].same_setup(&run[k]),
        k < 2 ==> run[k].status_of() == Status::Running && run[k].count() == k,
        k == 1 ==> run[k].challenges().len() == 0 && run[k].msgs() == seq![tampered(
            run[0].config(), honest_samples(run[0].config(), run[0].evals_of(), Seq::empty(), run[0].num_vars()))],
        k >= 2 ==> run[k].status_of() == Status::Rejected,
    decreases k,
{
    if k > 0 {
        lemma_malicious_prefix(run, k - 1);
        let pre = run[k - 1];
        let post = run[k];
        assert(step_taken(pre, post));
        if k == 1 {
            let m = choose|m: Vec<u64>| pre.prover_sends(pre.mode_of(), m) && #[trigger] pre.records_prover(m, &post);
            assert(pre.challenges() =~= Seq::<u64>::empty());
            assert(post.msgs() =~= seq![m@]);
        } else if k == 2 {
            let (c, mid) = choose|c: u64, mid: SumCheck| #[trigger] pre.verifier_moves(c, &mid) && #[trigger] mid.records_verifier(c, &post);
            let f = pre.config();
            let p = f.p();
            let e = pre.evals_of();
            let v = pre.num_vars();
            let r = Seq::<u64>::empty();
            assert(pre.challenges() =~= r);
            let h = honest_samples(f, e, r, v);
            lemma_honest_samples(f, e, r, v);
            let mm = (v - 1) as nat;
            let s0 = slice(e, r, 0, mm);
            let s1 = slice(e, r, 1, mm);
            lemma_slice_pair(e, r, mm);
            lemma_cube_sum_total(e, v);
            let m = pre.msgs()[0];
            assert(m == tampered(f, h));
            lemma_add_mod_noop(s0 + 1, s1, p);
            lemma_add_mod_noop(s0, 1, p);
            lemma_small_mod(1, p as nat);
            lemma_mod_bound(s0, p);
            lemma_add_mod_noop(s0 + s1, 1, p);
            lemma_mod_bound(s0 + s1, p);
            lemma_succ_mod_differs(s0 + s1, p);
            assert((m[0] + m[1]) % p == (s0 + 1 + s1) % p);
        }
    }
}

/// Soundness against the tampering prover: a malicious run is rejected at the
/// verifier's first check and never accepted.
pub proof fn lemma_malicious_run_rejected(run: Seq<SumCheck>)
    requires
        run.len() >= 1,
        run[0].is_fresh(),
        run[0].mode_of() == ProverMode::Malicious,
        is_run(run),
    ensures
        forall|k: int| 2 <= k < run.len() ==> #[trigger] run[k].status_of() == Status::Rejected,
        forall|k: int| 0 <= k < run.len() ==> #[trigger] run[k].status_of() != Status::Accepted,
{
    assert forall|k: int| 0 <= k < run.len() implies #[trigger] run[k].status_of() != Status::Accepted && (k >= 2 ==> run[k].status_of() == Status::Rejected) by {
        lemma_malicious_prefix(run, k);
    }
}

} // verus!
