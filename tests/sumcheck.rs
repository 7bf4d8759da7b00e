use interactive_proofs::fields::FrConfig;
use interactive_proofs::ip::{ProverMode, Status, IP};
use interactive_proofs::mle::random_evals;
use interactive_proofs::sumcheck::SumCheck;
use rand::rngs::StdRng;
use rand::SeedableRng;

fn run(s: &mut SumCheck, rng: &mut StdRng, steps: usize) -> Status {
    let mut status = s.get_status();
    for _ in 0..steps {
        status = s.step(rng);
    }
    status
}

#[test]
fn test_sumcheck_ip() {
    let v = 8;
    let f = FrConfig { modulus: 5 };
    let mut rng = StdRng::seed_from_u64(7);
    let mut honest_sumcheck_ip = SumCheck::initialize((f, v), ProverMode::Honest, &mut rng);
    for _ in 0..v * 2 {
        let _ = honest_sumcheck_ip.step(&mut rng);
    }
    assert_eq!(honest_sumcheck_ip.get_status(), Status::Accepted);
}

#[test]
fn honest_runs_accept_for_small_v() {
    for &p in &[2u64, 5, 4294967291] {
        let f = FrConfig { modulus: p };
        for v in 1..=8usize {
            for seed in 0..3u64 {
                let mut rng = StdRng::seed_from_u64(seed * 100 + v as u64);
                let mut s = SumCheck::initialize((f, v), ProverMode::Honest, &mut rng);
                for k in 0..2 * v - 1 {
                    assert_eq!(s.step(&mut rng), Status::Running, "v={} step {}", v, k);
                }
                assert_eq!(s.step(&mut rng), Status::Accepted);
                assert_eq!(s.total_messages(), 2 * v);
            }
        }
    }
}

#[test]
fn honest_run_accepts_with_ten_variables() {
    let f = FrConfig { modulus: 101 };
    let mut rng = StdRng::seed_from_u64(10);
    let mut s = SumCheck::initialize((f, 10), ProverMode::Honest, &mut rng);
    assert_eq!(run(&mut s, &mut rng, 20), Status::Accepted);
}

#[test]
fn malicious_runs_are_rejected() {
    for &p in &[2u64, 5, 101] {
        let f = FrConfig { modulus: p };
        for v in 1..=7usize {
            let mut rng = StdRng::seed_from_u64(v as u64);
            let mut s = SumCheck::initialize((f, v), ProverMode::Malicious, &mut rng);
            assert_eq!(s.step(&mut rng), Status::Running);
            assert_eq!(s.step(&mut rng), Status::Rejected);
            for _ in 2..2 * v {
                assert_ne!(s.step(&mut rng), Status::Accepted);
            }
            assert_eq!(s.get_status(), Status::Rejected);
        }
    }
}

#[test]
fn step_after_the_end_changes_nothing() {
    let f = FrConfig { modulus: 97 };
    let mut rng = StdRng::seed_from_u64(3);
    let mut s = SumCheck::initialize((f, 3), ProverMode::Honest, &mut rng);
    assert_eq!(run(&mut s, &mut rng, 6), Status::Accepted);
    let n = s.total_messages();
    let last = s.get_last_verifier_message();
    for _ in 0..4 {
        assert_eq!(s.step(&mut rng), Status::Accepted);
        assert_eq!(s.total_messages(), n);
        assert_eq!(s.get_last_verifier_message(), last);
    }
    let mut m = SumCheck::initialize((f, 3), ProverMode::Malicious, &mut rng);
    assert_eq!(run(&mut m, &mut rng, 2), Status::Rejected);
    assert_eq!(m.total_messages(), 2);
    assert_eq!(m.step(&mut rng), Status::Rejected);
    assert_eq!(m.total_messages(), 2);
}

#[test]
fn first_round_samples_sum_to_the_table_total() {
    let f = FrConfig { modulus: 101 };
    let evals = vec![1, 1, 2, 4];
    let mut s = SumCheck::from_evals(f, evals, 2, ProverMode::Honest);
    let mut rng = StdRng::seed_from_u64(1);
    assert_eq!(s.step(&mut rng), Status::Running);
    let g = s.get_last_prover_message();
    assert_eq!(g.len(), 5);
    assert_eq!(f.add(g[0], g[1]), 8);
    // the slice at 0 sums the corners with first coordinate 0: 1 + 2
    assert_eq!(g[0], 3);
    assert_eq!(g[1], 5);
    assert_eq!(run(&mut s, &mut rng, 3), Status::Accepted);
}

#[test]
fn tampered_first_sample_is_one_more() {
    let f = FrConfig { modulus: 101 };
    let evals = vec![1, 1, 2, 4];
    let mut honest = SumCheck::from_evals(f, evals.clone(), 2, ProverMode::Honest);
    let mut malicious = SumCheck::from_evals(f, evals, 2, ProverMode::Malicious);
    let h = honest.run_honest_prover_logic();
    let m = malicious.run_malicious_prover_logic();
    assert_eq!(m[0], h[0] + 1);
    assert_eq!(&m[1..], &h[1..]);
}

#[test]
fn verify_round_checks_against_the_total() {
    let f = FrConfig { modulus: 101 };
    let mut s = SumCheck::from_evals(f, vec![1, 1, 2, 4], 2, ProverMode::Honest);
    s.add_prover_message(vec![3, 4, 0, 0, 0]);
    s.verify_round(9);
    assert_eq!(s.get_status(), Status::Rejected);

    let mut short = SumCheck::from_evals(f, vec![1, 1, 2, 4], 2, ProverMode::Honest);
    short.add_prover_message(vec![8]);
    short.verify_round(9);
    assert_eq!(short.get_status(), Status::Rejected);

    let mut good = SumCheck::from_evals(f, vec![1, 1, 2, 4], 2, ProverMode::Honest);
    good.add_prover_message(vec![3, 5, 7, 9, 11]);
    good.verify_round(9);
    assert_eq!(good.get_status(), Status::Running);
    assert_eq!(good.total_messages(), 1);
}

#[test]
fn random_tables_have_the_hypercube_size() {
    let f = FrConfig { modulus: 5 };
    let mut rng = StdRng::seed_from_u64(4);
    let e = random_evals(&f, &mut rng, 6);
    assert_eq!(e.len(), 64);
    assert!(e.iter().all(|&x| x < 5));
    assert!(e.iter().any(|&x| x != e[0]));
}

#[test]
fn tamper_in_a_middle_round_is_caught_at_its_check() {
    let f = FrConfig { modulus: 101 };
    let evals: Vec<u64> = (0..8u64).map(|i| (i * i + 3) % 101).collect();
    let mut rng = StdRng::seed_from_u64(21);
    let mut s = SumCheck::from_evals(f, evals, 3, ProverMode::Honest);
    assert_eq!(s.step(&mut rng), Status::Running);
    assert_eq!(s.step(&mut rng), Status::Running);
    let mut g = s.run_honest_prover_logic();
    g[1] = f.add(g[1], 1);
    s.add_prover_message(g);
    assert_eq!(s.step(&mut rng), Status::Rejected);
    assert_eq!(s.total_messages(), 4);
}
