use interactive_proofs::fields::FrConfig;
use interactive_proofs::freivalds::{mat_mul, mat_vec_mul, power_vec, MatMulIP};
use interactive_proofs::ip::{ProverMode, Status, IP};
use rand::rngs::StdRng;
use rand::{Rng, SeedableRng};

#[test]
fn test_frievalds_ip() {
    let f = FrConfig { modulus: 17 };
    let n = 20;
    let a = vec![vec![1u64; n]; n];
    let b = vec![vec![2u64; n]; n];
    let mut rng = StdRng::seed_from_u64(20);

    let mut honest_frievalds_ip = MatMulIP::initialize((f, a.clone(), b.clone()), ProverMode::Honest, &mut rng);
    let _ = honest_frievalds_ip.step(&mut rng);
    let _ = honest_frievalds_ip.step(&mut rng);
    assert_eq!(honest_frievalds_ip.get_status(), Status::Accepted);

    let mut malicious_sum_ip = MatMulIP::initialize((f, a, b), ProverMode::Malicious, &mut rng);
    let _ = malicious_sum_ip.step(&mut rng);
    let _ = malicious_sum_ip.step(&mut rng);
    assert_eq!(malicious_sum_ip.get_status(), Status::Rejected);
}

fn random_matrix(rng: &mut StdRng, rows: usize, cols: usize, p: u64) -> Vec<Vec<u64>> {
    (0..rows).map(|_| (0..cols).map(|_| rng.gen_range(0..p)).collect()).collect()
}

#[test]
fn honest_products_are_always_accepted() {
    let f = FrConfig { modulus: 17 };
    let mut rng = StdRng::seed_from_u64(5);
    for t in 0..200 {
        let (n, k, w) = (1 + t % 4, 1 + t % 3, 1 + t % 5);
        let a = random_matrix(&mut rng, n, k, 17);
        let b = random_matrix(&mut rng, k, w, 17);
        let mut ip = MatMulIP::initialize((f, a, b), ProverMode::Honest, &mut rng);
        assert_eq!(ip.step(&mut rng), Status::Running);
        assert_eq!(ip.step(&mut rng), Status::Accepted);
        assert_eq!(ip.step(&mut rng), Status::Accepted);
        assert_eq!(ip.total_messages(), 2);
    }
}

#[test]
fn tampered_products_are_rejected_with_the_soundness_bound() {
    let p = 17u64;
    let f = FrConfig { modulus: p };
    let dim = 3;
    let trials = 2000;
    let mut rng = StdRng::seed_from_u64(11);
    let mut rejected = 0;
    for _ in 0..trials {
        let a = random_matrix(&mut rng, dim, dim, p);
        let b = random_matrix(&mut rng, dim, dim, p);
        let mut c = mat_mul(&f, &a, &b, dim);
        c[1][2] = (c[1][2] + 1) % p;
        let mut ip = MatMulIP::initialize((f, a, b), ProverMode::Honest, &mut rng);
        ip.add_prover_message(c);
        if ip.step(&mut rng) == Status::Rejected {
            rejected += 1;
        }
    }
    let bound = 1.0 - dim as f64 / p as f64;
    assert!(rejected as f64 / trials as f64 >= bound);
}

#[test]
fn misshapen_claims_are_rejected() {
    let f = FrConfig { modulus: 17 };
    let mut rng = StdRng::seed_from_u64(2);
    let a = vec![vec![1, 2], vec![3, 4]];
    let b = vec![vec![5, 6], vec![7, 8]];
    let mut ip = MatMulIP::initialize((f, a.clone(), b.clone()), ProverMode::Honest, &mut rng);
    ip.add_prover_message(vec![vec![0, 0]]);
    assert_eq!(ip.step(&mut rng), Status::Rejected);
    let mut ip2 = MatMulIP::initialize((f, a, b), ProverMode::Honest, &mut rng);
    ip2.add_prover_message(vec![vec![19, 22], vec![43, 50]]);
    assert_eq!(ip2.step(&mut rng), Status::Rejected);
}

#[test]
fn matrix_arithmetic() {
    let f = FrConfig { modulus: 17 };
    let a = vec![vec![1, 2], vec![3, 4]];
    let b = vec![vec![5, 6], vec![7, 8]];
    // [[19, 22], [43, 50]] mod 17
    assert_eq!(mat_mul(&f, &a, &b, 2), vec![vec![2, 5], vec![9, 16]]);
    assert_eq!(mat_vec_mul(&f, &a, &vec![1, 3]), vec![7, 15]);
    assert_eq!(power_vec(&f, 3, 4), vec![1, 3, 9, 10]);
    let mut rng = StdRng::seed_from_u64(2);
    let mut ip = MatMulIP::initialize((f, a, b), ProverMode::Honest, &mut rng);
    let _ = ip.step(&mut rng);
    assert_eq!(ip.get_last_prover_message(), vec![vec![2, 5], vec![9, 16]]);
    let mut m = MatMulIP::initialize((f, vec![vec![1]], vec![vec![16]]), ProverMode::Malicious, &mut rng);
    assert_eq!(m.run_malicious_prover_logic(), vec![vec![0]]);
}

#[test]
fn mismatched_matrices_are_rejected() {
    let f = FrConfig { modulus: 17 };
    let mut rng = StdRng::seed_from_u64(6);
    let a = vec![vec![1, 2, 3], vec![4, 5, 6]];
    let b = vec![vec![1, 0], vec![0, 1]];
    for mode in [ProverMode::Honest, ProverMode::Malicious] {
        let mut ip = MatMulIP::initialize((f, a.clone(), b.clone()), mode, &mut rng);
        assert_eq!(ip.step(&mut rng), Status::Running);
        assert_eq!(ip.get_last_prover_message(), Vec::<Vec<u64>>::new());
        assert_eq!(ip.step(&mut rng), Status::Rejected);
    }
    let ragged = vec![vec![1, 0], vec![0]];
    let mut ip = MatMulIP::initialize((f, vec![vec![1, 1]], ragged), ProverMode::Honest, &mut rng);
    assert_eq!(ip.step(&mut rng), Status::Running);
    assert_eq!(ip.step(&mut rng), Status::Rejected);
    let mut empty = MatMulIP::initialize((f, vec![], vec![vec![1]]), ProverMode::Honest, &mut rng);
    let _ = empty.step(&mut rng);
    assert_eq!(empty.step(&mut rng), Status::Rejected);
}
