use interactive_proofs::fields::{bool_to_field, evals_sum, random_elem, random_vec, FrConfig};
use interactive_proofs::fingerprint::{fingerprints_match, run_reed_solomon_communication_protocol, HashFn};
use rand::rngs::StdRng;
use rand::SeedableRng;

#[test]
fn hash_is_the_polynomial_at_the_point() {
    let f = FrConfig { modulus: 101 };
    let h = HashFn::new_from_eval(f, 2);
    // 1 + 2 * 2 + 3 * 4 = 17
    assert_eq!(h.hash(vec![1, 2, 3]), 17);
    assert_eq!(h.hash(vec![]), 0);
    assert_eq!(h.get_eval_point(), 2);
    // 100 + 100 * 2 = 300 = 98
    assert_eq!(h.hash(vec![100, 100]), 98);
}

#[test]
fn equal_files_always_match() {
    let f = FrConfig { modulus: 4294967291 };
    let mut rng = StdRng::seed_from_u64(9);
    for _ in 0..100 {
        let file = random_vec(&f, &mut rng, 12);
        assert!(run_reed_solomon_communication_protocol(f, &mut rng, file.clone(), file));
    }
}

#[test]
fn different_files_rarely_match() {
    let f = FrConfig { modulus: 4294967291 };
    let mut rng = StdRng::seed_from_u64(12);
    let mut failures = 0;
    for _ in 0..1000 {
        let alice_file: Vec<u64> = vec![0; 12];
        let mut bob_file = alice_file.clone();
        bob_file[0] += 1;
        if !run_reed_solomon_communication_protocol(f, &mut rng, bob_file, alice_file) {
            failures += 1;
        }
    }
    assert_eq!(failures, 1000);
    assert!(!run_reed_solomon_communication_protocol(f, &mut rng, vec![1, 2], vec![1, 2, 0]));
}

#[test]
fn fingerprints_at_a_root_collide() {
    let f = FrConfig { modulus: 7 };
    // 1 + 1 * x and 0 + 0 * x agree nowhere; x + 1 and 2x agree at x = 1
    assert!(fingerprints_match(f, 1, vec![1, 1], vec![0, 2]));
    assert!(!fingerprints_match(f, 2, vec![1, 1], vec![0, 2]));
    assert!(!fingerprints_match(f, 1, vec![2], vec![0, 2]));
}

#[test]
fn field_helpers() {
    let f = FrConfig { modulus: 5 };
    assert_eq!(bool_to_field(true), 1);
    assert_eq!(bool_to_field(false), 0);
    assert_eq!(evals_sum(&f, &[1, 1, 2, 4]), 3);
    assert_eq!(evals_sum(&f, &[]), 0);
    assert_eq!(f.sub(1, 3), 3);
    assert_eq!(f.mul(4, 4), 1);
    assert_eq!(f.from_u64(12), 2);
    assert_eq!(FrConfig::new(1), None);
    assert_eq!(FrConfig::new(4294967296), Some(FrConfig { modulus: 4294967296 }));
    assert_eq!(FrConfig::new(4294967297), None);
}

#[test]
fn sampled_elements_are_in_the_field() {
    let f = FrConfig { modulus: 5 };
    let mut rng = StdRng::seed_from_u64(8);
    let xs = random_vec(&f, &mut rng, 1000);
    assert_eq!(xs.len(), 1000);
    assert!(xs.iter().all(|&x| x < 5));
    for d in 0..5 {
        assert!(xs.contains(&d));
    }
    let big = FrConfig { modulus: 3 };
    for _ in 0..100 {
        assert!(random_elem(&big, &mut rng) < 3);
    }
}
