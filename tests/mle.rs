use interactive_proofs::fields::FrConfig;
use interactive_proofs::mle::{calculate_g_i, g_poly, index_to_vars, stream_eval, w_basis_eval};
use interactive_proofs::polynomials::eval_poly;

#[test]
fn test_partial_sum() {
    let f = FrConfig { modulus: 5 };
    let v = 2;
    let evals = vec![f.from_u64(1), f.from_u64(1), f.from_u64(2), f.from_u64(4)];
    let univariate_evals = calculate_g_i(&f, &[], &evals, v);

    // Sum g(0) + g(1) should be 8
    assert_eq!(f.add(univariate_evals[0], univariate_evals[1]), f.from_u64(8));
}

#[test]
fn test_g_sum() {
    let f = FrConfig { modulus: 5 };
    let mut sum = f.from_u64(0);
    for i in 0..8 {
        let vars = index_to_vars(i, 3);
        sum = f.add(sum, g_poly(&f, &vars));
    }
    assert!(sum == f.from_u64(12))
}

#[test]
fn test() {
    let f = FrConfig { modulus: 5 };
    let v = 2;
    let evals = vec![f.from_u64(1), f.from_u64(1), f.from_u64(2), f.from_u64(4)];

    for i in 0..5 {
        let mut line = String::new();
        for j in 0..5 {
            let r = vec![f.from_u64(i), f.from_u64(j)];
            let res = stream_eval(&f, &r, &evals, v);
            line.push_str(&format!("{} ", res));
        }
        println!("{}", line);
    }
}

#[test]
fn extension_reproduces_the_table_at_corners() {
    let f = FrConfig { modulus: 1000003 };
    let evals: Vec<u64> = (0..16u64).map(|i| (i * 7919 + 3) % 1000003).collect();
    for c in 0..16 {
        let point = index_to_vars(c, 4);
        assert_eq!(stream_eval(&f, &point, &evals, 4), evals[c]);
    }
}

#[test]
fn extension_value_off_the_hypercube() {
    // f(x0, x1) with f(0,0)=1, f(1,0)=1, f(0,1)=2, f(1,1)=4: bit k of the index is x_k
    // extension = 1 + x1 + 2 * x0 * x1; at (2, 3): 1 + 3 + 12 = 16
    let f = FrConfig { modulus: 101 };
    let evals = vec![1, 1, 2, 4];
    assert_eq!(stream_eval(&f, &[2, 3], &evals, 2), 16);
    assert_eq!(stream_eval(&FrConfig { modulus: 7 }, &[2, 3], &evals, 2), 2);
}

#[test]
fn corners_are_little_endian_bits() {
    assert_eq!(index_to_vars(0, 3), vec![0, 0, 0]);
    assert_eq!(index_to_vars(1, 3), vec![1, 0, 0]);
    assert_eq!(index_to_vars(6, 3), vec![0, 1, 1]);
    assert_eq!(index_to_vars(5, 4), vec![1, 0, 1, 0]);
    assert_eq!(index_to_vars(0, 0), Vec::<u64>::new());
}

#[test]
fn basis_weights() {
    let f = FrConfig { modulus: 101 };
    // corner 2 = (0, 1) at (5, 7): (1 - 5) * 7 = -28 = 73
    assert_eq!(w_basis_eval(&f, &[5, 7], (2, 0), 2), 73);
    assert_eq!(w_basis_eval(&f, &[5, 7], (3, 0), 2), 35);
    assert_eq!(w_basis_eval(&f, &[], (0, 0), 0), 1);
}

#[test]
fn slice_samples_lie_on_a_line() {
    let f = FrConfig { modulus: 101 };
    let evals = vec![3, 9, 27, 81, 41, 22, 66, 97];
    let g = calculate_g_i(&f, &[17], &evals, 3);
    assert_eq!(g.len(), 5);
    for s in 0..5u64 {
        assert_eq!(g[s as usize], eval_poly(&f, &g, s));
    }
    let last = calculate_g_i(&f, &[17, 40], &evals, 3);
    assert_eq!(eval_poly(&f, &last, 55), stream_eval(&f, &[17, 40, 55], &evals, 3));
}

#[test]
fn g_poly_value() {
    let f = FrConfig { modulus: 101 };
    // 2 * 27 + 4 * 5 + 4 * 5 = 94
    assert_eq!(g_poly(&f, &[3, 4, 5]), 94);
}

#[test]
fn line_through_two_samples() {
    let f = FrConfig { modulus: 101 };
    assert_eq!(eval_poly(&f, &[3, 5], 0), 3);
    assert_eq!(eval_poly(&f, &[3, 5], 1), 5);
    assert_eq!(eval_poly(&f, &[3, 5], 10), 23);
    assert_eq!(eval_poly(&f, &[5, 3], 10), 86);
}
