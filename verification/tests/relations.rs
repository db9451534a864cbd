use intrel::builder::{build_lattice, compute_scale};
use intrel::config::{default_config, gram_type, rep_type, Config};
use intrel::rational::{rat_new_i64, rat_round_nearest};
use intrel::relations::{
    extract_relations, find_integer_relations, find_relations, find_relations_with_scale, RelError,
};
use rug::Integer;

fn ints(v: &[i64]) -> Vec<Integer> {
    let mut out = Vec::new();
    for &x in v {
        out.push(Integer::from(x));
    }
    out
}

fn dot(c: &Vec<Integer>, r: &Vec<Integer>) -> Integer {
    assert_eq!(c.len(), r.len());
    let mut acc = Integer::from(0);
    for i in 0..c.len() {
        acc += Integer::from(&c[i] * &r[i]);
    }
    acc
}

fn all_exact_and_nontrivial(c: &Vec<Integer>, rels: &Vec<Vec<Integer>>) {
    for r in rels {
        assert_eq!(r.len(), c.len());
        assert_eq!(dot(c, r), 0);
        assert!(r.iter().any(|x| *x != 0));
    }
}

#[test]
fn known_relation_scenario() {
    let c = ints(&[3, -2, 1]);
    let rels = find_integer_relations(&c);
    all_exact_and_nontrivial(&c, &rels);
    let want = ints(&[1, 1, -1]);
    let want_neg = ints(&[-1, -1, 1]);
    assert!(rels.iter().any(|r| *r == want || *r == want_neg));
}

#[test]
fn exactness_of_every_returned_relation() {
    let c = ints(&[1, 2, 3, 4, 5]);
    let rels = find_integer_relations(&c);
    all_exact_and_nontrivial(&c, &rels);
    assert!(!rels.is_empty());
    assert!(rels.len() <= c.len());
    for a in 0..rels.len() {
        for b in (a + 1)..rels.len() {
            assert_ne!(rels[a], rels[b]);
        }
    }
}

#[test]
fn no_trivial_output_for_small_primes() {
    let c = ints(&[2, 3, 5]);
    let rels = find_integer_relations(&c);
    all_exact_and_nontrivial(&c, &rels);
}

#[test]
fn degenerate_scenario_all_zero() {
    let c = ints(&[0, 0, 0]);
    let rels = find_integer_relations(&c);
    let want = vec![ints(&[1, 0, 0]), ints(&[0, 1, 0]), ints(&[0, 0, 1])];
    assert_eq!(rels, want);
}

#[test]
fn degenerate_five_zeros() {
    let c = ints(&[0, 0, 0, 0, 0]);
    let rels = find_integer_relations(&c);
    assert_eq!(rels.len(), 5);
    all_exact_and_nontrivial(&c, &rels);
    for a in 0..rels.len() {
        for b in (a + 1)..rels.len() {
            assert_ne!(rels[a], rels[b]);
        }
    }
}

#[test]
fn single_element_zero() {
    let c = ints(&[0]);
    let rels = find_integer_relations(&c);
    assert_eq!(rels, vec![ints(&[1])]);
}

#[test]
fn single_element_nonzero() {
    let c = ints(&[7]);
    let rels = find_integer_relations(&c);
    assert!(rels.is_empty());
}

#[test]
fn determinism_of_repeated_runs() {
    let c = ints(&[3, -2, 1]);
    let cfg1 = default_config();
    let cfg2 = default_config();
    let r1 = find_relations(&c, &cfg1).unwrap();
    let r2 = find_relations(&c, &cfg2).unwrap();
    assert_eq!(r1, r2);
}

#[test]
fn larger_scale_keeps_known_relation() {
    let c = ints(&[3, -2, 1]);
    let cfg = default_config();
    let want = ints(&[1, 1, -1]);
    let want_neg = ints(&[-1, -1, 1]);
    let small = find_relations_with_scale(&c, &Integer::from(30), &cfg).unwrap();
    let large = find_relations_with_scale(&c, &Integer::from(300), &cfg).unwrap();
    all_exact_and_nontrivial(&c, &small);
    all_exact_and_nontrivial(&c, &large);
    assert!(small.iter().any(|r| *r == want || *r == want_neg));
    assert!(large.iter().any(|r| *r == want || *r == want_neg));
}

#[test]
fn empty_input_is_invalid() {
    let c: Vec<Integer> = Vec::new();
    let cfg = default_config();
    assert_eq!(find_relations(&c, &cfg), Err(RelError::InvalidInput));
}

#[test]
fn out_of_range_delta_is_invalid() {
    let c = ints(&[3, -2, 1]);
    let cfg = Config {
        delta: rat_new_i64(1, 1),
        eta: rat_new_i64(51, 100),
        rt: rep_type::Z_BASIS,
        gt: gram_type::EXACT,
    };
    assert_eq!(find_relations(&c, &cfg), Err(RelError::InvalidInput));
}

#[test]
fn out_of_range_eta_is_invalid() {
    let c = ints(&[3, -2, 1]);
    let cfg = Config {
        delta: rat_new_i64(99, 100),
        eta: rat_new_i64(1, 1),
        rt: rep_type::Z_BASIS,
        gt: gram_type::EXACT,
    };
    assert_eq!(find_relations(&c, &cfg), Err(RelError::InvalidInput));
}

#[test]
fn unsupported_representation_is_invalid() {
    let c = ints(&[3, -2, 1]);
    let cfg = Config {
        delta: rat_new_i64(99, 100),
        eta: rat_new_i64(51, 100),
        rt: rep_type::GRAM,
        gt: gram_type::EXACT,
    };
    assert_eq!(find_relations(&c, &cfg), Err(RelError::InvalidInput));
    let cfg2 = Config {
        delta: rat_new_i64(99, 100),
        eta: rat_new_i64(51, 100),
        rt: rep_type::Z_BASIS,
        gt: gram_type::APPROX,
    };
    assert_eq!(find_relations(&c, &cfg2), Err(RelError::InvalidInput));
}

#[test]
fn boundary_configuration_accepted() {
    let c = ints(&[3, -2, 1]);
    let cfg = Config {
        delta: rat_new_i64(1, 2),
        eta: rat_new_i64(1, 2),
        rt: rep_type::Z_BASIS,
        gt: gram_type::EXACT,
    };
    let rels = find_relations(&c, &cfg).unwrap();
    all_exact_and_nontrivial(&c, &rels);
}

#[test]
fn boundary_delta_quarter_is_invalid() {
    let c = ints(&[3, -2, 1]);
    let cfg = Config {
        delta: rat_new_i64(1, 4),
        eta: rat_new_i64(1, 2),
        rt: rep_type::Z_BASIS,
        gt: gram_type::EXACT,
    };
    assert_eq!(find_relations(&c, &cfg), Err(RelError::InvalidInput));
}

#[test]
fn non_positive_scale_is_invalid() {
    let c = ints(&[3, -2, 1]);
    let cfg = default_config();
    assert_eq!(
        find_relations_with_scale(&c, &Integer::from(0), &cfg),
        Err(RelError::InvalidInput)
    );
}

#[test]
fn scale_factor_values() {
    assert_eq!(compute_scale(&ints(&[3, -2, 1])), Integer::from(30));
    assert_eq!(compute_scale(&ints(&[0, 0, 0])), Integer::from(1));
    assert_eq!(compute_scale(&ints(&[-7])), Integer::from(70));
}

#[test]
fn fresh_lattice_extraction() {
    let c = ints(&[7]);
    let m = build_lattice(&c, &Integer::from(70));
    let rels = extract_relations(&m, &c);
    assert!(rels.is_empty());

    let z = ints(&[0]);
    let mz = build_lattice(&z, &Integer::from(1));
    let rz = extract_relations(&mz, &z);
    assert_eq!(rz, vec![ints(&[1])]);
}

#[test]
fn exhausted_budget_is_sound() {
    let c = ints(&[3, -2, 1]);
    let cfg = default_config();
    let mut m = build_lattice(&c, &Integer::from(30));
    let complete = intrel::reduce::lll_reduce_with_budget(&mut m, &cfg, 1);
    assert!(!complete);
    let rels = extract_relations(&m, &c);
    all_exact_and_nontrivial(&c, &rels);
}

#[test]
fn rounding_is_to_nearest_ties_up() {
    assert_eq!(rat_round_nearest(&rat_new_i64(7, 2)), Integer::from(4));
    assert_eq!(rat_round_nearest(&rat_new_i64(-7, 2)), Integer::from(-3));
    assert_eq!(rat_round_nearest(&rat_new_i64(10, 3)), Integer::from(3));
    assert_eq!(rat_round_nearest(&rat_new_i64(-10, 3)), Integer::from(-3));
    assert_eq!(rat_round_nearest(&rat_new_i64(5, 1)), Integer::from(5));
}

#[test]
fn large_coefficients_known_relation() {
    let a = Integer::from(1000000007i64);
    let b = Integer::from(999999937i64);
    let s = Integer::from(&a + &b);
    let c = vec![a, b, s];
    let rels = find_integer_relations(&c);
    for r in &rels {
        assert_eq!(dot(&c, r), 0);
        assert!(r.iter().any(|x| *x != 0));
    }
    let want = ints(&[1, 1, -1]);
    let want_neg = ints(&[-1, -1, 1]);
    assert!(rels.iter().any(|r| *r == want || *r == want_neg));
}
