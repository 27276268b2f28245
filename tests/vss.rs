use rust_vss::field::modular_inverse;
use rust_vss::rpc::Share;
use rust_vss::vss;

#[test]
fn generate_shares() {
    let a: Vec<u64> = vec![1, 2, 3];
    let n = 4;
    let q: u64 = 5;
    let expected_shares: Vec<Share> = vec![
        // 1 + 2(1) + 3(1^2) = 6 mod 5 = 1 mod 5
        (1, 1),
        // 1 + 2(2) + 3(2^2) = 17 mod 5 = 2 mod 5
        (2, 2),
        // 1 + 2(3) + 3(3^2) = 34 mod 5 = 4 mod 5
        (3, 4),
        // 1 + 2(4) + 3(4^2) = 57 mod 5 = 2 mod 5
        (4, 2),
    ];
    let actual_shares = vss::generate_shares(&a, n, q);

    assert_eq!(expected_shares, actual_shares);
}

#[test]
fn verify() {
    let a: Vec<u64> = vec![0, 3, 4];
    let p: u64 = 11;
    let q: u64 = 5;
    let g: u64 = 3;
    let c: Vec<u64> = vec![
        // g^a_0 = 3^0 = 1 mod 11
        1,
        // g^a_1 = 3^3 = 27 mod 11
        5,
        // g^a_2 = 3^4 = 81 mod 11 = 4 mod 11
        4,
    ];
    let shares = vss::generate_shares(&a, 5, q);

    for (i, s_i) in shares {
        assert!(vss::verify_share(i, s_i, g, &c, p), "failed {} {}", i, s_i);
    }
}

#[test]
fn reconstruct() {
    let shares: Vec<Share> = vec![(2, 1942), (4, 3402), (5, 4414)];
    // random prime
    let q: u64 = 13931;

    assert_eq!(1234, vss::reconstruct(&shares, q));
}

#[test]
fn generate_commitments() {
    let a: Vec<u64> = vec![3, 5, 8];
    let p: u64 = 11;
    let g: u64 = 3;

    let expected: Vec<u64> = vec![
        // 3^(3) = 27 mod 11 = 5 mod 11
        5,
        // 3^(5) = 243 mod 11 = 1 mod 11
        1,
        // 3^(8) = 6561 mod 11 = 5 mod 11
        5,
    ];
    let actual = vss::generate_commitments(&a, g, p);

    assert_eq!(expected, actual);
}

#[test]
fn polynomial_value_at_three() {
    // P(x) = 1 + 2x + 3x^2, P(3) = 34; in a field larger than 34 the share is P(3) itself
    let a: Vec<u64> = vec![1, 2, 3];
    let shares = vss::generate_shares(&a, 3, 101);
    assert_eq!(shares[2], (3, 34));
}

#[test]
fn generate_no_shares() {
    let a: Vec<u64> = vec![7, 1];
    assert!(vss::generate_shares(&a, 0, 13).is_empty());
}

#[test]
fn commitments_of_empty_polynomial() {
    let a: Vec<u64> = vec![];
    assert!(vss::generate_commitments(&a, 3, 11).is_empty());
}

#[test]
fn verify_rejects_wrong_value() {
    let c: Vec<u64> = vec![1, 5, 4];
    // the share at 1 of 3x + 4x^2 over Z_5 is (1, 2)
    assert!(vss::verify_share(1, 2, 3, &c, 11));
    assert!(!vss::verify_share(1, 3, 3, &c, 11));
}

#[test]
fn verify_rejects_flipped_bit() {
    let c: Vec<u64> = vec![1, 5, 4];
    let shares = vss::generate_shares(&vec![0, 3, 4], 5, 5);
    for (x, y) in shares {
        for bit in 0..3 {
            assert!(!vss::verify_share(x, y ^ (1 << bit), 3, &c, 11));
        }
    }
}

#[test]
fn reconstruct_other_subsets() {
    // P(x) = 1234 + 166x + 94x^2 over Z_13931
    let a: Vec<u64> = vec![1234, 166, 94];
    let shares = vss::generate_shares(&a, 5, 13931);
    let subsets: Vec<Vec<usize>> = vec![vec![0, 1, 2], vec![0, 2, 3], vec![1, 2, 3], vec![4, 2, 0], vec![1, 3, 4]];
    for subset in subsets {
        let chosen: Vec<Share> = subset.iter().map(|i| shares[*i]).collect();
        assert_eq!(1234, vss::reconstruct(&chosen, 13931));
    }
}

#[test]
fn reconstruct_with_too_few_shares() {
    // two shares of a degree-2 polynomial do not determine it
    let shares: Vec<Share> = vec![(2, 1942), (4, 3402)];
    assert_ne!(1234, vss::reconstruct(&shares, 13931));
}

#[test]
fn reconstruct_single_share_is_its_value() {
    let shares: Vec<Share> = vec![(3, 9)];
    assert_eq!(9, vss::reconstruct(&shares, 13));
}

#[test]
fn reconstruct_nothing_is_zero() {
    let shares: Vec<Share> = vec![];
    assert_eq!(0, vss::reconstruct(&shares, 13));
}

#[test]
fn inverse_of_three_mod_seven() {
    assert_eq!(Some(5), modular_inverse(3, 7));
}

#[test]
fn inverse_of_reduced_value() {
    // 10 = 3 mod 7
    assert_eq!(Some(5), modular_inverse(10, 7));
}

#[test]
fn inverse_does_not_exist() {
    assert_eq!(None, modular_inverse(4, 8));
    assert_eq!(None, modular_inverse(0, 13));
}

#[test]
fn inverse_round_trip() {
    let m: u64 = 13931;
    for b in 1..m {
        let i = modular_inverse(b, m).unwrap();
        assert_eq!(1, (b * i) % m);
    }
    let big: u64 = 18446744073709551557; // the largest prime below 2^64
    let b: u64 = 12345678901234567;
    let i = modular_inverse(b, big).unwrap();
    assert_eq!(1, ((b as u128 * i as u128) % big as u128) as u64);
}
