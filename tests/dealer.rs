use rust_vss::dealer::Dealer;
use rust_vss::rpc::Share;
use rust_vss::vss;

#[test]
fn dealer_verify() {
    let n = 5;
    let dealer = Dealer::new(n, 3, 1234).unwrap();

    for (i, s_i) in dealer.shares {
        assert!(vss::verify_share(i, s_i, dealer.g, &dealer.c, dealer.p));
    }
}

#[test]
fn dealer_reconstruct() {
    let shares: Vec<Share> = vec![(2, 1942), (4, 3402), (5, 4414)];
    // random prime
    let q: u64 = 13931;

    assert_eq!(1234, vss::reconstruct(&shares, q));
}

#[test]
fn dealer_reconstruct_shares() {
    let dealer = Dealer::new(5, 3, 1234).unwrap();
    let k_shares: Vec<Vec<Share>> = vec![
        vec![dealer.shares[0], dealer.shares[1], dealer.shares[2]],
        vec![dealer.shares[0], dealer.shares[2], dealer.shares[3]],
        vec![dealer.shares[1], dealer.shares[2], dealer.shares[3]],
        vec![dealer.shares[4], dealer.shares[2], dealer.shares[0]],
    ];

    for shares in k_shares {
        assert_eq!(
            1234,
            vss::reconstruct(&shares, dealer.q),
            "failed: {:?}\nq: {}",
            shares,
            dealer.q,
        );
    }
}

#[test]
fn dealer_parameters() {
    let dealer = Dealer::new(4, 2, 77).unwrap();
    assert!(dealer.q > 2 && dealer.q < (1u64 << 32));
    assert_eq!(0, (dealer.p - 1) % dealer.q);
    assert!(dealer.g > 1 && dealer.g < dealer.p);
    assert_eq!(dealer.n, 4);
    assert_eq!(dealer.t, 2);
    assert_eq!(dealer.shares.len(), 4);
    assert_eq!(dealer.c.len(), 2);
    for (k, (x, y)) in dealer.shares.iter().enumerate() {
        assert_eq!(*x, k as u64 + 1);
        assert!(*y < dealer.q);
    }
}

#[test]
fn dealer_small_group() {
    let dealer = Dealer::with_bit_size(6, 4, 5, 16).unwrap();
    assert!(dealer.q < 65536);
    assert_eq!(0, (dealer.p - 1) % dealer.q);
    for (i, s_i) in dealer.shares.iter() {
        assert!(vss::verify_share(*i, *s_i, dealer.g, &dealer.c, dealer.p));
    }
    let first: Vec<Share> = dealer.shares[0..4].to_vec();
    assert_eq!(5 % dealer.q, vss::reconstruct(&first, dealer.q));
}

#[test]
fn dealer_threshold_one() {
    let dealer = Dealer::new(3, 1, 42).unwrap();
    for (_, y) in dealer.shares.iter() {
        assert_eq!(42, *y);
    }
}

#[test]
fn dealer_flipped_bit_fails() {
    let dealer = Dealer::new(5, 3, 1234).unwrap();
    for (x, y) in dealer.shares.iter() {
        for bit in 0..32 {
            assert!(!vss::verify_share(*x, *y ^ (1u64 << bit), dealer.g, &dealer.c, dealer.p));
        }
    }
}

#[test]
fn q_candidates() {
    assert_eq!(Dealer::q_from_draw(5, true), Some(5));
    assert_eq!(Dealer::q_from_draw(3, true), None);
    assert_eq!(Dealer::q_from_draw(7, false), None);
}

#[test]
fn p_candidates() {
    assert_eq!(Dealer::p_from_draw(2, 5, true), Some(11));
    assert_eq!(Dealer::p_from_draw(1, 2, true), None);
    assert_eq!(Dealer::p_from_draw(2, 5, false), None);
}

#[test]
fn generator_candidates() {
    // 2^((11 - 1) / 5) = 4, and 4^5 = 1 mod 11
    assert_eq!(Dealer::generator_from(2, 11, 5), Some(4));
    // 3^2 = 9, and 9^5 = 1 mod 11
    assert_eq!(Dealer::generator_from(3, 11, 5), Some(9));
    // 2^((7 - 1) / 2) = 8 = 1 mod 7
    assert_eq!(Dealer::generator_from(2, 7, 2), None);
}

#[test]
fn dealer_from_parts() {
    let dealer = Dealer::from_parts(4, 3, 0, 11, 5, 3, &vec![3, 4]);
    assert_eq!((dealer.p, dealer.q, dealer.g, dealer.n, dealer.t), (11, 5, 3, 4, 3));
    assert_eq!(dealer.c, vec![1, 5, 4]);
    assert_eq!(dealer.shares, vec![(1, 2), (2, 2), (3, 0), (4, 1)]);
}
