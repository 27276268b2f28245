//! The share algorithms: polynomial evaluation, share generation, Feldman
//! commitments, share verification and Lagrange reconstruction.
use crate::arith::{
    lemma_add_congruent, lemma_flip_bit, lemma_mul_congruent, lemma_odd_prime_not_dividing_pow2,
    lemma_pow_injective, lemma_pow_nonneg, lemma_pow_reduce, lemma_pow_tower_step,
};
use crate::bignum::mod_pow;
use crate::field::{field_inverse, is_prime, modular_inverse};
use crate::rpc::Share;
use vstd::arithmetic::div_mod::{
    lemma_mod_bound, lemma_mod_multiples_vanish, lemma_mul_mod_noop_right, lemma_small_mod,
    lemma_sub_mod_noop,
};
use vstd::arithmetic::power::{
    lemma_pow0, lemma_pow_adds, lemma_pow1, lemma_pow_mod_noop, lemma_pow_multiplies,
    pow,
};
use vstd::prelude::*;

verus! {

/// `a_0 + a_1 x + ... + a_{k-1} x^{k-1}`: the first `k` terms of the polynomial.
pub open spec fn poly_prefix(a: Seq<u64>, x: int, k: nat) -> int
    decreases k,
{
    if k == 0 {
        0
    } else {
        poly_prefix(a, x, (k - 1) as nat) + a[k - 1] * pow(x, (k - 1) as nat)
    }
}

/// `P(x) = sum of a_i x^i`, with no reduction.
pub open spec fn poly_value(a: Seq<u64>, x: int) -> int {
    poly_prefix(a, x, a.len())
}

/// `c_0^(x^0) * c_1^(x^1) * ... * c_{k-1}^(x^{k-1})`, with no reduction.
pub open spec fn commit_product(c: Seq<u64>, x: int, k: nat) -> int
    decreases k,
{
    if k == 0 {
        1
    } else {
        commit_product(c, x, (k - 1) as nat) * pow(c[k - 1] as int, pow(x, (k - 1) as nat) as nat)
    }
}

/// The Feldman check: `g^y == prod_j c_j^(x^j) (mod p)`.
pub open spec fn share_verifies(x: u64, y: u64, g: u64, c: Seq<u64>, p: u64) -> bool {
    pow(g as int, y as nat) % (p as int) == commit_product(c, x as int, c.len()) % (p as int)
}

/// The `i`-th share of polynomial `a` over `Z_q`: `(i + 1, P(i + 1) mod q)`.
pub open spec fn share_at(a: Seq<u64>, q: u64, i: int) -> Share {
    ((i + 1) as u64, (poly_value(a, i + 1) % (q as int)) as u64)
}

/// `(x_m - x_j) mod q` in `[0, q)`.
pub open spec fn diff_mod(xm: u64, xj: u64, q: u64) -> nat {
    ((xm - xj) % (q as int)) as nat
}

/// The factor of share `m` in the Lagrange basis of share `j` at zero:
/// `x_m / (x_m - x_j)` in `Z_q`, or 1 where the two abscissae are equal.
pub open spec fn basis_factor(xm: u64, xj: u64, q: u64) -> int {
    if xm != xj {
        xm * field_inverse(diff_mod(xm, xj, q), q as nat)
    } else {
        1
    }
}

/// The Lagrange basis polynomial of share `j`, evaluated at zero, over the
/// first `k` shares.
pub open spec fn basis_prefix(s: Seq<Share>, j: int, q: u64, k: nat) -> int
    decreases k,
{
    if k == 0 {
        1
    } else {
        basis_prefix(s, j, q, (k - 1) as nat) * basis_factor(s[k - 1].0, s[j].0, q)
    }
}

/// `sum_{j<k} y_j * L_j(0)`, with no reduction.
pub open spec fn lagrange_prefix(s: Seq<Share>, q: u64, k: nat) -> int
    decreases k,
{
    if k == 0 {
        0
    } else {
        lagrange_prefix(s, q, (k - 1) as nat) + s[k - 1].1 * basis_prefix(s, k - 1, q, s.len())
    }
}

/// The interpolating polynomial of the shares, evaluated at zero in `Z_q`.
pub open spec fn lagrange_at_zero(s: Seq<Share>, q: u64) -> nat {
    (lagrange_prefix(s, q, s.len()) % (q as int)) as nat
}

/// Evaluates `P(x) mod q` for the polynomial with coefficients `a`.
fn eval_poly_at(a: &Vec<u64>, x: u64, q: u64) -> (r: u64)
    requires
        q > 0,
    ensures
        r == poly_value(a@, x as int) % (q as int),
{
    let qq = q as u128;
    let xr = (x % q) as u128;
    let mut acc: u128 = 0;
    let mut xp: u128 = 1 % qq;
    let mut i: usize = 0;
    proof {
        reveal(pow);
        lemma_small_mod(0, q as nat);
    }
    while i < a.len()
        invariant
            qq == q,
            q > 0,
            xr == x % q,
            0 <= i <= a.len(),
            acc == poly_prefix(a@, x as int, i as nat) % (q as int),
            xp == pow(x as int, i as nat) % (q as int),
        decreases a.len() - i,
    {
        let ai = (a[i] % q) as u128;
        proof {
            lemma_mod_bound(x as int, q as int);
            lemma_pow_nonneg(x as int, i as nat);
            assert(ai * xp < 0x1_0000_0000_0000_0000_0000_0000_0000_0000 - q) by (nonlinear_arith)
                requires
                    ai < q,
                    xp < q,
                    q < 0x1_0000_0000_0000_0000,
            ;
            lemma_mul_congruent(a@[i as int] as int, pow(x as int, i as nat), q as int);
            lemma_add_congruent(
                poly_prefix(a@, x as int, i as nat),
                ai * xp,
                a@[i as int] * pow(x as int, i as nat),
                q as int,
            );
            lemma_mul_congruent(pow(x as int, i as nat), x as int, q as int);
            lemma_pow_adds(x as int, i as nat, 1);
            lemma_pow1(x as int);
            assert(xp * xr < 0x1_0000_0000_0000_0000_0000_0000_0000_0000) by (nonlinear_arith)
                requires
                    xr < q,
                    xp < q,
                    q < 0x1_0000_0000_0000_0000,
            ;
        }
        acc = (acc + ai * xp) % qq;
        xp = (xp * xr) % qq;
        i = i + 1;
    }
    acc as u64
}

/// The `n` shares `(i, P(i) mod q)` for `i = 1..=n` of the polynomial with
/// coefficients `a`.
pub fn generate_shares(a: &Vec<u64>, n: usize, q: u64) -> (r: Vec<Share>)
    requires
        q > 0,
        n < u64::MAX,
    ensures
        r.len() == n,
        forall|i: int| 0 <= i < n ==> r[i] == share_at(a@, q, i),
{
    let mut r: Vec<Share> = Vec::new();
    let mut i: usize = 0;
    while i < n
        invariant
            q > 0,
            n < u64::MAX,
            i <= n,
            r.len() == i,
            forall|k: int| 0 <= k < i ==> r[k] == share_at(a@, q, k),
        decreases n - i,
    {
        let x = (i + 1) as u64;
        let y = eval_poly_at(a, x, q);
        r.push((x, y));
        i = i + 1;
    }
    r
}

/// The Feldman commitments `g^{a_i} mod p` to the coefficients `a`.
pub fn generate_commitments(a: &Vec<u64>, g: u64, p: u64) -> (r: Vec<u64>)
    requires
        p > 1,
    ensures
        r.len() == a.len(),
        forall|i: int| 0 <= i < a.len() ==> r[i] == pow(g as int, a[i] as nat) % (p as int),
{
    let mut r: Vec<u64> = Vec::new();
    let mut i: usize = 0;
    while i < a.len()
        invariant
            p > 1,
            i <= a.len(),
            r.len() == i,
            forall|k: int| 0 <= k < i ==> r[k] == pow(g as int, a[k] as nat) % (p as int),
        decreases a.len() - i,
    {
        let c = mod_pow(g % p, a[i], p);
        proof {
            lemma_pow_mod_noop(g as int, a[i as int] as nat, p as int);
        }
        r.push(c);
        i = i + 1;
    }
    r
}

/// Checks the share `(x, y)` against the commitments `c`:
/// `g^y == prod_j c_j^(x^j) (mod p)`.
pub fn verify_share(x: u64, y: u64, g: u64, c: &Vec<u64>, p: u64) -> (r: bool)
    requires
        p > 1,
    ensures
        r == share_verifies(x, y, g, c@, p),
{
    let pp = p as u128;
    let share_check = mod_pow(g % p, y, p);
    proof {
        lemma_pow_mod_noop(g as int, y as nat, p as int);
    }
    let mut check: u128 = 1 % pp;
    let mut j: usize = 0;
    while j < c.len()
        invariant
            pp == p,
            p > 1,
            j <= c.len(),
            check == commit_product(c@, x as int, j as nat) % (p as int),
            share_check == pow(g as int, y as nat) % (p as int),
        decreases c.len() - j,
    {
        let mut e: u64 = c[j] % p;
        let mut i: usize = 0;
        proof {
            lemma_pow0(x as int);
            lemma_pow1(c@[j as int] as int);
        }
        while i < j
            invariant
                p > 1,
                j < c.len(),
                i <= j,
                e < p,
                e == pow(c@[j as int] as int, pow(x as int, i as nat) as nat) % (p as int),
            decreases j - i,
        {
            proof {
                lemma_pow_tower_step(c@[j as int] as int, x as int, i as nat, p as int);
            }
            e = mod_pow(e, x, p);
            i = i + 1;
        }
        proof {
            lemma_pow_nonneg(x as int, j as nat);
            lemma_mul_congruent(
                commit_product(c@, x as int, j as nat),
                pow(c@[j as int] as int, pow(x as int, j as nat) as nat),
                p as int,
            );
            lemma_small_mod(e as nat, p as nat);
            assert(check * (e as u128) < 0x1_0000_0000_0000_0000_0000_0000_0000_0000) by (nonlinear_arith)
                requires
                    check < p,
                    e < p,
                    p < 0x1_0000_0000_0000_0000,
            ;
        }
        check = (check * (e as u128)) % pp;
        j = j + 1;
    }
    share_check as u128 == check
}

/// The secret `P(0) mod q`, by Lagrange interpolation at zero over `Z_q` of
/// the given shares, each share's basis taken over the shares with another
/// abscissa. With fewer shares than the polynomial's degree plus one the
/// result is not the secret.
pub fn reconstruct(shares: &Vec<Share>, q: u64) -> (r: u64)
    requires
        q > 0,
    ensures
        r == lagrange_at_zero(shares@, q),
{
    let qq = q as u128;
    let mut secret: u128 = 0;
    let mut j: usize = 0;
    proof {
        lemma_small_mod(0, q as nat);
    }
    while j < shares.len()
        invariant
            qq == q,
            q > 0,
            j <= shares.len(),
            secret == lagrange_prefix(shares@, q, j as nat) % (q as int),
        decreases shares.len() - j,
    {
        let xj = shares[j].0;
        let yj = shares[j].1;
        let mut prod: u128 = 1 % qq;
        let mut m: usize = 0;
        while m < shares.len()
            invariant
                qq == q,
                q > 0,
                j < shares.len(),
                xj == shares@[j as int].0,
                m <= shares.len(),
                prod == basis_prefix(shares@, j as int, q, m as nat) % (q as int),
            decreases shares.len() - m,
        {
            let xm = shares[m].0;
            let ghost b = basis_prefix(shares@, j as int, q, m as nat);
            if xm != xj {
                let d = ((((xm % q) as u128) + qq - ((xj % q) as u128)) % qq) as u64;
                proof {
                    lemma_mod_multiples_vanish(1, (xm % q) - (xj % q), q as int);
                    lemma_sub_mod_noop(xm as int, xj as int, q as int);
                    assert(d == diff_mod(xm, xj, q));
                }
                let inv = match modular_inverse(d, q) {
                    Some(i) => i,
                    None => 0,
                };
                proof {
                    assert(inv == field_inverse(d as nat, q as nat));
                    lemma_small_mod(inv as nat, q as nat);
                    lemma_mul_congruent(xm as int, inv as int, q as int);
                    lemma_mul_congruent(b, xm * inv, q as int);
                    assert(((xm % q) as u128) * (inv as u128) < 0x1_0000_0000_0000_0000_0000_0000_0000_0000)
                        by (nonlinear_arith)
                        requires
                            xm % q < q,
                            inv < q,
                            q < 0x1_0000_0000_0000_0000,
                    ;
                }
                let factor = (((xm % q) as u128) * (inv as u128)) % qq;
                proof {
                    assert(prod * factor < 0x1_0000_0000_0000_0000_0000_0000_0000_0000) by (nonlinear_arith)
                        requires
                            prod < q,
                            factor < q,
                            q < 0x1_0000_0000_0000_0000,
                    ;
                }
                prod = (prod * factor) % qq;
            }
            m = m + 1;
        }
        proof {
            let b = basis_prefix(shares@, j as int, q, shares.len() as nat);
            lemma_mul_mod_noop_right(yj as int, b, q as int);
            lemma_add_congruent(lagrange_prefix(shares@, q, j as nat), yj * prod, yj * b, q as int);
            assert(secret + (yj as u128) * prod < 0x1_0000_0000_0000_0000_0000_0000_0000_0000) by (nonlinear_arith)
                requires
                    secret < q,
                    prod < q,
                    yj < 0x1_0000_0000_0000_0000,
                    q < 0x1_0000_0000_0000_0000,
            ;
        }
        secret = (secret + (yj as u128) * prod) % qq;
        j = j + 1;
    }
    secret as u64
}

/// A polynomial with non-negative coefficients is non-negative at a
/// non-negative point.
pub proof fn lemma_poly_nonneg(a: Seq<u64>, x: int, k: nat)
    requires
        x >= 0,
        k <= a.len(),
    ensures
        poly_prefix(a, x, k) >= 0,
    decreases k,
{
    if k > 0 {
        lemma_poly_nonneg(a, x, (k - 1) as nat);
        lemma_pow_nonneg(x, (k - 1) as nat);
        assert(a[k - 1] * pow(x, (k - 1) as nat) >= 0) by (nonlinear_arith)
            requires
                a[k - 1] >= 0,
                pow(x, (k - 1) as nat) >= 0,
        ;
    }
}

/// The product of the commitments raised to the powers of `x` is `g^P(x)`
/// modulo `p`, over the first `k` coefficients.
pub proof fn lemma_commit_product(a: Seq<u64>, c: Seq<u64>, g: u64, p: u64, x: u64, k: nat)
    requires
        p > 1,
        c.len() == a.len(),
        k <= a.len(),
        forall|i: int| 0 <= i < a.len() ==> c[i] == pow(g as int, a[i] as nat) % (p as int),
    ensures
        poly_prefix(a, x as int, k) >= 0,
        commit_product(c, x as int, k) % (p as int) == pow(g as int, poly_prefix(a, x as int, k) as nat)
            % (p as int),
    decreases k,
{
    lemma_poly_nonneg(a, x as int, k);
    let pi = p as int;
    if k == 0 {
        lemma_pow0(g as int);
    } else {
        let k1 = (k - 1) as nat;
        lemma_commit_product(a, c, g, p, x, k1);
        lemma_pow_nonneg(x as int, k1);
        let e = pow(x as int, k1) as nat;
        let ak = a[k1 as int] as nat;
        let prev = poly_prefix(a, x as int, k1) as nat;
        lemma_pow_mod_noop(pow(g as int, ak), e, pi);
        lemma_pow_multiplies(g as int, ak, e);
        lemma_mul_congruent(commit_product(c, x as int, k1), pow(c[k1 as int] as int, e), pi);
        lemma_mul_congruent(pow(g as int, prev), pow(g as int, ak * e), pi);
        lemma_pow_adds(g as int, prev, ak * e);
    }
}

/// Every share of a polynomial passes the Feldman check against the
/// commitments to its coefficients, when `g^q == 1 (mod p)`: the product of
/// the commitments is `g^P(x)`, and `g^P(x) == g^(P(x) mod q)`.
pub proof fn lemma_shares_verify(a: Seq<u64>, c: Seq<u64>, g: u64, p: u64, q: u64, x: u64)
    requires
        p > 1,
        q > 0,
        pow(g as int, q as nat) % (p as int) == 1,
        c.len() == a.len(),
        forall|i: int| 0 <= i < a.len() ==> c[i] == pow(g as int, a[i] as nat) % (p as int),
    ensures
        share_verifies(x, (poly_value(a, x as int) % (q as int)) as u64, g, c, p),
{
    lemma_commit_product(a, c, g, p, x, a.len());
    lemma_pow_reduce(g as int, q as nat, p as int, poly_value(a, x as int) as nat);
}

/// Changing a verified share's value to another residue modulo `q` makes the
/// Feldman check fail, when `g != 1` and `g^q == 1 (mod p)` for a prime `q`.
pub proof fn lemma_altered_share_fails(x: u64, y: u64, y2: u64, g: u64, c: Seq<u64>, p: u64, q: u64)
    requires
        p > 1,
        is_prime(q as nat),
        pow(g as int, q as nat) % (p as int) == 1,
        g % p != 1,
        share_verifies(x, y, g, c, p),
        y % q != y2 % q,
    ensures
        !share_verifies(x, y2, g, c, p),
{
    if share_verifies(x, y2, g, c, p) {
        lemma_pow_injective(g as int, p as int, q as nat, y as nat, y2 as nat);
    }
}

/// Flipping any one bit of a verified share's value makes the Feldman check
/// fail, when `g != 1` and `g^q == 1 (mod p)` for an odd prime `q`.
pub proof fn lemma_flipped_bit_fails(x: u64, y: u64, k: u64, g: u64, c: Seq<u64>, p: u64, q: u64)
    requires
        p > 1,
        is_prime(q as nat),
        q % 2 == 1,
        pow(g as int, q as nat) % (p as int) == 1,
        g % p != 1,
        share_verifies(x, y, g, c, p),
        k < 64,
    ensures
        !share_verifies(x, y ^ (1u64 << k), g, c, p),
{
    let y2 = y ^ (1u64 << k);
    lemma_flip_bit(y, k);
    lemma_odd_prime_not_dividing_pow2(q as nat, k as nat);
    if y % q == y2 % q {
        lemma_sub_mod_noop(y2 as int, y as int, q as int);
        lemma_sub_mod_noop(y as int, y2 as int, q as int);
        lemma_small_mod(0, q as nat);
    }
    lemma_altered_share_fails(x, y, y2, g, c, p, q);
}

} // verus!
