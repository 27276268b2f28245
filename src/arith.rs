//! Small facts of modular arithmetic and powers used by the share algorithms.
use crate::field::{gcd, is_prime, lemma_prime_invertible};
use vstd::arithmetic::div_mod::{
    lemma_add_mod_noop, lemma_fundamental_div_mod, lemma_mod_twice, lemma_mul_mod_noop,
    lemma_small_mod,
};
use vstd::arithmetic::power::{
    lemma1_pow, lemma_pow_adds, lemma_pow_mod_noop, lemma_pow_multiplies, lemma_pow1, pow,
};
use vstd::arithmetic::power2::pow2;
use vstd::prelude::*;

verus! {

/// Powers of a non-negative base are non-negative.
pub proof fn lemma_pow_nonneg(b: int, e: nat)
    requires
        b >= 0,
    ensures
        pow(b, e) >= 0,
    decreases e,
{
    reveal(pow);
    if e > 0 {
        lemma_pow_nonneg(b, (e - 1) as nat);
        assert(b * pow(b, (e - 1) as nat) >= 0) by (nonlinear_arith)
            requires
                b >= 0,
                pow(b, (e - 1) as nat) >= 0,
        ;
    }
}

/// Adding congruent values keeps a sum congruent.
pub proof fn lemma_add_congruent(s: int, y: int, z: int, m: int)
    requires
        m > 0,
        y % m == z % m,
    ensures
        (s % m + y) % m == (s + z) % m,
{
    lemma_add_mod_noop(s % m, y, m);
    lemma_mod_twice(s, m);
    lemma_add_mod_noop(s, y, m);
    lemma_add_mod_noop(s, z, m);
}

/// Reducing both factors first does not change a product modulo `m`.
pub proof fn lemma_mul_congruent(x: int, y: int, m: int)
    requires
        m > 0,
    ensures
        ((x % m) * (y % m)) % m == (x * y) % m,
{
    lemma_mul_mod_noop(x, y, m);
}

/// Raising `c^(x^i)` to the `x` gives `c^(x^(i+1))`, also modulo `m`.
pub proof fn lemma_pow_tower_step(c: int, x: int, i: nat, m: int)
    requires
        m > 0,
        x >= 0,
    ensures
        pow(x, i) >= 0,
        pow(x, i + 1) >= 0,
        pow(pow(c, pow(x, i) as nat) % m, x as nat) % m == pow(c, pow(x, i + 1) as nat) % m,
{
    lemma_pow_nonneg(x, i);
    lemma_pow_nonneg(x, i + 1);
    lemma_pow_mod_noop(pow(c, pow(x, i) as nat), x as nat, m);
    lemma_pow_multiplies(c, pow(x, i) as nat, x as nat);
    lemma_pow_adds(x, i, 1);
    lemma_pow1(x);
}

/// Multiplying by a value congruent to 1 keeps the other factor's residue.
pub proof fn lemma_mul_unit(x: int, y: int, m: int)
    requires
        m > 1,
        x % m == 1,
    ensures
        (x * y) % m == y % m,
{
    lemma_mul_congruent(x, y, m);
    lemma_mod_twice(y, m);
}

/// Where `g^q == 1 (mod p)`, exponents of `g` count modulo `q`.
pub proof fn lemma_pow_reduce(g: int, q: nat, p: int, v: nat)
    requires
        p > 1,
        q > 0,
        pow(g, q) % p == 1,
    ensures
        pow(g, v) % p == pow(g, v % q) % p,
{
    let quo = v / q;
    let rem = v % q;
    lemma_fundamental_div_mod(v as int, q as int);
    lemma_pow_adds(g, (q * quo) as nat, rem);
    lemma_pow_multiplies(g, q, quo);
    lemma_pow_mod_noop(pow(g, q), quo, p);
    lemma1_pow(quo);
    lemma_small_mod(1, p as nat);
    lemma_mul_unit(pow(g, (q * quo) as nat), pow(g, rem), p);
}

/// The exponents `e` with `g^e == 1 (mod p)` are closed under `gcd`.
pub proof fn lemma_pow_gcd_unit(g: int, p: int, a: nat, b: nat)
    requires
        p > 1,
        pow(g, a) % p == 1,
        pow(g, b) % p == 1,
    ensures
        pow(g, gcd(a, b)) % p == 1,
    decreases b,
{
    if b > 0 {
        let r = a % b;
        lemma_pow_reduce(g, b, p, a);
        lemma_pow_gcd_unit(g, p, b, r);
    }
}

/// Modulo `p`, an element `g != 1` with `g^q == 1` for a prime `q` takes
/// equal powers only at exponents congruent modulo `q`.
pub proof fn lemma_pow_injective(g: int, p: int, q: nat, y1: nat, y2: nat)
    requires
        p > 1,
        is_prime(q),
        pow(g, q) % p == 1,
        g % p != 1,
        pow(g, y1) % p == pow(g, y2) % p,
    ensures
        y1 % q == y2 % q,
{
    lemma_pow_reduce(g, q, p, y1);
    lemma_pow_reduce(g, q, p, y2);
    let e1 = y1 % q;
    let e2 = y2 % q;
    if e1 != e2 {
        vstd::arithmetic::div_mod::lemma_mod_bound(y1 as int, q as int);
        vstd::arithmetic::div_mod::lemma_mod_bound(y2 as int, q as int);
        let hi: nat = if e1 > e2 { e1 } else { e2 };
        let lo: nat = if e1 > e2 { e2 } else { e1 };
        let d: nat = (hi - lo) as nat;
        let z: nat = (q - lo) as nat;
        lemma_pow_adds(g, hi, z);
        lemma_pow_adds(g, d, q);
        assert(hi + z == d + q);
        lemma_pow_adds(g, lo, z);
        assert(lo + z == q);
        lemma_mul_unit(pow(g, q), pow(g, d), p);
        vstd::arithmetic::mul::lemma_mul_is_commutative(pow(g, q), pow(g, d));
        assert(pow(g, hi) % p == pow(g, lo) % p);
        lemma_mul_congruent(pow(g, hi), pow(g, z), p);
        lemma_mul_congruent(pow(g, lo), pow(g, z), p);
        assert((pow(g, hi) * pow(g, z)) % p == (pow(g, lo) * pow(g, z)) % p);
        assert(pow(g, d) % p == 1);
        lemma_small_mod(d, q);
        lemma_prime_invertible(d, q);
        lemma_pow_gcd_unit(g, p, q, d);
        lemma_pow1(g);
    }
}

/// Flipping one bit moves a value by that bit's weight, up or down.
pub proof fn lemma_flip_bit(y: u64, k: u64)
    requires
        k < 64,
    ensures
        (y ^ (1u64 << k)) as int == y + pow2(k as nat) || (y ^ (1u64 << k)) as int == y - pow2(k as nat),
{
    let b: u64 = 1u64 << k;
    vstd::bits::lemma_u64_pow2_no_overflow(k as nat);
    vstd::bits::lemma_u64_shl_is_mul(1, k);
    assert((y & b) == 0 ==> (y ^ b) == (y | b)) by (bit_vector);
    assert((y & b) != 0 ==> (y ^ b) == (y & !b)) by (bit_vector)
        requires
            b == 1u64 << k,
            k < 64,
    ;
    assert((y & b) == 0 ==> (y | b) - y == b) by (bit_vector);
    assert((y & b) != 0 ==> y - (y & !b) == b) by (bit_vector)
        requires
            b == 1u64 << k,
            k < 64,
    ;
}

/// An odd prime divides no power of two.
pub proof fn lemma_odd_prime_not_dividing_pow2(q: nat, k: nat)
    requires
        is_prime(q),
        q % 2 == 1,
    ensures
        (pow2(k) as int) % (q as int) != 0,
    decreases k,
{
    vstd::arithmetic::power2::lemma_pow2_pos(k);
    if k == 0 {
        vstd::arithmetic::power2::lemma2_to64();
        lemma_small_mod(1, q);
    } else {
        vstd::arithmetic::power2::lemma_pow2_unfold(k);
        lemma_odd_prime_not_dividing_pow2(q, (k - 1) as nat);
        let m = pow2((k - 1) as nat) as int;
        let qi = q as int;
        if (2 * m) % qi == 0 {
            lemma_fundamental_div_mod(2 * m, qi);
            let j = (2 * m) / qi;
            lemma_fundamental_div_mod(j, 2);
            lemma_fundamental_div_mod(qi, 2);
            let h = j / 2;
            let a = qi / 2;
            if j % 2 == 1 {
                assert(2 * m == 2 * (2 * a * h + a + h) + 1) by (nonlinear_arith)
                    requires
                        2 * m == qi * j,
                        j == 2 * h + 1,
                        qi == 2 * a + 1,
                ;
            } else {
                assert(m == qi * h) by (nonlinear_arith)
                    requires
                        2 * m == qi * j,
                        j == 2 * h + 0,
                ;
                vstd::arithmetic::div_mod::lemma_mod_multiples_basic(h, qi);
                vstd::arithmetic::mul::lemma_mul_is_commutative(h, qi);
            }
        }
    }
}

} // verus!
