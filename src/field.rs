//! Arithmetic in the ring of integers modulo `m`: the modular inverse by the
//! extended Euclidean algorithm.
use vstd::arithmetic::div_mod::{
    lemma_fundamental_div_mod, lemma_mod_multiples_vanish, lemma_mul_mod_noop_left,
    lemma_mul_mod_noop_right,
};
use vstd::prelude::*;

verus! {

/// Greatest common divisor, by Euclid's recurrence.
pub open spec fn gcd(a: nat, b: nat) -> nat
    decreases b,
{
    if b == 0 {
        a
    } else {
        gcd(b, a % b)
    }
}

/// `i` is the representative in `[0, m)` of an inverse of `b` modulo `m`.
pub open spec fn is_inverse(b: int, i: int, m: int) -> bool {
    0 <= i < m && (b * i) % m == 1int % m
}

/// `b` is invertible modulo `m`: it is coprime to `m`.
pub open spec fn invertible(b: nat, m: nat) -> bool {
    m > 0 && gcd(m, b % m) == 1
}

/// The inverse of `b` modulo `m` in `[0, m)`, or 0 where `b` has none.
pub open spec fn field_inverse(b: nat, m: nat) -> nat {
    if invertible(b, m) {
        (choose|i: int| is_inverse(b as int, i, m as int)) as nat
    } else {
        0
    }
}

pub open spec fn magnitude(x: int) -> int {
    if x < 0 {
        -x
    } else {
        x
    }
}

/// An inverse modulo `m` is unique in `[0, m)`.
pub proof fn lemma_inverse_unique(b: int, i: int, j: int, m: int)
    requires
        m > 0,
        is_inverse(b, i, m),
        is_inverse(b, j, m),
    ensures
        i == j,
{
    if m == 1 {
    } else {
        assert(1int % m == 1) by {
            vstd::arithmetic::div_mod::lemma_small_mod(1, m as nat);
        }
        assert(i * (b * j) == (b * i) * j) by (nonlinear_arith);
        lemma_mul_mod_noop_right(i, b * j, m);
        lemma_mul_mod_noop_left(b * i, j, m);
        vstd::arithmetic::div_mod::lemma_small_mod(i as nat, m as nat);
        vstd::arithmetic::div_mod::lemma_small_mod(j as nat, m as nat);
    }
}

/// One step of the extended Euclidean algorithm keeps its invariants.
proof fn lemma_euclid_step(
    r0: int,
    r1: int,
    t0: int,
    t1: int,
    k0: int,
    k1: int,
    b: int,
    m: int,
)
    requires
        r1 > 0,
        r0 >= r1,
        m > 0,
        magnitude(t0) * r1 + magnitude(t1) * r0 == m,
        (t0 <= 0 && t1 >= 0) || (t0 >= 0 && t1 <= 0),
        t0 * b - r0 == k0 * m,
        t1 * b - r1 == k1 * m,
    ensures
        ({
            let q = r0 / r1;
            let t = t0 - q * t1;
            &&& magnitude(t1) * (r0 % r1) + magnitude(t) * r1 == m
            &&& (t1 <= 0 && t >= 0) || (t1 >= 0 && t <= 0)
            &&& t * b - r0 % r1 == (k0 - q * k1) * m
            &&& 0 <= q * magnitude(t1) <= m
            &&& magnitude(t) <= m
            &&& 0 <= q
        }),
{
    let q = r0 / r1;
    let r = r0 % r1;
    lemma_fundamental_div_mod(r0, r1);
    assert(q >= 0) by (nonlinear_arith)
        requires
            r0 >= 0,
            r1 > 0,
            q == r0 / r1,
    ;
    let t = t0 - q * t1;
    assert(magnitude(t) == magnitude(t0) + q * magnitude(t1)) by (nonlinear_arith)
        requires
            (t0 <= 0 && t1 >= 0) || (t0 >= 0 && t1 <= 0),
            q >= 0,
            t == t0 - q * t1,
    ;
    assert(magnitude(t1) * r + magnitude(t) * r1 == m) by (nonlinear_arith)
        requires
            magnitude(t0) * r1 + magnitude(t1) * r0 == m,
            r0 == r1 * q + r,
            magnitude(t) == magnitude(t0) + q * magnitude(t1),
    ;
    assert((t1 <= 0 && t >= 0) || (t1 >= 0 && t <= 0)) by (nonlinear_arith)
        requires
            (t0 <= 0 && t1 >= 0) || (t0 >= 0 && t1 <= 0),
            q >= 0,
            t == t0 - q * t1,
    ;
    assert(t * b - r == (k0 - q * k1) * m) by (nonlinear_arith)
        requires
            t0 * b - r0 == k0 * m,
            t1 * b - r1 == k1 * m,
            r0 == r1 * q + r,
            t == t0 - q * t1,
    ;
    assert(magnitude(t) <= m && 0 <= q * magnitude(t1) <= m) by (nonlinear_arith)
        requires
            magnitude(t1) * r + magnitude(t) * r1 == m,
            magnitude(t) == magnitude(t0) + q * magnitude(t1),
            r1 >= 1,
            r >= 0,
            q >= 0,
            magnitude(t0) >= 0,
            magnitude(t1) >= 0,
    ;
}

/// The inverse of `b` modulo `m`, by the extended Euclidean algorithm.
///
/// It exists exactly when `b` and `m` are coprime; it is then the unique `i`
/// in `[0, m)` with `b * i == 1 (mod m)`.
pub fn modular_inverse(b: u64, m: u64) -> (r: Option<u64>)
    requires
        m > 0,
    ensures
        r.is_some() <==> invertible(b as nat, m as nat),
        r.is_some() ==> r == Some(field_inverse(b as nat, m as nat) as u64),
        r.is_some() ==> is_inverse(b as int, r.unwrap() as int, m as int),
{
    let b0: u64 = b % m;
    let mut r0: u64 = m;
    let mut r1: u64 = b0;
    let mut t0: i128 = 0;
    let mut t1: i128 = 1;
    let ghost mut k0: int = -1;
    let ghost mut k1: int = 0;
    assert(magnitude(t0 as int) == 0);
    assert(magnitude(t1 as int) == 1);
    assert(magnitude(t0 as int) * r1 + magnitude(t1 as int) * r0 == m) by (nonlinear_arith)
        requires
            magnitude(t0 as int) == 0,
            magnitude(t1 as int) == 1,
            r0 == m,
    ;
    while r1 != 0
        invariant
            0 <= r1 < r0 <= m,
            gcd(r0 as nat, r1 as nat) == gcd(m as nat, b0 as nat),
            magnitude(t0 as int) * r1 + magnitude(t1 as int) * r0 == m,
            (t0 <= 0 && t1 >= 0) || (t0 >= 0 && t1 <= 0),
            magnitude(t0 as int) <= m,
            magnitude(t1 as int) <= m,
            t0 * b0 - r0 == k0 * m,
            t1 * b0 - r1 == k1 * m,
        decreases r1,
    {
        proof {
            lemma_euclid_step(r0 as int, r1 as int, t0 as int, t1 as int, k0, k1, b0 as int, m as int);
        }
        let q: u64 = r0 / r1;
        let r: u64 = r0 % r1;
        let t: i128 = t0 - (q as i128) * t1;
        proof {
            let k = k0 - q * k1;
            k0 = k1;
            k1 = k;
        }
        t0 = t1;
        t1 = t;
        r0 = r1;
        r1 = r;
    }
    if r0 != 1 {
        return None;
    }
    let shifted: i128 = if t0 < 0 {
        t0 + m as i128
    } else {
        t0
    };
    let i: u64 = (shifted as u64) % m;
    proof {
        let bi = b as int;
        let mi = m as int;
        assert(shifted * b0 - 1 == (k0 + if t0 < 0 { b0 as int } else { 0 }) * mi) by (nonlinear_arith)
            requires
                t0 * b0 - 1 == k0 * mi,
                shifted == if t0 < 0 { t0 + mi } else { t0 as int },
        ;
        lemma_mod_multiples_vanish(k0 + if t0 < 0 { b0 as int } else { 0 }, 1, mi);
        assert((b0 * shifted) % mi == 1int % mi) by (nonlinear_arith)
            requires
                shifted * b0 - 1 == (k0 + if t0 < 0 { b0 as int } else { 0 }) * mi,
                (mi * (k0 + if t0 < 0 { b0 as int } else { 0 }) + 1) % mi == 1int % mi,
        ;
        lemma_mul_mod_noop_right(b0 as int, shifted as int, mi);
        lemma_mul_mod_noop_left(bi, i as int, mi);
        assert(is_inverse(bi, i as int, mi));
        lemma_inverse_unique(bi, i as int, choose|j: int| is_inverse(bi, j, mi), mi);
    }
    Some(i)
}

/// `q` is prime.
pub open spec fn is_prime(q: nat) -> bool {
    q > 1 && forall|d: nat| 1 < d < q ==> #[trigger] (q % d) != 0
}

/// The greatest common divisor divides both arguments.
pub proof fn lemma_gcd_divides(a: nat, b: nat)
    requires
        a > 0 || b > 0,
    ensures
        gcd(a, b) > 0,
        a % gcd(a, b) == 0,
        b % gcd(a, b) == 0,
    decreases b,
{
    if b == 0 {
        vstd::arithmetic::div_mod::lemma_mod_self_0(a as int);
        vstd::arithmetic::div_mod::lemma_small_mod(0, a);
    } else {
        let r = a % b;
        lemma_gcd_divides(b, r);
        let g = gcd(b, r);
        lemma_fundamental_div_mod(a as int, b as int);
        lemma_fundamental_div_mod(b as int, g as int);
        lemma_fundamental_div_mod(r as int, g as int);
        let k = a / b;
        let bb = b / g;
        let rr = r / g;
        assert(a == g * (bb * k + rr)) by (nonlinear_arith)
            requires
                a == b * k + r,
                b == g * bb + 0,
                r == g * rr + 0,
        ;
        assert(bb * k + rr >= 0) by (nonlinear_arith)
            requires
                b >= 0,
                r >= 0,
                g > 0,
                b == g * bb,
                r == g * rr,
                k >= 0,
        ;
        vstd::arithmetic::div_mod::lemma_mod_multiples_basic((bb * k + rr) as int, g as int);
        assert(g * (bb * k + rr) == (bb * k + rr) * g) by (nonlinear_arith);
    }
}

/// Modulo a prime, every value that is not a multiple of it is invertible.
pub proof fn lemma_prime_invertible(d: nat, q: nat)
    requires
        is_prime(q),
        d % q != 0,
    ensures
        invertible(d, q),
{
    let r = d % q;
    lemma_gcd_divides(q, r);
    let g = gcd(q, r);
    lemma_fundamental_div_mod(r as int, g as int);
    assert(g <= r) by (nonlinear_arith)
        requires
            r == g * (r / g) + 0,
            r > 0,
            g > 0,
    ;
    vstd::arithmetic::div_mod::lemma_mod_bound(d as int, q as int);
    if g > 1 {
        assert(q % g != 0);
    }
}

} // verus!
