//! The arbitrary-precision and random-number services that this library takes
//! from num-bigint and num-primes. Every value crosses this boundary as a `u64`.
use num::ToPrimitive;
use num_bigint::BigUint;
use num_primes::{Generator, RandBigInt, Verification};
use vstd::arithmetic::power::pow;
use vstd::arithmetic::power2::pow2;
use vstd::prelude::*;

verus! {

/// Relies on num-bigint's `BigUint::modpow`, which returns
/// `(base ^ exp) % modulus` and panics only on a zero modulus. The base is
/// kept below the modulus, so the result fits in a `u64`.
#[verifier::external_body]
pub(crate) fn mod_pow(base: u64, exp: u64, modulus: u64) -> (r: u64)
    requires
        modulus > 1,
        base < modulus,
    ensures
        r == pow(base as int, exp as nat) % (modulus as int),
{
    let r = BigUint::from(base).modpow(&BigUint::from(exp), &BigUint::from(modulus));
    r.to_u64().unwrap()
}

/// Relies on num-primes' `Generator::new_uint`: a uniformly random number of
/// at most `bits` bits.
#[verifier::external_body]
pub(crate) fn random_uint(bits: usize) -> (r: u64)
    requires
        bits <= 32,
    ensures
        (r as nat) < pow2(bits as nat),
{
    Generator::new_uint(bits).to_u64().unwrap()
}

/// Relies on num-primes' `Verification::is_prime`, a probabilistic test: it
/// rejects every even number, and for `n > 3` its Miller-Rabin stage samples
/// a non-empty range.
#[verifier::external_body]
pub(crate) fn probably_prime(n: u64) -> (r: bool)
    requires
        n > 3,
    ensures
        r ==> n % 2 == 1,
{
    Verification::is_prime(&BigUint::from(n))
}

/// Relies on num-bigint's `RandBigInt::gen_biguint_below` over rand's
/// `thread_rng`: a uniformly random number in `[0, bound)`; it panics on a
/// zero bound.
#[verifier::external_body]
pub(crate) fn random_below(bound: u64) -> (r: u64)
    requires
        bound > 0,
    ensures
        r < bound,
{
    rand::thread_rng().gen_biguint_below(&BigUint::from(bound)).to_u64().unwrap()
}

/// Relies on num-bigint's `RandBigInt::gen_biguint_range` over rand's
/// `thread_rng`: a uniformly random number in `[low, high)`; it panics unless
/// `low < high`.
#[verifier::external_body]
pub(crate) fn random_in_range(low: u64, high: u64) -> (r: u64)
    requires
        low < high,
    ensures
        low <= r < high,
{
    let r = rand::thread_rng().gen_biguint_range(&BigUint::from(low), &BigUint::from(high));
    r.to_u64().unwrap()
}

} // verus!
