//! The dealer: finds the group parameters, draws the polynomial and hands out
//! its shares and the commitments to its coefficients.
use crate::bignum::{mod_pow, probably_prime, random_below, random_in_range, random_uint};
use crate::rpc::Share;
use crate::vss::{generate_commitments, generate_shares, lemma_shares_verify, share_at, share_verifies};
use vstd::arithmetic::power::pow;
use vstd::arithmetic::power2::{lemma2_to64, lemma_pow2_strictly_increases, pow2};
use vstd::prelude::*;

verus! {

/// The width in bits of the prime `q`, and of the multiplier that gives `p`.
/// A demonstration size: secure use needs a far larger group.
pub const BIT_SIZE: usize = 32;

/// How many random candidates the parameter search draws before it gives up.
pub const SEARCH_LIMIT: usize = 100000;

/// Why a dealing could not be set up.
#[derive(Debug, Clone, Copy, PartialEq, Eq, Structural)]
pub enum DealerError {
    /// No prime `q`, or no prime `p = k q + 1`, was found within the search limit.
    NoPrimeFound,
    /// No element of order `q` was found within the search limit.
    NoGeneratorFound,
}

/// One dealing of a secret: the group `(p, q, g)`, the `n` shares and the `t`
/// commitments.
#[derive(Debug)]
pub struct Dealer {
    pub p: u64,
    pub q: u64,
    pub g: u64,
    pub shares: Vec<Share>,
    pub c: Vec<u64>,
    pub t: usize,
    pub n: usize,
}

impl Dealer {
    /// `a` is the polynomial of this dealing: its shares and commitments are
    /// those of `a`, and its non-constant coefficients lie in `[0, q)`.
    pub open spec fn deals(&self, a: Seq<u64>) -> bool {
        &&& a.len() == self.t
        &&& forall|i: int| 1 <= i < a.len() ==> a[i] < self.q
        &&& self.shares.len() == self.n
        &&& forall|i: int| 0 <= i < self.n ==> self.shares[i] == share_at(a, self.q, i)
        &&& self.c.len() == a.len()
        &&& forall|i: int| 0 <= i < a.len() ==> self.c[i] == pow(self.g as int, a[i] as nat) % (self.p as int)
    }

    /// The group is sound and the shares and commitments come from one
    /// polynomial of `t` coefficients.
    pub open spec fn wf(&self) -> bool {
        &&& self.q > 2
        &&& self.p > 3
        &&& (self.p - 1) % (self.q as int) == 0
        &&& 1 < self.g < self.p
        &&& pow(self.g as int, self.q as nat) % (self.p as int) == 1
        &&& exists|a: Seq<u64>| self.deals(a)
    }

    /// The verdict on one candidate for `q`: it is kept when it is above 3
    /// and passed the primality test.
    pub fn q_from_draw(c: u64, prime: bool) -> (r: Option<u64>)
        ensures
            r == if c > 3 && prime { Some(c) } else { None::<u64> },
    {
        if c > 3 && prime {
            Some(c)
        } else {
            None
        }
    }

    /// Finds a probable prime `q` of at most `bits` bits by drawing numbers
    /// and testing them. The test is probabilistic: `q` is odd and passed it,
    /// which is all that is promised of its primality.
    fn find_q(bits: usize) -> (r: Option<u64>)
        requires
            3 <= bits <= 32,
        ensures
            r matches Some(q) ==> 3 < q < pow2(bits as nat) && q % 2 == 1,
    {
        let mut attempts: usize = 0;
        while attempts < SEARCH_LIMIT
            invariant
                3 <= bits <= 32,
            decreases SEARCH_LIMIT - attempts,
        {
            let c = random_uint(bits);
            let prime = c > 3 && probably_prime(c);
            if let Some(q) = Dealer::q_from_draw(c, prime) {
                return Some(q);
            }
            attempts = attempts + 1;
        }
        None
    }

    /// The verdict on one drawn multiplier `k`: `k q + 1` is kept when it is
    /// above 3 and passed the primality test.
    pub fn p_from_draw(k: u64, q: u64, prime: bool) -> (r: Option<u64>)
        requires
            k < 0x1_0000_0000,
            q < 0x1_0000_0000,
        ensures
            r == if k * q + 1 > 3 && prime { Some((k * q + 1) as u64) } else { None::<u64> },
    {
        proof {
            assert(k * q < 0x1_0000_0000_0000_0000 - 1) by (nonlinear_arith)
                requires
                    k < 0x1_0000_0000,
                    q < 0x1_0000_0000,
            ;
        }
        let p = k * q + 1;
        if p > 3 && prime {
            Some(p)
        } else {
            None
        }
    }

    /// Given a prime `q`, finds a probable prime `p` with `q | p - 1` by
    /// drawing multipliers `k` of at most `bits` bits and testing `k q + 1`.
    fn find_p(q: u64, bits: usize) -> (r: Option<u64>)
        requires
            bits <= 32,
            0 < q < pow2(32),
        ensures
            r matches Some(p) ==> {
                &&& p > 3
                &&& p % 2 == 1
                &&& (p - 1) % (q as int) == 0
                &&& exists|k: int| 0 <= k < pow2(bits as nat) && p == #[trigger] (k * q) + 1
            },
    {
        proof {
            lemma2_to64();
            if bits < 32 {
                lemma_pow2_strictly_increases(bits as nat, 32);
            }
        }
        let mut attempts: usize = 0;
        while attempts < SEARCH_LIMIT
            invariant
                bits <= 32,
                0 < q < pow2(32),
                pow2(bits as nat) <= pow2(32),
                pow2(32) == 0x1_0000_0000,
            decreases SEARCH_LIMIT - attempts,
        {
            let k = random_uint(bits);
            proof {
                assert(k * q < 0x1_0000_0000_0000_0000 - 1) by (nonlinear_arith)
                    requires
                        k < 0x1_0000_0000,
                        q < 0x1_0000_0000,
                ;
            }
            let candidate = k * q + 1;
            let prime = candidate > 3 && probably_prime(candidate);
            if let Some(p) = Dealer::p_from_draw(k, q, prime) {
                proof {
                    assert((p - 1) % (q as int) == 0) by (nonlinear_arith)
                        requires
                            p - 1 == k * q,
                            q > 0,
                    ;
                    assert(p == (k as int) * q + 1);
                }
                return Some(p);
            }
            attempts = attempts + 1;
        }
        None
    }

    /// The generator that one draw `b` gives: `g = b^((p - 1) / q) mod p`,
    /// kept when `g` is neither 0 nor 1 and `g^q == 1 (mod p)`.
    pub fn generator_from(b: u64, p: u64, q: u64) -> (r: Option<u64>)
        requires
            p > 3,
            q > 0,
            2 <= b < p - 1,
        ensures
            r == ({
                let g = pow(b as int, ((p - 1) / (q as int)) as nat) % (p as int);
                if g != 0 && g != 1 && pow(g, q as nat) % (p as int) == 1 {
                    Some(g as u64)
                } else {
                    None::<u64>
                }
            }),
    {
        let e = (p - 1) / q;
        let g = mod_pow(b, e, p);
        proof {
            vstd::arithmetic::div_mod::lemma_mod_bound(pow(b as int, e as nat), p as int);
        }
        if g != 0 && g != 1 && mod_pow(g, q, p) == 1 {
            Some(g)
        } else {
            None
        }
    }

    /// Finds an element of order `q` modulo `p`: draws `b` in `[2, p - 1)`
    /// until `generator_from` keeps the value it gives.
    fn find_g(p: u64, q: u64) -> (r: Option<u64>)
        requires
            p > 3,
            q > 0,
        ensures
            r matches Some(g) ==> {
                &&& 1 < g < p
                &&& pow(g as int, q as nat) % (p as int) == 1
                &&& exists|b: int| 2 <= b < p - 1 && g == #[trigger] pow(b, ((p - 1) / (q as int)) as nat) % (p as int)
            },
    {
        let mut attempts: usize = 0;
        while attempts < SEARCH_LIMIT
            invariant
                p > 3,
                q > 0,
            decreases SEARCH_LIMIT - attempts,
        {
            let b = random_in_range(2, p - 1);
            if let Some(g) = Dealer::generator_from(b, p, q) {
                proof {
                    vstd::arithmetic::div_mod::lemma_mod_bound(
                        pow(b as int, ((p - 1) / (q as int)) as nat),
                        p as int,
                    );
                    assert(g == pow(b as int, ((p - 1) / (q as int)) as nat) % (p as int));
                }
                return Some(g);
            }
            attempts = attempts + 1;
        }
        None
    }

    /// A random coefficient in `[0, q)`.
    fn gen_a(q: u64) -> (r: u64)
        requires
            q > 0,
        ensures
            r < q,
    {
        random_below(q)
    }

    /// The dealing of the polynomial `secret + coeffs[0] x + ...` in the group
    /// `(p, q, g)`: its `n` shares and its commitments.
    pub fn from_parts(n: usize, t: usize, secret: usize, p: u64, q: u64, g: u64, coeffs: &Vec<u64>) -> (d: Dealer)
        requires
            p > 1,
            q > 0,
            n < u64::MAX,
            coeffs.len() + 1 == t,
            forall|i: int| 0 <= i < coeffs.len() ==> coeffs[i] < q,
        ensures
            d.p == p,
            d.q == q,
            d.g == g,
            d.n == n,
            d.t == t,
            d.deals(seq![secret as u64] + coeffs@),
    {
        let mut a: Vec<u64> = Vec::new();
        a.push(secret as u64);
        let mut i: usize = 0;
        while i < coeffs.len()
            invariant
                i <= coeffs.len(),
                a@ == seq![secret as u64] + coeffs@.subrange(0, i as int),
            decreases coeffs.len() - i,
        {
            a.push(coeffs[i]);
            proof {
                assert(coeffs@.subrange(0, i + 1) =~= coeffs@.subrange(0, i as int).push(coeffs@[i as int]));
                assert(a@ =~= seq![secret as u64] + coeffs@.subrange(0, i + 1));
            }
            i = i + 1;
        }
        proof {
            assert(coeffs@.subrange(0, coeffs.len() as int) =~= coeffs@);
        }
        let c = generate_commitments(&a, g, p);
        let shares = generate_shares(&a, n, q);
        let d = Dealer { p, q, g, shares, c, t, n };
        assert(d.deals(a@));
        d
    }

    /// Deals `secret` into `n` shares with threshold `t`, in a group whose
    /// prime `q` has at most `bits` bits: the constant coefficient is the
    /// secret, the other `t - 1` are drawn at random in `[0, q)`. The primes
    /// `q` and `p` passed a probabilistic primality test; they are odd, and
    /// nothing more is promised of their primality. Fails only where a search
    /// draws no fit value within `SEARCH_LIMIT` attempts.
    pub fn with_bit_size(n: usize, t: usize, secret: usize, bits: usize) -> (r: Result<Dealer, DealerError>)
        requires
            t >= 1,
            n < u64::MAX,
            3 <= bits <= 32,
        ensures
            r matches Ok(d) ==> {
                &&& d.wf()
                &&& d.n == n
                &&& d.t == t
                &&& d.q < pow2(bits as nat)
                &&& d.q % 2 == 1
                &&& d.p % 2 == 1
                &&& exists|k: int| 0 <= k < pow2(bits as nat) && d.p == #[trigger] (k * d.q) + 1
                &&& exists|a: Seq<u64>| d.deals(a) && a[0] == secret
            },
    {
        let q = match Dealer::find_q(bits) {
            Some(q) => q,
            None => return Err(DealerError::NoPrimeFound),
        };
        proof {
            lemma2_to64();
            if bits < 32 {
                lemma_pow2_strictly_increases(bits as nat, 32);
            }
        }
        let p = match Dealer::find_p(q, bits) {
            Some(p) => p,
            None => return Err(DealerError::NoPrimeFound),
        };
        let g = match Dealer::find_g(p, q) {
            Some(g) => g,
            None => return Err(DealerError::NoGeneratorFound),
        };
        let mut coeffs: Vec<u64> = Vec::new();
        let mut i: usize = 1;
        while i < t
            invariant
                q > 3,
                1 <= i <= t,
                coeffs.len() + 1 == i,
                forall|k: int| 0 <= k < coeffs.len() ==> coeffs[k] < q,
            decreases t - i,
        {
            coeffs.push(Dealer::gen_a(q));
            i = i + 1;
        }
        let d = Dealer::from_parts(n, t, secret, p, q, g, &coeffs);
        assert((seq![secret as u64] + coeffs@)[0] == secret);
        Ok(d)
    }

    /// Deals `secret` into `n` shares with threshold `t`, with a prime `q` of
    /// at most `BIT_SIZE` bits. As for `with_bit_size`, primality of `p` and
    /// `q` is only probable.
    pub fn new(n: usize, t: usize, secret: usize) -> (r: Result<Dealer, DealerError>)
        requires
            t >= 1,
            n < u64::MAX,
        ensures
            r matches Ok(d) ==> {
                &&& d.wf()
                &&& d.n == n
                &&& d.t == t
                &&& d.q < pow2(32)
                &&& d.q % 2 == 1
                &&& d.p % 2 == 1
                &&& exists|k: int| 0 <= k < pow2(32) && d.p == #[trigger] (k * d.q) + 1
                &&& exists|a: Seq<u64>| d.deals(a) && a[0] == secret
            },
    {
        Dealer::with_bit_size(n, t, secret, BIT_SIZE)
    }
}

/// Every share that a dealer hands out passes the Feldman check against its
/// commitments.
pub proof fn lemma_dealer_shares_verify(d: &Dealer, i: int)
    requires
        d.wf(),
        0 <= i < d.n,
    ensures
        share_verifies(d.shares[i].0, d.shares[i].1, d.g, d.c@, d.p),
{
    let a = choose|a: Seq<u64>| d.deals(a);
    lemma_shares_verify(a, d.c@, d.g, d.p, d.q, (i + 1) as u64);
}

} // verus!
