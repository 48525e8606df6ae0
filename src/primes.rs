//! The Lucas–Lehmer test for Mersenne numbers `2^p - 1`.
use vstd::prelude::*;
use vstd::arithmetic::power2::{pow2, lemma_pow2_strictly_increases, lemma2_to64};
use vstd::arithmetic::div_mod::lemma_mod_multiples_vanish;
use num_bigint::BigUint;
use crate::bignum::{big_value, big_of, big_shl, big_sub_u32, big_add, big_mul, big_rem, big_eq};

verus! {

/// The Mersenne number `2^p - 1`.
pub open spec fn mersenne(p: nat) -> int {
    pow2(p) - 1
}

/// The Lucas–Lehmer sequence modulo `m`: `s_0 = 4`,
/// `s_{k+1} = (s_k * s_k - 2) mod m`.
pub open spec fn ll_term(k: nat, m: int) -> int
    decreases k,
{
    if k == 0 {
        4
    } else {
        (ll_term((k - 1) as nat, m) * ll_term((k - 1) as nat, m) - 2) % m
    }
}

/// The verdict of the Lucas–Lehmer test on the exponent `p`: after `p - 2`
/// steps modulo `2^p - 1` the sequence stands at zero.
pub open spec fn lucas_lehmer(p: nat) -> bool {
    ll_term((p - 2) as nat, mersenne(p)) == 0
}

/// Runs the Lucas–Lehmer sequence for `n - 1` steps modulo `modulus`. Each
/// step adds `2 * modulus - 2` in place of subtracting 2, so that every
/// value stays non-negative.
pub(crate) fn prime_seq(n: u32, modulus: &BigUint) -> (r: BigUint)
    requires
        big_value(*modulus) >= 1,
    ensures
        big_value(r) == ll_term(if n > 1 { (n - 1) as nat } else { 0 }, big_value(*modulus) as int),
        n > 1 ==> big_value(r) < big_value(*modulus),
{
    let ghost m = big_value(*modulus) as int;
    let twice = big_add(modulus, modulus);
    let m_minus_2 = big_sub_u32(&twice, 2);
    let mut s = big_of(4);
    let mut k: u32 = n;
    while k > 1
        invariant
            k <= n,
            n > 1 ==> k >= 1,
            big_value(m_minus_2) == 2 * m - 2,
            m == big_value(*modulus),
            m >= 1,
            n > 1 && k < n ==> big_value(s) < m,
            big_value(s) == ll_term(if n > 1 { (n - k) as nat } else { 0 }, m),
        decreases k,
    {
        let ghost prev = big_value(s) as int;
        let sq = big_mul(&s, &s);
        let t = big_add(&sq, &m_minus_2);
        s = big_rem(&t, modulus);
        proof {
            lemma_mod_multiples_vanish(2, prev * prev - 2, m);
            assert(m * 2 + (prev * prev - 2) == prev * prev + (2 * m - 2));
            assert((n - (k - 1)) as nat - 1 == (n - k) as nat);
        }
        k = k - 1;
    }
    s
}

/// Tells whether `2^prime - 1` passes the Lucas–Lehmer test, which for an
/// odd prime exponent decides whether the Mersenne number is prime. The
/// exponent 2 lies outside the test's domain and is handled by the caller.
pub fn is_mersenne_prime(prime: u32) -> (r: bool)
    requires
        prime >= 3,
    ensures
        r == lucas_lehmer(prime as nat),
{
    let one = big_of(1);
    let power = big_shl(&one, prime);
    proof {
        lemma2_to64();
        lemma_pow2_strictly_increases(2, prime as nat);
    }
    let m = big_sub_u32(&power, 1);
    let s = prime_seq(prime - 1, &m);
    let zero = big_of(0);
    big_eq(&s, &zero)
}

} // verus!
