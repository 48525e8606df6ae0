//! Candidate exponents: the primes of a closed range, in increasing order.
use vstd::prelude::*;
use vstd::arithmetic::div_mod::{lemma_fundamental_div_mod, lemma_mod_multiples_basic, lemma_mod_self_0};
use vstd::arithmetic::mul::lemma_mul_inequality;

verus! {

/// `n` is prime: at least 2, and no integer in `[2, n)` divides it.
pub open spec fn is_prime(n: int) -> bool {
    n >= 2 && forall|d: int| 2 <= d < n ==> #[trigger] (n % d) != 0
}

/// `s` holds, in strictly increasing order, exactly the primes of `[lo, hi]`.
pub open spec fn lists_primes_between(s: Seq<u32>, lo: int, hi: int) -> bool {
    &&& forall|i: int, j: int| 0 <= i < j < s.len() ==> s[i] < s[j]
    &&& forall|i: int| 0 <= i < s.len() ==> lo <= #[trigger] s[i] <= hi && is_prime(s[i] as int)
    &&& forall|n: int| lo <= n <= hi && is_prime(n) ==> s.contains(n as u32)
}

proof fn lemma_divides_trans(n: int, d: int, e: int)
    requires
        n >= 0,
        d > 0,
        e > 0,
        n % d == 0,
        d % e == 0,
    ensures
        n % e == 0,
{
    lemma_fundamental_div_mod(n, d);
    lemma_fundamental_div_mod(d, e);
    let a = n / d;
    let b = d / e;
    assert(n == (b * a) * e) by (nonlinear_arith)
        requires
            n == d * a,
            d == e * b,
    ;
    lemma_mod_multiples_basic(b * a, e);
}

/// The least divisor in `[k, n]` of `n`, given that none lies in `[2, k)`.
proof fn lemma_least_divisor_from(n: int, k: int) -> (d: int)
    requires
        2 <= k <= n,
        forall|e: int| 2 <= e < k ==> #[trigger] (n % e) != 0,
    ensures
        k <= d <= n,
        n % d == 0,
        forall|e: int| 2 <= e < d ==> #[trigger] (n % e) != 0,
    decreases n - k,
{
    lemma_mod_self_0(n);
    if n % k == 0 {
        k
    } else {
        lemma_least_divisor_from(n, k + 1)
    }
}

/// A composite number has a prime factor whose square does not exceed it.
proof fn lemma_small_prime_factor(n: int) -> (d: int)
    requires
        n >= 2,
        !is_prime(n),
    ensures
        is_prime(d),
        n % d == 0,
        d * d <= n,
{
    let d = lemma_least_divisor_from(n, 2);
    let w = choose|w: int| 2 <= w < n && #[trigger] (n % w) == 0;
    assert(d < n);
    assert forall|e: int| 2 <= e < d implies #[trigger] (d % e) != 0 by {
        if d % e == 0 {
            lemma_divides_trans(n, d, e);
        }
    }
    lemma_fundamental_div_mod(n, d);
    let q = n / d;
    assert(n == q * d);
    if q < 2 {
        assert(q * d < 2 * d) by (nonlinear_arith)
            requires
                q < 2,
                d > 0,
        ;
        assert(q * d <= d) by (nonlinear_arith)
            requires
                q < 2,
                d > 0,
        ;
    }
    lemma_mod_multiples_basic(d, q);
    assert(n % q == 0);
    if q < d {
        assert(n % q != 0);
    }
    lemma_mul_inequality(d, q, d);
    d
}

/// A number below `d * d` with no prime factor below `d` is prime.
proof fn lemma_prime_without_small_factor(n: int, d: int)
    requires
        n >= 2,
        d >= 2,
        n < d * d,
        forall|e: int| 2 <= e < d && is_prime(e) ==> #[trigger] (n % e) != 0,
    ensures
        is_prime(n),
{
    if !is_prime(n) {
        let f = lemma_small_prime_factor(n);
        if f >= d {
            lemma_mul_inequality(d, f, d);
            lemma_mul_inequality(d, f, f);
        }
        assert(n % f != 0);
    }
}

fn square(x: u32) -> (r: u64)
    ensures
        r == x * x,
{
    assert(x * x <= 0xffff_ffff * 0xffff_ffff) by (nonlinear_arith)
        requires
            x <= 0xffff_ffff,
    ;
    (x as u64) * (x as u64)
}

/// The integer square root: the largest `r` with `r * r <= n`.
fn isqrt(n: u32) -> (r: u32)
    ensures
        r * r <= n < (r + 1) * (r + 1),
{
    let mut r: u32 = 0;
    while r < 65535 && square(r + 1) <= n as u64
        invariant
            r * r <= n,
            r <= 65535,
        decreases n - r * r,
    {
        proof {
            let r1 = r as int + 1;
            assert(r1 < 65536) by (nonlinear_arith)
                requires
                    r1 * r1 <= n,
                    n < 0x1_0000_0000,
                    r1 >= 1,
            ;
            assert(r1 * r1 > r * r) by (nonlinear_arith)
                requires
                    r1 == r + 1,
                    r >= 0,
            ;
        }
        r = r + 1;
    }
    r
}

/// Primality by trial division with 2 and the odd numbers up to the square
/// root.
fn is_prime_trial(n: u32) -> (r: bool)
    ensures
        r == is_prime(n as int),
{
    if n < 2 {
        return false;
    }
    if n % 2 == 0 {
        proof {
            lemma_mod_self_0(2);
        }
        return n == 2;
    }
    let mut d: u32 = 3;
    while square(d) <= n as u64
        invariant
            n >= 3,
            n % 2 == 1,
            d % 2 == 1,
            3 <= d <= 65537,
            forall|e: int| 2 <= e < d && is_prime(e) ==> #[trigger] (n as int % e) != 0,
        decreases n + 2 - d,
    {
        assert(d < 65536) by (nonlinear_arith)
            requires
                d * d <= n,
                n < 0x1_0000_0000,
                d >= 3,
        ;
        assert(d <= n) by (nonlinear_arith)
            requires
                d * d <= n,
                d >= 3,
        ;
        if n % d == 0 {
            proof {
                assert(!is_prime(n as int)) by {
                    assert(d < n) by (nonlinear_arith)
                        requires
                            d * d <= n,
                            d >= 3,
                    ;
                }
            }
            return false;
        }
        proof {
            assert forall|e: int| 2 <= e < d + 2 && is_prime(e) implies #[trigger] (n as int % e) != 0 by {
                if e == d + 1 {
                    assert(e % 2 == 0);
                }
            }
        }
        d = d + 2;
    }
    proof {
        lemma_prime_without_small_factor(n as int, d as int);
    }
    true
}

/// One more number `c` looked at: the list grows by `c` exactly when it is
/// prime.
proof fn lemma_list_step(s: Seq<u32>, t: Seq<u32>, lo: int, c: int)
    requires
        lo <= c <= u32::MAX,
        lists_primes_between(s, lo, c - 1),
        forall|i: int| 0 <= i < s.len() ==> #[trigger] s[i] < c,
        t == (if is_prime(c) { s.push(c as u32) } else { s }),
    ensures
        lists_primes_between(t, lo, c),
        forall|i: int| 0 <= i < t.len() ==> #[trigger] t[i] < c + 1,
{
    assert forall|n: int| lo <= n <= c && is_prime(n) implies t.contains(n as u32) by {
        if n == c {
            assert(t[t.len() - 1] == c as u32);
        } else {
            let i = choose|i: int| 0 <= i < s.len() && s[i] == n as u32;
            assert(t[i] == n as u32);
        }
    }
}

/// Primes of `[2, hi]`, each found by trial division.
fn small_primes(hi: u32) -> (r: Vec<u32>)
    ensures
        lists_primes_between(r@, 2, hi as int),
{
    let mut out: Vec<u32> = Vec::new();
    let mut c: u64 = 2;
    while c <= hi as u64
        invariant
            2 <= c <= hi as u64 + 1 || c == 2,
            lists_primes_between(out@, 2, c - 1),
            forall|i: int| 0 <= i < out@.len() ==> #[trigger] out@[i] < c,
        decreases hi as u64 + 1 - c,
    {
        let ghost before = out@;
        if is_prime_trial(c as u32) {
            out.push(c as u32);
        }
        proof {
            lemma_list_step(before, out@, 2, c as int);
        }
        c = c + 1;
    }
    out
}

/// Primality of `n` by trial division with the primes of `[2, b]`, where
/// `(b + 1)^2` exceeds `n`.
fn is_prime_by(n: u32, base: &Vec<u32>, b: u32) -> (r: bool)
    requires
        lists_primes_between(base@, 2, b as int),
        n < (b + 1) * (b + 1),
    ensures
        r == is_prime(n as int),
{
    if n < 2 {
        return false;
    }
    let mut i: usize = 0;
    while i < base.len()
        invariant
            2 <= n,
            i <= base@.len(),
            lists_primes_between(base@, 2, b as int),
            forall|j: int| 0 <= j < i ==> #[trigger] (n as int % base@[j] as int) != 0,
        decreases base@.len() - i,
    {
        let p = base[i];
        if square(p) > n as u64 {
            proof {
                assert forall|e: int| 2 <= e < p && is_prime(e) implies #[trigger] (n as int % e) != 0 by {
                    assert(base@.contains(e as u32));
                    let j = choose|j: int| 0 <= j < base@.len() && base@[j] == e as u32;
                    if j >= i {
                        assert(base@[j] >= base@[i as int]);
                    }
                }
                lemma_prime_without_small_factor(n as int, p as int);
            }
            return true;
        }
        if n % p == 0 {
            proof {
                assert(p < n) by (nonlinear_arith)
                    requires
                        p * p <= n,
                        p >= 2,
                ;
            }
            return false;
        }
        i = i + 1;
    }
    proof {
        assert forall|e: int| 2 <= e < b + 1 && is_prime(e) implies #[trigger] (n as int % e) != 0 by {
            assert(base@.contains(e as u32));
        }
        lemma_prime_without_small_factor(n as int, b + 1);
    }
    true
}

/// The primes of `[lower_limit, upper_limit]`, in increasing order; empty
/// when `lower_limit > upper_limit`.
pub fn generate_primes_gen(lower_limit: u32, upper_limit: u32) -> (r: Vec<u32>)
    ensures
        lists_primes_between(r@, lower_limit as int, upper_limit as int),
{
    let mut primes: Vec<u32> = Vec::new();
    if lower_limit > upper_limit {
        return primes;
    }
    let b = isqrt(upper_limit);
    let base = small_primes(b);
    let mut current: u64 = lower_limit as u64;
    while current <= upper_limit as u64
        invariant
            lower_limit <= current <= upper_limit as u64 + 1,
            b * b <= upper_limit < (b + 1) * (b + 1),
            lists_primes_between(base@, 2, b as int),
            lists_primes_between(primes@, lower_limit as int, current - 1),
            forall|i: int| 0 <= i < primes@.len() ==> #[trigger] primes@[i] < current,
        decreases upper_limit as u64 + 1 - current,
    {
        let ghost before = primes@;
        if is_prime_by(current as u32, &base, b) {
            primes.push(current as u32);
        }
        proof {
            lemma_list_step(before, primes@, lower_limit as int, current as int);
        }
        current = current + 1;
    }
    primes
}

/// The primes up to `upper_limit`, in increasing order.
pub fn generate_primes(upper_limit: u32) -> (r: Vec<u32>)
    ensures
        lists_primes_between(r@, 2, upper_limit as int),
{
    generate_primes_gen(2, upper_limit)
}

} // verus!
