use mersenne::primes::is_mersenne_prime;

#[test]
fn known_mersenne_exponents_pass() {
    for p in [3u32, 5, 7, 13, 17, 19, 31] {
        assert!(is_mersenne_prime(p), "exponent {}", p);
    }
}

#[test]
fn prime_exponents_with_composite_mersenne_numbers_fail() {
    for p in [11u32, 23, 29] {
        assert!(!is_mersenne_prime(p), "exponent {}", p);
    }
}

#[test]
fn larger_known_exponents() {
    for p in [61u32, 89, 107, 127, 521, 607] {
        assert!(is_mersenne_prime(p), "exponent {}", p);
    }
    assert!(!is_mersenne_prime(37));
    assert!(!is_mersenne_prime(101));
}
