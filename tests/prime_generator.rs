use mersenne::prime_generator::{generate_primes, generate_primes_gen};

#[test]
fn upto_0() {
    let primes = generate_primes(0);
    assert_eq!(primes.len(), 0);
}

#[test]
fn upto_10() {
    let primes = generate_primes(10);
    assert_eq!(primes.len(), 4);
}

#[test]
fn upto_100() {
    let primes = generate_primes(100);
    assert_eq!(primes.len(), 25);
}

#[test]
fn upto_1_000_000() {
    let primes = generate_primes(1_000_000);
    assert_eq!(primes.len(), 78498);
}

#[test]
fn upto_10_000_000() {
    let primes = generate_primes(10_000_000);
    assert_eq!(primes.len(), 664579);
}

#[test]
fn from_2_to_10() {
    let primes = generate_primes_gen(2, 10);
    assert_eq!(primes.len(), 4);
}

#[test]
fn from_10_to_2() {
    let primes = generate_primes_gen(10, 2);
    assert_eq!(primes.len(), 0);
}

#[test]
fn from_90_to_100() {
    let primes = generate_primes_gen(90, 100);
    assert_eq!(primes.len(), 1);
}

#[test]
fn from_100k_to_110k() {
    let primes = generate_primes_gen(100_000, 110_000);
    assert_eq!(primes.len(), 861);
}

#[test]
fn first_primes_exactly() {
    assert_eq!(generate_primes_gen(2, 10), vec![2, 3, 5, 7]);
    assert_eq!(generate_primes_gen(0, 12), vec![2, 3, 5, 7, 11]);
    assert_eq!(generate_primes_gen(90, 100), vec![97]);
}

#[test]
fn range_with_one_value() {
    assert_eq!(generate_primes_gen(13, 13), vec![13]);
    assert_eq!(generate_primes_gen(14, 14), Vec::<u32>::new());
    assert_eq!(generate_primes_gen(0, 1), Vec::<u32>::new());
}

#[test]
fn strictly_increasing_primes_within_bounds() {
    let primes = generate_primes_gen(500, 2000);
    for w in primes.windows(2) {
        assert!(w[0] < w[1]);
    }
    for &p in &primes {
        assert!((500..=2000).contains(&p));
        let mut d = 2u32;
        while d * d <= p {
            assert!(p % d != 0);
            d += 1;
        }
    }
}

#[test]
fn top_of_the_range() {
    let primes = generate_primes_gen(u32::MAX - 20, u32::MAX);
    assert_eq!(primes, vec![4294967279, 4294967291]);
}

#[test]
fn two_is_included_when_in_range() {
    assert_eq!(generate_primes_gen(0, 2), vec![2]);
    assert_eq!(generate_primes_gen(2, 2), vec![2]);
    assert_eq!(generate_primes_gen(3, 3), vec![3]);
}
