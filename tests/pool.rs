use mersenne::aggregate::LiveAggregate;
use mersenne::distributor::worker_share;
use mersenne::prime_generator::generate_primes;
use mersenne::primes::is_mersenne_prime;

const REFERENCE: [u32; 13] = [3, 5, 7, 13, 17, 19, 31, 61, 89, 107, 127, 521, 607];

/// Runs the pool on `candidates` with `workers` workers, taking one candidate
/// from each worker in turn, as a scheduler might interleave them.
fn run_pool(candidates: &Vec<u32>, workers: usize) -> LiveAggregate {
    let mut agg = LiveAggregate::new(workers);
    let shares: Vec<Vec<u32>> = (0..workers).map(|w| worker_share(candidates, w, workers)).collect();
    let longest = shares.iter().map(|s| s.len()).max().unwrap_or(0);
    for step in 0..longest {
        for w in (0..workers).rev() {
            if let Some(&p) = shares[w].get(step) {
                let passed = p >= 3 && is_mersenne_prime(p);
                agg.complete(w, p, passed);
            }
        }
    }
    agg
}

#[test]
fn shares_stride_through_the_candidates() {
    let c: Vec<u32> = (10..20).collect();
    assert_eq!(worker_share(&c, 0, 3), vec![10, 13, 16, 19]);
    assert_eq!(worker_share(&c, 1, 3), vec![11, 14, 17]);
    assert_eq!(worker_share(&c, 2, 3), vec![12, 15, 18]);
    assert_eq!(worker_share(&c, 5, 6), vec![15]);
    assert_eq!(worker_share(&c, 3, 20), vec![13]);
    assert_eq!(worker_share(&c, 12, 20), Vec::<u32>::new());
}

#[test]
fn found_set_does_not_depend_on_worker_count() {
    let candidates = generate_primes(1000);
    let mut results = Vec::new();
    for workers in [1usize, 2, 6] {
        let agg = run_pool(&candidates, workers);
        let mut found = agg.found().clone();
        found.sort();
        results.push(found);
    }
    assert_eq!(results[0], REFERENCE.to_vec());
    assert_eq!(results[1], results[0]);
    assert_eq!(results[2], results[0]);
}

#[test]
fn processed_counts_add_up_to_candidates() {
    let candidates = generate_primes(1000);
    assert_eq!(candidates.len(), 168);
    for workers in [1usize, 2, 6, 7, 200] {
        let agg = run_pool(&candidates, workers);
        assert_eq!(agg.processed().len(), workers);
        assert_eq!(agg.total_processed(), candidates.len() as u128);
        let sum: u64 = agg.processed().iter().map(|&n| n as u64).sum();
        assert_eq!(sum, 168);
    }
}

#[test]
fn no_found_entry_is_lost() {
    let candidates = generate_primes(1000);
    let mut agg = run_pool(&candidates, 6);
    assert_eq!(agg.found().len(), REFERENCE.len());
    agg.record_found(2);
    assert_eq!(agg.found().len(), REFERENCE.len() + 1);
    assert_eq!(*agg.found().last().unwrap(), 2);
}

#[test]
fn aggregate_starts_empty_and_counts_per_worker() {
    let mut agg = LiveAggregate::new(3);
    assert_eq!(agg.found(), &Vec::<u32>::new());
    assert_eq!(agg.processed(), &vec![0, 0, 0]);
    agg.increment_processed(1);
    agg.increment_processed(1);
    agg.complete(2, 7, true);
    agg.complete(0, 11, false);
    assert_eq!(agg.processed(), &vec![1, 2, 1]);
    assert_eq!(agg.found(), &vec![7]);
    let snap = agg.snapshot();
    assert_eq!(snap.found(), agg.found());
    assert_eq!(snap.processed(), agg.processed());
    assert_eq!(agg.total_processed(), 4);
}
