use mersenne::aggregate::LiveAggregate;
use mersenne::server::{
    generate_json, generate_stats_html, response_for, route_request, sorted, stats_report, Route,
    ServerPayload,
};

fn payload() -> ServerPayload {
    ServerPayload { prime_count: 4, biggest: 7, n_threads: 2, lower_bound: 2, upper_bound: 10 }
}

#[test]
fn report_before_any_candidate_is_zero_percent() {
    let agg = LiveAggregate::new(2);
    let text = generate_stats_html(&agg, &payload(), 0);
    assert!(text.contains("\n0.00% done.\n"), "{}", text);
    assert!(text.contains("Time elapsed: 0.00ns\n"));
    assert!(text.contains("Total done: 0\n"));
    assert!(text.contains("Time elapsed per prime: N/A"));
    assert!(text.contains("Primes per second: N/A"));
}

#[test]
fn report_after_completion_is_hundred_percent() {
    let mut agg = LiveAggregate::new(2);
    agg.record_found(2);
    for (w, p, ok) in [(0usize, 2u32, false), (1, 3, true), (0, 5, true), (1, 7, true)] {
        agg.complete(w, p, ok);
    }
    let text = generate_stats_html(&agg, &payload(), 2_000_000_000);
    assert!(text.contains("100.00% done.\n"), "{}", text);
    assert!(text.contains(" Thread 1 did: 2\n Thread 2 did: 2\n"));
    assert!(text.contains("Time elapsed per prime: 500.00ms\n"));
    assert!(text.contains("Primes per second: 2.00\n"));
    assert!(text.contains("Time elapsed: 2.00s\n"));
}

#[test]
fn report_exact_text() {
    let processed = vec![1u32, 2];
    let found = vec![3u32, 7];
    let text = stats_report(&payload(), &processed, &found, 61_500_000_000);
    let expected = "Active threads: 2\n\
Biggest prime to check: 7\n\
Lower bound: 2\n\
Upper bound: 10\n\
\n\
Total primes to check: 4\n\
75.00% done.\n\
Total done: 3\n \
Thread 1 did: 1\n \
Thread 2 did: 2\n\
\n\
Time elapsed: 61.50s\n\
Time elapsed per prime: 20500.00ms\n\
Primes per second: 0.05\n\
\n\
Current count: 2\n \
1: 3\n \
2: 7\n";
    assert_eq!(text, expected);
}

#[test]
fn report_lists_found_sorted() {
    let mut agg = LiveAggregate::new(1);
    for p in [31u32, 2, 13, 5] {
        agg.record_found(p);
    }
    let text = generate_stats_html(&agg, &payload(), 10);
    assert!(text.ends_with("Current count: 4\n 1: 2\n 2: 5\n 3: 13\n 4: 31\n"), "{}", text);
}

#[test]
fn sorted_orders_values() {
    assert_eq!(sorted(&vec![5, 1, 4, 1]), vec![1, 1, 4, 5]);
    assert_eq!(sorted(&vec![]), Vec::<u32>::new());
}

#[test]
fn routes_by_first_line() {
    assert_eq!(route_request(b"GET / HTTP/1.1\r\nHost: x\r\n\r\n"), Route::Index);
    assert_eq!(route_request(b"GET /main.js HTTP/1.1\r\n"), Route::MainJs);
    assert_eq!(route_request(b"GET /count HTTP/1.1\r\n"), Route::Count);
    assert_eq!(route_request(b"GET /json HTTP/1.1\r\n"), Route::Json);
    assert_eq!(route_request(b"GET /other HTTP/1.1\r\n"), Route::NotFound);
    assert_eq!(route_request(b"GET /count"), Route::Count);
    assert_eq!(route_request(b"POST /count HTTP/1.1\r\n"), Route::NotFound);
    assert_eq!(route_request(b"GET\r\n/count"), Route::NotFound);
    assert_eq!(route_request(b""), Route::NotFound);
    assert_eq!(route_request(b"GET /counts HTTP/1.1"), Route::NotFound);
}

#[test]
fn responses_per_route() {
    assert_eq!(generate_json(), "Content-Type: application/json\r\n\r\n[]");
    assert_eq!(
        response_for(Route::Json, "ignored"),
        "HTTP/1.1 200 Ok\r\nContent-Type: application/json\r\n\r\n[]"
    );
    assert_eq!(response_for(Route::NotFound, "ignored"), "HTTP/1.1 404 Not Found\r\n\r\n");
    assert_eq!(response_for(Route::Index, "<p>hi</p>"), "HTTP/1.1 200 Ok\r\n\r\n<p>hi</p>");
    assert_eq!(response_for(Route::Count, "report"), "HTTP/1.1 200 Ok\r\n\r\nreport");
}

#[test]
fn report_with_no_candidates_does_not_divide_by_zero() {
    let empty = ServerPayload { prime_count: 0, biggest: 0, n_threads: 1, lower_bound: 10, upper_bound: 2 };
    let agg = LiveAggregate::new(1);
    let text = generate_stats_html(&agg, &empty, 0);
    assert!(text.contains("Total primes to check: 0\n0.00% done.\n"), "{}", text);
    assert!(text.contains("Time elapsed: 0.00ns\n"));
}

#[test]
fn report_rounds_to_nearest() {
    let three = ServerPayload { prime_count: 3, biggest: 5, n_threads: 1, lower_bound: 2, upper_bound: 5 };
    let text = stats_report(&three, &vec![2], &vec![3], 1_234_567);
    assert!(text.contains("\n66.67% done.\n"), "{}", text);
    assert!(text.contains("Time elapsed: 1.23ms\n"), "{}", text);
    assert!(text.contains("Time elapsed per prime: 0.50ms\n"), "{}", text);
    assert!(text.contains("Primes per second: 1620.00\n"), "{}", text);
    let text = stats_report(&three, &vec![1], &vec![], 4_995);
    assert!(text.contains("\n33.33% done.\n"), "{}", text);
    assert!(text.contains("Time elapsed: 5.00µs\n"), "{}", text);
    assert!(text.contains("Time elapsed per prime: 0.00ms\n"), "{}", text);
}

#[test]
fn report_numbers_from_ten_unpadded() {
    let found: Vec<u32> = (1..=10).collect();
    let text = stats_report(&payload(), &vec![0, 0], &found, 0);
    assert!(text.ends_with(" 9: 9\n10: 10\n"), "{}", text);
}
