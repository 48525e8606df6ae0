//! The status endpoint's logic: routing a request by its first line, and the
//! texts of the responses, among them the live report.
use vstd::prelude::*;
use vstd::string::StringExecFns;
use crate::aggregate::{LiveAggregate, total, total_of};
use crate::decimal::{decimal, push_decimal};

verus! {

/// Whatever the size of the search, the report reads 0% done before any
/// candidate is counted and 100% once every candidate is, and never divides
/// by zero.
pub proof fn lemma_progress_ends(all: nat)
    ensures
        percent_hundredths(0, all) == 0,
        fixed2(percent_hundredths(0, all)) == decimal(0, 1) + "."@ + decimal(0, 2),
        all > 0 ==> percent_hundredths(all, all) == 10000,
        all > 0 ==> fixed2(percent_hundredths(all, all)) == decimal(100, 1) + "."@ + decimal(0, 2),
{
    if all > 0 {
        assert(all / (2 * all) == 0) by (nonlinear_arith)
            requires
                all > 0,
        ;
        assert((all * 100 * 200 + all) / (2 * all) == 10000) by (nonlinear_arith)
            requires
                all > 0,
        ;
    }
}

/// Where a request goes.
#[derive(Clone, Copy, Debug, PartialEq, Eq, Structural)]
pub enum Route {
    Index,
    MainJs,
    Count,
    Json,
    NotFound,
}

/// The index of the first line break (`\r` or `\n`) at or after `i`, or the
/// length of `s` when there is none.
pub open spec fn line_end(s: Seq<u8>, i: int) -> int
    decreases s.len() - i,
{
    if i >= s.len() || i < 0 {
        s.len() as int
    } else if s[i] == 13 || s[i] == 10 {
        i
    } else {
        line_end(s, i + 1)
    }
}

/// The index of the first space at or after `i` and before `end`, or `end`.
pub open spec fn token_end(s: Seq<u8>, i: int, end: int) -> int
    decreases end - i,
{
    if i >= end || i < 0 {
        end
    } else if s[i] == 32 {
        i
    } else {
        token_end(s, i + 1, end)
    }
}

/// The bytes `GET /` that open every routed request line.
pub open spec fn get_prefix() -> Seq<u8> {
    seq![71u8, 69u8, 84u8, 32u8, 47u8]
}

/// The route of a resource name (the path without its leading `/`).
pub open spec fn route_of_resource(r: Seq<u8>) -> Route {
    if r.len() == 0 {
        Route::Index
    } else if r == seq![109u8, 97u8, 105u8, 110u8, 46u8, 106u8, 115u8] {
        Route::MainJs
    } else if r == seq![99u8, 111u8, 117u8, 110u8, 116u8] {
        Route::Count
    } else if r == seq![106u8, 115u8, 111u8, 110u8] {
        Route::Json
    } else {
        Route::NotFound
    }
}

/// The route of a request: only its first line counts, which must read
/// `GET /<resource>` followed by a space or the end of the line; anything
/// else is not found.
pub open spec fn route_of(req: Seq<u8>) -> Route {
    let end = line_end(req, 0);
    if end >= 5 && req.subrange(0, 5) == get_prefix() {
        route_of_resource(req.subrange(5, token_end(req, 5, end)))
    } else {
        Route::NotFound
    }
}

fn find_line_end(req: &[u8]) -> (r: usize)
    ensures
        r == line_end(req@, 0),
        r <= req@.len(),
{
    let mut i: usize = 0;
    while i < req.len()
        invariant
            i <= req@.len(),
            line_end(req@, i as int) == line_end(req@, 0),
        decreases req@.len() - i,
    {
        if req[i] == 13 || req[i] == 10 {
            return i;
        }
        i = i + 1;
    }
    i
}

fn find_token_end(req: &[u8], start: usize, end: usize) -> (r: usize)
    requires
        start <= end <= req@.len(),
    ensures
        r == token_end(req@, start as int, end as int),
        start <= r <= end,
{
    let mut i: usize = start;
    while i < end
        invariant
            start <= i <= end <= req@.len(),
            token_end(req@, i as int, end as int) == token_end(req@, start as int, end as int),
        decreases end - i,
    {
        if req[i] == 32 {
            return i;
        }
        i = i + 1;
    }
    i
}

fn same_bytes(req: &[u8], from: usize, to: usize, word: &[u8]) -> (r: bool)
    requires
        from <= to <= req@.len(),
    ensures
        r == (req@.subrange(from as int, to as int) == word@),
{
    if to - from != word.len() {
        return false;
    }
    let mut i: usize = 0;
    while i < word.len()
        invariant
            to - from == word@.len(),
            from <= to <= req@.len(),
            i <= word@.len(),
            forall|k: int| 0 <= k < i ==> req@[from + k] == word@[k],
        decreases word@.len() - i,
    {
        if req[from + i] != word[i] {
            assert(req@.subrange(from as int, to as int)[i as int] != word@[i as int]);
            return false;
        }
        i = i + 1;
    }
    assert(req@.subrange(from as int, to as int) =~= word@);
    true
}

/// Routes a request by its first line.
pub fn route_request(request: &[u8]) -> (r: Route)
    ensures
        r == route_of(request@),
{
    let end = find_line_end(request);
    let prefix: [u8; 5] = [71, 69, 84, 32, 47];
    if end < 5 || !same_bytes(request, 0, 5, &prefix) {
        return Route::NotFound;
    }
    let stop = find_token_end(request, 5, end);
    let main_js: [u8; 7] = [109, 97, 105, 110, 46, 106, 115];
    let count: [u8; 5] = [99, 111, 117, 110, 116];
    let json: [u8; 4] = [106, 115, 111, 110];
    proof {
        assert(prefix@ == get_prefix());
    }
    if stop == 5 {
        assert(request@.subrange(5, 5) =~= Seq::<u8>::empty());
        Route::Index
    } else if same_bytes(request, 5, stop, &main_js) {
        Route::MainJs
    } else if same_bytes(request, 5, stop, &count) {
        Route::Count
    } else if same_bytes(request, 5, stop, &json) {
        Route::Json
    } else {
        Route::NotFound
    }
}

/// What the status report states besides the live aggregate, fixed when the
/// search starts.
#[derive(Clone, Copy)]
pub struct ServerPayload {
    pub prime_count: u32,
    pub biggest: u32,
    pub n_threads: usize,
    pub lower_bound: u32,
    pub upper_bound: u32,
}

/// The status line of a found resource.
pub open spec fn ok_found() -> Seq<char> {
    "HTTP/1.1 200 Ok\r\n"@
}

/// The whole response for an unknown resource.
pub open spec fn not_found() -> Seq<char> {
    "HTTP/1.1 404 Not Found\r\n\r\n"@
}

/// The headers and body of the JSON resource: an empty array.
pub open spec fn json_text() -> Seq<char> {
    "Content-Type: application/json\r\n"@ + "\r\n"@ + "[]"@
}

/// The response for `route`; `body` is the page (static file or report)
/// served on the index, the script and the count routes.
pub open spec fn response_text(route: Route, body: Seq<char>) -> Seq<char> {
    match route {
        Route::Json => ok_found() + json_text(),
        Route::NotFound => not_found(),
        _ => ok_found() + "\r\n"@ + body,
    }
}

/// `h` hundredths, written with two decimals.
pub open spec fn fixed2(h: nat) -> Seq<char> {
    decimal(h / 100, 1) + "."@ + decimal(h % 100, 2)
}

/// `num / den` in hundredths, rounded to nearest (halves up).
pub open spec fn hundredths(num: nat, den: nat) -> nat {
    (num * 200 + den) / (2 * den)
}

/// `num / den` with two decimals, or `N/A` when `den` is zero.
pub open spec fn ratio_text(num: nat, den: nat) -> Seq<char> {
    if den == 0 {
        "N/A"@
    } else {
        fixed2(hundredths(num, den))
    }
}

/// The share done, in hundredths of a percent, rounded to nearest; zero when
/// there is nothing to do.
pub open spec fn percent_hundredths(done: nat, all: nat) -> nat {
    if all == 0 {
        0
    } else {
        hundredths(done * 100, all)
    }
}

/// A duration of `ns` nanoseconds with two decimals in the largest unit
/// that it reaches (s, ms, µs, ns), rounded to nearest (halves up).
pub open spec fn duration_text(ns: nat) -> Seq<char> {
    if ns >= 1_000_000_000 {
        fixed2(hundredths(ns, 1_000_000_000)) + "s"@
    } else if ns >= 1_000_000 {
        fixed2(hundredths(ns, 1_000_000)) + "ms"@
    } else if ns >= 1_000 {
        fixed2(hundredths(ns, 1_000)) + "µs"@
    } else {
        fixed2(ns * 100) + "ns"@
    }
}

/// A line number, right-aligned in two columns.
pub open spec fn index_text(n: nat) -> Seq<char> {
    if n < 10 {
        " "@ + decimal(n, 1)
    } else {
        decimal(n, 1)
    }
}

/// One line per worker with its processed count, numbered from 1.
pub open spec fn thread_lines(counts: Seq<u32>, n: nat) -> Seq<char>
    decreases n,
{
    if n == 0 {
        Seq::empty()
    } else {
        thread_lines(counts, (n - 1) as nat) + " Thread "@ + decimal(n, 1) + " did: "@ + decimal(
            counts[n - 1] as nat,
            1,
        ) + "\n"@
    }
}

/// One numbered line per found exponent.
pub open spec fn found_lines(found: Seq<u32>, n: nat) -> Seq<char>
    decreases n,
{
    if n == 0 {
        Seq::empty()
    } else {
        found_lines(found, (n - 1) as nat) + index_text(n) + ": "@ + decimal(found[n - 1] as nat, 1)
            + "\n"@
    }
}

/// The live report: the settings, the progress (share done, per-worker
/// counts), the elapsed time and throughput, and the found exponents in the
/// order given.
pub open spec fn report_text(
    payload: ServerPayload,
    processed: Seq<u32>,
    found: Seq<u32>,
    elapsed_ns: nat,
) -> Seq<char> {
    let done = total(processed) as nat;
    "Active threads: "@ + decimal(payload.n_threads as nat, 1) + "\n"@ + "Biggest prime to check: "@
        + decimal(payload.biggest as nat, 1) + "\n"@ + "Lower bound: "@ + decimal(
        payload.lower_bound as nat,
        1,
    ) + "\n"@ + "Upper bound: "@ + decimal(payload.upper_bound as nat, 1) + "\n"@ + "\n"@
        + "Total primes to check: "@ + decimal(payload.prime_count as nat, 1) + "\n"@ + fixed2(
        percent_hundredths(done, payload.prime_count as nat),
    ) + "% done.\n"@ + "Total done: "@ + decimal(done, 1) + "\n"@ + thread_lines(
        processed,
        processed.len(),
    ) + "\n"@ + "Time elapsed: "@ + duration_text(elapsed_ns) + "\n"@ + "Time elapsed per prime: "@
        + ratio_text(elapsed_ns / 1_000_000, done) + "ms\n"@ + "Primes per second: "@ + ratio_text(
        done * 1_000_000_000,
        elapsed_ns,
    ) + "\n"@ + "\n"@ + "Current count: "@ + decimal(found.len(), 1) + "\n"@ + found_lines(
        found,
        found.len(),
    )
}

/// `s` is in non-decreasing order.
pub open spec fn is_sorted(s: Seq<u32>) -> bool {
    forall|i: int, j: int| 0 <= i < j < s.len() ==> s[i] <= s[j]
}

/// Relies on `slice::sort`: the same values, in non-decreasing order.
#[verifier::external_body]
fn sort_values(v: &mut Vec<u32>)
    ensures
        is_sorted(final(v)@),
        final(v)@.to_multiset() == old(v)@.to_multiset(),
{
    v.sort();
}

/// The values of `v` in non-decreasing order.
pub fn sorted(v: &Vec<u32>) -> (r: Vec<u32>)
    ensures
        is_sorted(r@),
        r@.to_multiset() == v@.to_multiset(),
{
    let mut out = v.clone();
    proof {
        assert(out@ =~= v@);
    }
    sort_values(&mut out);
    out
}

fn push_fixed2(out: &mut String, h: u128)
    ensures
        final(out)@ == old(out)@ + fixed2(h as nat),
{
    push_decimal(out, h / 100, 1);
    out.append(".");
    push_decimal(out, h % 100, 2);
    assert(final(out)@ =~= old(out)@ + fixed2(h as nat));
}

fn rounded_hundredths(num: u128, den: u128) -> (r: u128)
    requires
        num < 0x1_0000_0000_0000_0000_0000_0000_0000,
        0 < den < 0x1_0000_0000_0000_0000_0000_0000_0000,
    ensures
        r == hundredths(num as nat, den as nat),
{
    (num * 200 + den) / (2 * den)
}

fn push_ratio(out: &mut String, num: u128, den: u128)
    requires
        num < 0x1_0000_0000_0000_0000_0000_0000_0000,
        den < 0x1_0000_0000_0000_0000_0000_0000_0000,
    ensures
        final(out)@ == old(out)@ + ratio_text(num as nat, den as nat),
{
    if den == 0 {
        out.append("N/A");
    } else {
        push_fixed2(out, rounded_hundredths(num, den));
    }
}

fn push_duration(out: &mut String, ns: u64)
    ensures
        final(out)@ == old(out)@ + duration_text(ns as nat),
{
    let n = ns as u128;
    if n >= 1_000_000_000 {
        push_fixed2(out, rounded_hundredths(n, 1_000_000_000));
        out.append("s");
    } else if n >= 1_000_000 {
        push_fixed2(out, rounded_hundredths(n, 1_000_000));
        out.append("ms");
    } else if n >= 1_000 {
        push_fixed2(out, rounded_hundredths(n, 1_000));
        out.append("µs");
    } else {
        push_fixed2(out, n * 100);
        out.append("ns");
    }
}

fn push_index(out: &mut String, n: u128)
    ensures
        final(out)@ == old(out)@ + index_text(n as nat),
{
    if n < 10 {
        out.append(" ");
    }
    push_decimal(out, n, 1);
}

/// The report body for `/count`, from a snapshot of the aggregate, the
/// payload and the nanoseconds elapsed since the search began. The found
/// exponents are listed in increasing order.
pub fn generate_stats_html(agg: &LiveAggregate, payload: &ServerPayload, elapsed_ns: u64) -> (r: String)
    requires
        agg.processed_seq().len() <= u32::MAX,
    ensures
        exists|s: Seq<u32>|
            is_sorted(s) && s.to_multiset() == agg.found_seq().to_multiset() && r@ == report_text(
                *payload,
                agg.processed_seq(),
                s,
                elapsed_ns as nat,
            ),
{
    let found = sorted(agg.found());
    stats_report(payload, agg.processed(), &found, elapsed_ns)
}

/// The report body for the given per-worker counts and found exponents, in
/// the order given.
pub fn stats_report(payload: &ServerPayload, processed: &Vec<u32>, found: &Vec<u32>, elapsed_ns: u64) -> (r: String)
    requires
        processed@.len() <= u32::MAX,
    ensures
        r@ == report_text(*payload, processed@, found@, elapsed_ns as nat),
{
    let done = total_of(processed);
    let n_counts = processed.len();
    assert(done <= 0xffff_ffff * 0xffff_ffff) by (nonlinear_arith)
        requires
            done <= n_counts * 0xffff_ffff,
            n_counts <= 0xffff_ffff,
    ;
    let mut out = String::from_str("Active threads: ");
    push_decimal(&mut out, payload.n_threads as u128, 1);
    out.append("\n");
    out.append("Biggest prime to check: ");
    push_decimal(&mut out, payload.biggest as u128, 1);
    out.append("\n");
    out.append("Lower bound: ");
    push_decimal(&mut out, payload.lower_bound as u128, 1);
    out.append("\n");
    out.append("Upper bound: ");
    push_decimal(&mut out, payload.upper_bound as u128, 1);
    out.append("\n");
    out.append("\n");
    out.append("Total primes to check: ");
    push_decimal(&mut out, payload.prime_count as u128, 1);
    out.append("\n");
    let pct: u128 = if payload.prime_count == 0 {
        0
    } else {
        rounded_hundredths(done * 100, payload.prime_count as u128)
    };
    push_fixed2(&mut out, pct);
    out.append("% done.\n");
    out.append("Total done: ");
    push_decimal(&mut out, done, 1);
    out.append("\n");
    let ghost head = out@;
    let mut i: usize = 0;
    while i < processed.len()
        invariant
            i <= processed@.len(),
            out@ == head + thread_lines(processed@, i as nat),
        decreases processed@.len() - i,
    {
        out.append(" Thread ");
        push_decimal(&mut out, i as u128 + 1, 1);
        out.append(" did: ");
        push_decimal(&mut out, processed[i] as u128, 1);
        out.append("\n");
        i = i + 1;
    }
    out.append("\n");
    out.append("Time elapsed: ");
    push_duration(&mut out, elapsed_ns);
    out.append("\n");
    out.append("Time elapsed per prime: ");
    push_ratio(&mut out, (elapsed_ns / 1_000_000) as u128, done);
    out.append("ms\n");
    out.append("Primes per second: ");
    push_ratio(&mut out, done * 1_000_000_000, elapsed_ns as u128);
    out.append("\n");
    out.append("\n");
    out.append("Current count: ");
    push_decimal(&mut out, found.len() as u128, 1);
    out.append("\n");
    let ghost head2 = out@;
    let mut j: usize = 0;
    while j < found.len()
        invariant
            j <= found@.len(),
            out@ == head2 + found_lines(found@, j as nat),
        decreases found@.len() - j,
    {
        push_index(&mut out, j as u128 + 1);
        out.append(": ");
        push_decimal(&mut out, found[j] as u128, 1);
        out.append("\n");
        j = j + 1;
    }
    out
}

/// The headers and body served on `/json`.
pub fn generate_json() -> (r: String)
    ensures
        r@ == json_text(),
{
    let mut out = String::from_str("Content-Type: application/json\r\n");
    out.append("\r\n");
    out.append("[]");
    out
}

/// The full response for `route`, with `body` as the page where the route
/// serves one.
pub fn response_for(route: Route, body: &str) -> (r: String)
    ensures
        r@ == response_text(route, body@),
{
    match route {
        Route::Json => {
            let mut out = String::from_str("HTTP/1.1 200 Ok\r\n");
            let json = generate_json();
            out.append(json.as_str());
            out
        },
        Route::NotFound => String::from_str("HTTP/1.1 404 Not Found\r\n\r\n"),
        _ => {
            let mut out = String::from_str("HTTP/1.1 200 Ok\r\n");
            out.append("\r\n");
            out.append(body);
            out
        },
    }
}

} // verus!
