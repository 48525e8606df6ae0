//! The live aggregate shared by the workers: the Mersenne exponents found
//! so far, in the order they were reported, and one processed-candidate
//! counter per worker.
use vstd::prelude::*;
use vstd::multiset::Multiset;
use crate::primes::lucas_lehmer;
use crate::distributor::{stride_count, shares_total, lemma_shares_cover};

verus! {

/// The search's shared record. Workers append to `found` and bump their own
/// counter in `processed`; the status report only reads it. The fields are
/// reached through the methods alone, so `found` only grows and each counter
/// only goes up.
pub struct LiveAggregate {
    found: Vec<u32>,
    processed: Vec<u32>,
}

/// One finished candidate, as a worker reports it.
pub struct Completion {
    pub worker: usize,
    pub candidate: u32,
    pub is_mersenne: bool,
}

/// `found` after one completion: the candidate is appended when it passed.
pub open spec fn found_step(found: Seq<u32>, e: Completion) -> Seq<u32> {
    if e.is_mersenne {
        found.push(e.candidate)
    } else {
        found
    }
}

/// `found` after a sequence of completions, in the order they happened.
pub open spec fn found_after(found: Seq<u32>, events: Seq<Completion>) -> Seq<u32>
    decreases events.len(),
{
    if events.len() == 0 {
        found
    } else {
        found_step(found_after(found, events.drop_last()), events.last())
    }
}

/// How many of `events` report a Mersenne exponent.
pub open spec fn passed_count(events: Seq<Completion>) -> nat
    decreases events.len(),
{
    if events.len() == 0 {
        0
    } else {
        passed_count(events.drop_last()) + if events.last().is_mersenne { 1nat } else { 0nat }
    }
}

/// The candidates that `events` report as Mersenne exponents, with
/// multiplicity.
pub open spec fn passed_values(events: Seq<Completion>) -> Multiset<u32>
    decreases events.len(),
{
    if events.len() == 0 {
        Multiset::empty()
    } else if events.last().is_mersenne {
        passed_values(events.drop_last()).insert(events.last().candidate)
    } else {
        passed_values(events.drop_last())
    }
}

/// `p` was reported as a Mersenne exponent by one of `events`.
pub open spec fn reported(events: Seq<Completion>, p: u32) -> bool {
    exists|i: int| 0 <= i < events.len() && #[trigger] events[i].candidate == p && events[i].is_mersenne
}

/// The counters after a sequence of completions: each raises its worker's
/// counter by one.
pub open spec fn processed_after(processed: Seq<u32>, events: Seq<Completion>) -> Seq<u32>
    decreases events.len(),
{
    if events.len() == 0 {
        processed
    } else {
        let before = processed_after(processed, events.drop_last());
        let w = events.last().worker as int;
        before.update(w, (before[w] + 1) as u32)
    }
}

/// `n` counters at zero.
pub open spec fn zeros(n: nat) -> Seq<u32> {
    Seq::new(n, |i: int| 0u32)
}

/// The sum of the counters.
pub open spec fn total(counts: Seq<u32>) -> int
    decreases counts.len(),
{
    if counts.len() == 0 {
        0
    } else {
        total(counts.drop_last()) + counts.last()
    }
}

/// The number of completions that came from `worker`.
pub open spec fn worker_count(events: Seq<Completion>, worker: int) -> nat
    decreases events.len(),
{
    if events.len() == 0 {
        0
    } else {
        worker_count(events.drop_last(), worker) + if events.last().worker == worker { 1nat } else { 0nat }
    }
}

impl LiveAggregate {
    /// The exponents found so far, in the order they were recorded.
    pub closed spec fn found_seq(&self) -> Seq<u32> {
        self.found@
    }

    /// The per-worker counters of processed candidates.
    pub closed spec fn processed_seq(&self) -> Seq<u32> {
        self.processed@
    }

    /// The exponents found so far, in the order they were recorded.
    pub fn found(&self) -> (r: &Vec<u32>)
        ensures
            r@ == self.found_seq(),
    {
        &self.found
    }

    /// The per-worker counters of processed candidates.
    pub fn processed(&self) -> (r: &Vec<u32>)
        ensures
            r@ == self.processed_seq(),
    {
        &self.processed
    }

    /// An empty aggregate for `workers` workers: nothing found, every counter
    /// at zero.
    pub fn new(workers: usize) -> (r: LiveAggregate)
        ensures
            r.found_seq() == Seq::<u32>::empty(),
            r.processed_seq() == zeros(workers as nat),
    {
        let mut processed: Vec<u32> = Vec::new();
        let mut i: usize = 0;
        while i < workers
            invariant
                i <= workers,
                processed@ == Seq::new(i as nat, |k: int| 0u32),
            decreases workers - i,
        {
            processed.push(0);
            i = i + 1;
            assert(processed@ =~= Seq::new(i as nat, |k: int| 0u32));
        }
        assert(processed@ =~= zeros(workers as nat));
        LiveAggregate { found: Vec::new(), processed }
    }

    /// Appends a confirmed Mersenne exponent.
    pub fn record_found(&mut self, p: u32)
        ensures
            final(self).found_seq() == old(self).found_seq().push(p),
            final(self).processed_seq() == old(self).processed_seq(),
    {
        self.found.push(p);
    }

    /// Counts one more candidate processed by `worker`.
    pub fn increment_processed(&mut self, worker: usize)
        requires
            worker < old(self).processed_seq().len(),
            old(self).processed_seq()[worker as int] < u32::MAX,
        ensures
            final(self).found_seq() == old(self).found_seq(),
            final(self).processed_seq() == old(self).processed_seq().update(
                worker as int,
                (old(self).processed_seq()[worker as int] + 1) as u32,
            ),
    {
        let n = self.processed[worker];
        self.processed.set(worker, n + 1);
    }

    /// Records that `worker` finished `candidate`: the exponent is appended
    /// when it passed the test, and the worker's counter goes up by one.
    pub fn complete(&mut self, worker: usize, candidate: u32, is_mersenne: bool)
        requires
            worker < old(self).processed_seq().len(),
            old(self).processed_seq()[worker as int] < u32::MAX,
        ensures
            final(self).found_seq() == found_step(
                old(self).found_seq(),
                Completion { worker, candidate, is_mersenne },
            ),
            final(self).processed_seq() == old(self).processed_seq().update(
                worker as int,
                (old(self).processed_seq()[worker as int] + 1) as u32,
            ),
    {
        if is_mersenne {
            self.record_found(candidate);
        }
        self.increment_processed(worker);
    }

    /// A copy of the aggregate at this instant.
    pub fn snapshot(&self) -> (r: LiveAggregate)
        ensures
            r.found_seq() == self.found_seq(),
            r.processed_seq() == self.processed_seq(),
    {
        LiveAggregate { found: copy_values(&self.found), processed: copy_values(&self.processed) }
    }

    /// The number of candidates processed so far, over all workers.
    pub fn total_processed(&self) -> (r: u128)
        ensures
            r == total(self.processed_seq()),
            r <= self.processed_seq().len() * 0xffff_ffff,
    {
        total_of(&self.processed)
    }
}

/// The sum of the counters, which cannot overflow a `u128`.
pub fn total_of(counts: &Vec<u32>) -> (r: u128)
    ensures
        r == total(counts@),
        r <= counts@.len() * 0xffff_ffff,
{
    let mut sum: u128 = 0;
    let mut i: usize = 0;
    while i < counts.len()
        invariant
            i <= counts@.len(),
            sum == total(counts@.subrange(0, i as int)),
            sum <= i * 0xffff_ffff,
        decreases counts@.len() - i,
    {
        proof {
            let s = counts@.subrange(0, i as int + 1);
            assert(s.drop_last() =~= counts@.subrange(0, i as int));
        }
        sum = sum + counts[i] as u128;
        i = i + 1;
    }
    assert(counts@.subrange(0, i as int) =~= counts@);
    sum
}

fn copy_values(v: &Vec<u32>) -> (r: Vec<u32>)
    ensures
        r@ == v@,
{
    let mut out: Vec<u32> = Vec::new();
    let mut i: usize = 0;
    while i < v.len()
        invariant
            i <= v@.len(),
            out@ == v@.subrange(0, i as int),
        decreases v@.len() - i,
    {
        out.push(v[i]);
        i = i + 1;
        assert(out@ =~= v@.subrange(0, i as int));
    }
    assert(v@.subrange(0, i as int) =~= v@);
    out
}

/// No report is lost: whatever the order of the completions, `found` grows by
/// exactly one entry for each completion that passed.
pub proof fn lemma_no_entry_lost(found: Seq<u32>, events: Seq<Completion>)
    ensures
        found_after(found, events).len() == found.len() + passed_count(events),
    decreases events.len(),
{
    if events.len() > 0 {
        lemma_no_entry_lost(found, events.drop_last());
    }
}

/// No report is lost or doubled: whatever the order of the completions,
/// `found` ends with what it held before plus each passing candidate once
/// per report, counted with multiplicity.
pub proof fn lemma_found_multiset(found: Seq<u32>, events: Seq<Completion>)
    ensures
        found_after(found, events).to_multiset() =~= found.to_multiset().add(passed_values(events)),
    decreases events.len(),
{
    broadcast use vstd::seq_lib::group_to_multiset_ensures;

    if events.len() > 0 {
        lemma_found_multiset(found, events.drop_last());
        let before = found_after(found, events.drop_last());
        if events.last().is_mersenne {
            assert(before.push(events.last().candidate).to_multiset() =~= before.to_multiset().insert(
                events.last().candidate,
            ));
        }
    }
}

/// After any sequence of completions, `found` holds exactly what it held
/// before and the candidates that were reported as passing.
pub proof fn lemma_found_members(found: Seq<u32>, events: Seq<Completion>, p: u32)
    ensures
        found_after(found, events).contains(p) <==> (found.contains(p) || reported(events, p)),
    decreases events.len(),
{
    if events.len() > 0 {
        let rest = events.drop_last();
        let e = events.last();
        lemma_found_members(found, rest, p);
        let before = found_after(found, rest);
        if reported(rest, p) {
            let i = choose|i: int| 0 <= i < rest.len() && #[trigger] rest[i].candidate == p && rest[i].is_mersenne;
            assert(events[i] == rest[i]);
        }
        if reported(events, p) && !reported(rest, p) {
            let i = choose|i: int| 0 <= i < events.len() && #[trigger] events[i].candidate == p && events[i].is_mersenne;
            if i < rest.len() {
                assert(rest[i] == events[i]);
            }
        }
        if e.is_mersenne {
            if before.contains(p) {
                let i = choose|i: int| 0 <= i < before.len() && before[i] == p;
                assert(before.push(e.candidate)[i] == p);
            }
            if e.candidate == p {
                assert(before.push(e.candidate)[before.len() as int] == p);
                assert(events[events.len() - 1].candidate == p);
            }
            if before.push(e.candidate).contains(p) && e.candidate != p {
                let i = choose|i: int| 0 <= i < before.len() + 1 && before.push(e.candidate)[i] == p;
                assert(before[i] == p);
            }
        }
    }
}

/// The outcome of a whole search does not depend on the number of workers
/// nor on the order in which they report: once every candidate has been
/// completed with the verdict of the Lucas–Lehmer test, the set of found
/// exponents is what it was at the start plus the candidates that pass.
pub proof fn lemma_found_set_of_run(found: Seq<u32>, events: Seq<Completion>, candidates: Seq<u32>)
    requires
        forall|i: int| 0 <= i < events.len() ==> #[trigger] events[i].is_mersenne == lucas_lehmer(
            events[i].candidate as nat,
        ),
        forall|c: u32|
            candidates.contains(c) <==> exists|i: int| 0 <= i < events.len() && #[trigger] events[i].candidate == c,
    ensures
        found_after(found, events).to_set() == found.to_set().union(
            candidates.to_set().filter(|c: u32| lucas_lehmer(c as nat)),
        ),
{
    let lhs = found_after(found, events).to_set();
    let rhs = found.to_set().union(candidates.to_set().filter(|c: u32| lucas_lehmer(c as nat)));
    assert forall|p: u32| lhs.contains(p) <==> rhs.contains(p) by {
        lemma_found_members(found, events, p);
        if candidates.contains(p) && lucas_lehmer(p as nat) {
            let i = choose|i: int| 0 <= i < events.len() && #[trigger] events[i].candidate == p;
            assert(reported(events, p));
        }
        if reported(events, p) {
            let i = choose|i: int| 0 <= i < events.len() && #[trigger] events[i].candidate == p && events[i].is_mersenne;
            assert(candidates.contains(p));
        }
    }
    assert(lhs =~= rhs);
}

/// One counted candidate raises the total by exactly one.
pub proof fn lemma_total_step(counts: Seq<u32>, worker: int)
    requires
        0 <= worker < counts.len(),
        counts[worker] < u32::MAX,
    ensures
        total(counts.update(worker, (counts[worker] + 1) as u32)) == total(counts) + 1,
    decreases counts.len(),
{
    let updated = counts.update(worker, (counts[worker] + 1) as u32);
    if worker == counts.len() - 1 {
        assert(updated.drop_last() =~= counts.drop_last());
    } else {
        lemma_total_step(counts.drop_last(), worker);
        assert(updated.drop_last() =~= counts.drop_last().update(worker, (counts[worker] + 1) as u32));
    }
}

proof fn lemma_stride_count_bound(len: nat, w: nat, n: nat)
    ensures
        stride_count(len, w, n) <= len,
    decreases len,
{
    if len > 0 {
        lemma_stride_count_bound((len - 1) as nat, w, n);
    }
}

/// From zeros, each counter ends at the number of completions of its worker.
proof fn lemma_counts_track(workers: nat, events: Seq<Completion>)
    requires
        forall|i: int| 0 <= i < events.len() ==> #[trigger] events[i].worker < workers,
        forall|w: nat| w < workers ==> #[trigger] worker_count(events, w as int) < u32::MAX,
    ensures
        processed_after(zeros(workers), events).len() == workers,
        forall|w: nat| w < workers ==> #[trigger] processed_after(zeros(workers), events)[w as int]
            == worker_count(events, w as int),
    decreases events.len(),
{
    if events.len() > 0 {
        let rest = events.drop_last();
        assert forall|i: int| 0 <= i < rest.len() implies #[trigger] rest[i].worker < workers by {
            assert(rest[i] == events[i]);
        }
        assert forall|w: nat| w < workers implies #[trigger] worker_count(rest, w as int) < u32::MAX by {
            assert(worker_count(rest, w as int) <= worker_count(events, w as int));
        }
        lemma_counts_track(workers, rest);
        assert(events[events.len() - 1].worker < workers);
    }
}

proof fn lemma_total_of_shares(s: Seq<u32>, len: nat, workers: nat, m: nat)
    requires
        m <= s.len() == workers,
        forall|w: nat| w < workers ==> #[trigger] s[w as int] == stride_count(len, w, workers),
    ensures
        total(s.subrange(0, m as int)) == shares_total(len, workers, m),
    decreases m,
{
    if m > 0 {
        lemma_total_of_shares(s, len, workers, (m - 1) as nat);
        assert(s.subrange(0, m as int).drop_last() =~= s.subrange(0, m - 1));
        assert(s[(m - 1) as int] == stride_count(len, (m - 1) as nat, workers));
    }
}

/// Once every worker has completed its whole share of the `len` candidates,
/// in any interleaving, the counters started at zero add up to exactly
/// `len`, whatever the number of workers.
pub proof fn lemma_counts_add_up(events: Seq<Completion>, len: nat, workers: nat)
    requires
        workers >= 1,
        len < u32::MAX,
        forall|i: int| 0 <= i < events.len() ==> #[trigger] events[i].worker < workers,
        forall|w: nat| w < workers ==> #[trigger] worker_count(events, w as int) == stride_count(len, w, workers),
    ensures
        total(processed_after(zeros(workers), events)) == len,
{
    assert forall|w: nat| w < workers implies #[trigger] worker_count(events, w as int) < u32::MAX by {
        lemma_stride_count_bound(len, w, workers);
    }
    lemma_counts_track(workers, events);
    let s = processed_after(zeros(workers), events);
    lemma_total_of_shares(s, len, workers, workers);
    assert(s.subrange(0, workers as int) =~= s);
    lemma_shares_cover(len, workers);
}

} // verus!
