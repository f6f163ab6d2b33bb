//! What the benchmark adds up while it runs.

use crate::interval;
use crate::interval::Interval;
use std::time::Instant;
use vstd::prelude::*;

verus! {

/// The requests answered so far and the time that they took, over all
/// connections.
pub struct BenchmarkStats {
    pub total_requests: u64,
    pub total_duration: Interval,
    pub start_time: Instant,
}

impl BenchmarkStats {
    /// The number of requests and the nanoseconds that they took.
    pub open spec fn totals(self) -> (nat, nat) {
        (self.total_requests as nat, self.total_duration@)
    }

    /// There is room for one more request of the given length.
    pub open spec fn has_room_for(self, duration: Interval) -> bool {
        &&& self.total_requests < u64::MAX
        &&& self.total_duration@ + duration@ <= interval::MAX_NANOS
    }

    /// A measurement of the time since the benchmark started can have this
    /// outcome.
    pub closed spec fn measured(self, elapsed: Interval) -> bool {
        call_ensures(interval::elapsed_since, (&self.start_time,), elapsed)
    }

    /// No requests yet, and a benchmark that starts now.
    pub fn new() -> (stats: BenchmarkStats)
        ensures
            stats.totals() == (0nat, 0nat),
            stats.total_requests == 0,
            stats.total_duration@ == 0,
            call_ensures(Instant::now, (), stats.start_time),
    {
        BenchmarkStats::starting_at(interval::read_clock(Instant::now))
    }

    /// No requests yet, and a benchmark that started at the given moment.
    pub fn starting_at(start_time: Instant) -> (stats: BenchmarkStats)
        ensures
            stats.totals() == (0nat, 0nat),
            stats.total_requests == 0,
            stats.total_duration@ == 0,
            stats.start_time == start_time,
    {
        BenchmarkStats { total_requests: 0, total_duration: Interval::zero(), start_time }
    }

    /// Whether there is room for one more request of the given length.
    pub fn can_add(&self, duration: &Interval) -> (yes: bool)
        ensures
            yes == self.has_room_for(*duration),
    {
        self.total_requests < u64::MAX && duration.as_nanos() <= interval::MAX_NANOS
            && self.total_duration.as_nanos() <= interval::MAX_NANOS - duration.as_nanos()
    }

    /// Counts a request that took the given time.
    pub fn add_request(&mut self, duration: Interval)
        requires
            old(self).has_room_for(duration),
        ensures
            final(self).totals() == with_request(old(self).totals(), duration@),
            final(self).total_requests == old(self).total_requests + 1,
            final(self).total_duration@ == old(self).total_duration@ + duration@,
            final(self).start_time == old(self).start_time,
    {
        self.total_requests = self.total_requests + 1;
        self.total_duration = self.total_duration.plus(&duration);
    }

    /// The time since the benchmark started.
    pub fn elapsed(&self) -> (elapsed: Interval)
        ensures
            elapsed.wf(),
            self.measured(elapsed),
    {
        interval::measure(interval::elapsed_since, &self.start_time)
    }

    /// The requests and the time so far, for the number of requests per second,
    /// which is zero for want of a ratio if no time has passed.
    pub fn requests_per_second(&self) -> (ratio: Option<(u64, Interval)>)
        ensures
            ratio matches Some((requests, elapsed)) ==> {
                &&& requests == self.total_requests
                &&& elapsed.wf()
                &&& elapsed@ > 0
            },
            exists|elapsed: Interval|
                #![trigger self.measured(elapsed)]
                self.measured(elapsed) && ratio == (if elapsed@ > 0 {
                    Some((self.total_requests, elapsed))
                } else {
                    None
                }),
    {
        self.requests_over(self.elapsed())
    }

    /// The requests and the time to divide them by, if any time has passed.
    pub fn requests_over(&self, elapsed: Interval) -> (ratio: Option<(u64, Interval)>)
        ensures
            ratio == (if elapsed@ > 0 {
                Some((self.total_requests, elapsed))
            } else {
                None
            }),
    {
        if elapsed.as_nanos() > 0 {
            Some((self.total_requests, elapsed))
        } else {
            None
        }
    }

    /// The whole milliseconds and the requests to divide them by for the
    /// average response time, which is zero for want of a ratio if there were
    /// no requests.
    pub fn average_response_time_ms(&self) -> (ratio: Option<(u128, u64)>)
        ensures
            match ratio {
                Some((millis, requests)) => {
                    &&& self.total_requests > 0
                    &&& millis == self.total_duration@ / 1_000_000
                    &&& requests == self.total_requests
                },
                None => self.total_requests == 0,
            },
    {
        if self.total_requests > 0 {
            Some((self.total_duration.as_millis(), self.total_requests))
        } else {
            None
        }
    }
}

/// The totals with one more request that took `nanos` nanoseconds.
pub open spec fn with_request(totals: (nat, nat), nanos: nat) -> (nat, nat) {
    (totals.0 + 1, totals.1 + nanos)
}

/// The totals after requests that took the given nanoseconds, one after another.
pub open spec fn with_requests(totals: (nat, nat), nanos: Seq<nat>) -> (nat, nat) {
    nanos.fold_left(totals, |sofar: (nat, nat), n: nat| with_request(sofar, n))
}

/// The order in which the connections report their requests does not matter.
pub proof fn lemma_order_of_requests_does_not_matter(
    totals: (nat, nat),
    one: Seq<nat>,
    other: Seq<nat>,
)
    requires
        one.to_multiset() == other.to_multiset(),
    ensures
        with_requests(totals, one) == with_requests(totals, other),
{
    vstd::seq_lib::lemma_fold_left_permutation(
        one,
        other,
        |sofar: (nat, nat), n: nat| with_request(sofar, n),
        totals,
    );
}

/// Every request counts once.
pub proof fn lemma_every_request_counts_once(totals: (nat, nat), nanos: Seq<nat>)
    ensures
        with_requests(totals, nanos).0 == totals.0 + nanos.len(),
    decreases nanos.len(),
{
    reveal_with_fuel(Seq::fold_left, 2);
    if nanos.len() > 0 {
        lemma_every_request_counts_once(totals, nanos.drop_last());
    }
}

/// Remembers how many requests there were at the last look.
pub struct ProgressMeter {
    pub last_requests: u64,
}

impl ProgressMeter {
    /// A meter that has not looked yet.
    pub fn new() -> (meter: ProgressMeter)
        ensures
            meter.last_requests == 0,
    {
        ProgressMeter { last_requests: 0 }
    }

    /// The number of requests since the last look.
    pub fn requests_in_period(&mut self, current_requests: u64) -> (requests: u64)
        requires
            old(self).last_requests <= current_requests,
        ensures
            requests == current_requests - old(self).last_requests,
            final(self).last_requests == current_requests,
    {
        let requests: u64 = current_requests - self.last_requests;
        self.last_requests = current_requests;
        requests
    }
}

/// The time of every request is added to the total, all of it.
pub proof fn lemma_every_nanosecond_counts(totals: (nat, nat), nanos: Seq<nat>)
    ensures
        with_requests(totals, nanos).1 == totals.1 + nanos.fold_left(
            0nat,
            |sum: nat, n: nat| sum + n,
        ),
    decreases nanos.len(),
{
    reveal_with_fuel(Seq::fold_left, 2);
    if nanos.len() > 0 {
        lemma_every_nanosecond_counts(totals, nanos.drop_last());
    }
}

/// One more request adds one to the requests and its length to their time, and
/// both totals are those of the statistics.
pub proof fn lemma_totals_are_the_fields(stats: BenchmarkStats, nanos: nat)
    ensures
        with_request(stats.totals(), nanos).0 == stats.total_requests + 1,
        with_request(stats.totals(), nanos).1 == stats.total_duration@ + nanos,
{
}

/// There is room for every request until the count of a `u64` or the longest
/// length of time is used up.
pub proof fn lemma_room_for_requests(stats: BenchmarkStats, duration: Interval)
    ensures
        stats.has_room_for(duration) <==> stats.total_requests < 0xffff_ffff_ffff_ffff
            && stats.total_duration@ + duration@ <= 18_446_744_073_709_551_615_999_999_999,
{
}

/// What counts as a measurement is what the clock gives for the start of the
/// benchmark, and nothing else.
pub(crate) proof fn lemma_the_clock_measures(stats: BenchmarkStats, elapsed: Interval)
    ensures
        stats.measured(elapsed) <==> call_ensures(
            interval::elapsed_since,
            (&stats.start_time,),
            elapsed,
        ),
{
}

/// The requests per second are those over a time that the clock gives for the
/// start of the benchmark: if there is no ratio, the clock can give no time at
/// all, and otherwise the ratio has all requests and a time that it can give.
pub(crate) proof fn lemma_requests_per_second_rest_on_the_clock(
    stats: BenchmarkStats,
    ratio: Option<(u64, Interval)>,
)
    requires
        call_ensures(BenchmarkStats::requests_per_second, (&stats,), ratio),
    ensures
        match ratio {
            Some((requests, elapsed)) => {
                &&& requests == stats.total_requests
                &&& elapsed@ > 0
                &&& call_ensures(interval::elapsed_since, (&stats.start_time,), elapsed)
            },
            None => exists|elapsed: Interval| #[trigger]
                call_ensures(interval::elapsed_since, (&stats.start_time,), elapsed) && elapsed@
                    == 0,
        },
{
    let elapsed = choose|elapsed: Interval| #[trigger]
        stats.measured(elapsed) && ratio == (if elapsed@ > 0 {
            Some((stats.total_requests, elapsed))
        } else {
            None
        });
    assert(call_ensures(interval::elapsed_since, (&stats.start_time,), elapsed));
}

} // verus!
