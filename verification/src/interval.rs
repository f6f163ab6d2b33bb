//! Lengths of time, to the nanosecond.

use std::time::Instant;
use vstd::prelude::*;

verus! {

/// The longest length of time: a nanosecond short of two to the power of 64
/// seconds.
pub const MAX_NANOS: u128 = 18_446_744_073_709_551_615_999_999_999;

/// A length of time.
#[derive(Clone, Copy)]
pub struct Interval {
    nanos: u128,
}

impl View for Interval {
    type V = nat;

    /// The length in nanoseconds.
    closed spec fn view(&self) -> nat {
        self.nanos as nat
    }
}

impl Interval {
    /// The length is not beyond the longest one.
    pub open spec fn wf(self) -> bool {
        self@ <= MAX_NANOS
    }

    /// No time at all.
    pub fn zero() -> (interval: Interval)
        ensures
            interval.wf(),
            interval@ == 0,
    {
        Interval { nanos: 0 }
    }

    /// A number of seconds.
    pub fn from_secs(secs: u64) -> (interval: Interval)
        ensures
            interval.wf(),
            interval@ == secs * 1_000_000_000,
    {
        Interval { nanos: secs as u128 * 1_000_000_000 }
    }

    /// A number of nanoseconds.
    pub fn from_nanos(nanos: u128) -> (interval: Interval)
        requires
            nanos <= MAX_NANOS,
        ensures
            interval.wf(),
            interval@ == nanos,
    {
        Interval { nanos }
    }

    /// The length in nanoseconds.
    pub fn as_nanos(&self) -> (nanos: u128)
        ensures
            nanos == self@,
    {
        self.nanos
    }

    /// The length in whole milliseconds.
    pub fn as_millis(&self) -> (millis: u128)
        ensures
            millis == self@ / 1_000_000,
    {
        self.nanos / 1_000_000
    }

    /// Whether the length is at least that of the other one.
    pub fn at_least(&self, other: &Interval) -> (yes: bool)
        ensures
            yes == (self@ >= other@),
    {
        self.nanos >= other.nanos
    }

    /// Both lengths one after the other.
    pub fn plus(&self, other: &Interval) -> (sum: Interval)
        requires
            self@ + other@ <= MAX_NANOS,
        ensures
            sum.wf(),
            sum@ == self@ + other@,
    {
        Interval { nanos: self.nanos + other.nanos }
    }
}

/// `std::time::Instant`, a reading of the clock.
#[verifier::external_type_specification]
#[verifier::external_body]
pub struct ExInstant(std::time::Instant);

/// `std::time::Instant::now`. Nothing is said of the reading: it depends on the
/// moment.
pub assume_specification[ std::time::Instant::now ]() -> (reading: Instant);

/// Calls `std::time::Instant::elapsed`. All that is said of the time since
/// `start` is that it is no longer than the longest `std::time::Duration`: the
/// rest depends on the moment.
#[verifier::external_body]
pub(crate) fn elapsed_since(start: &Instant) -> (elapsed: Interval)
    ensures
        elapsed.wf(),
{
    Interval { nanos: start.elapsed().as_nanos() }
}

/// Asks `clock` for the moment.
pub(crate) fn read_clock<F: Fn() -> Instant>(clock: F) -> (reading: Instant)
    requires
        call_requires(clock, ()),
    ensures
        call_ensures(clock, (), reading),
{
    clock()
}

/// Hands `start` to `clock` and gives back what it measures.
pub(crate) fn measure<F: Fn(&Instant) -> Interval>(clock: F, start: &Instant) -> (elapsed: Interval)
    requires
        call_requires(clock, (start,)),
    ensures
        call_ensures(clock, (start,), elapsed),
{
    clock(start)
}

} // verus!
