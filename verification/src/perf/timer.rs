//! The timing buckets of a perf log. Measuring time and writing the log
//! are done by the caller.

use vstd::prelude::*;

use std::time::Duration;

verus! {

/// A named span of time.
#[derive(Debug)]
pub struct PerfBucket {
    pub name: &'static str,
    pub duration: Duration,
}

/// Where perf-log lines go.
#[derive(Debug, Clone, PartialEq, Eq)]
pub enum PerfDestination {
    Stderr,
    File(String),
}

/// The buckets of a perf log, kept only while the log is enabled.
#[derive(Debug)]
pub struct PerfLog {
    enabled: bool,
    buckets: Vec<PerfBucket>,
}

impl PerfLog {
    pub closed spec fn is_enabled(&self) -> bool {
        self.enabled
    }

    /// The recorded buckets, oldest first.
    pub closed spec fn recorded(&self) -> Seq<PerfBucket> {
        self.buckets@
    }

    pub fn new(enabled: bool) -> (log: Self)
        ensures
            log.is_enabled() == enabled,
            log.recorded() == Seq::<PerfBucket>::empty(),
    {
        PerfLog { enabled, buckets: Vec::new() }
    }

    pub fn enabled(&self) -> (enabled: bool)
        ensures
            enabled == self.is_enabled(),
    {
        self.enabled
    }

    /// Keeps a bucket when the log is enabled; a disabled log keeps nothing.
    pub fn record(&mut self, name: &'static str, duration: Duration)
        ensures
            final(self).is_enabled() == old(self).is_enabled(),
            final(self).recorded() == if old(self).is_enabled() {
                old(self).recorded().push(PerfBucket { name, duration })
            } else {
                old(self).recorded()
            },
    {
        if self.enabled {
            self.buckets.push(PerfBucket { name, duration });
        }
    }

    /// Records the step `name` that took `elapsed` and gave `value`, and
    /// hands the value back.
    pub fn time<T>(&mut self, name: &'static str, elapsed: Duration, value: T) -> (result: T)
        ensures
            result == value,
            final(self).is_enabled() == old(self).is_enabled(),
            final(self).recorded() == if old(self).is_enabled() {
                old(self).recorded().push(PerfBucket { name, duration: elapsed })
            } else {
                old(self).recorded()
            },
    {
        self.record(name, elapsed);
        value
    }

    /// Records the step `name` that took `elapsed`, whether it succeeded or
    /// failed, and hands its result back unchanged.
    pub fn time_result<T, E>(&mut self, name: &'static str, elapsed: Duration, result: Result<T, E>) -> (given: Result<
        T,
        E,
    >)
        ensures
            given == result,
            final(self).is_enabled() == old(self).is_enabled(),
            final(self).recorded() == if old(self).is_enabled() {
                old(self).recorded().push(PerfBucket { name, duration: elapsed })
            } else {
                old(self).recorded()
            },
    {
        self.record(name, elapsed);
        result
    }

    /// The recorded buckets, oldest first.
    pub fn into_buckets(self) -> (buckets: Vec<PerfBucket>)
        ensures
            buckets@ == self.recorded(),
    {
        self.buckets
    }
}

} // verus!
