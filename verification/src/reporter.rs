//! Periodic summaries of frame latencies.

use vstd::prelude::*;

use crate::duration::{clamp_to_u64, clamp_u64, Duration};
use crate::schedule::{advance_past, first_after, first_after_is_next_on_the_grid};
use crate::stats::{summarises, Summary};

verus! {

/// What the reporter is to do next.
#[derive(Clone, Copy, Debug)]
pub enum ReporterAction {
    /// Print a summary of the interval, tell the dashboard, and look at the clock.
    Report { summary: Option<Summary> },
    /// Wait for a sample, at most this many nanoseconds.
    Wait { timeout_ns: u64 },
}

/// How a wait for a sample ended.
#[derive(Clone, Copy, Debug, PartialEq, Eq, Structural)]
pub enum Received {
    /// A frame of this latency was finished.
    Sample { latency: Duration },
    /// Nothing came in time.
    Timeout,
    /// No more frames will come.
    Disconnected,
}

/// The reporter as plain values.
pub struct ReporterState {
    pub interval: u64,
    pub next_report: u64,
    pub samples: Seq<Duration>,
}

/// Collects latencies and summarises them at fixed intervals.
pub struct Reporter {
    interval_ns: u64,
    next_report: u64,
    samples: Vec<Duration>,
}

impl View for Reporter {
    type V = ReporterState;

    closed spec fn view(&self) -> ReporterState {
        ReporterState {
            interval: self.interval_ns,
            next_report: self.next_report,
            samples: self.samples@,
        }
    }
}

impl Reporter {
    #[verifier::type_invariant]
    spec fn well_formed(self) -> bool {
        self.interval_ns > 0
    }

    /// A reporter that reports every `interval`, for the first time an interval
    /// after `started`, or after zero where the clock could not be read.
    pub fn new(interval: Duration, started: Option<u64>) -> (reporter: Reporter)
        requires
            interval@ > 0,
        ensures
            reporter@.interval == clamp_u64(interval@),
            reporter@.interval > 0,
            reporter@.next_report == clamp_u64(
                (reporter@.interval + match started {
                    Some(now) => now,
                    None => 0,
                }) as nat,
            ),
            reporter@.samples == Seq::<Duration>::empty(),
    {
        let interval_ns: u64 = interval.clamped_nanos();
        let started: u64 = match started {
            Some(now) => now,
            None => 0,
        };
        Reporter {
            interval_ns,
            next_report: started.saturating_add(interval_ns),
            samples: Vec::new(),
        }
    }

    /// Looks at the clock. Where the report is due, or the clock could not be read,
    /// it is made of the samples since the last one, and the next one is due at the
    /// first of the following intervals that is still to come.
    pub fn poll(self, now: Option<u64>) -> (r: (Reporter, ReporterAction))
        ensures
            r.0@.interval == self@.interval,
            r.0@.interval > 0,
            ({
                let due = match now {
                    Some(now) => now >= self@.next_report,
                    None => true,
                };
                let at = match now {
                    Some(now) => now,
                    None => self@.next_report,
                };
                if due {
                    &&& r.1 matches ReporterAction::Report { summary } && summarises(
                        summary,
                        self@.samples,
                    )
                    &&& r.0@.samples == Seq::<Duration>::empty()
                    &&& r.0@.next_report == clamp_u64(
                        first_after(self@.next_report as nat, self@.interval as nat, at as nat),
                    )
                } else {
                    &&& r.1 == ReporterAction::Wait { timeout_ns: (self@.next_report - at) as u64 }
                    &&& r.0@ == self@
                }
            }),
    {
        proof {
            use_type_invariant(&self);
        }
        let at: u64 = match now {
            Some(now) => now,
            None => self.next_report,
        };
        if at >= self.next_report {
            let summary = Summary::from_samples(self.samples.as_slice());
            let after: u128 = advance_past(
                self.next_report as u128,
                self.interval_ns as u128,
                at as u128,
            );
            let next = Reporter {
                interval_ns: self.interval_ns,
                next_report: clamp_to_u64(after),
                samples: Vec::new(),
            };
            (next, ReporterAction::Report { summary })
        } else {
            let timeout_ns: u64 = self.next_report - at;
            (self, ReporterAction::Wait { timeout_ns })
        }
    }

    /// Takes note of how a wait ended, and says whether to go on.
    pub fn receive(self, received: Received) -> (r: (Reporter, bool))
        ensures
            r.1 <==> !(received is Disconnected),
            r.0@.interval == self@.interval,
            r.0@.interval > 0,
            r.0@.next_report == self@.next_report,
            r.0@.samples == match received {
                Received::Sample { latency } => self@.samples.push(latency),
                _ => self@.samples,
            },
    {
        proof {
            use_type_invariant(&self);
        }
        match received {
            Received::Sample { latency } => {
                let mut samples = self.samples;
                samples.push(latency);
                let next = Reporter {
                    interval_ns: self.interval_ns,
                    next_report: self.next_report,
                    samples,
                };
                (next, true)
            },
            Received::Timeout => (self, true),
            Received::Disconnected => (self, false),
        }
    }
}

/// After a report the next one is still to come, at most an interval away, and at
/// a whole number of intervals after the last, as far as 64 bits of nanoseconds
/// reach.
pub proof fn next_report_is_ahead(next_report: u64, interval: u64, now: u64)
    requires
        interval > 0,
        next_report <= now,
        now + interval < u64::MAX,
    ensures
        ({
            let next = clamp_u64(
                first_after(next_report as nat, interval as nat, now as nat),
            );
            &&& now < next <= now + interval
            &&& (next - next_report) % (interval as int) == 0
        }),
{
    first_after_is_next_on_the_grid(next_report as nat, interval as nat, now as nat);
}

} // verus!
