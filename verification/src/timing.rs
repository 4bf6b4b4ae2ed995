//! The monotonic clock.

use nix::errno::Errno;
use nix::time::{clock_gettime, ClockId};
use vstd::prelude::*;

use crate::duration::{Duration, NANOS_PER_SEC};

verus! {

#[verifier::external_type_specification]
#[verifier::external_body]
pub struct ExErrno(nix::errno::Errno);

/// Why the clock could not be read.
#[derive(Clone, Copy, Debug)]
pub enum ClockError {
    /// The system refused.
    Os(Errno),
    /// The reading is before zero or does not fit 64 bits of nanoseconds.
    OutOfRange,
}

/// `nix::time::clock_gettime` of Linux `CLOCK_MONOTONIC`, as whole seconds and
/// nanoseconds. Nothing is claimed of the reading.
#[verifier::external_body]
fn read_monotonic() -> (reading: Result<(i64, i64), Errno>) {
    clock_gettime(ClockId::CLOCK_MONOTONIC).map(|ts| (ts.tv_sec() as i64, ts.tv_nsec() as i64))
}

/// `secs` seconds and `nanos` nanoseconds in nanoseconds, if that is a 64-bit count.
pub fn timestamp_ns(secs: i64, nanos: i64) -> (ns: Option<u64>)
    ensures
        ns is Some <==> secs >= 0 && nanos >= 0 && secs * NANOS_PER_SEC + nanos <= u64::MAX,
        ns matches Some(n) ==> n == secs * NANOS_PER_SEC + nanos,
{
    if secs < 0 || nanos < 0 {
        return None;
    }
    let ns: u128 = secs as u128 * 1_000_000_000 + nanos as u128;
    if ns <= u64::MAX as u128 {
        Some(ns as u64)
    } else {
        None
    }
}

/// A reading of the clock in nanoseconds.
pub fn reading_ns(reading: Result<(i64, i64), Errno>) -> (now: Result<u64, ClockError>)
    ensures
        match reading {
            Ok((secs, nanos)) => {
                let ns = secs * NANOS_PER_SEC + nanos;
                if secs >= 0 && nanos >= 0 && ns <= u64::MAX {
                    now == Ok::<u64, ClockError>(ns as u64)
                } else {
                    now == Err::<u64, ClockError>(ClockError::OutOfRange)
                }
            },
            Err(error) => now == Err::<u64, ClockError>(ClockError::Os(error)),
        },
{
    match reading {
        Ok((secs, nanos)) => match timestamp_ns(secs, nanos) {
            Some(ns) => Ok(ns),
            None => Err(ClockError::OutOfRange),
        },
        Err(error) => Err(ClockError::Os(error)),
    }
}

/// Reads Linux `CLOCK_MONOTONIC` and returns nanoseconds since its unspecified
/// epoch: [`reading_ns`] of the reading, which depends on when it is made.
pub fn now_ns() -> (now: Result<u64, ClockError>) {
    reading_ns(read_monotonic())
}

/// A point on the clock as the whole seconds and nanoseconds that the system
/// takes to sleep until it.
pub fn sleep_target(deadline_ns: u64) -> (target: (i64, i64))
    ensures
        target.0 >= 0,
        0 <= target.1 < NANOS_PER_SEC,
        target.0 * NANOS_PER_SEC + target.1 == deadline_ns,
{
    let secs: u64 = deadline_ns / 1_000_000_000;
    let nanos: u64 = deadline_ns % 1_000_000_000;
    (secs as i64, nanos as i64)
}

/// How a sleep until a point on the clock ended.
#[derive(Clone, Copy, Debug, PartialEq, Eq, Structural)]
pub enum SleepOutcome {
    /// The point was reached.
    Reached,
    /// A signal cut the sleep short.
    Interrupted,
    /// The system refused.
    Failed,
}

/// Whether to go to sleep again until the same point: only an interrupted sleep
/// is taken up again. The point is absolute, so that a late frame does not shift
/// those after it.
pub fn sleep_again(outcome: SleepOutcome) -> (again: bool)
    ensures
        again <==> outcome is Interrupted,
{
    match outcome {
        SleepOutcome::Interrupted => true,
        SleepOutcome::Reached => false,
        SleepOutcome::Failed => false,
    }
}

/// The span of `ns` nanoseconds.
pub fn ns_to_duration(ns: u64) -> (span: Duration)
    ensures
        span@ == ns,
{
    Duration::from_nanos(ns)
}

} // verus!
