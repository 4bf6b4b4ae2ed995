//! Spans of time with nanosecond resolution.

use vstd::prelude::*;

verus! {

/// Nanoseconds in one second.
pub const NANOS_PER_SEC: u64 = 1_000_000_000;

/// The longest span, in nanoseconds: the last nanosecond of second `u64::MAX`.
pub const MAX_NANOS: u128 = 18_446_744_073_709_551_615_999_999_999;

/// A non-negative span of time, at most [`MAX_NANOS`] nanoseconds long.
#[derive(Clone, Copy, Debug, PartialEq, Eq, Structural)]
pub struct Duration {
    nanos: u128,
}

impl View for Duration {
    type V = nat;

    /// The whole span in nanoseconds.
    closed spec fn view(&self) -> nat {
        self.nanos as nat
    }
}

impl Duration {
    #[verifier::type_invariant]
    spec fn well_formed(self) -> bool {
        self.nanos <= MAX_NANOS
    }

    /// The span of `ns` nanoseconds.
    pub fn from_nanos(ns: u64) -> (span: Duration)
        ensures
            span@ == ns,
    {
        Duration { nanos: ns as u128 }
    }

    /// The span of `secs` seconds.
    pub fn from_secs(secs: u64) -> (span: Duration)
        ensures
            span@ == secs * NANOS_PER_SEC,
            span@ == secs * 1_000_000_000,
    {
        Duration { nanos: secs as u128 * 1_000_000_000 }
    }

    /// The span in nanoseconds.
    pub fn as_nanos(&self) -> (ns: u128)
        ensures
            ns == self@,
            ns <= MAX_NANOS,
    {
        proof {
            use_type_invariant(self);
        }
        self.nanos
    }

    /// The whole seconds of the span.
    pub fn as_secs(&self) -> (secs: u64)
        ensures
            secs == self@ / NANOS_PER_SEC as nat,
    {
        proof {
            use_type_invariant(self);
        }
        (self.nanos / NANOS_PER_SEC as u128) as u64
    }

    /// The nanoseconds of the span beyond its whole seconds.
    pub fn subsec_nanos(&self) -> (nanos: u32)
        ensures
            nanos == self@ % NANOS_PER_SEC as nat,
    {
        (self.nanos % NANOS_PER_SEC as u128) as u32
    }

    /// The span in nanoseconds, cut off at the largest 64-bit count.
    pub fn clamped_nanos(&self) -> (ns: u64)
        ensures
            ns == clamp_u64(self@),
    {
        clamp_to_u64(self.nanos)
    }
}

/// `n`, cut off at the largest 64-bit count.
pub(crate) fn clamp_to_u64(n: u128) -> (clamped: u64)
    ensures
        clamped == clamp_u64(n as nat),
{
    if n < u64::MAX as u128 {
        n as u64
    } else {
        u64::MAX
    }
}

/// `n`, cut off at the largest 64-bit count.
pub open spec fn clamp_u64(n: nat) -> u64 {
    if n < u64::MAX {
        n as u64
    } else {
        u64::MAX
    }
}

/// A count is cut off at the largest 64-bit count and is left alone below it.
pub proof fn clamping_keeps_what_fits(n: nat)
    ensures
        n <= u64::MAX ==> clamp_u64(n) == n,
        n > u64::MAX ==> clamp_u64(n) == 0xffff_ffff_ffff_ffff,
{
}

/// Spans of the same number of nanoseconds are the same value.
pub broadcast proof fn duration_is_its_nanos(a: Duration, b: Duration)
    ensures
        #![trigger a.view(), b.view()]
        a@ == b@ ==> a == b,
{
}

} // verus!
