//! The CPU worker: a thread that is busy for a set share of its time.

use vstd::prelude::*;

verus! {

/// The length of a duty cycle in nanoseconds. Lower utilization values use a short
/// duty cycle; keeping it fixed bounds sleep and wake granularity.
pub const DUTY_PERIOD_NS: u64 = 10_000_000;

/// How many rounds of arithmetic the worker does between looks at the clock.
pub const BATCH_ROUNDS: usize = 256;

/// The value that the arithmetic begins with.
pub const SEED: u64 = 0x9e37_79b9_7f4a_7c15;

/// How many nanoseconds of a duty cycle the worker is busy at `utilization` percent.
pub open spec fn busy_of(utilization: u8) -> nat {
    (DUTY_PERIOD_NS * utilization) as nat / 100
}

/// How many nanoseconds the worker sleeps `elapsed` nanoseconds into a duty cycle:
/// what is left of the cycle. At full utilization it stays runnable all the time.
pub open spec fn rest_of(utilization: u8, elapsed: nat) -> Option<nat> {
    if utilization < 100 {
        Some(
            if elapsed < DUTY_PERIOD_NS {
                (DUTY_PERIOD_NS - elapsed) as nat
            } else {
                0
            },
        )
    } else {
        None
    }
}

/// How many nanoseconds of a duty cycle the worker is busy at `utilization` percent.
pub fn busy_ns(utilization: u8) -> (ns: u64)
    ensures
        ns == busy_of(utilization),
        ns * 100 == DUTY_PERIOD_NS * utilization,
        ns == 100_000 * utilization,
{
    utilization as u64 * 100_000
}

/// Whether the worker stays busy `elapsed_ns` nanoseconds into a duty cycle.
pub fn stays_busy(utilization: u8, elapsed_ns: u64, stop: bool) -> (busy: bool)
    ensures
        busy <==> elapsed_ns < busy_of(utilization) && !stop,
        busy <==> elapsed_ns < 100_000 * utilization && !stop,
{
    elapsed_ns < busy_ns(utilization) && !stop
}

/// How many nanoseconds the worker sleeps when it is done being busy `elapsed_ns`
/// nanoseconds into a duty cycle.
pub fn rest_ns(utilization: u8, elapsed_ns: u64) -> (rest: Option<u64>)
    ensures
        rest is Some <==> rest_of(utilization, elapsed_ns as nat) is Some,
        rest matches Some(ns) ==> rest_of(utilization, elapsed_ns as nat) == Some(ns as nat),
        rest is None <==> utilization >= 100,
        rest matches Some(ns) ==> {
            &&& elapsed_ns <= 10_000_000 ==> elapsed_ns + ns == 10_000_000
            &&& elapsed_ns > 10_000_000 ==> ns == 0
        },
{
    if utilization < 100 {
        Some(DUTY_PERIOD_NS.saturating_sub(elapsed_ns))
    } else {
        None
    }
}

/// A worker that is done being busy on time sleeps for the rest of its cycle, so
/// that it is busy for `utilization` percent of it.
pub proof fn busy_and_rest_make_a_cycle(utilization: u8)
    requires
        utilization < 100,
    ensures
        rest_of(utilization, busy_of(utilization)) == Some(
            (DUTY_PERIOD_NS - busy_of(utilization)) as nat,
        ),
        busy_of(utilization) * 100 == DUTY_PERIOD_NS * utilization,
{
}

/// A worker at a hundred percent is busy for the whole cycle and never sleeps; at
/// any lower percentage it is busy for less, and sleeps.
pub proof fn only_full_utilization_never_rests(utilization: u8, elapsed: nat)
    ensures
        utilization >= 100 <==> rest_of(utilization, elapsed) is None,
        utilization >= 100 <==> busy_of(utilization) >= DUTY_PERIOD_NS,
{
}

/// One round of the arithmetic.
pub open spec fn scrambled_once(value: u64) -> u64 {
    let a = value ^ (value << 13);
    let b = a ^ (a >> 7);
    b ^ (b << 17)
}

/// The arithmetic of `rounds` rounds.
pub open spec fn scrambled(value: u64, rounds: nat) -> u64
    decreases rounds,
{
    if rounds == 0 {
        value
    } else {
        scrambled_once(scrambled(value, (rounds - 1) as nat))
    }
}

/// A batch of data-dependent arithmetic, which resists optimization. Looking at the
/// clock between small batches keeps low percentages responsive.
pub fn scramble(value: u64) -> (r: u64)
    ensures
        r == scrambled(value, BATCH_ROUNDS as nat),
{
    let mut v: u64 = value;
    let mut i: usize = 0;
    while i < BATCH_ROUNDS
        invariant
            i <= BATCH_ROUNDS,
            v == scrambled(value, i as nat),
        decreases BATCH_ROUNDS - i,
    {
        v = v ^ (v << 13);
        v = v ^ (v >> 7);
        v = v ^ (v << 17);
        i = i + 1;
    }
    v
}

} // verus!
