//! What the workload threads decide and record.

use vstd::prelude::*;

use crate::affinity::{select_cpu, CpuError, CPU_SLOTS};
use crate::cli::Args;
use crate::duration::{Duration, NANOS_PER_SEC};
use crate::counting::lemma_count_mapped;
use crate::frames::{late_frames, late_frames_are_those_over_the_period, nanos};
use crate::stats::Summary;

verus! {

/// What a run measured.
#[derive(Clone, Debug)]
pub struct RunResult {
    /// The CPU that the workload was pinned to, if it was.
    pub cpu: Option<usize>,
    pub frame_period: Duration,
    pub frame_latencies: Vec<Duration>,
    pub gate_waits: Vec<Duration>,
    pub deadline_misses: usize,
}

impl RunResult {
    /// Whether the figures belong together: each frame has a latency of 64 bits of
    /// nanoseconds and a wait for the mutex gate, and the misses are the frames that took
    /// longer than the period.
    pub open spec fn coherent(self) -> bool {
        &&& self.frame_latencies@.len() == self.gate_waits@.len()
        &&& self.deadline_misses == late_frames(
            nanos(self.frame_latencies@),
            self.frame_period@,
        )
        &&& forall|i: int|
            0 <= i < self.frame_latencies@.len() ==> (#[trigger] self.frame_latencies@[i])@
                <= u64::MAX
    }
}

/// The deadline misses of a measured run are its frames whose latency exceeds the
/// frame period.
pub proof fn misses_are_the_frames_over_the_period(result: RunResult)
    requires
        result.coherent(),
    ensures
        result.deadline_misses == result.frame_latencies@.filter(
            |d: Duration| d@ > result.frame_period@,
        ).len(),
{
    let length = |d: Duration| d@;
    let over = |n: nat| n > result.frame_period@;
    let over_span = |d: Duration| d@ > result.frame_period@;
    late_frames_are_those_over_the_period(nanos(result.frame_latencies@), result.frame_period@);
    lemma_count_mapped(result.frame_latencies@, length, over, over_span);
}

/// What the workload tells the dashboard.
#[derive(Clone, Copy, Debug)]
pub enum VisualEvent {
    /// The foreground thread is about to take the mutex gate.
    WaitingForGate,
    /// The foreground thread finished a frame.
    FrameComplete { latency: Duration, gate_wait: Duration, missed_deadline: bool },
    /// The reporter summarised an interval.
    IntervalSummary { summary: Option<Summary> },
}

/// The nanoseconds from one frame to the next at `fps` frames per second.
pub open spec fn period_of(fps: nat) -> nat {
    NANOS_PER_SEC as nat / fps
}

/// The nanoseconds from one frame to the next at `fps` frames per second.
pub fn frame_period_ns(fps: u32) -> (period: u64)
    requires
        fps > 0,
    ensures
        period == period_of(fps as nat),
        period * fps <= 1_000_000_000 < (period + 1) * fps,
        fps <= 1_000_000_000 ==> period >= 1,
{
    let period: u64 = 1_000_000_000 / fps as u64;
    proof {
        vstd::arithmetic::div_mod::lemma_fundamental_div_mod(1_000_000_000, fps as int);
        assert(period * fps <= 1_000_000_000 < (period + 1) * fps) by (nonlinear_arith)
            requires
                1_000_000_000 == fps * period + 1_000_000_000int % (fps as int),
                0 <= 1_000_000_000int % (fps as int) < fps,
        ;
        if fps <= 1_000_000_000 {
            assert(1_000_000_000int / (fps as int) >= 1) by (nonlinear_arith)
                requires
                    0 < fps <= 1_000_000_000,
            ;
        }
    }
    period
}

/// The CPU to pin the workload threads to: none where they are to run on any CPU
/// they may, else the requested CPU or the first one allowed: [`pinned_to`] of what
/// [`select_cpu`] comes to.
pub fn workload_cpu(args: &Args) -> (cpu: Result<Option<usize>, CpuError>)
    ensures
        args.no_pin ==> cpu == Ok::<Option<usize>, CpuError>(None),
        !args.no_pin ==> match cpu {
            Ok(selected) => {
                &&& selected matches Some(c) && c < CPU_SLOTS
                &&& args.cpu is Some ==> selected == args.cpu
            },
            Err(CpuError::Outside(c)) => args.cpu == Some(c),
            Err(CpuError::NoneAllowed) => args.cpu is None,
            Err(CpuError::Os(_)) => true,
        },
        args.cpu matches Some(c) && c >= CPU_SLOTS && !args.no_pin ==> cpu is Err,
{
    if args.no_pin {
        return Ok(None);
    }
    pinned_to(select_cpu(args.cpu))
}

/// The CPU to pin the workload threads to, given what the selection of one came to.
pub fn pinned_to(selected: Result<usize, CpuError>) -> (cpu: Result<Option<usize>, CpuError>)
    ensures
        match selected {
            Ok(c) => cpu == Ok::<Option<usize>, CpuError>(Some(c)),
            Err(error) => cpu == Err::<Option<usize>, CpuError>(error),
        },
{
    match selected {
        Ok(c) => Ok(Some(c)),
        Err(error) => Err(error),
    }
}

/// What the threads of a run are to do.
#[derive(Clone, Copy, Debug, PartialEq, Eq, Structural)]
pub struct RunPlan {
    /// The CPU to pin the workload threads to.
    pub cpu: Option<usize>,
    /// The nanoseconds from one frame to the next.
    pub period_ns: u64,
    /// The seconds from one report to the next, if there are reports.
    pub report_interval: Option<u64>,
    /// How many bytes the background thread reads at a time.
    pub lock_bytes: usize,
    /// The share of time that the CPU worker is busy, in percent.
    pub cpu_util: u8,
}

impl RunPlan {
    /// The plan for settings that are in range, on a CPU that was selected.
    pub fn new(args: &Args, cpu: Option<usize>) -> (plan: RunPlan)
        requires
            args.in_range(),
        ensures
            plan.cpu == cpu,
            plan.period_ns == period_of(args.fps as nat),
            plan.period_ns >= 1,
            plan.period_ns * args.fps <= 1_000_000_000 < (plan.period_ns + 1) * args.fps,
            plan.report_interval == if args.stats_interval == 0 {
                None
            } else {
                Some(args.stats_interval)
            },
            plan.lock_bytes == args.lock_bytes,
            plan.cpu_util == args.cpu_util,
    {
        RunPlan {
            cpu,
            period_ns: frame_period_ns(args.fps),
            report_interval: if args.stats_interval == 0 {
                None
            } else {
                Some(args.stats_interval)
            },
            lock_bytes: args.lock_bytes,
            cpu_util: args.cpu_util,
        }
    }
}

} // verus!
