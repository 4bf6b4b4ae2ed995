//! The foreground thread: a frame loop on an absolute schedule.

use vstd::prelude::*;

use crate::duration::{clamp_u64, Duration};
use crate::timing::ns_to_duration;
use crate::workload::RunResult;

verus! {

/// Where the frame loop is.
#[derive(Clone, Copy, Debug, PartialEq, Eq, Structural)]
pub enum FramePhase {
    /// Before the next frame.
    Between,
    /// Asleep until the release of the frame.
    Asleep,
    /// Released, before the mutex gate.
    Released,
    /// In the mutex gate.
    InGate,
    /// Over.
    Over,
}

/// What happened to the frame loop.
#[derive(Clone, Copy, Debug, PartialEq, Eq, Structural)]
pub enum FrameEvent {
    /// Whether the run is to stop was looked up.
    StopLookedUp { stop: bool },
    /// The release of the frame has come.
    Awake,
    /// The mutex gate was passed, from one point on the clock to another.
    GatePassed { entered: u64, completed: u64 },
}

/// What the frame loop is to do next.
#[derive(Clone, Copy, Debug, PartialEq, Eq, Structural)]
pub enum FrameAction {
    /// Look up whether the run is to stop.
    LookUpStop,
    /// Sleep until a point on the clock.
    SleepUntil { release: u64 },
    /// Say that the mutex gate is waited for, and pass it.
    PassGate,
    /// Tell of a finished frame, and look up whether the run is to stop.
    Publish { latency: Duration, gate_wait: Duration, missed_deadline: bool },
    /// Tell the other threads to stop, and end.
    End,
}

/// The frame loop as plain values. Spans are in nanoseconds.
pub struct FrameState {
    pub phase: FramePhase,
    pub period: u64,
    pub release: u64,
    pub latencies: Seq<nat>,
    pub gate_waits: Seq<nat>,
    pub misses: nat,
}

/// `a - b`, zero where that is below zero.
pub open spec fn monus(a: u64, b: u64) -> nat {
    if a > b {
        (a - b) as nat
    } else {
        0
    }
}

/// Whether the loop waits for such an event.
pub open spec fn expects(phase: FramePhase, event: FrameEvent) -> bool {
    match event {
        FrameEvent::StopLookedUp { .. } => phase is Between || phase is Released,
        FrameEvent::Awake => phase is Asleep,
        FrameEvent::GatePassed { .. } => phase is InGate,
    }
}

impl FrameState {
    /// The loop after a frame of this latency and wait for the mutex gate.
    pub open spec fn with_frame(self, latency: nat, gate_wait: nat) -> FrameState {
        FrameState {
            phase: FramePhase::Between,
            release: clamp_u64((self.release + self.period) as nat),
            latencies: self.latencies.push(latency),
            gate_waits: self.gate_waits.push(gate_wait),
            misses: self.misses + if latency > self.period {
                1nat
            } else {
                0
            },
            ..self
        }
    }

    /// The loop after an event that it waited for.
    pub open spec fn after(self, event: FrameEvent) -> FrameState {
        match event {
            FrameEvent::StopLookedUp { stop } => FrameState {
                phase: if stop {
                    FramePhase::Over
                } else if self.phase is Between {
                    FramePhase::Asleep
                } else {
                    FramePhase::InGate
                },
                ..self
            },
            FrameEvent::Awake => FrameState { phase: FramePhase::Released, ..self },
            FrameEvent::GatePassed { entered, completed } => self.with_frame(
                monus(completed, self.release),
                monus(completed, entered),
            ),
        }
    }

    /// What the loop does after an event that it waited for.
    pub open spec fn answers(self, event: FrameEvent, action: FrameAction) -> bool {
        match event {
            FrameEvent::StopLookedUp { stop } => if stop {
                action is End
            } else if self.phase is Between {
                action == FrameAction::SleepUntil { release: self.release }
            } else {
                action is PassGate
            },
            FrameEvent::Awake => action is LookUpStop,
            FrameEvent::GatePassed { entered, completed } => match action {
                FrameAction::Publish { latency, gate_wait, missed_deadline } => {
                    &&& latency@ == monus(completed, self.release)
                    &&& gate_wait@ == monus(completed, entered)
                    &&& missed_deadline <==> latency@ > self.period
                },
                _ => false,
            },
        }
    }

    /// Whether the books are in order: each frame has a latency and a wait, and the
    /// misses are the frames that took longer than the period.
    pub open spec fn consistent(self) -> bool {
        &&& self.latencies.len() == self.gate_waits.len()
        &&& self.misses == late_frames(self.latencies, self.period as nat)
        &&& forall|i: int| 0 <= i < self.latencies.len() ==> #[trigger] self.latencies[i]
            <= u64::MAX
    }

    /// Whether the next release is where a loop that began at `epoch` has it after
    /// as many frames as were recorded, however late they were.
    pub open spec fn on_schedule(self, epoch: u64) -> bool {
        self.release == clamp_u64((epoch + (self.latencies.len() + 1) * self.period) as nat)
    }
}

/// How many of `latencies` are longer than `period`.
pub open spec fn late_frames(latencies: Seq<nat>, period: nat) -> nat
    decreases latencies.len(),
{
    if latencies.len() == 0 {
        0
    } else {
        late_frames(latencies.drop_last(), period) + if latencies.last() > period {
            1nat
        } else {
            0
        }
    }
}

/// The spans in nanoseconds.
pub open spec fn nanos(spans: Seq<Duration>) -> Seq<nat> {
    spans.map_values(|d: Duration| d@)
}

/// There are no more late frames than frames.
proof fn lemma_late_frames(latencies: Seq<nat>, period: nat)
    ensures
        late_frames(latencies, period) <= latencies.len(),
    decreases latencies.len(),
{
    if latencies.len() > 0 {
        lemma_late_frames(latencies.drop_last(), period);
    }
}

/// Every event keeps the books in order: the misses that are counted are the
/// frames whose latency exceeds the period.
pub proof fn events_keep_the_books(state: FrameState, event: FrameEvent)
    requires
        state.consistent(),
        expects(state.phase, event),
    ensures
        state.after(event).consistent(),
        state.after(event).period == state.period,
{
    match event {
        FrameEvent::GatePassed { entered, completed } => {
            let latency = monus(completed, state.release);
            assert(state.latencies.push(latency).drop_last() =~= state.latencies);
        },
        _ => {},
    }
}

/// Every event keeps the loop on its schedule: a late frame does not shift the
/// releases after it.
pub proof fn events_keep_the_schedule(state: FrameState, event: FrameEvent, epoch: u64)
    requires
        state.on_schedule(epoch),
        expects(state.phase, event),
    ensures
        state.after(event).on_schedule(epoch),
{
    let n = state.latencies.len();
    let p = state.period as nat;
    assert((n + 2) * p == (n + 1) * p + p) by (nonlinear_arith);
}

/// The latency of a frame is the time from its release until the mutex gate was
/// entered, with the wakeup delay, and the wait for the mutex gate on top.
pub proof fn latency_covers_delay_and_wait(state: FrameState, entered: u64, completed: u64)
    requires
        state.release <= entered <= completed,
    ensures
        ({
            let later = state.after(FrameEvent::GatePassed { entered, completed });
            later.latencies.last() == (entered - state.release) + later.gate_waits.last()
        }),
{
}

/// A frame is measured from its scheduled release until the mutex gate was passed,
/// however long it was blocked: release and latency make the completion, entry and
/// wait make the completion, and a clock that reads earlier measures zero. The figures
/// go behind those of the frames before, and what is published is what is recorded.
pub proof fn frames_are_measured_to_their_completion(
    state: FrameState,
    entered: u64,
    completed: u64,
    action: FrameAction,
)
    requires
        state.phase is InGate,
        state.answers(FrameEvent::GatePassed { entered, completed }, action),
    ensures
        ({
            let later = state.after(FrameEvent::GatePassed { entered, completed });
            let latency = later.latencies.last();
            let wait = later.gate_waits.last();
            &&& later.latencies.drop_last() == state.latencies
            &&& later.gate_waits.drop_last() == state.gate_waits
            &&& state.release <= completed ==> state.release + latency == completed
            &&& completed < state.release ==> latency == 0
            &&& entered <= completed ==> entered + wait == completed
            &&& completed < entered ==> wait == 0
            &&& action matches FrameAction::Publish {
                latency: published,
                gate_wait: published_wait,
                missed_deadline,
            } && published@ == latency && published_wait@ == wait && (missed_deadline
                <==> completed > state.release + state.period)
        }),
{
    let later = state.after(FrameEvent::GatePassed { entered, completed });
    assert(later.latencies.drop_last() =~= state.latencies);
    assert(later.gate_waits.drop_last() =~= state.gate_waits);
}

/// A frame counts as a missed deadline exactly where it was completed more than a
/// period after its release, and nothing else counts as one.
pub proof fn a_miss_is_a_frame_over_its_period(state: FrameState, event: FrameEvent)
    requires
        expects(state.phase, event),
    ensures
        state.after(event).misses == state.misses + match event {
            FrameEvent::GatePassed { completed, .. } => if completed > state.release
                + state.period {
                1nat
            } else {
                0
            },
            _ => 0,
        },
{
}

/// Each frame is released one period after the frame before, whenever that one was
/// completed, and nothing but a finished frame moves the next release or adds a figure.
pub proof fn releases_are_a_period_apart(state: FrameState, event: FrameEvent)
    requires
        expects(state.phase, event),
    ensures
        ({
            let later = state.after(event);
            &&& later.period == state.period
            &&& event is GatePassed ==> {
                &&& state.release + state.period <= u64::MAX ==> later.release == state.release
                    + state.period
                &&& state.release + state.period > u64::MAX ==> later.release == u64::MAX
                &&& later.latencies.len() == state.latencies.len() + 1
                &&& later.gate_waits.len() == state.gate_waits.len() + 1
            }
            &&& !(event is GatePassed) ==> {
                &&& later.release == state.release
                &&& later.latencies == state.latencies
                &&& later.gate_waits == state.gate_waits
            }
        }),
{
}

/// A frame sleeps until its own release, passes the mutex gate after that unless the
/// run stops, and a run that is to stop ends without another frame.
pub proof fn a_frame_sleeps_until_its_release(
    state: FrameState,
    event: FrameEvent,
    action: FrameAction,
)
    requires
        expects(state.phase, event),
        state.answers(event, action),
    ensures
        ({
            let later = state.after(event);
            &&& event == (FrameEvent::StopLookedUp { stop: true }) ==> action is End
                && later.phase is Over
            &&& event == (FrameEvent::StopLookedUp { stop: false }) && state.phase is Between ==> {
                &&& action == (FrameAction::SleepUntil { release: state.release })
                &&& later.phase is Asleep
            }
            &&& event is Awake ==> action is LookUpStop && later.phase is Released
            &&& event == (FrameEvent::StopLookedUp { stop: false }) && state.phase is Released
                ==> action is PassGate && later.phase is InGate
            &&& event is GatePassed ==> action is Publish && later.phase is Between
        }),
{
}

/// The frames that missed their deadline are those that took longer than the period.
pub proof fn late_frames_are_those_over_the_period(latencies: Seq<nat>, period: nat)
    ensures
        late_frames(latencies, period) == latencies.filter(|l: nat| l > period).len(),
    decreases latencies.len(),
{
    reveal(Seq::filter);
    if latencies.len() > 0 {
        late_frames_are_those_over_the_period(latencies.drop_last(), period);
    }
}

/// The frame loop.
pub struct FrameLoop {
    phase: FramePhase,
    period_ns: u64,
    release: u64,
    latencies: Vec<Duration>,
    gate_waits: Vec<Duration>,
    deadline_misses: usize,
}

impl View for FrameLoop {
    type V = FrameState;

    closed spec fn view(&self) -> FrameState {
        FrameState {
            phase: self.phase,
            period: self.period_ns,
            release: self.release,
            latencies: nanos(self.latencies@),
            gate_waits: nanos(self.gate_waits@),
            misses: self.deadline_misses as nat,
        }
    }
}

impl FrameLoop {
    #[verifier::type_invariant]
    spec fn well_formed(self) -> bool {
        self@.consistent()
    }

    /// A frame loop that begins at `epoch`; the first thing to do is to look up
    /// whether the run is to stop.
    pub fn new(epoch: u64, period_ns: u64) -> (frames: FrameLoop)
        ensures
            frames@ == (FrameState {
                phase: FramePhase::Between,
                period: period_ns,
                release: clamp_u64((epoch + period_ns) as nat),
                latencies: Seq::empty(),
                gate_waits: Seq::empty(),
                misses: 0,
            }),
            frames@.on_schedule(epoch),
            frames@.consistent(),
            epoch + period_ns <= u64::MAX ==> frames@.release == epoch + period_ns,
            epoch + period_ns > u64::MAX ==> frames@.release == u64::MAX,
    {
        assert(1 * period_ns == period_ns);
        assert(nanos(Seq::<Duration>::empty()) =~= Seq::<nat>::empty());
        FrameLoop {
            phase: FramePhase::Between,
            period_ns,
            release: epoch.saturating_add(period_ns),
            latencies: Vec::new(),
            gate_waits: Vec::new(),
            deadline_misses: 0,
        }
    }

    /// Whether the loop waits for such an event.
    pub fn awaits(&self, event: FrameEvent) -> (awaited: bool)
        ensures
            awaited <==> expects(self@.phase, event),
            event is StopLookedUp ==> (awaited <==> self@.phase is Between
                || self@.phase is Released),
            event is Awake ==> (awaited <==> self@.phase is Asleep),
            event is GatePassed ==> (awaited <==> self@.phase is InGate),
    {
        match (event, self.phase) {
            (FrameEvent::StopLookedUp { .. }, FramePhase::Between) => true,
            (FrameEvent::StopLookedUp { .. }, FramePhase::Released) => true,
            (FrameEvent::Awake, FramePhase::Asleep) => true,
            (FrameEvent::GatePassed { .. }, FramePhase::InGate) => true,
            _ => false,
        }
    }

    /// Takes note of an event that the loop waited for, and says what to do next.
    pub fn step(self, event: FrameEvent) -> (r: (FrameLoop, FrameAction))
        requires
            expects(self@.phase, event),
        ensures
            r.0@ == self@.after(event),
            self@.answers(event, r.1),
            r.0@.consistent(),
            self@.consistent(),
            event matches FrameEvent::GatePassed { entered, completed } ==> {
                &&& r.1 matches FrameAction::Publish { latency, gate_wait, missed_deadline } && {
                    &&& self@.release <= completed ==> latency@ == completed - self@.release
                    &&& completed < self@.release ==> latency@ == 0
                    &&& entered <= completed ==> gate_wait@ == completed - entered
                    &&& completed < entered ==> gate_wait@ == 0
                    &&& missed_deadline <==> completed > self@.release + self@.period
                    &&& r.0@.latencies == self@.latencies.push(latency@)
                    &&& r.0@.gate_waits == self@.gate_waits.push(gate_wait@)
                    &&& r.0@.misses == self@.misses + if missed_deadline {
                        1nat
                    } else {
                        0
                    }
                }
                &&& self@.release + self@.period <= u64::MAX ==> r.0@.release == self@.release
                    + self@.period
            },
            !(event is GatePassed) ==> {
                &&& r.0@.latencies == self@.latencies
                &&& r.0@.gate_waits == self@.gate_waits
                &&& r.0@.misses == self@.misses
                &&& r.0@.release == self@.release
            },
    {
        proof {
            use_type_invariant(&self);
            events_keep_the_books(self@, event);
        }
        match event {
            FrameEvent::StopLookedUp { stop } => {
                let (phase, action): (FramePhase, FrameAction) = if stop {
                    (FramePhase::Over, FrameAction::End)
                } else if matches!(self.phase, FramePhase::Between) {
                    (FramePhase::Asleep, FrameAction::SleepUntil { release: self.release })
                } else {
                    (FramePhase::InGate, FrameAction::PassGate)
                };
                (FrameLoop { phase, ..self }, action)
            },
            FrameEvent::Awake => {
                (FrameLoop { phase: FramePhase::Released, ..self }, FrameAction::LookUpStop)
            },
            FrameEvent::GatePassed { entered, completed } => {
                let latency_ns: u64 = completed.saturating_sub(self.release);
                let latency = ns_to_duration(latency_ns);
                let gate_wait = ns_to_duration(completed.saturating_sub(entered));
                let missed_deadline: bool = latency_ns > self.period_ns;
                let mut latencies = self.latencies;
                let mut gate_waits = self.gate_waits;
                latencies.push(latency);
                gate_waits.push(gate_wait);
                proof {
                    assert(nanos(latencies@) =~= nanos(self.latencies@).push(latency@));
                    assert(nanos(gate_waits@) =~= nanos(self.gate_waits@).push(gate_wait@));
                    lemma_late_frames(nanos(self.latencies@), self.period_ns as nat);
                }
                let len: usize = latencies.len();
                assert(self.deadline_misses < len);
                let deadline_misses: usize = if missed_deadline {
                    self.deadline_misses + 1
                } else {
                    self.deadline_misses
                };
                let next = FrameLoop {
                    phase: FramePhase::Between,
                    period_ns: self.period_ns,
                    release: self.release.saturating_add(self.period_ns),
                    latencies,
                    gate_waits,
                    deadline_misses,
                };
                (next, FrameAction::Publish { latency, gate_wait, missed_deadline })
            },
        }
    }

    /// What the run measured, on the CPU it was pinned to.
    pub fn into_result(self, cpu: Option<usize>) -> (result: RunResult)
        ensures
            result.cpu == cpu,
            result.frame_period@ == self@.period,
            nanos(result.frame_latencies@) == self@.latencies,
            nanos(result.gate_waits@) == self@.gate_waits,
            result.deadline_misses == self@.misses,
            result.frame_latencies@.len() == self@.latencies.len(),
            forall|i: int|
                0 <= i < self@.latencies.len() ==> (#[trigger] result.frame_latencies@[i])@
                    == self@.latencies[i],
            result.gate_waits@.len() == self@.gate_waits.len(),
            forall|i: int|
                0 <= i < self@.gate_waits.len() ==> (#[trigger] result.gate_waits@[i])@
                    == self@.gate_waits[i],
            result.coherent(),
    {
        proof {
            use_type_invariant(&self);
            assert(self@.latencies == nanos(self.latencies@));
            assert forall|i: int| 0 <= i < self.latencies@.len() implies (
            #[trigger] self.latencies@[i])@ <= u64::MAX by {
                assert(nanos(self.latencies@)[i] == self.latencies@[i]@);
            }
        }
        RunResult {
            cpu,
            frame_period: ns_to_duration(self.period_ns),
            frame_latencies: self.latencies,
            gate_waits: self.gate_waits,
            deadline_misses: self.deadline_misses,
        }
    }
}

} // verus!
