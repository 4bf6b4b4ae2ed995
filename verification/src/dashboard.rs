//! What the dashboard shows.
//!
//! Points on the clock are nanoseconds of the monotonic clock.

use std::collections::VecDeque;

use vstd::prelude::*;

use crate::double::{zero, Binary, Double};
use crate::duration::{clamp_to_u64, clamp_u64, Duration, MAX_NANOS, NANOS_PER_SEC};
use crate::frames::monus;
use crate::rate::{per_second, Rate};
use crate::schedule::{advance_past, first_after, first_after_is_next_on_the_grid};
use crate::stats::{in_milliseconds, ms_text, summarises, Summary};
use crate::workload::VisualEvent;

verus! {

/// How many frames the plot shows.
pub const WINDOW: usize = 180;

/// How long the flow of data is shown after a frame.
pub const FLOW_NS: u64 = 120_000_000;

/// How long waits for the mutex gate are averaged.
pub const WAIT_WINDOW_NS: u64 = 500_000_000;

/// The span of `nanoseconds`, cut off at the largest 64-bit count.
pub fn duration_from_nanos(nanoseconds: u128) -> (span: Duration)
    ensures
        span@ == clamp_u64(nanoseconds as nat),
{
    Duration::from_nanos(clamp_to_u64(nanoseconds))
}

/// How often the dashboard summarises frames, for a report every `stats_interval`
/// seconds: as often, and every second without reports.
pub fn summary_interval(stats_interval: u64) -> (interval: Duration)
    ensures
        interval@ == NANOS_PER_SEC * if stats_interval == 0 {
            1
        } else {
            stats_interval
        },
        interval@ > 0,
{
    if stats_interval == 0 {
        Duration::from_secs(1)
    } else {
        Duration::from_secs(stats_interval)
    }
}

/// The points on the clock that an event is handled at.
#[derive(Clone, Copy, Debug, PartialEq, Eq, Structural)]
pub struct Readings {
    /// When the event was taken up.
    pub taken_up: u64,
    /// When it was noted.
    pub noted: u64,
    /// When the frame rate was looked at.
    pub rated: u64,
    /// When counting frames began anew, if it did.
    pub restarted: u64,
}

/// The dashboard as plain values. Spans are in nanoseconds.
pub struct DashboardState {
    pub flow_until: nat,
    pub latencies: Seq<Duration>,
    pub comparison: Seq<Duration>,
    pub gate_wait: nat,
    pub wait_total: nat,
    pub wait_count: nat,
    pub next_wait_update: nat,
    pub missed: bool,
    pub frames_this_second: nat,
    pub fps: Binary,
    pub fps_epoch: u64,
    pub total_frames: nat,
    pub interval_samples: Seq<Duration>,
    pub summary: Option<Summary>,
    pub metrics_interval: nat,
    pub next_metrics: nat,
}

/// The window of latencies after one more frame: the oldest one makes room.
pub open spec fn window_with(latencies: Seq<Duration>, latency: Duration) -> Seq<Duration> {
    if latencies.len() == WINDOW {
        latencies.skip(1).push(latency)
    } else {
        latencies.push(latency)
    }
}

/// The latest frames of a run, as many as the plot shows.
pub open spec fn latest(all: Seq<Duration>) -> Seq<Duration> {
    if all.len() > WINDOW {
        all.skip(all.len() - WINDOW)
    } else {
        all
    }
}

/// The window always holds the latest frames.
pub proof fn window_holds_the_latest_frames(all: Seq<Duration>, latency: Duration)
    ensures
        latest(all).len() <= WINDOW,
        window_with(latest(all), latency) == latest(all.push(latency)),
{
    assert(window_with(latest(all), latency) =~= latest(all.push(latency)));
}

impl DashboardState {
    /// The dashboard after a frame was noted, but for averages and summaries.
    pub open spec fn with_frame(
        self,
        latency: Duration,
        gate_wait: Duration,
        missed_deadline: bool,
        taken_up: u64,
    ) -> DashboardState {
        DashboardState {
            flow_until: (taken_up + FLOW_NS) as nat,
            missed: missed_deadline,
            wait_total: self.wait_total + gate_wait@,
            wait_count: self.wait_count + 1,
            latencies: window_with(self.latencies, latency),
            interval_samples: self.interval_samples.push(latency),
            frames_this_second: self.frames_this_second + 1,
            total_frames: self.total_frames + 1,
            ..self
        }
    }

    /// The dashboard at `now`, with the waits averaged where that is due.
    pub open spec fn with_average(self, now: u64) -> DashboardState {
        if now >= self.next_wait_update {
            let count = if self.wait_count == 0 {
                1
            } else {
                self.wait_count
            };
            DashboardState {
                gate_wait: clamp_u64(self.wait_total / count) as nat,
                wait_total: 0,
                wait_count: 0,
                next_wait_update: (now + WAIT_WINDOW_NS) as nat,
                ..self
            }
        } else {
            self
        }
    }

    /// Whether `later` is the dashboard at `now`, with the frames of the interval
    /// summarised where that is due. It never is with an interval of zero.
    pub open spec fn summarised(self, now: u64, later: DashboardState) -> bool {
        if self.metrics_interval > 0 && now >= self.next_metrics {
            &&& summarises(later.summary, self.interval_samples)
            &&& later == DashboardState {
                summary: later.summary,
                interval_samples: Seq::empty(),
                next_metrics: first_after(
                    self.next_metrics,
                    self.metrics_interval,
                    now as nat,
                ),
                ..self
            }
        } else {
            later == self
        }
    }

    /// The dashboard with the frame rate brought up to date where a second has
    /// passed.
    pub open spec fn with_rate(self, rated: u64, restarted: u64) -> DashboardState {
        let elapsed = monus(rated, self.fps_epoch);
        if elapsed >= NANOS_PER_SEC {
            DashboardState {
                fps: per_second(self.frames_this_second, elapsed),
                frames_this_second: 0,
                fps_epoch: restarted,
                ..self
            }
        } else {
            self
        }
    }

    /// Whether `later` is the dashboard after an event.
    pub open spec fn applied(
        self,
        event: VisualEvent,
        readings: Readings,
        later: DashboardState,
    ) -> bool {
        match event {
            VisualEvent::WaitingForGate => later == self.with_rate(
                readings.rated,
                readings.restarted,
            ),
            VisualEvent::FrameComplete { latency, gate_wait, missed_deadline } => {
                let noted = self.with_frame(
                    latency,
                    gate_wait,
                    missed_deadline,
                    readings.taken_up,
                ).with_average(readings.noted);
                exists|updated: DashboardState| #[trigger]
                    noted.summarised(readings.noted, updated) && later == updated.with_rate(
                        readings.rated,
                        readings.restarted,
                    )
            },
            VisualEvent::IntervalSummary { summary } => later == (DashboardState {
                summary,
                ..self
            }).with_rate(readings.rated, readings.restarted),
        }
    }

    /// Whether the counters have room for one more frame.
    pub open spec fn has_room(self) -> bool {
        &&& self.total_frames < u64::MAX
        &&& self.wait_total + MAX_NANOS <= u128::MAX
    }

    /// Whether the counters fit together.
    pub open spec fn consistent(self) -> bool {
        &&& self.latencies.len() <= WINDOW
        &&& self.frames_this_second <= self.total_frames
        &&& self.wait_count <= self.total_frames
        &&& self.next_metrics <= u64::MAX + self.metrics_interval
    }
}

/// Every event keeps the counters together, leaves the run that is compared with and
/// the interval alone, and counts and shows a frame exactly where one was finished.
/// After a frame the next average is still to come, and so is the next summary, where
/// the interval is not zero.
pub proof fn events_keep_the_dashboard(
    state: DashboardState,
    event: VisualEvent,
    readings: Readings,
    later: DashboardState,
)
    requires
        state.consistent(),
        state.applied(event, readings, later),
    ensures
        later.consistent(),
        later.comparison == state.comparison,
        later.metrics_interval == state.metrics_interval,
        later.total_frames == state.total_frames + if event is FrameComplete {
            1nat
        } else {
            0
        },
        later.latencies == match event {
            VisualEvent::FrameComplete { latency, .. } => window_with(state.latencies, latency),
            _ => state.latencies,
        },
        later.missed == match event {
            VisualEvent::FrameComplete { missed_deadline, .. } => missed_deadline,
            _ => state.missed,
        },
        later.flow_until == match event {
            VisualEvent::FrameComplete { .. } => readings.taken_up + 120_000_000,
            _ => state.flow_until as int,
        },
        event matches VisualEvent::FrameComplete { latency, .. } ==> {
            &&& later.latencies.last() == latency
            &&& state.latencies.len() < 180 ==> later.latencies.drop_last() == state.latencies
            &&& state.latencies.len() == 180 ==> later.latencies.drop_last()
                == state.latencies.drop_first()
        },
        event is FrameComplete ==> {
            &&& state.metrics_interval > 0 ==> later.next_metrics > readings.noted
            &&& later.next_wait_update > readings.noted
        },
{
    if state.metrics_interval > 0 {
        first_after_is_next_on_the_grid(
            state.next_metrics,
            state.metrics_interval,
            readings.noted as nat,
        );
    }
    match event {
        VisualEvent::FrameComplete { latency, .. } => {
            let shown = window_with(state.latencies, latency);
            assert(shown.drop_last() =~= if state.latencies.len() == 180 {
                state.latencies.drop_first()
            } else {
                state.latencies
            });
        },
        _ => {},
    }
}

/// The wait that is shown is the mean of the waits since it was last shown, in whole
/// nanoseconds, as far as 64 bits reach. It is shown anew by the first frame that is
/// noted half a second or more after that, and by nothing else.
pub proof fn waits_are_averaged_by_the_half_second(
    state: DashboardState,
    event: VisualEvent,
    readings: Readings,
    later: DashboardState,
)
    requires
        state.applied(event, readings, later),
    ensures
        event matches VisualEvent::FrameComplete { gate_wait, .. } ==> {
            let total = state.wait_total + gate_wait@;
            let count = state.wait_count + 1;
            if readings.noted >= state.next_wait_update {
                &&& later.gate_wait * count <= total
                &&& later.gate_wait < u64::MAX ==> total < (later.gate_wait + 1) * count
                &&& later.gate_wait <= u64::MAX
                &&& later.wait_total == 0
                &&& later.wait_count == 0
                &&& later.next_wait_update == readings.noted + 500_000_000
            } else {
                &&& later.gate_wait == state.gate_wait
                &&& later.wait_total == total
                &&& later.wait_count == count
                &&& later.next_wait_update == state.next_wait_update
            }
        },
        !(event is FrameComplete) ==> {
            &&& later.gate_wait == state.gate_wait
            &&& later.wait_total == state.wait_total
            &&& later.wait_count == state.wait_count
            &&& later.next_wait_update == state.next_wait_update
        },
{
    match event {
        VisualEvent::FrameComplete { gate_wait, .. } => {
            let total = state.wait_total + gate_wait@;
            let count = state.wait_count + 1;
            let mean = total / count;
            vstd::arithmetic::div_mod::lemma_fundamental_div_mod(total as int, count as int);
            assert(mean * count <= total < (mean + 1) * count) by (nonlinear_arith)
                requires
                    total == count * mean + total % count,
                    0 <= total % count < count,
            ;
            let shown = clamp_u64(mean) as nat;
            assert(shown * count <= mean * count) by (nonlinear_arith)
                requires
                    shown <= mean,
            ;
        },
        _ => {},
    }
}

/// The summary that is shown is that of the frames since the last one, where a frame is
/// noted at or after the end of the interval, or the one that the reporter sent. The
/// interval then ends at the next whole number of intervals that is still to come.
pub proof fn frames_are_summarised_by_the_interval(
    state: DashboardState,
    event: VisualEvent,
    readings: Readings,
    later: DashboardState,
)
    requires
        state.applied(event, readings, later),
    ensures
        match event {
            VisualEvent::FrameComplete { latency, .. } => if state.metrics_interval > 0
                && readings.noted >= state.next_metrics {
                &&& summarises(later.summary, state.interval_samples.push(latency))
                &&& later.interval_samples.len() == 0
                &&& readings.noted < later.next_metrics <= readings.noted + state.metrics_interval
                &&& (later.next_metrics - state.next_metrics) % (state.metrics_interval as int)
                    == 0
            } else {
                &&& later.summary == state.summary
                &&& later.interval_samples == state.interval_samples.push(latency)
                &&& later.next_metrics == state.next_metrics
            },
            VisualEvent::IntervalSummary { summary } => {
                &&& later.summary == summary
                &&& later.interval_samples == state.interval_samples
                &&& later.next_metrics == state.next_metrics
            },
            VisualEvent::WaitingForGate => {
                &&& later.summary == state.summary
                &&& later.interval_samples == state.interval_samples
                &&& later.next_metrics == state.next_metrics
            },
        },
{
    if state.metrics_interval > 0 {
        first_after_is_next_on_the_grid(
            state.next_metrics,
            state.metrics_interval,
            readings.noted as nat,
        );
    }
}

/// The frame rate that is shown is the number of frames since it was last shown, the one
/// that was just finished among them, over the time since. It is shown anew by the first
/// event a second or more after that, and counting begins anew.
pub proof fn frames_are_rated_by_the_second(
    state: DashboardState,
    event: VisualEvent,
    readings: Readings,
    later: DashboardState,
)
    requires
        state.applied(event, readings, later),
    ensures
        ({
            let frames = state.frames_this_second + if event is FrameComplete {
                1nat
            } else {
                0
            };
            let elapsed = readings.rated - state.fps_epoch;
            if elapsed >= 1_000_000_000 {
                &&& later.fps == per_second(frames, elapsed as nat)
                &&& later.frames_this_second == 0
                &&& later.fps_epoch == readings.restarted
            } else {
                &&& later.fps == state.fps
                &&& later.frames_this_second == frames
                &&& later.fps_epoch == state.fps_epoch
            }
        }),
{
}

/// What the dashboard shows.
pub struct Dashboard {
    data_flow_until: u128,
    latencies: VecDeque<Duration>,
    comparison: Vec<Duration>,
    gate_wait: Duration,
    gate_wait_total_ns: u128,
    dependency_sample_count: u64,
    next_dependency_update: u128,
    missed: bool,
    frames_this_second: u64,
    workload_fps: Rate,
    fps_epoch: u64,
    total_frames: u64,
    interval_samples: Vec<Duration>,
    displayed_summary: Option<Summary>,
    metrics_interval: Duration,
    next_metrics_update: u128,
}

impl View for Dashboard {
    type V = DashboardState;

    closed spec fn view(&self) -> DashboardState {
        DashboardState {
            flow_until: self.data_flow_until as nat,
            latencies: self.latencies@,
            comparison: self.comparison@,
            gate_wait: self.gate_wait@,
            wait_total: self.gate_wait_total_ns as nat,
            wait_count: self.dependency_sample_count as nat,
            next_wait_update: self.next_dependency_update as nat,
            missed: self.missed,
            frames_this_second: self.frames_this_second as nat,
            fps: self.workload_fps@,
            fps_epoch: self.fps_epoch,
            total_frames: self.total_frames as nat,
            interval_samples: self.interval_samples@,
            summary: self.displayed_summary,
            metrics_interval: self.metrics_interval@,
            next_metrics: self.next_metrics_update as nat,
        }
    }
}

impl Dashboard {
    #[verifier::type_invariant]
    spec fn well_formed(self) -> bool {
        self@.consistent()
    }

    /// A dashboard that has seen nothing, at `now`. With an interval of zero it never
    /// summarises frames by itself.
    pub fn new(comparison: Vec<Duration>, metrics_interval: Duration, now: u64) -> (d: Dashboard)
        ensures
            d@ == (DashboardState {
                flow_until: now as nat,
                latencies: Seq::empty(),
                comparison: comparison@,
                gate_wait: 0,
                wait_total: 0,
                wait_count: 0,
                next_wait_update: (now + WAIT_WINDOW_NS) as nat,
                missed: false,
                frames_this_second: 0,
                fps: zero(),
                fps_epoch: now,
                total_frames: 0,
                interval_samples: Seq::empty(),
                summary: None,
                metrics_interval: metrics_interval@,
                next_metrics: now as nat + metrics_interval@,
            }),
            d@.consistent(),
    {
        let interval: u128 = metrics_interval.as_nanos();
        Dashboard {
            data_flow_until: now as u128,
            latencies: VecDeque::with_capacity(WINDOW),
            comparison,
            gate_wait: Duration::from_nanos(0),
            gate_wait_total_ns: 0,
            dependency_sample_count: 0,
            next_dependency_update: now as u128 + WAIT_WINDOW_NS as u128,
            missed: false,
            frames_this_second: 0,
            workload_fps: Rate::none(),
            fps_epoch: now,
            total_frames: 0,
            interval_samples: Vec::new(),
            displayed_summary: None,
            metrics_interval,
            next_metrics_update: now as u128 + interval,
        }
    }

    /// Whether the counters have room for one more frame.
    pub fn has_room(&self) -> (room: bool)
        ensures
            room <==> self@.has_room(),
            room <==> self@.total_frames < u64::MAX && self@.wait_total + MAX_NANOS <= u128::MAX,
    {
        self.total_frames < u64::MAX && self.gate_wait_total_ns <= u128::MAX - MAX_NANOS
    }

    /// Takes note of an event.
    pub fn apply(self, event: VisualEvent, readings: Readings) -> (later: Dashboard)
        requires
            event is FrameComplete ==> self@.has_room(),
        ensures
            self@.applied(event, readings, later@),
            self@.consistent(),
            later@.consistent(),
    {
        proof {
            use_type_invariant(&self);
        }
        let later = self.handle(event, readings);
        proof {
            use_type_invariant(&later);
        }
        later
    }

    fn handle(self, event: VisualEvent, readings: Readings) -> (later: Dashboard)
        requires
            event is FrameComplete ==> self@.has_room(),
        ensures
            self@.applied(event, readings, later@),
    {
        match event {
            VisualEvent::WaitingForGate => self.update_rate(readings.rated, readings.restarted),
            VisualEvent::FrameComplete { latency, gate_wait, missed_deadline } => {
                let noted = self.note_frame(
                    latency,
                    gate_wait,
                    missed_deadline,
                    readings.taken_up,
                ).update_average(readings.noted);
                let updated = noted.update_summary(readings.noted);
                updated.update_rate(readings.rated, readings.restarted)
            },
            VisualEvent::IntervalSummary { summary } => {
                proof {
                    use_type_invariant(&self);
                }
                (Dashboard { displayed_summary: summary, ..self }).update_rate(
                    readings.rated,
                    readings.restarted,
                )
            },
        }
    }

    fn note_frame(
        self,
        latency: Duration,
        gate_wait: Duration,
        missed_deadline: bool,
        taken_up: u64,
    ) -> (later: Dashboard)
        requires
            self@.has_room(),
        ensures
            later@ == self@.with_frame(latency, gate_wait, missed_deadline, taken_up),
    {
        proof {
            use_type_invariant(&self);
        }
        let wait: u128 = gate_wait.as_nanos();
        let mut latencies = self.latencies;
        if latencies.len() == WINDOW {
            let _oldest = latencies.pop_front();
        }
        latencies.push_back(latency);
        proof {
            assert(latencies@ =~= window_with(self.latencies@, latency));
        }
        let mut interval_samples = self.interval_samples;
        interval_samples.push(latency);
        Dashboard {
            data_flow_until: taken_up as u128 + FLOW_NS as u128,
            missed: missed_deadline,
            gate_wait_total_ns: self.gate_wait_total_ns + wait,
            dependency_sample_count: self.dependency_sample_count + 1,
            latencies,
            interval_samples,
            frames_this_second: self.frames_this_second + 1,
            total_frames: self.total_frames + 1,
            ..self
        }
    }

    fn update_average(self, now: u64) -> (later: Dashboard)
        ensures
            later@ == self@.with_average(now),
    {
        proof {
            use_type_invariant(&self);
        }
        if now as u128 >= self.next_dependency_update {
            let count: u128 = if self.dependency_sample_count == 0 {
                1
            } else {
                self.dependency_sample_count as u128
            };
            Dashboard {
                gate_wait: duration_from_nanos(self.gate_wait_total_ns / count),
                gate_wait_total_ns: 0,
                dependency_sample_count: 0,
                next_dependency_update: now as u128 + WAIT_WINDOW_NS as u128,
                ..self
            }
        } else {
            self
        }
    }

    fn update_summary(self, now: u64) -> (later: Dashboard)
        ensures
            self@.summarised(now, later@),
    {
        proof {
            use_type_invariant(&self);
            if self@.metrics_interval > 0 {
                first_after_is_next_on_the_grid(
                    self@.next_metrics,
                    self@.metrics_interval,
                    now as nat,
                );
            }
        }
        let interval: u128 = self.metrics_interval.as_nanos();
        if interval > 0 && now as u128 >= self.next_metrics_update {
            let summary = Summary::from_samples(self.interval_samples.as_slice());
            Dashboard {
                displayed_summary: summary,
                interval_samples: Vec::new(),
                next_metrics_update: advance_past(
                    self.next_metrics_update,
                    interval,
                    now as u128,
                ),
                ..self
            }
        } else {
            self
        }
    }

    fn update_rate(self, rated: u64, restarted: u64) -> (later: Dashboard)
        ensures
            later@ == self@.with_rate(rated, restarted),
    {
        proof {
            use_type_invariant(&self);
        }
        let elapsed: u64 = rated.saturating_sub(self.fps_epoch);
        if elapsed >= NANOS_PER_SEC {
            Dashboard {
                workload_fps: Rate::of(self.frames_this_second, &Duration::from_nanos(elapsed)),
                frames_this_second: 0,
                fps_epoch: restarted,
                ..self
            }
        } else {
            self
        }
    }

    /// Whether the flow of data is shown at `now`.
    pub fn data_flow_active(&self, now: u64) -> (active: bool)
        ensures
            active <==> now < self@.flow_until,
    {
        (now as u128) < self.data_flow_until
    }

    /// The latencies of the latest frames.
    pub fn latencies(&self) -> (latencies: &VecDeque<Duration>)
        ensures
            latencies@ == self@.latencies,
            latencies@.len() <= WINDOW,
    {
        proof {
            use_type_invariant(self);
        }
        &self.latencies
    }

    /// The latencies of the run that is compared with, as many as the plot shows.
    pub fn baseline(&self) -> (latencies: Vec<Duration>)
        ensures
            latencies@ == if self@.comparison.len() > WINDOW {
                self@.comparison.take(WINDOW as int)
            } else {
                self@.comparison
            },
            latencies@.len() <= 180,
            self@.comparison.len() <= 180 ==> latencies@ == self@.comparison,
            self@.comparison.len() > 180 ==> latencies@ == self@.comparison.subrange(0, 180),
    {
        let mut latencies: Vec<Duration> = Vec::new();
        let mut i: usize = 0;
        while i < self.comparison.len() && i < WINDOW
            invariant
                i <= self.comparison@.len(),
                i <= WINDOW,
                latencies@ == self.comparison@.take(i as int),
            decreases self.comparison@.len() - i,
        {
            latencies.push(self.comparison[i]);
            i = i + 1;
            assert(latencies@ =~= self.comparison@.take(i as int));
        }
        assert(self.comparison@.take(self.comparison@.len() as int) =~= self.comparison@);
        latencies
    }

    /// The average wait for the mutex gate.
    pub fn gate_wait(&self) -> (wait: Duration)
        ensures
            wait@ == self@.gate_wait,
    {
        self.gate_wait
    }

    /// How many frames were finished.
    pub fn total_frames(&self) -> (frames: u64)
        ensures
            frames == self@.total_frames,
    {
        self.total_frames
    }

    /// The frame rate of the workload.
    pub fn workload_fps(&self) -> (rate: Rate)
        ensures
            rate@ == self@.fps,
    {
        self.workload_fps
    }

    /// How often frames are summarised.
    pub fn metrics_interval(&self) -> (interval: Duration)
        ensures
            interval@ == self@.metrics_interval,
    {
        self.metrics_interval
    }

    /// What the badge says of the last frame, and whether it is bad news.
    pub fn deadline_badge(&self) -> (badge: (&'static str, bool))
        ensures
            badge.1 == self@.missed,
            badge.0@ == if self@.missed {
                "MISSED DEADLINE"@
            } else {
                "WITHIN DEADLINE"@
            },
    {
        if self.missed {
            ("MISSED DEADLINE", true)
        } else {
            ("WITHIN DEADLINE", false)
        }
    }

    /// The figures of the displayed summary, as text: the mean, the median, the 90th, 95th and
    /// 99th percentile and the maximum.
    pub fn statistics(&self) -> (texts: Vec<String>)
        ensures
            texts.deep_view() == stat_texts(self@.summary),
            texts@.len() == 6,
            self@.summary matches Some(s) ==> {
                &&& texts@[0]@ == ms_text(s.average@)
                &&& texts@[1]@ == ms_text(crate::double::whole(s.median as nat))
                &&& texts@[2]@ == ms_text(crate::double::whole(s.p90 as nat))
                &&& texts@[3]@ == ms_text(crate::double::whole(s.p95 as nat))
                &&& texts@[4]@ == ms_text(crate::double::whole(s.p99 as nat))
                &&& texts@[5]@ == ms_text(crate::double::whole(s.max as nat))
            },
            self@.summary is None ==> forall|i: int| 0 <= i < 6 ==> (#[trigger] texts@[i])@ == "—"@,
    {
        let texts = stat_cards(self.displayed_summary);
        proof {
            let shown = stat_texts(self@.summary);
            assert(texts.deep_view().len() == texts@.len());
            assert(forall|i: int| 0 <= i < texts@.len() ==> (#[trigger] texts@[i])@ == shown[i]) by {
                assert forall|i: int| 0 <= i < texts@.len() implies (#[trigger] texts@[i])@
                    == shown[i] by {
                    assert(texts.deep_view()[i] == texts@[i]@);
                }
            }
        }
        texts
    }
}

/// A figure of a summary in milliseconds, or a dash without a summary.
pub open spec fn stat_text(ns: Option<Binary>) -> Seq<char> {
    match ns {
        Some(ns) => ms_text(ns),
        None => "—"@,
    }
}

/// The mean, the median, the 90th, 95th and 99th percentile and the maximum.
pub open spec fn stat_texts(summary: Option<Summary>) -> Seq<Seq<char>> {
    match summary {
        Some(s) => seq![
            stat_text(Some(s.average@)),
            stat_text(Some(crate::double::whole(s.median as nat))),
            stat_text(Some(crate::double::whole(s.p90 as nat))),
            stat_text(Some(crate::double::whole(s.p95 as nat))),
            stat_text(Some(crate::double::whole(s.p99 as nat))),
            stat_text(Some(crate::double::whole(s.max as nat))),
        ],
        None => Seq::new(6, |i: int| stat_text(None)),
    }
}

/// The figures of a summary as text.
fn stat_cards(summary: Option<Summary>) -> (texts: Vec<String>)
    ensures
        texts.deep_view() == stat_texts(summary),
{
    let mut texts: Vec<String> = Vec::new();
    match summary {
        Some(s) => {
            texts.push(in_milliseconds(&s.average.number()));
            texts.push(in_milliseconds(&Double::from_u128(s.median as u128)));
            texts.push(in_milliseconds(&Double::from_u128(s.p90 as u128)));
            texts.push(in_milliseconds(&Double::from_u128(s.p95 as u128)));
            texts.push(in_milliseconds(&Double::from_u128(s.p99 as u128)));
            texts.push(in_milliseconds(&Double::from_u128(s.max as u128)));
        },
        None => {
            let mut i: usize = 0;
            while i < 6
                invariant
                    i <= 6,
                    texts@.len() == i,
                    forall|j: int| 0 <= j < i ==> (#[trigger] texts@[j])@ == "—"@,
                decreases 6 - i,
            {
                texts.push("—".to_owned());
                i = i + 1;
            }
        },
    }
    assert(texts.deep_view() =~= stat_texts(summary));
    texts
}

/// Counts the frames that are drawn.
#[derive(Clone, Copy, Debug, PartialEq, Eq, Structural)]
pub struct Presentation {
    last_presented_frame: u64,
    presented_this_second: u64,
    presented_fps: Rate,
    epoch: u64,
}

/// The count of drawn frames as plain values.
pub struct PresentationState {
    pub last_frame: u64,
    pub this_second: nat,
    pub fps: Binary,
    pub epoch: u64,
}

impl View for Presentation {
    type V = PresentationState;

    closed spec fn view(&self) -> PresentationState {
        PresentationState {
            last_frame: self.last_presented_frame,
            this_second: self.presented_this_second as nat,
            fps: self.presented_fps@,
            epoch: self.epoch,
        }
    }
}

impl PresentationState {
    /// The count after drawing, when the workload has finished `total_frames`.
    pub open spec fn after(self, total_frames: u64, rated: u64, restarted: u64) -> PresentationState {
        let shown = if total_frames > self.last_frame {
            PresentationState {
                last_frame: total_frames,
                this_second: self.this_second + 1,
                ..self
            }
        } else {
            self
        };
        let elapsed = monus(rated, self.epoch);
        if elapsed >= NANOS_PER_SEC {
            PresentationState {
                fps: per_second(shown.this_second, elapsed),
                this_second: 0,
                epoch: restarted,
                ..shown
            }
        } else {
            shown
        }
    }

    /// Whether the counters fit together: the frames that were drawn this second are
    /// among those that were finished.
    pub open spec fn consistent(self) -> bool {
        self.this_second <= self.last_frame
    }
}

/// The figures of a summary are shown in the order mean, median, 90th, 95th and 99th
/// percentile and maximum.
pub proof fn statistics_show_each_figure_in_its_place(s: Summary)
    ensures
        ({
            let texts = stat_texts(Some(s));
            &&& texts.len() == 6
            &&& texts[0] == ms_text(s.average@)
            &&& texts[1] == ms_text(crate::double::whole(s.median as nat))
            &&& texts[2] == ms_text(crate::double::whole(s.p90 as nat))
            &&& texts[3] == ms_text(crate::double::whole(s.p95 as nat))
            &&& texts[4] == ms_text(crate::double::whole(s.p99 as nat))
            &&& texts[5] == ms_text(crate::double::whole(s.max as nat))
        }),
{
}

/// Drawing counts once for any number of frames that were finished since it last
/// counted. The rate that is shown is that count over the time since it was last shown,
/// shown anew a second or more after that.
pub proof fn drawing_counts_once_for_new_frames(
    state: PresentationState,
    total_frames: u64,
    rated: u64,
    restarted: u64,
)
    ensures
        ({
            let later = state.after(total_frames, rated, restarted);
            let drawn = state.this_second + if total_frames > state.last_frame {
                1nat
            } else {
                0
            };
            let elapsed = rated - state.epoch;
            &&& later.last_frame >= state.last_frame && later.last_frame >= total_frames
            &&& later.last_frame == state.last_frame || later.last_frame == total_frames
            &&& elapsed >= 1_000_000_000 ==> {
                &&& later.fps == per_second(drawn, elapsed as nat)
                &&& later.this_second == 0
                &&& later.epoch == restarted
            }
            &&& elapsed < 1_000_000_000 ==> {
                &&& later.fps == state.fps
                &&& later.this_second == drawn
                &&& later.epoch == state.epoch
            }
        }),
{
}

impl Presentation {
    #[verifier::type_invariant]
    spec fn well_formed(self) -> bool {
        self@.consistent()
    }

    /// Nothing was drawn yet, at `now`.
    pub fn new(now: u64) -> (p: Presentation)
        ensures
            p@ == (PresentationState { last_frame: 0, this_second: 0, fps: zero(), epoch: now }),
            p@.consistent(),
    {
        Presentation {
            last_presented_frame: 0,
            presented_this_second: 0,
            presented_fps: Rate::none(),
            epoch: now,
        }
    }

    /// Takes note of drawing, when the workload has finished `total_frames` frames.
    pub fn draw(self, total_frames: u64, rated: u64, restarted: u64) -> (later: Presentation)
        ensures
            later@ == self@.after(total_frames, rated, restarted),
            self@.consistent(),
            later@.consistent(),
    {
        proof {
            use_type_invariant(&self);
        }
        let (last_presented_frame, presented_this_second): (u64, u64) = if total_frames
            > self.last_presented_frame {
            (total_frames, self.presented_this_second + 1)
        } else {
            (self.last_presented_frame, self.presented_this_second)
        };
        let elapsed: u64 = rated.saturating_sub(self.epoch);
        if elapsed >= NANOS_PER_SEC {
            Presentation {
                last_presented_frame,
                presented_this_second: 0,
                presented_fps: Rate::of(presented_this_second, &Duration::from_nanos(elapsed)),
                epoch: restarted,
            }
        } else {
            Presentation {
                last_presented_frame,
                presented_this_second,
                presented_fps: self.presented_fps,
                epoch: self.epoch,
            }
        }
    }

    /// The rate at which frames are drawn.
    pub fn presented_fps(&self) -> (rate: Rate)
        ensures
            rate@ == self@.fps,
    {
        self.presented_fps
    }
}

} // verus!
