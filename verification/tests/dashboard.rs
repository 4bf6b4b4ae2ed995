use proxy_demo::cli::Args;
use proxy_demo::dashboard::{
    duration_from_nanos, summary_interval, Dashboard, Presentation, Readings,
};
use proxy_demo::duration::Duration;
use proxy_demo::report::{deadline_line, final_report};
use proxy_demo::stats::Summary;
use proxy_demo::workload::{RunResult, VisualEvent};

const MS: u64 = 1_000_000;

fn at(now: u64) -> Readings {
    Readings {
        taken_up: now,
        noted: now,
        rated: now,
        restarted: now,
    }
}

fn frame(latency: u64, gate_wait: u64, missed_deadline: bool) -> VisualEvent {
    VisualEvent::FrameComplete {
        latency: Duration::from_nanos(latency),
        gate_wait: Duration::from_nanos(gate_wait),
        missed_deadline,
    }
}

fn fresh() -> Dashboard {
    Dashboard::new(Vec::new(), Duration::from_secs(1), 0)
}

#[test]
fn a_new_dashboard_shows_nothing() {
    let dashboard = Dashboard::new(vec![Duration::from_nanos(9)], Duration::from_secs(1), 5);
    assert_eq!(dashboard.total_frames(), 0);
    assert!(dashboard.latencies().is_empty());
    assert_eq!(dashboard.baseline(), [Duration::from_nanos(9)]);
    assert_eq!(dashboard.gate_wait(), Duration::from_nanos(0));
    assert_eq!(dashboard.metrics_interval(), Duration::from_secs(1));
    assert_eq!(dashboard.workload_fps().fps_text(), "0.0 FPS");
    assert_eq!(dashboard.deadline_badge(), ("WITHIN DEADLINE", false));
    assert_eq!(dashboard.statistics(), ["—"; 6]);
    assert!(!dashboard.data_flow_active(5));
    assert!(dashboard.has_room());
}

#[test]
fn a_frame_shows_the_flow_for_a_while() {
    let dashboard = fresh().apply(frame(1, 2, true), at(10));
    assert!(dashboard.data_flow_active(10 + 120 * MS - 1));
    assert!(!dashboard.data_flow_active(10 + 120 * MS));
    assert_eq!(dashboard.deadline_badge(), ("MISSED DEADLINE", true));
    assert_eq!(dashboard.total_frames(), 1);
}

#[test]
fn the_plot_keeps_the_latest_frames() {
    let mut dashboard = fresh();
    for latency in 0..500 {
        dashboard = dashboard.apply(frame(latency, 0, false), at(latency));
    }
    let shown: Vec<u128> = dashboard.latencies().iter().map(|d| d.as_nanos()).collect();
    let expected: Vec<u128> = (320..500).collect();
    assert_eq!(shown, expected);
    assert_eq!(dashboard.total_frames(), 500);
}

#[test]
fn the_baseline_fits_the_plot() {
    let saved: Vec<Duration> = (0..400).map(Duration::from_nanos).collect();
    let dashboard = Dashboard::new(saved.clone(), Duration::from_secs(1), 0);
    assert_eq!(dashboard.baseline(), saved[..180]);
    let dashboard = Dashboard::new(saved[..180].to_vec(), Duration::from_secs(1), 0)
        .apply(frame(1, 1, true), at(5_000 * MS));
    assert_eq!(dashboard.baseline(), saved[..180]);
    assert_eq!(dashboard.metrics_interval(), Duration::from_secs(1));
    assert_eq!(Dashboard::new(Vec::new(), Duration::from_secs(1), 0).baseline(), []);
}

#[test]
fn waits_are_averaged_over_half_a_second() {
    let dashboard = fresh()
        .apply(frame(1, 100, false), at(100 * MS))
        .apply(frame(1, 201, false), at(499 * MS));
    assert_eq!(dashboard.gate_wait(), Duration::from_nanos(0));
    let dashboard = dashboard.apply(frame(1, 302, false), at(500 * MS));
    assert_eq!(dashboard.gate_wait(), Duration::from_nanos(201));
    let dashboard = dashboard.apply(frame(1, 8, false), at(999 * MS));
    assert_eq!(dashboard.gate_wait(), Duration::from_nanos(201));
    let dashboard = dashboard.apply(frame(1, 5, false), at(1_000 * MS));
    assert_eq!(dashboard.gate_wait(), Duration::from_nanos(6));
}

#[test]
fn frames_are_summarised_every_interval() {
    let dashboard = fresh()
        .apply(frame(4 * MS, 0, false), at(100 * MS))
        .apply(frame(2 * MS, 0, false), at(1_000 * MS));
    assert_eq!(
        dashboard.statistics(),
        ["3.000 ms", "2.000 ms", "4.000 ms", "4.000 ms", "4.000 ms", "4.000 ms"]
    );
    let dashboard = dashboard.apply(frame(9 * MS, 0, false), at(1_999 * MS));
    assert_eq!(dashboard.statistics()[5], "4.000 ms");
    let dashboard = dashboard.apply(frame(MS, 0, false), at(5_500 * MS));
    assert_eq!(dashboard.statistics()[0], "5.000 ms");
    let dashboard = dashboard.apply(frame(MS, 0, false), at(5_999 * MS));
    assert_eq!(dashboard.statistics()[0], "5.000 ms");
    let dashboard = dashboard.apply(frame(3 * MS, 0, false), at(6_000 * MS));
    assert_eq!(dashboard.statistics()[0], "2.000 ms");
}

#[test]
fn a_summary_from_the_reporter_is_shown() {
    let summary = Summary::from_samples(&[Duration::from_nanos(7 * MS)]);
    let dashboard = fresh().apply(VisualEvent::IntervalSummary { summary }, at(1));
    assert_eq!(dashboard.statistics(), ["7.000 ms"; 6]);
    let dashboard = dashboard.apply(VisualEvent::WaitingForGate, at(2));
    assert_eq!(dashboard.statistics(), ["7.000 ms"; 6]);
    let dashboard = dashboard.apply(VisualEvent::IntervalSummary { summary: None }, at(3));
    assert_eq!(dashboard.statistics(), ["—"; 6]);
}

#[test]
fn without_an_interval_frames_are_counted_and_not_summarised() {
    let dashboard = Dashboard::new(Vec::new(), Duration::from_secs(0), 0)
        .apply(frame(4 * MS, 0, true), at(5_000 * MS));
    assert_eq!(dashboard.total_frames(), 1);
    assert_eq!(dashboard.latencies().len(), 1);
    assert_eq!(dashboard.deadline_badge(), ("MISSED DEADLINE", true));
    assert_eq!(dashboard.statistics(), ["—"; 6]);
    let summary = Summary::from_samples(&[Duration::from_nanos(7 * MS)]);
    let dashboard = dashboard.apply(VisualEvent::IntervalSummary { summary }, at(5_001 * MS));
    assert_eq!(dashboard.statistics(), ["7.000 ms"; 6]);
}

#[test]
fn the_frame_rate_is_counted_by_the_second() {
    let mut dashboard = fresh();
    for count in 0..30 {
        dashboard = dashboard.apply(frame(1, 1, false), at(count * 30 * MS));
    }
    assert_eq!(dashboard.workload_fps().fps_text(), "0.0 FPS");
    let readings = Readings {
        rated: 1_500 * MS,
        restarted: 1_501 * MS,
        ..at(1_500 * MS)
    };
    let dashboard = dashboard.apply(VisualEvent::WaitingForGate, readings);
    assert_eq!(dashboard.workload_fps().fps_text(), "20.0 FPS");
    let dashboard = dashboard.apply(VisualEvent::WaitingForGate, at(2_500 * MS));
    assert_eq!(dashboard.workload_fps().fps_text(), "20.0 FPS");
    let dashboard = dashboard.apply(VisualEvent::WaitingForGate, at(2_501 * MS));
    assert_eq!(dashboard.workload_fps().fps_text(), "0.0 FPS");
}

#[test]
fn presented_frames_are_counted_once() {
    let presentation = Presentation::new(0)
        .draw(1, 10 * MS, 10 * MS)
        .draw(1, 20 * MS, 20 * MS)
        .draw(3, 30 * MS, 30 * MS);
    assert_eq!(presentation.presented_fps().fps_text(), "0.0 FPS");
    let presentation = presentation.draw(3, 1_000 * MS, 1_000 * MS);
    assert_eq!(presentation.presented_fps().fps_text(), "2.0 FPS");
    let presentation = presentation.draw(4, 2_000 * MS, 2_000 * MS);
    assert_eq!(presentation.presented_fps().fps_text(), "1.0 FPS");
}

#[test]
fn long_waits_are_cut_off() {
    assert_eq!(duration_from_nanos(5), Duration::from_nanos(5));
    assert_eq!(duration_from_nanos(u128::MAX), Duration::from_nanos(u64::MAX));
    assert_eq!(summary_interval(0), Duration::from_secs(1));
    assert_eq!(summary_interval(5), Duration::from_secs(5));
    let long = Dashboard::new(Vec::new(), Duration::from_secs(u64::MAX), u64::MAX);
    assert_eq!(long.apply(frame(1, 1, false), at(u64::MAX)).statistics(), ["—"; 6]);
}

#[test]
fn missed_deadlines_are_counted_in_percent() {
    assert_eq!(deadline_line(0, 0), "\nMissed frame deadlines: 0 / 0 (0.00%)\n");
    assert_eq!(deadline_line(1, 3), "\nMissed frame deadlines: 1 / 3 (33.33%)\n");
    assert_eq!(deadline_line(2, 2), "\nMissed frame deadlines: 2 / 2 (100.00%)\n");
    for frames in 1..2_000_usize {
        let misses = frames * 7 / 11;
        let percent = misses as f64 * 100.0 / frames.max(1) as f64;
        assert_eq!(
            deadline_line(misses, frames),
            format!("\nMissed frame deadlines: {misses} / {frames} ({percent:.2}%)\n")
        );
    }
}

#[test]
fn the_report_has_all_its_parts() {
    let args = Args::from_parts(60, None, false, 100, 4096, 1, None, None);
    let mut result = RunResult {
        cpu: Some(2),
        frame_period: Duration::from_nanos(16_666_666),
        frame_latencies: vec![Duration::from_nanos(1_000), Duration::from_nanos(20 * MS)],
        gate_waits: vec![Duration::from_nanos(10), Duration::from_nanos(20)],
        deadline_misses: 1,
    };
    let report = final_report(&args, &result);
    let start = "\nConfiguration\n  CPU:                 2\n  CPU worker util:     100%\n  frames:              2\n  \
                 frame period:        16.667 ms\n  mutex-owner read:    4096 bytes\n\n\
                 Frame latency (scheduled release to completion)\n  minimum: 1.000 us\n";
    assert!(report.starts_with(start), "{report}");
    assert!(report.contains("\nKernel mutex gate (shared file-position access)\n  minimum: 10 ns\n"));
    assert!(report.contains("\nMissed frame deadlines: 1 / 2 (50.00%)\n\nFrame latency histogram\n"));
    assert_eq!(report.lines().count(), 6 + 9 + 9 + 2 + 22 + 1);
    result.cpu = None;
    assert!(final_report(&args, &result).contains("  CPU:                 not pinned\n"));
}
