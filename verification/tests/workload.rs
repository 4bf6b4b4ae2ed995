use proxy_demo::affinity::{
    away_among, cpu_away_from, first_cpu, select_among, select_cpu, select_from, single_cpu,
    CpuError,
};
use proxy_demo::cli::Args;
use proxy_demo::cpu_worker::{busy_ns, rest_ns, scramble, stays_busy, SEED};
use proxy_demo::csv::{csv_text, load_comparison};
use proxy_demo::duration::Duration;
use proxy_demo::frames::{FrameAction, FrameEvent, FrameLoop};
use proxy_demo::gate::{gate_file_len, gate_file_name, rewind_after};
use proxy_demo::reporter::{Received, Reporter, ReporterAction};
use proxy_demo::timing::{
    now_ns, reading_ns, sleep_again, sleep_target, timestamp_ns, ClockError, SleepOutcome,
};
use proxy_demo::workload::{frame_period_ns, pinned_to, workload_cpu, RunPlan};

fn parse(words: &[&str]) -> Args {
    Args::try_parse_from(words.iter().map(|word| word.to_string()).collect()).unwrap()
}

fn frame(frames: FrameLoop, entered: u64, completed: u64) -> (FrameLoop, u64, FrameAction) {
    let (frames, action) = frames.step(FrameEvent::StopLookedUp { stop: false });
    let release = match action {
        FrameAction::SleepUntil { release } => release,
        other => panic!("{other:?}"),
    };
    let (frames, action) = frames.step(FrameEvent::Awake);
    assert_eq!(action, FrameAction::LookUpStop);
    let (frames, action) = frames.step(FrameEvent::StopLookedUp { stop: false });
    assert_eq!(action, FrameAction::PassGate);
    let (frames, action) = frames.step(FrameEvent::GatePassed { entered, completed });
    (frames, release, action)
}

#[test]
fn frames_are_measured_from_their_release() {
    let frames = FrameLoop::new(1_000, 100);
    let (frames, release, action) = frame(frames, 1_105, 1_130);
    assert_eq!(release, 1_100);
    assert_eq!(
        action,
        FrameAction::Publish {
            latency: Duration::from_nanos(30),
            gate_wait: Duration::from_nanos(25),
            missed_deadline: false,
        }
    );
    let (frames, release, action) = frame(frames, 1_250, 1_301);
    assert_eq!(release, 1_200);
    assert_eq!(
        action,
        FrameAction::Publish {
            latency: Duration::from_nanos(101),
            gate_wait: Duration::from_nanos(51),
            missed_deadline: true,
        }
    );
    let result = frames.into_result(Some(3));
    assert_eq!(result.cpu, Some(3));
    assert_eq!(result.frame_period, Duration::from_nanos(100));
    assert_eq!(result.deadline_misses, 1);
    assert_eq!(result.frame_latencies, [Duration::from_nanos(30), Duration::from_nanos(101)]);
    assert_eq!(result.gate_waits, [Duration::from_nanos(25), Duration::from_nanos(51)]);
    assert_eq!(load_comparison(&csv_text(&result)).unwrap(), result.frame_latencies);
}

#[test]
fn a_frame_that_takes_the_period_is_in_time() {
    let (_, _, action) = frame(FrameLoop::new(0, 100), 100, 200);
    assert!(matches!(action, FrameAction::Publish { missed_deadline: false, .. }));
}

#[test]
fn a_late_frame_does_not_shift_the_next_release() {
    let mut frames = FrameLoop::new(0, 10);
    for count in 1..=50_u64 {
        let (next, release, _) = frame(frames, count * 1_000, count * 1_000 + 1);
        assert_eq!(release, count * 10);
        frames = next;
    }
}

#[test]
fn releases_and_latencies_stay_in_range() {
    let (frames, release, action) = frame(FrameLoop::new(u64::MAX - 5, 10), 1, 2);
    assert_eq!(release, u64::MAX);
    assert_eq!(
        action,
        FrameAction::Publish {
            latency: Duration::from_nanos(0),
            gate_wait: Duration::from_nanos(1),
            missed_deadline: false,
        }
    );
    let (_, release, _) = frame(frames, 5, 4);
    assert_eq!(release, u64::MAX);
}

#[test]
fn a_stop_ends_the_loop_before_and_after_the_sleep() {
    let (_, action) = FrameLoop::new(0, 10).step(FrameEvent::StopLookedUp { stop: true });
    assert_eq!(action, FrameAction::End);
    let (frames, _) = FrameLoop::new(0, 10).step(FrameEvent::StopLookedUp { stop: false });
    let (frames, _) = frames.step(FrameEvent::Awake);
    let (frames, action) = frames.step(FrameEvent::StopLookedUp { stop: true });
    assert_eq!(action, FrameAction::End);
    assert!(frames.into_result(None).frame_latencies.is_empty());
}

#[test]
fn the_loop_waits_for_one_kind_of_event_at_a_time() {
    let looked_up = FrameEvent::StopLookedUp { stop: false };
    let passed = FrameEvent::GatePassed { entered: 0, completed: 0 };
    let waits = |frames: &FrameLoop| {
        (
            frames.awaits(looked_up),
            frames.awaits(FrameEvent::Awake),
            frames.awaits(passed),
        )
    };
    let frames = FrameLoop::new(0, 10);
    assert_eq!(waits(&frames), (true, false, false));
    let (frames, _) = frames.step(looked_up);
    assert_eq!(waits(&frames), (false, true, false));
    let (frames, _) = frames.step(FrameEvent::Awake);
    assert_eq!(waits(&frames), (true, false, false));
    let (frames, _) = frames.step(looked_up);
    assert_eq!(waits(&frames), (false, false, true));
    let (frames, _) = frames.step(passed);
    assert_eq!(waits(&frames), (true, false, false));
    let (frames, _) = frames.step(FrameEvent::StopLookedUp { stop: true });
    assert_eq!(waits(&frames), (false, false, false));
}

#[test]
fn reports_come_at_whole_intervals() {
    let reporter = Reporter::new(Duration::from_nanos(100), Some(1_000));
    let (reporter, action) = reporter.poll(Some(1_040));
    assert!(matches!(action, ReporterAction::Wait { timeout_ns: 60 }));
    let (reporter, go_on) = reporter.receive(Received::Sample { latency: Duration::from_nanos(7) });
    assert!(go_on);
    let (reporter, go_on) = reporter.receive(Received::Timeout);
    assert!(go_on);
    let (reporter, action) = reporter.poll(Some(1_350));
    match action {
        ReporterAction::Report { summary } => assert_eq!(summary.unwrap().max, 7),
        other => panic!("{other:?}"),
    }
    let (reporter, action) = reporter.poll(Some(1_350));
    assert!(matches!(action, ReporterAction::Wait { timeout_ns: 50 }));
    let (reporter, action) = reporter.poll(Some(1_400));
    assert!(matches!(action, ReporterAction::Report { summary: None }));
    let (reporter, action) = reporter.poll(None);
    assert!(matches!(action, ReporterAction::Report { summary: None }));
    let (_, go_on) = reporter.receive(Received::Disconnected);
    assert!(!go_on);
}

#[test]
fn a_reporter_without_a_clock_begins_at_zero() {
    let (_, action) = Reporter::new(Duration::from_secs(2), None).poll(Some(0));
    assert!(matches!(action, ReporterAction::Wait { timeout_ns: 2_000_000_000 }));
}

#[test]
fn the_worker_is_busy_for_its_share() {
    for utilization in 0..=255_u8 {
        let period = std::time::Duration::from_millis(10);
        let expected = period.mul_f64(f64::from(utilization) / 100.0);
        assert_eq!(u128::from(busy_ns(utilization)), expected.as_nanos());
    }
    assert!(stays_busy(50, 4_999_999, false));
    assert!(!stays_busy(50, 5_000_000, false));
    assert!(!stays_busy(50, 0, true));
    assert!(!stays_busy(0, 0, false));
    assert_eq!(rest_ns(50, 5_000_000), Some(5_000_000));
    assert_eq!(rest_ns(50, 12_000_000), Some(0));
    assert_eq!(rest_ns(100, 0), None);
    assert_eq!(rest_ns(0, 0), Some(10_000_000));
}

#[test]
fn scrambling_is_a_batch_of_shifts() {
    let mut value = SEED;
    for _ in 0..256 {
        value ^= value << 13;
        value ^= value >> 7;
        value ^= value << 17;
    }
    assert_eq!(scramble(SEED), value);
    assert_eq!(scramble(0), 0);
}

#[test]
fn the_gate_file_has_room_for_many_reads() {
    let gib = 1024 * 1024 * 1024_u64;
    assert_eq!(gate_file_len(1), 64 * gib);
    assert_eq!(gate_file_len(64 * 1024 * 1024), 64 * gib);
    assert_eq!(gate_file_len(65 * 1024 * 1024), 65 * gib);
    assert_eq!(gate_file_len(usize::MAX), u64::MAX);
    assert_eq!(gate_file_name(42, 1_234), "proxy-demo-42-1234.sparse");
    assert!(rewind_after(0));
    assert!(!rewind_after(1));
}

#[test]
fn plans_follow_the_settings() {
    let args = parse(&["proxy-demo", "--cpu-util", "30", "--lock-bytes", "512"]);
    let plan = RunPlan::new(&args, Some(1));
    assert_eq!(plan.cpu, Some(1));
    assert_eq!(plan.period_ns, 16_666_666);
    assert_eq!(plan.report_interval, Some(1));
    assert_eq!(plan.lock_bytes, 512);
    assert_eq!(plan.cpu_util, 30);
    let quiet = parse(&["proxy-demo", "--stats-interval", "0"]);
    assert_eq!(RunPlan::new(&quiet, None).report_interval, None);
    assert_eq!(frame_period_ns(1_000_000_000), 1);
    assert_eq!(frame_period_ns(144), 6_944_444);
}

#[test]
fn an_unpinned_run_has_no_cpu() {
    let args = parse(&["proxy-demo", "--no-pin"]);
    assert!(matches!(workload_cpu(&args), Ok(None)));
    let pinned = parse(&["proxy-demo"]);
    assert!(matches!(workload_cpu(&pinned), Ok(Some(_))));
}

#[test]
fn the_requested_cpu_must_be_allowed() {
    let allowed = single_cpu(5).unwrap();
    assert!(matches!(select_from(&allowed, None), Ok(5)));
    assert!(matches!(select_from(&allowed, Some(5)), Ok(5)));
    let error = select_from(&allowed, Some(4)).unwrap_err();
    assert_eq!(
        error.message().as_deref(),
        Some("CPU 4 is outside this process's allowed affinity mask")
    );
    assert!(matches!(select_from(&allowed, Some(1 << 40)), Err(CpuError::Outside(_))));
    let none = nix::sched::CpuSet::new();
    let error = select_from(&none, None).unwrap_err();
    assert_eq!(error.message().as_deref(), Some("the process has no allowed CPUs"));
}

#[test]
fn a_mask_that_cannot_be_read_is_the_system_s_error() {
    assert!(matches!(select_among(single_cpu(5), None), Ok(5)));
    assert!(matches!(select_among(single_cpu(5), Some(4)), Err(CpuError::Outside(4))));
    let none = nix::sched::CpuSet::new();
    assert!(matches!(select_among(Ok(none), None), Err(CpuError::NoneAllowed)));
    let refused = nix::errno::Errno::EPERM;
    for requested in [None, Some(4), Some(usize::MAX)] {
        let error = select_among(Err(refused), requested).unwrap_err();
        assert!(matches!(error, CpuError::Os(errno) if errno == refused));
        assert_eq!(error.message(), None);
    }
    assert!(matches!(pinned_to(Ok(5)), Ok(Some(5))));
    assert!(matches!(pinned_to(Err(CpuError::Outside(4))), Err(CpuError::Outside(4))));
}

#[test]
fn the_first_cpu_is_the_lowest_but_one() {
    let mut allowed = nix::sched::CpuSet::new();
    for cpu in [3, 8, 1023] {
        allowed.set(cpu).unwrap();
    }
    assert_eq!(first_cpu(&allowed, None), Some(3));
    assert_eq!(first_cpu(&allowed, Some(3)), Some(8));
    assert_eq!(first_cpu(&allowed, Some(8)), Some(3));
    assert_eq!(first_cpu(&single_cpu(1023).unwrap(), None), Some(1023));
    assert_eq!(first_cpu(&single_cpu(1023).unwrap(), Some(1023)), None);
}

#[test]
fn drawing_stays_away_from_the_workload() {
    let mut allowed = nix::sched::CpuSet::new();
    for cpu in [2, 6] {
        allowed.set(cpu).unwrap();
    }
    assert_eq!(away_among(Ok(allowed), 2), Ok(Some(6)));
    assert_eq!(away_among(Ok(allowed), 6), Ok(Some(2)));
    assert_eq!(away_among(Ok(allowed), 0), Ok(Some(2)));
    assert_eq!(away_among(single_cpu(2), 2), Ok(None));
    let refused = nix::errno::Errno::EPERM;
    assert_eq!(away_among(Err(refused), 2), Err(refused));
}

#[test]
fn a_cpu_set_has_room_for_its_slots() {
    assert_eq!(nix::sched::CpuSet::count(), 1024);
    let mut expected = nix::sched::CpuSet::new();
    expected.set(7).unwrap();
    assert_eq!(single_cpu(7).unwrap(), expected);
    assert!(single_cpu(1024).is_err());
}

#[test]
fn this_thread_may_run_somewhere() {
    let cpu = select_cpu(None).unwrap();
    let mask = nix::sched::sched_getaffinity(nix::unistd::Pid::from_raw(0)).unwrap();
    assert!(mask.is_set(cpu).unwrap());
    assert_eq!(select_cpu(Some(cpu)).unwrap(), cpu);
    assert!(select_cpu(Some(usize::MAX)).is_err());
    assert_ne!(cpu_away_from(cpu).unwrap(), Some(cpu));
}

#[test]
fn the_clock_goes_forward() {
    let before = now_ns().unwrap();
    let after = now_ns().unwrap();
    assert!(before <= after);
    assert!(before > 0);
}

#[test]
fn readings_become_nanoseconds() {
    assert_eq!(timestamp_ns(3, 7), Some(3_000_000_007));
    assert_eq!(timestamp_ns(-1, 0), None);
    assert_eq!(timestamp_ns(0, -1), None);
    assert_eq!(timestamp_ns(18_446_744_073, 709_551_615), Some(u64::MAX));
    assert_eq!(timestamp_ns(18_446_744_073, 709_551_616), None);
    assert_eq!(sleep_target(3_000_000_007), (3, 7));
    assert_eq!(sleep_target(u64::MAX), (18_446_744_073, 709_551_615));
    assert!(sleep_again(SleepOutcome::Interrupted));
    assert!(!sleep_again(SleepOutcome::Reached));
    assert!(!sleep_again(SleepOutcome::Failed));
}

#[test]
fn readings_of_the_clock_are_checked() {
    assert_eq!(reading_ns(Ok((3, 7))).unwrap(), 3_000_000_007);
    assert!(matches!(reading_ns(Ok((-1, 0))), Err(ClockError::OutOfRange)));
    assert!(matches!(reading_ns(Ok((i64::MAX, 0))), Err(ClockError::OutOfRange)));
    let refused = nix::errno::Errno::EINVAL;
    assert!(matches!(reading_ns(Err(refused)), Err(ClockError::Os(error)) if error == refused));
}

#[test]
fn latency_is_the_delay_and_the_wait() {
    let (_, release, action) = frame(FrameLoop::new(0, 1_000), 1_250, 1_900);
    match action {
        FrameAction::Publish { latency, gate_wait, .. } => {
            assert_eq!(latency.as_nanos(), u128::from(1_250 - release) + gate_wait.as_nanos());
        }
        other => panic!("{other:?}"),
    }
}

#[test]
fn saved_misses_add_up() {
    let mut frames = FrameLoop::new(0, 10);
    for count in 1..=9_u64 {
        let (next, release, _) = frame(frames, 0, count * 10 + count * 2);
        assert_eq!(release, count * 10);
        frames = next;
    }
    let result = frames.into_result(None);
    assert_eq!(result.deadline_misses, 4);
    assert_eq!(csv_text(&result).matches(",true\n").count(), 4);
}
