use proxy_demo::duration::Duration;
use proxy_demo::rate;
use proxy_demo::stats::{compact_summary, format_duration, percentile, summary_report, Summary};

fn spans(nanos: &[u64]) -> Vec<Duration> {
    nanos.iter().map(|&ns| Duration::from_nanos(ns)).collect()
}

/// A stream of numbers of all magnitudes.
struct Numbers(u64);

impl Numbers {
    fn next(&mut self) -> u64 {
        self.0 ^= self.0 << 13;
        self.0 ^= self.0 >> 7;
        self.0 ^= self.0 << 17;
        self.0 >> (self.0 % 64)
    }
}

fn reference_ns(ns: f64) -> String {
    if ns >= 1_000_000_000.0 {
        format!("{:.3} s", ns / 1_000_000_000.0)
    } else if ns >= 1_000_000.0 {
        format!("{:.3} ms", ns / 1_000_000.0)
    } else if ns >= 1_000.0 {
        format!("{:.3} us", ns / 1_000.0)
    } else {
        format!("{ns:.0} ns")
    }
}

#[test]
fn nearest_rank_percentiles_select_observed_samples() {
    let values: Vec<u64> = (1..=1000).collect();
    assert_eq!(percentile(&values, 500), 500);
    assert_eq!(percentile(&values, 900), 900);
    assert_eq!(percentile(&values, 950), 950);
    assert_eq!(percentile(&values, 999), 999);
}

#[test]
fn percentiles_agree_with_fractional_quantiles() {
    for len in 1..=3000_u64 {
        let values: Vec<u64> = (1..=len).collect();
        for (per_mille, quantile) in [(500, 0.5), (900, 0.9), (950, 0.95), (990, 0.99), (999, 0.999)] {
            let rank = (quantile * len as f64).ceil() as usize;
            let expected = values[rank.saturating_sub(1).min(values.len() - 1)];
            assert_eq!(percentile(&values, per_mille), expected);
        }
    }
    assert_eq!(percentile(&[3, 5, 9], 0), 3);
    assert_eq!(percentile(&[3, 5, 9], 1000), 9);
    assert_eq!(percentile(&[3, 5, 9], 5000), 9);
    assert_eq!(percentile(&[3, 5, 9], u64::MAX), 9);
}

#[test]
fn summary_handles_one_sample() {
    let summary = Summary::from_samples(&[Duration::from_nanos(42)]).unwrap();
    assert_eq!(summary.min, 42);
    assert_eq!(summary.p999, 42);
    assert_eq!(summary.max, 42);
}

#[test]
fn no_samples_have_no_summary() {
    assert!(Summary::from_samples(&[]).is_none());
    assert_eq!(compact_summary(None), "no data");
}

#[test]
fn summary_sorts_its_samples() {
    let summary = Summary::from_samples(&spans(&[9, 1, 5, 3, 7, 2, 8, 4, 6, 10])).unwrap();
    assert_eq!(summary.min, 1);
    assert_eq!(summary.median, 5);
    assert_eq!(summary.p90, 9);
    assert_eq!(summary.p95, 10);
    assert_eq!(summary.p99, 10);
    assert_eq!(summary.p999, 10);
    assert_eq!(summary.max, 10);
}

#[test]
fn order_of_samples_does_not_matter() {
    let up = Summary::from_samples(&spans(&[1_000, 2_000_000, 3_000_000_000])).unwrap();
    let down = Summary::from_samples(&spans(&[3_000_000_000, 2_000_000, 1_000])).unwrap();
    assert_eq!(compact_summary(Some(up)), compact_summary(Some(down)));
    assert_eq!(up.average, down.average);
}

#[test]
fn samples_beyond_sixty_four_bits_are_cut_off() {
    let summary = Summary::from_samples(&[Duration::from_secs(u64::MAX)]).unwrap();
    assert_eq!(summary.max, u64::MAX);
}

#[test]
fn compact_summary_is_in_milliseconds() {
    let summary = Summary::from_samples(&spans(&[1_000_000, 2_000_000, 6_500_000])).unwrap();
    assert_eq!(
        compact_summary(Some(summary)),
        "mean=3.167 ms p50=2.000 ms p90=6.500 ms p95=6.500 ms p99=6.500 ms max=6.500 ms"
    );
}

#[test]
fn averages_agree_with_hardware_arithmetic() {
    let mut numbers = Numbers(0x9e37_79b9_7f4a_7c15);
    for len in 1..200_usize {
        let values: Vec<u64> = (0..len).map(|_| numbers.next()).collect();
        let total: u128 = values.iter().map(|&value| value as u128).sum();
        let average = total as f64 / len as f64;
        let summary = Summary::from_samples(&spans(&values)).unwrap();
        let line = compact_summary(Some(summary));
        let expected = format!("mean={:.3} ms p50=", average / 1_000_000.0);
        assert!(line.starts_with(&expected), "{line} does not start with {expected}");
        let report = summary_report("Values", &spans(&values));
        let expected = format!("\n  average: {}\n", reference_ns(average));
        assert!(report.contains(&expected), "{report} lacks {expected}");
    }
}

#[test]
fn durations_are_shown_in_a_readable_unit() {
    assert_eq!(format_duration(Duration::from_nanos(0)), "0 ns");
    assert_eq!(format_duration(Duration::from_nanos(999)), "999 ns");
    assert_eq!(format_duration(Duration::from_nanos(1_000)), "1.000 us");
    assert_eq!(format_duration(Duration::from_nanos(16_666_666)), "16.667 ms");
    assert_eq!(format_duration(Duration::from_nanos(999_999_999)), "1000.000 ms");
    assert_eq!(format_duration(Duration::from_nanos(1_000_000_000)), "1.000 s");
    assert_eq!(format_duration(Duration::from_nanos(1_062_500)), "1.062 ms");
    assert_eq!(
        format_duration(Duration::from_secs(u64::MAX)),
        "18446744073709551616.000 s"
    );
}

#[test]
fn durations_are_rounded_like_hardware_arithmetic() {
    let mut numbers = Numbers(1);
    for round in 0..200_000_u64 {
        let ns = if round % 2 == 0 { numbers.next() } else { round * 500 };
        assert_eq!(format_duration(Duration::from_nanos(ns)), reference_ns(ns as f64));
    }
}

#[test]
fn short_spans_are_rounded_like_hardware_arithmetic() {
    let mut numbers = Numbers(2);
    for round in 0..200_000_u64 {
        let ns = if round % 2 == 0 { numbers.next() } else { round * 50 };
        let span = std::time::Duration::from_nanos(ns);
        let expected = if ns >= 1_000_000 {
            format!("{:.2} ms", span.as_secs_f64() * 1_000.0)
        } else {
            format!("{:.1} µs", span.as_secs_f64() * 1_000_000.0)
        };
        assert_eq!(rate::format_duration(Duration::from_nanos(ns)), expected);
    }
    assert_eq!(rate::format_duration(Duration::from_nanos(16_666_666)), "16.67 ms");
    assert_eq!(rate::format_duration(Duration::from_nanos(250)), "0.2 µs");
}

#[test]
fn rates_agree_with_hardware_arithmetic() {
    let mut numbers = Numbers(3);
    for _ in 0..100_000 {
        let count = numbers.next();
        let ns = 1_000_000_000 + numbers.next() / 2;
        let expected = count as f64 / std::time::Duration::from_nanos(ns).as_secs_f64();
        let rate = rate::Rate::of(count, &Duration::from_nanos(ns));
        assert_eq!(rate.fps_text(), format!("{expected:.1} FPS"));
    }
    assert_eq!(rate::Rate::none().fps_text(), "0.0 FPS");
    assert_eq!(rate::Rate::of(60, &Duration::from_nanos(1_000_000_000)).fps_text(), "60.0 FPS");
}

#[test]
fn summary_report_lists_its_figures() {
    assert_eq!(summary_report("Nothing", &[]), "\nNothing\n  no samples\n");
    assert_eq!(
        summary_report("Latency", &spans(&[500, 1_500, 2_500_000])),
        "\nLatency\n  minimum: 500 ns\n  average: 834.000 us\n  median:  1.500 us\n  \
         p95:     2.500 ms\n  p99:     2.500 ms\n  p99.9:   2.500 ms\n  maximum: 2.500 ms\n"
    );
}

#[test]
fn spans_keep_their_nanoseconds() {
    let span = Duration::from_nanos(3_000_000_007);
    assert_eq!(span.as_nanos(), 3_000_000_007);
    assert_eq!(span.as_secs(), 3);
    assert_eq!(span.subsec_nanos(), 7);
    assert_eq!(Duration::from_secs(5), Duration::from_nanos(5_000_000_000));
    assert_eq!(proxy_demo::timing::ns_to_duration(42), Duration::from_nanos(42));
}
