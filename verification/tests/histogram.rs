use proxy_demo::duration::Duration;
use proxy_demo::histogram::histogram;

fn spans(nanos: &[u64]) -> Vec<Duration> {
    nanos.iter().map(|&ns| Duration::from_nanos(ns)).collect()
}

fn reference_ns(ns: f64) -> String {
    if ns >= 1_000_000_000.0 {
        format!("{:.3} s", ns / 1_000_000_000.0)
    } else if ns >= 1_000_000.0 {
        format!("{:.3} ms", ns / 1_000_000.0)
    } else if ns >= 1_000.0 {
        format!("{:.3} us", ns / 1_000.0)
    } else {
        format!("{ns:.0} ns")
    }
}

fn reference(title: &str, values: &[u64], bucket_count: usize) -> String {
    let max = *values.iter().max().unwrap();
    let width = max.div_ceil(bucket_count as u64).max(1);
    let mut buckets = vec![0_usize; bucket_count];
    for value in values {
        let index = (value / width) as usize;
        buckets[index.min(bucket_count - 1)] += 1;
    }
    let peak = *buckets.iter().max().unwrap();
    let mut text = format!("\n{title}\n");
    for (index, count) in buckets.into_iter().enumerate() {
        let low = index as u64 * width;
        let high = (index as u64 + 1) * width;
        let bar_len = (count * 50).checked_div(peak).unwrap_or(0);
        text.push_str(&format!(
            "  {:>10} - {:>10} | {:<50} {}\n",
            reference_ns(low as f64),
            reference_ns(high as f64),
            "#".repeat(bar_len),
            count
        ));
    }
    text
}

#[test]
fn nothing_is_drawn_without_samples_or_buckets() {
    assert_eq!(histogram("Empty", &[], 20), "");
    assert_eq!(histogram("Empty", &spans(&[1, 2]), 0), "");
}

#[test]
fn histogram_has_a_line_per_bucket() {
    let text = histogram("Latency", &spans(&[1, 2, 3, 4]), 2);
    let full = "#".repeat(50);
    let third = format!("{:<50}", "#".repeat(16));
    assert_eq!(
        text,
        format!("\nLatency\n        0 ns -       2 ns | {third} 1\n        2 ns -       4 ns | {full} 3\n")
    );
}

#[test]
fn histogram_agrees_with_the_standard_formatter() {
    let mut value = 88_172_645_463_325_252_u64;
    for len in 1..60_usize {
        let values: Vec<u64> = (0..len)
            .map(|_| {
                value ^= value << 13;
                value ^= value >> 7;
                value ^= value << 17;
                value >> 20
            })
            .collect();
        for buckets in [1, 2, 7, 20] {
            assert_eq!(histogram("Frames", &spans(&values), buckets), reference("Frames", &values, buckets));
        }
    }
    assert_eq!(histogram("Zeros", &spans(&[0, 0]), 3), reference("Zeros", &[0, 0], 3));
}

#[test]
fn counts_add_up_to_the_samples() {
    let values: Vec<u64> = (0..137).map(|i| i * i * 1_000).collect();
    let text = histogram("Squares", &spans(&values), 20);
    let counted: usize = text
        .lines()
        .skip(2)
        .map(|line| line.rsplit(' ').next().unwrap().parse::<usize>().unwrap())
        .sum();
    assert_eq!(counted, 137);
}

#[test]
fn the_largest_samples_fit_the_last_bucket() {
    let text = histogram("Huge", &spans(&[u64::MAX, 1]), 20);
    assert!(text.lines().last().unwrap().ends_with(" 1"));
    assert_eq!(text.lines().count(), 22);
}
