use proxy_demo::csv::{csv_text, load_comparison};
use proxy_demo::duration::Duration;
use proxy_demo::workload::RunResult;

fn spans(nanos: &[u64]) -> Vec<Duration> {
    nanos.iter().map(|&ns| Duration::from_nanos(ns)).collect()
}

fn run(latencies: &[u64], waits: &[u64]) -> RunResult {
    RunResult {
        cpu: Some(0),
        frame_period: Duration::from_nanos(16_666_666),
        frame_latencies: spans(latencies),
        gate_waits: spans(waits),
        deadline_misses: latencies.iter().filter(|&&ns| ns > 16_666_666).count(),
    }
}

#[test]
fn a_run_is_saved_row_by_row() {
    assert_eq!(
        csv_text(&run(&[16_666_666, 16_666_667], &[7, 0])),
        "frame,latency_ns,gate_wait_ns,missed_deadline\n0,16666666,7,false\n1,16666667,0,true\n"
    );
    assert_eq!(csv_text(&run(&[], &[])), "frame,latency_ns,gate_wait_ns,missed_deadline\n");
}

#[test]
fn frames_without_both_figures_are_left_out() {
    assert_eq!(
        csv_text(&run(&[1, 2, 3], &[4])),
        "frame,latency_ns,gate_wait_ns,missed_deadline\n0,1,4,false\n"
    );
}

#[test]
fn a_saved_run_loads_back() {
    let latencies = [0, 1, 9, 10, 12_345, 16_666_667, 999_999_999_999, u64::MAX];
    let waits = [5; 8];
    let loaded = load_comparison(&csv_text(&run(&latencies, &waits))).unwrap();
    assert_eq!(loaded, spans(&latencies));
}

#[test]
fn line_ends_and_further_columns_do_not_matter() {
    assert_eq!(load_comparison("").unwrap(), []);
    assert_eq!(load_comparison("heading").unwrap(), []);
    assert_eq!(load_comparison("heading\n").unwrap(), []);
    assert_eq!(load_comparison("heading\r\n0,12\r\n1,13\r\n").unwrap(), spans(&[12, 13]));
    assert_eq!(load_comparison("\n0,+12,x,y,z\n1,007").unwrap(), spans(&[12, 7]));
}

#[test]
fn a_row_without_a_latency_is_refused() {
    let error = load_comparison("heading\n0,1\nnonsense\n1,x\n").unwrap_err();
    assert_eq!(error.to_string(), "invalid comparison row: nonsense");
    let error = load_comparison("heading\n\n").unwrap_err();
    assert_eq!(error.to_string(), "invalid comparison row: ");
    let error = load_comparison("heading\nµ·\r\n").unwrap_err();
    assert_eq!(error.to_string(), "invalid comparison row: µ·");
}

#[test]
fn latencies_are_read_like_the_standard_library_reads_them() {
    for field in [
        "", "0", "00", "7", "+7", "+", "-", "-7", "++7", "7+", " 7", "7 ", "x", "12a", "1_000",
        "18446744073709551615", "18446744073709551616", "99999999999999999999", "1844674407370955161x",
        "99999999999999999999x", "+18446744073709551615", "٣", "000000000000000000000000000001",
    ] {
        let loaded = load_comparison(&format!("heading\n0,{field},1"));
        match field.parse::<u64>() {
            Ok(ns) => assert_eq!(loaded.unwrap(), spans(&[ns])),
            Err(error) => assert_eq!(loaded.unwrap_err().to_string(), error.to_string()),
        }
    }
}

#[test]
fn lines_are_those_of_the_standard_library() {
    for text in [
        "a\n0,1\n0,2", "a\r\n0,1\r\n0,2\r", "a\n0,1\r", "a\n0,1\n\r\n", "\r\n0,3\n", "a\r0,4\n0,5",
        "a\n,6\n,7,\n", "a\n0,1\r\r\n",
    ] {
        let expected: Result<Vec<u64>, String> = text
            .lines()
            .skip(1)
            .map(|line| {
                line.split(',')
                    .nth(1)
                    .ok_or_else(|| format!("invalid comparison row: {line}"))?
                    .parse::<u64>()
                    .map_err(|error| error.to_string())
            })
            .collect();
        match (load_comparison(text), expected) {
            (Ok(loaded), Ok(expected)) => assert_eq!(loaded, spans(&expected)),
            (Err(error), Err(expected)) => assert_eq!(error.to_string(), expected),
            (loaded, expected) => panic!("{text:?}: {loaded:?} is not {expected:?}"),
        }
    }
}
