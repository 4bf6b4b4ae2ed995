use proxy_demo::cli::{Args, ArgsError};
use proxy_demo::options::UsageError;

fn parse(words: &[&str]) -> Result<Args, UsageError> {
    Args::try_parse_from(words.iter().map(|word| word.to_string()).collect())
}

#[test]
fn cpu_util_defaults_to_one_hundred_percent() {
    let args = parse(&["proxy-demo"]).unwrap();

    assert_eq!(args.cpu_util, 100);
    assert!(!args.no_pin);
    assert!(args.validate().is_ok());
}

#[test]
fn no_pin_conflicts_with_cpu() {
    let result = parse(&["proxy-demo", "--no-pin", "--cpu", "1"]);

    assert!(result.is_err());
}

#[test]
fn cpu_util_accepts_zero_percent() {
    let args = parse(&["proxy-demo", "--cpu-util", "0"]).unwrap();

    assert!(args.validate().is_ok());
}

#[test]
fn cpu_util_rejects_values_above_one_hundred_percent() {
    let args = parse(&["proxy-demo", "--cpu-util", "101"]).unwrap();

    assert_eq!(
        args.validate().unwrap_err().to_string(),
        "--cpu-util must be between 0 and 100"
    );
}

#[test]
fn stats_interval_defaults_to_one_and_accepts_zero() {
    let default_args = parse(&["proxy-demo"]).unwrap();
    let disabled_args = parse(&["proxy-demo", "--stats-interval", "0"]).unwrap();

    assert_eq!(default_args.stats_interval, 1);
    assert_eq!(disabled_args.stats_interval, 0);
    assert!(disabled_args.validate().is_ok());
}

#[test]
fn bare_program_name_leaves_every_default() {
    let args = parse(&["proxy-demo"]).unwrap();

    assert_eq!(args.fps, 60);
    assert_eq!(args.cpu, None);
    assert!(!args.no_pin);
    assert_eq!(args.cpu_util, 100);
    assert_eq!(args.lock_bytes, 64 * 1024 * 1024);
    assert_eq!(args.stats_interval, 1);
    assert_eq!(args.output, None);
    assert_eq!(args.compare, None);
    assert_eq!(parse(&[]).unwrap().fps, 60);
}

#[test]
fn every_option_can_be_given() {
    let args = parse(&[
        "proxy-demo",
        "--fps",
        "144",
        "--cpu=2",
        "--cpu-util",
        "50",
        "--lock-bytes",
        "4096",
        "--stats-interval",
        "5",
        "--output",
        "candidate.csv",
        "--compare",
        "baseline.csv",
    ])
    .unwrap();

    assert_eq!(args.fps, 144);
    assert_eq!(args.cpu, Some(2));
    assert_eq!(args.cpu_util, 50);
    assert_eq!(args.lock_bytes, 4096);
    assert_eq!(args.stats_interval, 5);
    assert_eq!(args.output.as_deref(), Some("candidate.csv"));
    assert_eq!(args.compare.as_deref(), Some("baseline.csv"));
    assert!(parse(&["proxy-demo", "--no-pin", "--cpu-util", "100"]).unwrap().no_pin);
}

#[test]
fn words_that_are_no_options_are_refused() {
    for words in [
        ["proxy-demo", "--fps", "fast"],
        ["proxy-demo", "--fps", "4294967296"],
        ["proxy-demo", "--cpu-util", "256"],
        ["proxy-demo", "--cpu-util", "-1"],
        ["proxy-demo", "--output", ""],
        ["proxy-demo", "--speed", "1"],
        ["proxy-demo", "--no-pin", "--no-pin"],
    ] {
        assert_eq!(parse(&words).unwrap_err().exit_code, 2);
    }
    assert_eq!(parse(&["proxy-demo", "--fps", "4294967295"]).unwrap().fps, u32::MAX);
    assert_eq!(parse(&["proxy-demo", "--cpu-util", "255"]).unwrap().cpu_util, 255);
}

#[test]
fn help_and_version_are_texts_that_were_asked_for() {
    let help = parse(&["proxy-demo", "--help"]).unwrap_err();
    assert_eq!(help.exit_code, 0);
    for name in [
        "--fps <FPS>",
        "--cpu <CPU>",
        "--no-pin",
        "--cpu-util <PERCENT>",
        "--lock-bytes <LOCK_BYTES>",
        "--stats-interval <SECONDS>",
        "--output <PATH>",
        "--compare <PATH>",
        "[default: 67108864]",
    ] {
        assert!(help.text.contains(name), "{name} is not in the help");
    }
    let version = parse(&["proxy-demo", "--version"]).unwrap_err();
    assert_eq!(version.exit_code, 0);
    assert_eq!(version.text.trim(), "proxy-demo 0.1.0");
}

#[test]
fn validate_names_the_first_setting_out_of_range() {
    let mut args = parse(&["proxy-demo"]).unwrap();
    args.lock_bytes = 0;
    assert_eq!(
        args.validate().unwrap_err().to_string(),
        "--lock-bytes must be greater than zero"
    );
    args.cpu_util = 101;
    assert_eq!(
        args.validate().unwrap_err().to_string(),
        "--cpu-util must be between 0 and 100"
    );
    args.fps = 0;
    assert_eq!(
        args.validate().unwrap_err().to_string(),
        "--fps must be between 1 and 1000000000"
    );
    args.fps = 1_000_000_001;
    assert_eq!(args.validate(), Err(ArgsError::Fps));
    args.fps = 1_000_000_000;
    assert_eq!(args.validate(), Err(ArgsError::CpuUtil));
}

#[test]
fn parts_become_settings() {
    let args = Args::from_parts(30, Some(7), false, 25, 512, 0, None, Some("old.csv".to_string()));
    assert_eq!(args.fps, 30);
    assert_eq!(args.cpu, Some(7));
    assert_eq!(args.cpu_util, 25);
    assert_eq!(args.lock_bytes, 512);
    assert_eq!(args.stats_interval, 0);
    assert_eq!(args.output, None);
    assert_eq!(args.compare.as_deref(), Some("old.csv"));
}

#[test]
fn small_numbers_are_read_with_a_sign() {
    assert_eq!(parse(&["proxy-demo", "--cpu-util=-0"]).unwrap().cpu_util, 0);
    assert_eq!(parse(&["proxy-demo", "--fps=-0"]).unwrap().fps, 0);
    assert_eq!(parse(&["proxy-demo", "--fps", "+30"]).unwrap().fps, 30);
    for word in ["--cpu-util=-1", "--fps=-1", "--lock-bytes=-0", "--stats-interval=-0", "--cpu=-0"] {
        assert_eq!(parse(&["proxy-demo", word]).unwrap_err().exit_code, 2);
    }
    let refused = parse(&["proxy-demo", "--cpu-util", "256"]).unwrap_err();
    assert!(refused.text.contains("256 is not in 0..=255"), "{}", refused.text);
}

#[test]
fn a_refusal_says_what_is_wrong() {
    let refused = parse(&["proxy-demo", "--no-pin", "--cpu", "1"]).unwrap_err();
    assert_eq!(refused.exit_code, 2);
    assert!(
        refused.text.starts_with("error: the argument '--no-pin' cannot be used with '--cpu <CPU>'"),
        "{}",
        refused.text
    );
    let again = parse(&["proxy-demo", "--no-pin", "--cpu", "1"]).unwrap_err();
    assert_eq!(again.text, refused.text);
    let short = parse(&["proxy-demo", "-h"]).unwrap_err();
    assert_eq!(short.exit_code, 0);
    for text in [
        "Exercise a kernel mutex dependency under competing CPU load",
        "Target frame rate",
        "Overlay latencies from a CSV created by --output",
    ] {
        assert!(short.text.contains(text), "{text} is not in the help");
    }
}
