use vct::progress::{
    split_timecode, timecode_fits, timecode_micros, LineOutcome, ProgressParser, ProgressSnapshot,
};

/// The seconds field of a clock in microseconds, read as a float the way
/// the application reads it.
fn seconds_us(text: &str) -> u64 {
    (text.parse::<f64>().unwrap_or(0.0) * 1_000_000.0) as u64
}

/// A clock `HH:MM:SS.ffffff` in microseconds.
fn parse_timecode(s: &str) -> u64 {
    match split_timecode(s) {
        Some(tc) => timecode_micros(&tc, seconds_us(&tc.seconds)),
        None => 0,
    }
}

/// Feeds one line, completing an `out_time` clock where the parser asks.
fn feed(parser: &mut ProgressParser, line: &str) -> Option<ProgressSnapshot> {
    match parser.feed_line(line) {
        LineOutcome::Snapshot(s) => Some(s),
        LineOutcome::Timecode(tc) => {
            let us = seconds_us(&tc.seconds);
            parser.apply_timecode(&tc, us);
            None
        }
        LineOutcome::Absorbed => None,
    }
}

fn parse_block(lines: &[&str]) -> Vec<ProgressSnapshot> {
    let mut parser = ProgressParser::new();
    let mut snapshots = Vec::new();
    for line in lines {
        if let Some(s) = feed(&mut parser, line) {
            snapshots.push(s);
        }
    }
    snapshots
}

fn rate(text: &str) -> f64 {
    text.parse().unwrap_or(0.0)
}

fn processed_time(s: &ProgressSnapshot) -> f64 {
    s.out_time_us as f64 / 1_000_000.0
}

#[test]
fn parse_single_progress_block() {
    let lines = [
        "frame=150",
        "fps=30.0",
        "stream_0_0_q=23.0",
        "bitrate=2000.0kbits/s",
        "total_size=5000000",
        "out_time_us=5000000",
        "out_time_ms=5000000",
        "out_time=00:00:05.000000",
        "dup_frames=0",
        "drop_frames=0",
        "speed=1.0x",
        "progress=continue",
    ];
    let snapshots = parse_block(&lines);
    assert_eq!(snapshots.len(), 1);
    let s = &snapshots[0];
    assert_eq!(s.frame, 150);
    assert!((rate(&s.fps_text) - 30.0).abs() < 1e-6);
    assert!((processed_time(s) - 5.0).abs() < 1e-6);
    assert!((rate(&s.speed_text) - 1.0).abs() < 1e-6);
    assert_eq!(s.total_size, 5_000_000);
    assert!((rate(&s.bitrate_text) - 2000.0).abs() < 1e-6);
    assert!(!s.is_final);
}

#[test]
fn parse_multiple_blocks() {
    let lines = [
        "frame=100", "fps=30.0", "out_time_us=3333333", "speed=1.0x", "progress=continue",
        "frame=200", "fps=31.0", "out_time_us=6666666", "speed=1.1x", "progress=continue",
        "frame=300", "fps=30.5", "out_time_us=10000000", "speed=1.05x", "progress=end",
    ];
    let snapshots = parse_block(&lines);
    assert_eq!(snapshots.len(), 3);
    assert!((processed_time(&snapshots[0]) - 3.333333).abs() < 1e-3);
    assert!((processed_time(&snapshots[1]) - 6.666666).abs() < 1e-3);
    assert!((processed_time(&snapshots[2]) - 10.0).abs() < 1e-6);
    assert!(snapshots[2].is_final);
}

#[test]
fn parse_ignores_unknown_keys() {
    let lines = [
        "frame=10", "fps=30.0", "out_time_us=333333", "speed=0.5x",
        "stream_0_0_q=20.0", "dup_frames=2", "drop_frames=1", "nonsense_field=abc",
        "progress=continue",
    ];
    let snapshots = parse_block(&lines);
    assert_eq!(snapshots.len(), 1);
    assert_eq!(snapshots[0].frame, 10);
}

#[test]
fn parse_empty_and_malformed_lines() {
    let mut parser = ProgressParser::new();
    assert!(feed(&mut parser, "").is_none());
    assert!(feed(&mut parser, "   ").is_none());
    assert!(feed(&mut parser, "no_equals_sign").is_none());
    assert!(feed(&mut parser, "frame=abc").is_none());
    assert!(feed(&mut parser, "progress=continue").is_some());
}

#[test]
fn parse_timecode_various() {
    assert_eq!(parse_timecode("00:00:05.000000"), 5_000_000);
    assert_eq!(parse_timecode("00:01:30.500000"), 90_500_000);
    assert_eq!(parse_timecode("01:00:00.000000"), 3_600_000_000);
    assert_eq!(parse_timecode("3.500000"), 3_500_000);
    assert_eq!(parse_timecode("invalid"), 0);
}

#[test]
fn out_time_us_preferred_over_ms() {
    let mut parser = ProgressParser::new();
    feed(&mut parser, "out_time_us=5000000");
    feed(&mut parser, "out_time_ms=9999999");
    let s = feed(&mut parser, "progress=continue").unwrap();
    assert!((processed_time(&s) - 5.0).abs() < 1e-6);
}

#[test]
fn out_time_ms_fallback() {
    let mut parser = ProgressParser::new();
    feed(&mut parser, "out_time_ms=3000000");
    let s = feed(&mut parser, "progress=continue").unwrap();
    assert!((processed_time(&s) - 3.0).abs() < 1e-6);
}

#[test]
fn out_time_clock_fallback() {
    let mut parser = ProgressParser::new();
    match parser.feed_line("out_time=00:01:02.250000") {
        LineOutcome::Timecode(tc) => {
            assert_eq!(tc.hours, 0);
            assert_eq!(tc.minutes, 1);
            assert_eq!(tc.seconds, "02.250000");
            parser.apply_timecode(&tc, 2_250_000);
        }
        _ => panic!("expected a clock"),
    }
    match parser.feed_line("progress=end") {
        LineOutcome::Snapshot(s) => {
            assert_eq!(s.out_time_us, 62_250_000);
            assert!(s.is_final);
        }
        _ => panic!("expected a snapshot"),
    }
}

#[test]
fn out_time_clock_ignored_once_time_known() {
    let mut parser = ProgressParser::new();
    feed(&mut parser, "out_time_us=1000");
    assert!(matches!(parser.feed_line("out_time=00:00:09.000000"), LineOutcome::Absorbed));
    assert!(matches!(parser.feed_line("out_time_ms=77"), LineOutcome::Absorbed));
    let s = feed(&mut parser, "progress=continue").unwrap();
    assert_eq!(s.out_time_us, 1000);
}

#[test]
fn out_time_us_overrides_earlier_time() {
    let mut parser = ProgressParser::new();
    feed(&mut parser, "out_time_ms=500");
    feed(&mut parser, "out_time_us=700");
    assert_eq!(feed(&mut parser, "progress=continue").unwrap().out_time_us, 700);
}

#[test]
fn clock_with_too_many_fields_reads_as_zero() {
    let mut parser = ProgressParser::new();
    assert!(matches!(parser.feed_line("out_time=1:2:3:4"), LineOutcome::Absorbed));
    assert_eq!(feed(&mut parser, "progress=continue").unwrap().out_time_us, 0);
    assert_eq!(parse_timecode("1:2:3:4"), 0);
}

#[test]
fn clock_fields() {
    let tc = split_timecode("01:02:03.5").unwrap();
    assert_eq!((tc.hours, tc.minutes, tc.seconds.as_str()), (1, 2, "03.5"));
    let tc = split_timecode("7:08").unwrap();
    assert_eq!((tc.hours, tc.minutes, tc.seconds.as_str()), (0, 7, "08"));
    let tc = split_timecode("x:y:z").unwrap();
    assert_eq!((tc.hours, tc.minutes, tc.seconds.as_str()), (0, 0, "z"));
    assert_eq!(parse_timecode("+2:00:00"), 7_200_000_000);
}

#[test]
fn values_are_cleaned_and_trimmed() {
    let mut parser = ProgressParser::new();
    feed(&mut parser, "  speed = 1.5xx ");
    feed(&mut parser, "bitrate=800.5kbits/skbits/s");
    feed(&mut parser, "fps= 24.0");
    feed(&mut parser, "total_size=+42");
    feed(&mut parser, "frame=7");
    feed(&mut parser, "frame=18446744073709551616");
    let s = feed(&mut parser, "  progress= end  ").unwrap();
    assert_eq!(s.speed_text, "1.5");
    assert_eq!(s.bitrate_text, "800.5");
    assert_eq!(s.fps_text, "24.0");
    assert_eq!(s.total_size, 42);
    assert_eq!(s.frame, 7);
    assert!(s.is_final);
}

#[test]
fn snapshot_leaves_fields_in_place() {
    let mut parser = ProgressParser::new();
    feed(&mut parser, "frame=5");
    let first = feed(&mut parser, "progress=continue").unwrap();
    let second = feed(&mut parser, "progress=continue").unwrap();
    assert_eq!(first.frame, 5);
    assert_eq!(second.frame, 5);
    assert!(!second.is_final);
}

#[test]
fn fresh_parser_reports_empty_fields() {
    let mut parser = ProgressParser::new();
    let s = feed(&mut parser, "progress=continue").unwrap();
    assert_eq!(s.frame, 0);
    assert_eq!(s.out_time_us, 0);
    assert_eq!(rate(&s.fps_text), 0.0);
    assert_eq!(rate(&s.speed_text), 0.0);
}

#[test]
fn speed_suffix_order() {
    let mut parser = ProgressParser::new();
    feed(&mut parser, "speed=2.0X");
    assert_eq!(feed(&mut parser, "progress=continue").unwrap().speed_text, "2.0");
    feed(&mut parser, "speed=1.5xX");
    assert_eq!(feed(&mut parser, "progress=continue").unwrap().speed_text, "2.0");
}

#[test]
fn clock_fit_check() {
    let tc = split_timecode("5124095577:00:00").unwrap();
    assert_eq!((tc.hours, tc.minutes, tc.seconds.as_str()), (5124095577, 0, "00"), "parts");
    assert!(!timecode_fits(&tc, 0), "fits");
    let tc = split_timecode("5124095576:00:00").unwrap();
    assert!(timecode_fits(&tc, 0));
    assert!(!timecode_fits(&tc, 109_551_616));
    assert!(timecode_fits(&tc, 109_551_615));
    assert_eq!(timecode_micros(&tc, 0), 5_124_095_576u64 * 3_600_000_000);
}

#[test]
fn printed_integers_read_back() {
    for n in [0u64, 7, 10, 1234567, u64::MAX] {
        let mut parser = ProgressParser::new();
        feed(&mut parser, &format!("frame={}", n));
        feed(&mut parser, &format!("total_size={}", n));
        feed(&mut parser, &format!("out_time_us={}", n));
        let s = feed(&mut parser, "progress=continue").expect("a snapshot");
        assert_eq!(s.frame, n);
        assert_eq!(s.total_size, n);
        assert_eq!(s.out_time_us, n);
        assert!(!s.is_final);
    }
}

#[test]
fn malformed_values_leave_fields_unchanged() {
    let mut parser = ProgressParser::new();
    for line in [
        "frame=5", "total_size=900", "out_time_us=1500", "fps=25", "speed=1.25x",
        "bitrate=640.0kbits/s",
    ] {
        feed(&mut parser, line);
    }
    for line in [
        "frame=abc", "frame=", "frame=-1", "frame=1.5", "total_size=N/A", "out_time_us=",
        "fps=N/A", "fps=", "fps=1.2.3", "speed=N/A", "speed=x", "bitrate=N/A",
        "bitrate=kbits/s",
    ] {
        assert!(feed(&mut parser, line).is_none(), "{}", line);
    }
    let s = feed(&mut parser, "progress=continue").unwrap();
    assert_eq!(s.frame, 5);
    assert_eq!(s.total_size, 900);
    assert_eq!(s.out_time_us, 1500);
    assert_eq!(s.fps_text, "25");
    assert_eq!(s.speed_text, "1.25");
    assert_eq!(s.bitrate_text, "640.0");
}

#[test]
fn malformed_out_time_ms_is_no_fallback() {
    let mut parser = ProgressParser::new();
    feed(&mut parser, "out_time_ms=N/A");
    feed(&mut parser, "out_time_ms=2500");
    assert_eq!(feed(&mut parser, "progress=continue").unwrap().out_time_us, 2500);
}

#[test]
fn rate_texts_in_every_float_form_are_taken() {
    let cases = [
        ("fps=1e3", "1e3"), ("fps=.5", ".5"), ("fps=5.", "5."), ("fps=-0.5", "-0.5"),
        ("fps=+2E-2", "+2E-2"), ("fps=inf", "inf"), ("fps=NaN", "NaN"),
        ("fps=-Infinity", "-Infinity"),
    ];
    for (line, text) in cases {
        let mut parser = ProgressParser::new();
        feed(&mut parser, line);
        let s = feed(&mut parser, "progress=continue").unwrap();
        assert_eq!(s.fps_text, text);
        assert!(text.parse::<f64>().is_ok());
    }
    for bad in ["e5", ".", "1e", "1e+", "in", "infinit", "0x10", "1_000", "+-1"] {
        let mut parser = ProgressParser::new();
        feed(&mut parser, "fps=7");
        feed(&mut parser, &format!("fps={}", bad));
        let s = feed(&mut parser, "progress=continue").unwrap();
        assert_eq!(s.fps_text, "7", "{}", bad);
        assert!(bad.parse::<f64>().is_err(), "{}", bad);
    }
}
