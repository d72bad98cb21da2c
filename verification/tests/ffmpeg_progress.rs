use omni_core::adapters::ffmpeg_progress::{
    fmt_hms, parse_duration, parse_progress_line, parse_time, percent, ProgressEvent,
};

#[test]
fn progress_lines() {
    assert_eq!(parse_progress_line("out_time_us=1234567"), Some(ProgressEvent::Time(1234567)));
    assert_eq!(parse_progress_line("out_time_us=-233"), Some(ProgressEvent::Time(0)));
    assert_eq!(parse_progress_line("progress=end"), Some(ProgressEvent::End));
    assert_eq!(parse_progress_line("progress=continue"), None);
    assert_eq!(parse_progress_line("frame=123"), None);
    assert_eq!(parse_progress_line("speed=2.5x"), None);
    assert_eq!(parse_progress_line("garbage"), None);
}

#[test]
fn times() {
    assert_eq!(parse_time("00:00:10.00"), Some(10_000_000));
    assert_eq!(parse_time("01:02:03.5"), Some(3723_500_000));
    assert_eq!(parse_time("23.189"), Some(23_189_000));
    assert_eq!(parse_time("200ms"), Some(200_000));
    assert_eq!(parse_time("200000us"), Some(200_000));
    assert_eq!(parse_time("N/A"), None);
    assert_eq!(parse_time(""), None);
}

#[test]
fn duration_headers() {
    let stderr = "  Duration: 00:00:10.00, start: 0.000000, bitrate: 1 kb/s\n  Stream #0:0: Video";
    assert_eq!(parse_duration(stderr), Some(10_000_000));
    assert_eq!(parse_duration("no duration here"), None);
    assert_eq!(parse_duration("  Duration: N/A, start: 0"), None);
}

#[test]
fn percents() {
    assert_eq!(percent(5_000_000, 10_000_000), Some(50));
    assert_eq!(percent(0, 10_000_000), Some(0));
    assert_eq!(percent(10_000_000, 10_000_000), Some(100));
    assert_eq!(percent(5, 0), None);
}

#[test]
fn progress_line_keys_and_values_are_trimmed() {
    assert_eq!(parse_progress_line("  out_time_us = 42 "), Some(ProgressEvent::Time(42)));
    assert_eq!(parse_progress_line("progress= end"), Some(ProgressEvent::End));
    assert_eq!(parse_progress_line("out_time_us=abc"), None);
    assert_eq!(parse_progress_line("out_time_us=99999999999999999999"), None);
    assert_eq!(parse_progress_line("out_time_us=+7"), Some(ProgressEvent::Time(7)));
    assert_eq!(parse_progress_line("a=b=c"), None);
}

#[test]
fn times_with_units_and_fields() {
    assert_eq!(parse_time("5s"), Some(5_000_000));
    assert_eq!(parse_time("1.5s"), Some(1_500_000));
    assert_eq!(parse_time("  1:30 "), Some(90_000_000));
    assert_eq!(parse_time("0.0000019"), Some(1));
    assert_eq!(parse_time("1.9us"), Some(1));
    assert_eq!(parse_time("1:2:3:4"), None);
    assert_eq!(parse_time("1:30s"), None);
    assert_eq!(parse_time("abc"), None);
    assert_eq!(parse_time("1.2.3"), None);
    assert_eq!(parse_time("."), None);
    assert_eq!(parse_time("99999999999999999999:00:00"), Some(u64::MAX));
}

#[test]
fn duration_skips_zero_and_takes_first() {
    let stderr = "Duration: 00:00:00.00, x\nDuration: 00:01:00.00, y\nDuration: 00:02:00.00, z";
    assert_eq!(parse_duration(stderr), Some(60_000_000));
    assert_eq!(parse_duration("a\r\n  Duration: 00:00:02.50\r\n"), Some(2_500_000));
}

#[test]
fn percent_is_floored_and_capped() {
    assert_eq!(percent(29, 100), Some(29));
    assert_eq!(percent(1, 3), Some(33));
    assert_eq!(percent(20, 10), Some(100));
    assert_eq!(percent(u64::MAX, 1), Some(100));
}

#[test]
fn hms_formatting() {
    assert_eq!(fmt_hms(0), "00:00:00");
    assert_eq!(fmt_hms(3_723_500_000), "01:02:03");
    assert_eq!(fmt_hms(59_999_999), "00:00:59");
    assert_eq!(fmt_hms(360_000_000_000), "100:00:00");
}

#[test]
fn formatted_time_parses_back_to_the_second() {
    for us in [0u64, 999_999, 3_723_500_000, 86_399_000_001, 360_000_000_000_000] {
        assert_eq!(parse_time(&fmt_hms(us)), Some(us / 1_000_000 * 1_000_000), "{us}");
    }
}
