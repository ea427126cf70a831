use jira_tracker::chars::{chars_eq, str_to_chars, string_from_chars};
use jira_tracker::durtext::{parse_duration, push_duration};
use jira_tracker::instant_codec;
use jira_tracker::key::is_valid_key;
use jira_tracker::wall::{date_string, parse_wall, time_string, WallTime};

fn render_dur(nanos: u64) -> String {
    let mut out: Vec<char> = Vec::new();
    push_duration(&mut out, nanos);
    string_from_chars(&out)
}

fn parse_dur(text: &str) -> Option<u64> {
    parse_duration(&str_to_chars(text)).map(|d| d.nanos)
}

#[test]
fn key_format_policy() {
    assert!(is_valid_key("PROJECT-123"));
    assert!(is_valid_key("a-1"));
    assert!(is_valid_key("a_b-42"));
    assert!(is_valid_key("A9-007"));
    assert!(!is_valid_key("bad key!"));
    assert!(!is_valid_key(""));
    assert!(!is_valid_key("-1"));
    assert!(!is_valid_key("a-"));
    assert!(!is_valid_key("abc"));
    assert!(!is_valid_key("x!!a-1"));
    assert!(!is_valid_key("a-1b"));
    assert!(!is_valid_key("a-1-2"));
}

#[test]
fn duration_text_renders_canonically() {
    assert_eq!(render_dur(0), "0s");
    assert_eq!(render_dur(1), "1ns");
    assert_eq!(render_dur(1_000), "1us");
    assert_eq!(render_dur(1_000_000), "1ms");
    assert_eq!(render_dur(65 * 1_000_000_000), "1m 5s");
    assert_eq!(render_dur(3_600_000_000_000), "1h");
    assert_eq!(
        render_dur(86_400_000_000_000 + 3 * 1_000_000_000),
        "1d 3s"
    );
    assert_eq!(
        render_dur(90 * 60 * 1_000_000_000 + 500_000_000),
        "1h 30m 500ms"
    );
}

#[test]
fn duration_text_reads_any_spelling() {
    assert_eq!(parse_dur("90m"), Some(90 * 60 * 1_000_000_000));
    assert_eq!(parse_dur("1h 30m"), Some(90 * 60 * 1_000_000_000));
    assert_eq!(parse_dur("0s"), Some(0));
    assert_eq!(parse_dur("2d"), Some(2 * 86_400_000_000_000));
    assert_eq!(parse_dur("1s 1ms 1us 1ns"), Some(1_001_001_001));
    assert_eq!(parse_dur("  5s  "), Some(5_000_000_000));
    assert_eq!(parse_dur(""), None);
    assert_eq!(parse_dur("abc"), None);
    assert_eq!(parse_dur("5"), None);
    assert_eq!(parse_dur("5 s"), None);
    assert_eq!(parse_dur("5x"), None);
    assert_eq!(parse_dur("99999999999999999999999999s"), None);
}

#[test]
fn duration_text_round_trips() {
    for nanos in [
        0u64,
        1,
        999,
        1_000_000_000,
        65 * 1_000_000_000,
        86_400_000_000_000 * 3 + 59 * 1_000_000_000 + 123_456_789,
        u64::MAX,
    ] {
        assert_eq!(parse_dur(&render_dur(nanos)), Some(nanos), "for {nanos}");
    }
}

#[test]
fn timestamps_render_and_read_back() {
    let w = WallTime {
        year: 2023,
        month: 11,
        day: 30,
        hour: 8,
        minute: 0,
        second: 59,
        off_neg: true,
        off_hour: 5,
        off_minute: 30,
    };
    let text: Vec<char> = str_to_chars("2023-11-30T08:00:59-05:30");
    assert_eq!(parse_wall(&text), Some(w));
    assert_eq!(date_string(&w), "2023-11-30");
    assert_eq!(time_string(&w), "08:00:59");
}

#[test]
fn timestamps_reject_bad_text() {
    assert_eq!(parse_wall(&str_to_chars("2024-13-02T03:04:05+00:00")), None);
    assert_eq!(parse_wall(&str_to_chars("2024-01-02T03:04:05")), None);
    assert_eq!(parse_wall(&str_to_chars("2024-01-02 03:04:05+00:00")), None);
    assert_eq!(parse_wall(&str_to_chars("0000-01-02T03:04:05+00:00")), None);
    assert_eq!(parse_wall(&str_to_chars("2024-01-02T24:04:05+00:00")), None);
    assert_eq!(parse_wall(&str_to_chars("")), None);
}

#[test]
fn char_helpers_round_trip() {
    let text = "naïve café ☕";
    let v = str_to_chars(text);
    assert_eq!(string_from_chars(&v), text);
    let w = str_to_chars(text);
    assert!(chars_eq(&v, &w));
    let other = str_to_chars("different");
    assert!(!chars_eq(&v, &other));
}

#[test]
fn instant_codec_round_trips_under_one_sample() {
    let mono_start: u64 = 40_000_000_000;
    let mono_now: u64 = 100_000_000_000;
    let wall_now: u64 = 1_700_000_000_000_000_000;
    let wall_start = instant_codec::serialize(mono_start, mono_now, wall_now);
    assert_eq!(wall_start, wall_now - 60_000_000_000);
    let recovered = instant_codec::deserialize(wall_start, mono_now, wall_now);
    assert_eq!(recovered, mono_start);
}

#[test]
fn instant_codec_saturates_on_future_stamps() {
    // a hand-edited wall stamp in the future cannot push the monotonic
    // start past "now"
    let mono_now: u64 = 5;
    let wall_now: u64 = 100;
    let recovered = instant_codec::deserialize(wall_now + 50, mono_now, wall_now);
    assert_eq!(recovered, mono_now);
}
